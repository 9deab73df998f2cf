use layer_ui::print_proof::{
    proof_intents, PrintProofControl, PrintProofSettings, ProofOptions, ProofSetupError,
    ProofSimulation, ProofView, RenderingIntent,
};

#[test]
fn print_options_round_trip_and_absolute_intent_disables_bpc() {
    let mut settings = PrintProofSettings { profile: Some("sRGB"), ..Default::default() };
    for intent in proof_intents() {
        settings.intent = intent.value;
        for simulation in ProofSimulation::choices() {
            settings.simulation = simulation.value;
            let recipe = settings.recipe_options().unwrap();
            assert_eq!(
                ProofSimulation::from_recipe_flags(recipe.simulate_paper, recipe.simulate_black_ink),
                simulation.value
            );
            assert_eq!(recipe.black_point_compensation, settings.bpc_available());
        }
    }
}

#[test]
fn proof_settings_defaults_and_missing_profile() {
    let settings: PrintProofSettings<&str> = Default::default();
    assert_eq!(settings.intent, RenderingIntent::RelativeColorimetric);
    assert!(settings.bpc);
    assert_eq!(settings.simulation, ProofSimulation::BlackInk);
    assert_eq!(settings.recipe_options(), Err(ProofSetupError::NoProfile));
    assert_eq!(ProofSetupError::NoProfile.message(), "Choose a print profile");
    let absolute = PrintProofSettings {
        profile: Some(1u8),
        intent: RenderingIntent::AbsoluteColorimetric,
        bpc: true,
        simulation: ProofSimulation::Colors,
    };
    assert!(!absolute.bpc_available());
    assert_eq!(
        absolute.recipe_options(),
        Ok(ProofOptions {
            intent: RenderingIntent::AbsoluteColorimetric,
            black_point_compensation: false,
            simulate_paper: false,
            simulate_black_ink: false,
        })
    );
    let paper = PrintProofSettings { simulation: ProofSimulation::PaperAndInk, bpc: false, ..absolute };
    let o = paper.recipe_options().unwrap();
    assert!(o.simulate_paper && o.simulate_black_ink && !o.black_point_compensation);
}

#[test]
fn proof_controls_and_choices_are_labelled() {
    let labels: Vec<&str> = PrintProofControl::ALL.iter().map(|c| c.label()).collect();
    assert_eq!(labels, vec!["Profile", "Simulate", "Intent", "Black point compensation", "Gamut warning"]);
    let intents: Vec<&str> = proof_intents().iter().map(|c| c.label).collect();
    assert_eq!(intents, vec!["Relative", "Perceptual", "Saturation", "Absolute"]);
    let sims: Vec<&str> = ProofSimulation::choices().iter().map(|c| c.label).collect();
    assert_eq!(sims, vec!["Colors", "Black ink", "Paper & ink"]);
    assert_eq!(ProofSimulation::default(), ProofSimulation::BlackInk);
    assert_eq!(ProofSimulation::from_recipe_flags(false, false), ProofSimulation::Colors);
    assert_eq!(ProofSimulation::from_recipe_flags(true, false), ProofSimulation::PaperAndInk);
}

#[test]
fn proof_view_status_lines() {
    let mut view: ProofView<u32, Vec<u8>> = ProofView::new();
    let hidden = view.status(false, false, Some("Press"), false, 0);
    assert_eq!(hidden.text, "");
    assert!(!hidden.needed);
    view.adopt_key(1, true, false);
    let s = view.status(true, false, Some("Press"), false, 0);
    assert_eq!((s.generation, s.needed, s.text.as_str()), (1, true, "Preparing proof\u{2026}"));
    assert!(!view.status(true, false, Some("Press"), true, 0).needed, "suspended rendering prepares nothing");
    assert!(!view.status(true, true, None, false, 0).needed, "no recipe, no proof");
    view.retain(vec![0; 8]);
    let s = view.status(true, true, Some("Press"), false, 8);
    assert_eq!((s.needed, s.text.as_str(), s.bytes), (false, "Proof: Press \u{b7} Gamut warning", 8));
    assert_eq!(view.status(true, false, Some("Press"), false, 8).text, "Proof: Press");
    assert_eq!(view.status(false, true, Some("Press"), false, 8).text, "Gamut: Press");
    view.fail("No memory".to_string(), true);
    let s = view.status(true, false, Some("Press"), false, 8);
    assert_eq!((s.text.as_str(), s.error.as_deref(), s.bytes, s.needed), ("Proof unavailable", Some("No memory"), 0, false));
    // A new key forgets the error and starts a new generation.
    view.adopt_key(2, true, true);
    let s = view.status(true, false, Some("Press"), false, 0);
    assert_eq!((s.generation, s.error, s.needed), (2, None, true));
    view.adopt_key(2, false, true);
    assert_eq!(view.status(true, false, Some("Press"), false, 0).generation, 2);
    assert_eq!(view.observed_key(), Some(&2));
}

#[test]
fn proof_generations_wrap() {
    let mut view: ProofView<u32, ()> = ProofView::new();
    view.retain(());
    view.adopt_key(1, true, false);
    assert!(view.prepared().is_some(), "a proof for the same recipe survives a key change");
    view.adopt_key(2, true, true);
    assert!(view.prepared().is_none());
    view.fail("late".to_string(), false);
    assert_eq!(view.status(true, false, Some("P"), false, 0).error, None);
}
