use layer_ui::panel::Panel;
use layer_ui::registry::{validate_registry, PanelEntry, RegistryError};

fn entry(panel: Panel, title: &str) -> PanelEntry {
    PanelEntry { panel, title: title.to_string() }
}

fn shipped() -> Vec<PanelEntry> {
    vec![
        entry(Panel::Toolbar, "Tools"),
        entry(Panel::Commands, "Commands"),
        entry(Panel::Brushes, "Tool Set"),
        entry(Panel::ToolSettings, "Tool"),
        entry(Panel::Color, "Color"),
        entry(Panel::Sizes, "Brush size"),
        entry(Panel::Layers, "Layers"),
        entry(Panel::Adjustments, "Adjustments"),
        entry(Panel::Properties, "Properties"),
        entry(Panel::Stats, "Stats"),
        entry(Panel::Navigator, "Navigator"),
    ]
}

#[test]
fn a_complete_registry_with_distinct_titles_passes() {
    let mut entries = shipped();
    entries.push(entry(Panel::CustomToolbar(40), "Favourites"));
    assert_eq!(validate_registry(&entries, &[1, 2, 3], &[Panel::Layers, Panel::CustomToolbar(40)]), Ok(()));
}

#[test]
fn titles_must_differ_beyond_case() {
    let mut entries = shipped();
    entries.push(entry(Panel::CustomToolbar(40), "LAYERS"));
    assert_eq!(validate_registry(&entries, &[1, 2, 3], &[]), Err(RegistryError::NamesNotUnique));
    let mut entries = shipped();
    entries.push(entry(Panel::CustomToolbar(40), "Ärger"));
    entries.push(entry(Panel::CustomToolbar(41), "ärger"));
    assert_eq!(validate_registry(&entries, &[], &[]), Err(RegistryError::NamesNotUnique));
    assert_eq!(RegistryError::NamesNotUnique.message(), "Panel names must be unique");
}

#[test]
fn registry_refusals_come_in_order() {
    let mut entries = shipped();
    entries.push(entry(Panel::Layers, "Layers again"));
    assert_eq!(validate_registry(&entries, &[], &[]), Err(RegistryError::Duplicate));
    let mut entries = shipped();
    entries.push(entry(Panel::CustomToolbar(0), "Zero"));
    assert_eq!(validate_registry(&entries, &[], &[]), Err(RegistryError::ToolbarIdentity));
    let mut entries = shipped();
    entries.push(entry(Panel::CustomToolbar(3), "Taken"));
    assert_eq!(validate_registry(&entries, &[1, 2, 3], &[]), Err(RegistryError::ToolbarIdentity));
    assert_eq!(RegistryError::Duplicate.message(), "Duplicate panel configuration");
    assert_eq!(RegistryError::ToolbarIdentity.message(), "Invalid toolbar identity");
}

#[test]
fn every_docked_and_content_panel_must_be_registered() {
    let entries = shipped();
    assert_eq!(validate_registry(&entries, &[], &[Panel::CustomToolbar(9)]), Err(RegistryError::Incomplete));
    let partial: Vec<PanelEntry> = shipped().into_iter().filter(|e| e.panel != Panel::Stats).collect();
    assert_eq!(validate_registry(&partial, &[], &[]), Err(RegistryError::Incomplete));
    let toolbars_missing: Vec<PanelEntry> = shipped().into_iter().filter(|e| e.panel != Panel::Commands).collect();
    assert_eq!(validate_registry(&toolbars_missing, &[], &[]), Ok(()), "an undocked toolbar may be absent");
    assert_eq!(RegistryError::Incomplete.message(), "Workspace panel configuration is incomplete");
}
