//! Print-proof options and the proof view's status policy. Hosts supply the
//! native widgets, the colour engine and the asynchronous preparation; the
//! option semantics and what the status line says are decided here.
use vstd::prelude::*;
use crate::text::string_from_chars;

verus! {

/// An option offered in a proof control, with its label.
#[derive(Clone, Copy, Debug)]
pub struct ProofChoice<T> {
    pub value: T,
    pub label: &'static str,
}

/// The controls of the print-proof form.
#[derive(Clone, Copy, Debug, PartialEq, Eq, Structural)]
pub enum PrintProofControl {
    Profile,
    Simulation,
    Intent,
    BlackPointCompensation,
    GamutWarning,
}

pub open spec fn spec_control_label(c: PrintProofControl) -> Seq<char> {
    match c {
        PrintProofControl::Profile => "Profile"@,
        PrintProofControl::Simulation => "Simulate"@,
        PrintProofControl::Intent => "Intent"@,
        PrintProofControl::BlackPointCompensation => "Black point compensation"@,
        PrintProofControl::GamutWarning => "Gamut warning"@,
    }
}

impl PrintProofControl {
    pub const ALL: [PrintProofControl; 5] = [
        PrintProofControl::Profile,
        PrintProofControl::Simulation,
        PrintProofControl::Intent,
        PrintProofControl::BlackPointCompensation,
        PrintProofControl::GamutWarning,
    ];

    pub fn label(self) -> (l: &'static str)
        ensures
            l@ == spec_control_label(self),
    {
        match self {
            PrintProofControl::Profile => "Profile",
            PrintProofControl::Simulation => "Simulate",
            PrintProofControl::Intent => "Intent",
            PrintProofControl::BlackPointCompensation => "Black point compensation",
            PrintProofControl::GamutWarning => "Gamut warning",
        }
    }
}

/// How colours outside the printable gamut are brought into it.
#[derive(Clone, Copy, Debug, PartialEq, Eq, Structural)]
pub enum RenderingIntent {
    Perceptual,
    RelativeColorimetric,
    Saturation,
    AbsoluteColorimetric,
}

/// The intents offered for a print proof, in menu order, with their labels.
pub fn proof_intents() -> (r: [ProofChoice<RenderingIntent>; 4])
    ensures
        r[0].value == RenderingIntent::RelativeColorimetric && r[0].label@ == "Relative"@,
        r[1].value == RenderingIntent::Perceptual && r[1].label@ == "Perceptual"@,
        r[2].value == RenderingIntent::Saturation && r[2].label@ == "Saturation"@,
        r[3].value == RenderingIntent::AbsoluteColorimetric && r[3].label@ == "Absolute"@,
{
    [
        ProofChoice { value: RenderingIntent::RelativeColorimetric, label: "Relative" },
        ProofChoice { value: RenderingIntent::Perceptual, label: "Perceptual" },
        ProofChoice { value: RenderingIntent::Saturation, label: "Saturation" },
        ProofChoice { value: RenderingIntent::AbsoluteColorimetric, label: "Absolute" },
    ]
}

/// What of the print a proof simulates.
#[derive(Clone, Copy, Debug, PartialEq, Eq, Structural)]
pub enum ProofSimulation {
    Colors,
    BlackInk,
    PaperAndInk,
}

impl Default for ProofSimulation {
    fn default() -> (s: ProofSimulation)
        ensures
            s == ProofSimulation::BlackInk,
    {
        ProofSimulation::BlackInk
    }
}

/// The simulation a recipe's flags describe.
pub open spec fn spec_simulation_from_flags(simulate_paper: bool, simulate_black_ink: bool) -> ProofSimulation {
    if simulate_paper {
        ProofSimulation::PaperAndInk
    } else if simulate_black_ink {
        ProofSimulation::BlackInk
    } else {
        ProofSimulation::Colors
    }
}

impl ProofSimulation {
    /// The simulations offered, in menu order, with their labels.
    pub fn choices() -> (r: [ProofChoice<ProofSimulation>; 3])
        ensures
            r[0].value == ProofSimulation::Colors && r[0].label@ == "Colors"@,
            r[1].value == ProofSimulation::BlackInk && r[1].label@ == "Black ink"@,
            r[2].value == ProofSimulation::PaperAndInk && r[2].label@ == "Paper & ink"@,
    {
        [
            ProofChoice { value: ProofSimulation::Colors, label: "Colors" },
            ProofChoice { value: ProofSimulation::BlackInk, label: "Black ink" },
            ProofChoice { value: ProofSimulation::PaperAndInk, label: "Paper & ink" },
        ]
    }

    /// The simulation of a recipe that simulates paper and/or black ink.
    pub fn from_recipe_flags(simulate_paper: bool, simulate_black_ink: bool) -> (s: ProofSimulation)
        ensures
            s == spec_simulation_from_flags(simulate_paper, simulate_black_ink),
    {
        if simulate_paper {
            ProofSimulation::PaperAndInk
        } else if simulate_black_ink {
            ProofSimulation::BlackInk
        } else {
            ProofSimulation::Colors
        }
    }
}

/// The conversion options a print proof's recipe carries.
#[derive(Clone, Copy, Debug, PartialEq, Eq, Structural)]
pub struct ProofOptions {
    pub intent: RenderingIntent,
    pub black_point_compensation: bool,
    pub simulate_paper: bool,
    pub simulate_black_ink: bool,
}

/// Why no proof recipe can be made.
#[derive(Clone, Copy, Debug, PartialEq, Eq, Structural)]
pub enum ProofSetupError {
    /// No print profile was chosen.
    NoProfile,
}

impl ProofSetupError {
    pub fn message(self) -> (m: &'static str)
        ensures
            m@ == "Choose a print profile"@,
    {
        "Choose a print profile"
    }
}

/// The print-proof form: the chosen profile `P` and the options.
#[derive(Clone, Debug)]
pub struct PrintProofSettings<P> {
    pub profile: Option<P>,
    pub intent: RenderingIntent,
    pub bpc: bool,
    pub simulation: ProofSimulation,
}

/// Whether black point compensation applies under `intent`.
pub open spec fn spec_bpc_available(intent: RenderingIntent) -> bool {
    intent != RenderingIntent::AbsoluteColorimetric
}

/// The recipe options of a form with the given choices.
pub open spec fn spec_proof_options(intent: RenderingIntent, bpc: bool, simulation: ProofSimulation) -> ProofOptions {
    ProofOptions {
        intent,
        black_point_compensation: bpc && spec_bpc_available(intent),
        simulate_paper: simulation == ProofSimulation::PaperAndInk,
        simulate_black_ink: simulation != ProofSimulation::Colors,
    }
}

/// A proof recipe follows the form: it renders with the chosen intent,
/// compensates black points exactly when asked and the intent is not
/// absolute colorimetric, simulates paper only for paper and ink, and
/// simulates black ink unless only colours are simulated.
pub proof fn lemma_recipe_follows_the_form(intent: RenderingIntent, bpc: bool, simulation: ProofSimulation)
    ensures
        spec_proof_options(intent, bpc, simulation).intent == intent,
        spec_proof_options(intent, bpc, simulation).black_point_compensation
            == (bpc && intent != RenderingIntent::AbsoluteColorimetric),
        spec_proof_options(intent, bpc, simulation).simulate_paper == (simulation == ProofSimulation::PaperAndInk),
        spec_proof_options(intent, bpc, simulation).simulate_black_ink == (simulation != ProofSimulation::Colors),
{
}

impl<P> Default for PrintProofSettings<P> {
    fn default() -> (s: PrintProofSettings<P>)
        ensures
            s.profile is None,
            s.intent == RenderingIntent::RelativeColorimetric,
            s.bpc,
            s.simulation == ProofSimulation::BlackInk,
    {
        PrintProofSettings {
            profile: None,
            intent: RenderingIntent::RelativeColorimetric,
            bpc: true,
            simulation: ProofSimulation::BlackInk,
        }
    }
}

impl<P> PrintProofSettings<P> {
    /// Black point compensation is offered for every intent but absolute
    /// colorimetric.
    pub fn bpc_available(&self) -> (r: bool)
        ensures
            r == spec_bpc_available(self.intent),
            r == (self.intent != RenderingIntent::AbsoluteColorimetric),
    {
        match self.intent {
            RenderingIntent::AbsoluteColorimetric => false,
            _ => true,
        }
    }

    /// The options of the proof recipe; a profile must have been chosen.
    pub fn recipe_options(&self) -> (r: Result<ProofOptions, ProofSetupError>)
        ensures
            match self.profile {
                Some(_) => r == Ok::<ProofOptions, ProofSetupError>(spec_proof_options(self.intent, self.bpc, self.simulation)),
                None => r == Err::<ProofOptions, ProofSetupError>(ProofSetupError::NoProfile),
            },
            r matches Ok(o) ==> o.intent == self.intent
                && o.black_point_compensation == (self.bpc && self.intent != RenderingIntent::AbsoluteColorimetric)
                && o.simulate_paper == (self.simulation == ProofSimulation::PaperAndInk)
                && o.simulate_black_ink == (self.simulation != ProofSimulation::Colors),
    {
        proof {
            lemma_recipe_follows_the_form(self.intent, self.bpc, self.simulation);
        }
        if self.profile.is_none() {
            return Err(ProofSetupError::NoProfile);
        }
        let bpc = self.bpc && self.bpc_available();
        let simulate_paper = match self.simulation {
            ProofSimulation::PaperAndInk => true,
            _ => false,
        };
        let simulate_black_ink = match self.simulation {
            ProofSimulation::Colors => false,
            _ => true,
        };
        Ok(ProofOptions { intent: self.intent, black_point_compensation: bpc, simulate_paper, simulate_black_ink })
    }
}

/// The simulation read back from a recipe is the one the form chose.
pub proof fn lemma_simulation_round_trip(intent: RenderingIntent, bpc: bool, simulation: ProofSimulation)
    ensures
        ({
            let o = spec_proof_options(intent, bpc, simulation);
            spec_simulation_from_flags(o.simulate_paper, o.simulate_black_ink) == simulation
        }),
{
}

/// A recipe compensates the black point exactly when the form asks for it
/// and the intent allows it; absolute colorimetric never compensates.
pub proof fn lemma_bpc_follows_intent(intent: RenderingIntent, bpc: bool, simulation: ProofSimulation)
    ensures
        spec_proof_options(intent, bpc, simulation).black_point_compensation == (bpc && spec_bpc_available(intent)),
        intent == RenderingIntent::AbsoluteColorimetric ==> !spec_proof_options(intent, bpc, simulation).black_point_compensation,
{
}

/// What the proof view reports to a host.
#[derive(Debug)]
pub struct ProofStatus {
    /// Changes whenever the document's proof key changes.
    pub generation: u32,
    /// Whether the host should prepare a proof now.
    pub needed: bool,
    /// The status line.
    pub text: String,
    /// The preparation error shown for the current key.
    pub error: Option<String>,
    /// Size of the prepared proof.
    pub bytes: usize,
}

/// The proof view: the key it was observed with (`K`), a generation counter,
/// the prepared proof (`L`) and the last preparation error.
pub struct ProofView<K, L> {
    key: Option<K>,
    generation: u32,
    cache: Option<L>,
    error: Option<String>,
}

/// The status line of a visible proof. `prepared`: a proof is ready.
pub open spec fn spec_proof_text(visible: bool, failed: bool, prepared: bool, soft_proof: bool, gamut_warning: bool, name: Seq<char>) -> Seq<char> {
    if !visible {
        Seq::empty()
    } else if failed {
        "Proof unavailable"@
    } else if !prepared {
        "Preparing proof\u{2026}"@
    } else if soft_proof {
        "Proof: "@ + name + if gamut_warning { " \u{b7} Gamut warning"@ } else { Seq::empty() }
    } else {
        "Gamut: "@ + name
    }
}

fn push_text(chars: &mut Vec<char>, t: &str)
    ensures
        final(chars)@ == old(chars)@ + t@,
{
    let n = t.unicode_len();
    let ghost start = chars@;
    let mut i: usize = 0;
    while i < n
        invariant
            n == t@.len(),
            i <= n,
            chars@ == start + t@.subrange(0, i as int),
        decreases n - i,
    {
        chars.push(t.get_char(i));
        i = i + 1;
    }
    assert(t@.subrange(0, n as int) =~= t@);
}

impl<K, L> ProofView<K, L> {
    pub fn new() -> (v: ProofView<K, L>)
        ensures
            v.key() is None,
            v.generation() == 0,
            v.cache() is None,
            v.error() is None,
    {
        ProofView { key: None, generation: 0, cache: None, error: None }
    }

    pub closed spec fn key(&self) -> Option<K> {
        self.key
    }

    pub closed spec fn generation(&self) -> u32 {
        self.generation
    }

    pub closed spec fn cache(&self) -> Option<L> {
        self.cache
    }

    pub closed spec fn error(&self) -> Option<Seq<char>> {
        match self.error {
            Some(e) => Some(e@),
            None => None,
        }
    }

    /// The key the view last observed.
    pub fn observed_key(&self) -> (k: Option<&K>)
        ensures
            match k {
                Some(k) => self.key() == Some(*k),
                None => self.key() is None,
            },
    {
        match &self.key {
            Some(k) => Some(k),
            None => None,
        }
    }

    /// Adopts the document's current key. `changed`: it differs from the
    /// observed one; `stale`: the prepared proof was made for another working
    /// space or recipe than `key`. A change starts a new generation, forgets
    /// the error and drops a stale proof.
    pub fn adopt_key(&mut self, key: K, changed: bool, stale: bool)
        ensures
            changed ==> final(self).key() == Some(key)
                && final(self).generation() == (if old(self).generation() == u32::MAX { 0 } else { (old(self).generation() + 1) as u32 })
                && final(self).error() is None
                && final(self).cache() == (if stale { None } else { old(self).cache() }),
            !changed ==> *final(self) == *old(self),
    {
        if changed {
            self.generation = self.generation.wrapping_add(1);
            self.error = None;
            if stale {
                self.cache = None;
            }
            self.key = Some(key);
        }
    }

    /// What the host is told. The proof is visible when a proof recipe
    /// exists (`proof_name` is its name) and soft proofing or the gamut
    /// warning is on; it is needed when visible with neither a prepared proof
    /// nor an error while rendering runs. `cache_bytes` is the prepared
    /// proof's size.
    pub fn status(&self, soft_proof: bool, gamut_warning: bool, proof_name: Option<&str>, suspended: bool, cache_bytes: usize) -> (st: ProofStatus)
        ensures
            st.generation == self.generation(),
            st.needed == ((soft_proof || gamut_warning) && proof_name is Some && self.cache() is None
                && self.error() is None && !suspended),
            st.text@ == spec_proof_text(
                (soft_proof || gamut_warning) && proof_name is Some,
                self.error() is Some,
                self.cache() is Some,
                soft_proof,
                gamut_warning,
                match proof_name { Some(n) => n@, None => Seq::empty() },
            ),
            match st.error {
                Some(e) => self.error() == Some(e@),
                None => self.error() is None,
            },
            st.bytes == (if self.cache() is Some { cache_bytes } else { 0 }),
    {
        let visible = (soft_proof || gamut_warning) && proof_name.is_some();
        let failed = self.error.is_some();
        let prepared = self.cache.is_some();
        let needed = visible && !prepared && !failed && !suspended;
        let mut chars: Vec<char> = Vec::new();
        if visible {
            if failed {
                push_text(&mut chars, "Proof unavailable");
            } else if !prepared {
                push_text(&mut chars, "Preparing proof\u{2026}");
            } else {
                let name = match proof_name {
                    Some(n) => n,
                    None => "",
                };
                if soft_proof {
                    push_text(&mut chars, "Proof: ");
                    push_text(&mut chars, name);
                    if gamut_warning {
                        push_text(&mut chars, " \u{b7} Gamut warning");
                    } else {
                        assert(chars@ + Seq::<char>::empty() =~= chars@);
                    }
                    assert(chars@ =~= "Proof: "@ + name@ + if gamut_warning { " \u{b7} Gamut warning"@ } else { Seq::<char>::empty() });
                } else {
                    push_text(&mut chars, "Gamut: ");
                    push_text(&mut chars, name);
                }
            }
        }
        let error = match &self.error {
            Some(e) => Some(e.clone()),
            None => None,
        };
        ProofStatus {
            generation: self.generation,
            needed,
            text: string_from_chars(&chars),
            error,
            bytes: if prepared { cache_bytes } else { 0 },
        }
    }

    /// The prepared proof, if any.
    pub fn prepared(&self) -> (c: Option<&L>)
        ensures
            match c {
                Some(c) => self.cache() == Some(*c),
                None => self.cache() is None,
            },
    {
        match &self.cache {
            Some(c) => Some(c),
            None => None,
        }
    }

    /// Keeps a proof prepared for the current key and forgets the error.
    /// The host checks first that it was made for the current working space.
    pub fn retain(&mut self, lut: L)
        ensures
            final(self).cache() == Some(lut),
            final(self).error() is None,
            final(self).key() == old(self).key(),
            final(self).generation() == old(self).generation(),
    {
        self.cache = Some(lut);
        self.error = None;
    }

    /// Records a preparation failure. `applies`: the failed job was the
    /// view's own preparation and still matches the document.
    pub fn fail(&mut self, error: String, applies: bool)
        ensures
            applies ==> final(self).cache() is None && final(self).error() == Some(error@)
                && final(self).key() == old(self).key() && final(self).generation() == old(self).generation(),
            !applies ==> *final(self) == *old(self),
    {
        if applies {
            self.cache = None;
            self.error = Some(error);
        }
    }
}

} // verus!
