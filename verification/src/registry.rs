//! The panel registry's rules within a workspace: every registered panel is
//! listed once, custom toolbars carry a usable identity, titles are unique
//! ignoring case, and every docked panel and every content panel is
//! registered.
use vstd::prelude::*;
use crate::panel::{spec_kind, Panel, PanelKind};
use crate::text::same_text;

verus! {

/// One registered panel and the title it shows.
pub struct PanelEntry {
    pub panel: Panel,
    pub title: String,
}

/// Why a workspace's panel registry was refused.
#[derive(Clone, Copy, Debug, PartialEq, Eq, Structural)]
pub enum RegistryError {
    /// A panel is registered twice.
    Duplicate,
    /// A custom toolbar's identity is zero or taken by a dock node.
    ToolbarIdentity,
    /// Two titles differ only in case.
    NamesNotUnique,
    /// A docked panel or a content panel is not registered.
    Incomplete,
}

pub open spec fn spec_registry_error_message(e: RegistryError) -> Seq<char> {
    match e {
        RegistryError::Duplicate => "Duplicate panel configuration"@,
        RegistryError::ToolbarIdentity => "Invalid toolbar identity"@,
        RegistryError::NamesNotUnique => "Panel names must be unique"@,
        RegistryError::Incomplete => "Workspace panel configuration is incomplete"@,
    }
}

impl RegistryError {
    pub fn message(self) -> (m: &'static str)
        ensures
            m@ == spec_registry_error_message(self),
    {
        match self {
            RegistryError::Duplicate => "Duplicate panel configuration",
            RegistryError::ToolbarIdentity => "Invalid toolbar identity",
            RegistryError::NamesNotUnique => "Panel names must be unique",
            RegistryError::Incomplete => "Workspace panel configuration is incomplete",
        }
    }
}

/// What `str::to_lowercase` makes of a text.
pub uninterp spec fn lowercase(s: Seq<char>) -> Seq<char>;

/// `str::to_lowercase`: the text with every character taken to its
/// lowercase mapping. Claimed: the result is `lowercase` of the text, a
/// function of the text alone; nothing more of the mapping is stated.
#[verifier::external_body]
fn to_lowercase(s: &str) -> (r: String)
    ensures
        r@ == lowercase(s@),
{
    s.to_lowercase()
}

/// What entry `i` of `entries` breaks, given the entries before it and the
/// dock node identities `ids`: a repeated panel, an unusable custom toolbar
/// identity, or a title equal to an earlier one ignoring case.
pub open spec fn entry_error(entries: Seq<(Panel, Seq<char>)>, ids: Seq<u32>, i: int) -> Option<RegistryError> {
    let (panel, title) = entries[i];
    if exists|j: int| 0 <= j < i && (#[trigger] entries[j]).0 == panel {
        Some(RegistryError::Duplicate)
    } else if panel matches Panel::CustomToolbar(id) && (id == 0 || ids.contains(id)) {
        Some(RegistryError::ToolbarIdentity)
    } else if exists|j: int| 0 <= j < i && lowercase((#[trigger] entries[j]).1) == lowercase(title) {
        Some(RegistryError::NamesNotUnique)
    } else {
        None
    }
}

/// The first error among the first `n` entries, in order.
pub open spec fn registry_scan(entries: Seq<(Panel, Seq<char>)>, ids: Seq<u32>, n: int) -> Option<RegistryError>
    decreases n,
{
    if n <= 0 {
        None
    } else {
        match registry_scan(entries, ids, n - 1) {
            Some(e) => Some(e),
            None => entry_error(entries, ids, n - 1),
        }
    }
}

pub open spec fn registered(entries: Seq<(Panel, Seq<char>)>, p: Panel) -> bool {
    exists|j: int| 0 <= j < entries.len() && (#[trigger] entries[j]).0 == p
}

/// The registry `entries` (panel and title) checked against a workspace
/// whose dock nodes have identities `ids` and which docks `docked`: the
/// entries in order, then completeness.
pub open spec fn spec_validate_registry(entries: Seq<(Panel, Seq<char>)>, ids: Seq<u32>, docked: Seq<Panel>) -> Result<(), RegistryError> {
    match registry_scan(entries, ids, entries.len() as int) {
        Some(e) => Err(e),
        None => if (exists|k: int| 0 <= k < docked.len() && !registered(entries, #[trigger] docked[k]))
            || (exists|p: Panel| spec_kind(p) == PanelKind::Content && !registered(entries, p)) {
            Err(RegistryError::Incomplete)
        } else {
            Ok(())
        },
    }
}

/// Every panel registered once, and no two titles alike ignoring case.
pub open spec fn distinct_entries(entries: Seq<PanelEntry>) -> bool {
    forall|i: int, j: int| 0 <= i < j < entries.len() ==> (#[trigger] entries[i]).panel != (#[trigger] entries[j]).panel
        && lowercase(entries[i].title@) != lowercase(entries[j].title@)
}

pub open spec fn entry_views(entries: Seq<PanelEntry>) -> Seq<(Panel, Seq<char>)> {
    Seq::new(entries.len(), |i: int| (entries[i].panel, entries[i].title@))
}

fn content_panels() -> (r: Vec<Panel>)
    ensures
        forall|p: Panel| spec_kind(p) == PanelKind::Content <==> r@.contains(p),
{
    let r = vec![
        Panel::Brushes, Panel::ToolSettings, Panel::Color, Panel::Sizes, Panel::Layers,
        Panel::Adjustments, Panel::Properties, Panel::Stats, Panel::Navigator,
    ];
    assert forall|p: Panel| spec_kind(p) == PanelKind::Content <==> r@.contains(p) by {
        if r@.contains(p) {
            let k = choose|k: int| 0 <= k < r@.len() && r@[k] == p;
        }
        match p {
            Panel::Brushes => assert(r@[0] == p),
            Panel::ToolSettings => assert(r@[1] == p),
            Panel::Color => assert(r@[2] == p),
            Panel::Sizes => assert(r@[3] == p),
            Panel::Layers => assert(r@[4] == p),
            Panel::Adjustments => assert(r@[5] == p),
            Panel::Properties => assert(r@[6] == p),
            Panel::Stats => assert(r@[7] == p),
            Panel::Navigator => assert(r@[8] == p),
            _ => {},
        }
    }
    r
}

fn holds(ids: &[u32], id: u32) -> (r: bool)
    ensures
        r == ids@.contains(id),
{
    let mut i: usize = 0;
    while i < ids.len()
        invariant
            i <= ids@.len(),
            forall|j: int| 0 <= j < i ==> ids@[j] != id,
        decreases ids@.len() - i,
    {
        if ids[i] == id {
            return true;
        }
        i = i + 1;
    }
    false
}

fn is_registered(entries: &[PanelEntry], p: Panel) -> (r: bool)
    ensures
        r == registered(entry_views(entries@), p),
{
    let ghost v = entry_views(entries@);
    let mut i: usize = 0;
    while i < entries.len()
        invariant
            i <= entries@.len(),
            v == entry_views(entries@),
            forall|j: int| 0 <= j < i ==> (#[trigger] v[j]).0 != p,
        decreases entries@.len() - i,
    {
        if entries[i].panel == p {
            assert(v[i as int].0 == p);
            return true;
        }
        i = i + 1;
    }
    false
}

/// Checks a workspace's panel registry (see `spec_validate_registry`):
/// `entries` lists the registered panels with their titles, `ids` the dock
/// node identities and `docked` the docked panels.
pub fn validate_registry(entries: &[PanelEntry], ids: &[u32], docked: &[Panel]) -> (r: Result<(), RegistryError>)
    ensures
        r == spec_validate_registry(entry_views(entries@), ids@, docked@),
        r is Ok ==> distinct_entries(entries@),
{
    let ghost v = entry_views(entries@);
    let mut lowered: Vec<String> = Vec::new();
    let mut i: usize = 0;
    while i < entries.len()
        invariant
            i <= entries@.len(),
            v == entry_views(entries@),
            lowered@.len() == i,
            forall|j: int| 0 <= j < i ==> (#[trigger] lowered@[j])@ == lowercase(v[j].1),
            registry_scan(v, ids@, i as int) is None,
        decreases entries@.len() - i,
    {
        let panel = entries[i].panel;
        let title = to_lowercase(entries[i].title.as_str());
        let mut j: usize = 0;
        while j < i
            invariant
                i < entries@.len(),
                j <= i,
                v == entry_views(entries@),
                panel == v[i as int].0,
                registry_scan(v, ids@, i as int) is None,
                forall|k: int| 0 <= k < j ==> (#[trigger] v[k]).0 != panel,
            decreases i - j,
        {
            if entries[j].panel == panel {
                proof {
                    assert(v[j as int].0 == panel);
                    assert(registry_scan(v, ids@, i + 1) == Some(RegistryError::Duplicate));
                    lemma_scan_stays(v, ids@, i as int + 1, entries@.len() as int);
                }
                return Err(RegistryError::Duplicate);
            }
            j = j + 1;
        }
        let bad_id = match panel {
            Panel::CustomToolbar(id) => id == 0 || holds(ids, id),
            _ => false,
        };
        if bad_id {
            proof {
                assert(registry_scan(v, ids@, i + 1) == Some(RegistryError::ToolbarIdentity));
                lemma_scan_stays(v, ids@, i as int + 1, entries@.len() as int);
            }
            return Err(RegistryError::ToolbarIdentity);
        }
        let mut j: usize = 0;
        while j < i
            invariant
                i < entries@.len(),
                j <= i,
                v == entry_views(entries@),
                lowered@.len() == i,
                forall|k: int| 0 <= k < i ==> (#[trigger] lowered@[k])@ == lowercase(v[k].1),
                title@ == lowercase(v[i as int].1),
                panel == v[i as int].0,
                registry_scan(v, ids@, i as int) is None,
                forall|k: int| 0 <= k < i ==> (#[trigger] v[k]).0 != panel,
                !(panel matches Panel::CustomToolbar(id) && (id == 0 || ids@.contains(id))),
                forall|k: int| 0 <= k < j ==> lowercase((#[trigger] v[k]).1) != lowercase(v[i as int].1),
            decreases i - j,
        {
            if same_text(lowered[j].as_str(), title.as_str()) {
                proof {
                    assert(lowered@[j as int]@ == lowercase(v[j as int].1));
                    assert(registry_scan(v, ids@, i + 1) == Some(RegistryError::NamesNotUnique));
                    lemma_scan_stays(v, ids@, i as int + 1, entries@.len() as int);
                }
                return Err(RegistryError::NamesNotUnique);
            }
            proof {
                assert(lowered@[j as int]@ == lowercase(v[j as int].1));
            }
            j = j + 1;
        }
        assert(entry_error(v, ids@, i as int) is None);
        lowered.push(title);
        i = i + 1;
    }
    assert(registry_scan(v, ids@, v.len() as int) is None);
    let mut k: usize = 0;
    while k < docked.len()
        invariant
            k <= docked@.len(),
            v == entry_views(entries@),
            registry_scan(v, ids@, v.len() as int) is None,
            forall|m: int| 0 <= m < k ==> registered(v, #[trigger] docked@[m]),
        decreases docked@.len() - k,
    {
        if !is_registered(entries, docked[k]) {
            proof {
                assert(!registered(v, docked@[k as int]));
                assert(registry_scan(v, ids@, v.len() as int) is None);
            }
            return Err(RegistryError::Incomplete);
        }
        k = k + 1;
    }
    let content = content_panels();
    let mut c: usize = 0;
    while c < content.len()
        invariant
            c <= content@.len(),
            v == entry_views(entries@),
            registry_scan(v, ids@, v.len() as int) is None,
            forall|p: Panel| spec_kind(p) == PanelKind::Content <==> content@.contains(p),
            forall|m: int| 0 <= m < c ==> registered(v, #[trigger] content@[m]),
        decreases content@.len() - c,
    {
        if !is_registered(entries, content[c]) {
            proof {
                assert(content@.contains(content@[c as int]));
                assert(spec_kind(content@[c as int]) == PanelKind::Content);
                assert(!registered(v, content@[c as int]));
                assert(registry_scan(v, ids@, v.len() as int) is None);
            }
            return Err(RegistryError::Incomplete);
        }
        c = c + 1;
    }
    proof {
        assert forall|p: Panel| spec_kind(p) == PanelKind::Content implies registered(v, p) by {
            let m = choose|m: int| 0 <= m < content@.len() && content@[m] == p;
        }
        lemma_scan_none(v, ids@, v.len() as int);
        assert forall|i: int, j: int| 0 <= i < j < entries@.len() implies (#[trigger] entries@[i]).panel != (#[trigger] entries@[j]).panel
            && lowercase(entries@[i].title@) != lowercase(entries@[j].title@) by {
            assert(v[i] == (entries@[i].panel, entries@[i].title@));
            assert(v[j] == (entries@[j].panel, entries@[j].title@));
        }
        assert(distinct_entries(entries@));
    }
    Ok(())
}

/// A registry scan that finds nothing lists every panel once and no two
/// titles alike ignoring case.
proof fn lemma_scan_none(entries: Seq<(Panel, Seq<char>)>, ids: Seq<u32>, n: int)
    requires
        0 <= n <= entries.len(),
        registry_scan(entries, ids, n) is None,
    ensures
        forall|i: int, j: int| 0 <= i < j < n ==> (#[trigger] entries[i]).0 != (#[trigger] entries[j]).0
            && lowercase(entries[i].1) != lowercase(entries[j].1),
    decreases n,
{
    if n > 0 {
        lemma_scan_none(entries, ids, n - 1);
        assert(entry_error(entries, ids, n - 1) is None);
        assert forall|i: int, j: int| 0 <= i < j < n implies (#[trigger] entries[i]).0 != (#[trigger] entries[j]).0
            && lowercase(entries[i].1) != lowercase(entries[j].1) by {
            if j == n - 1 {
                if entries[i].0 == entries[j].0 {
                    assert(exists|k: int| 0 <= k < n - 1 && (#[trigger] entries[k]).0 == entries[n - 1].0);
                }
                if lowercase(entries[i].1) == lowercase(entries[j].1) {
                    assert(exists|k: int| 0 <= k < n - 1 && lowercase((#[trigger] entries[k]).1) == lowercase(entries[n - 1].1));
                }
            }
        }
    }
}

proof fn lemma_scan_stays(entries: Seq<(Panel, Seq<char>)>, ids: Seq<u32>, n: int, m: int)
    requires
        0 <= n <= m,
        registry_scan(entries, ids, n) is Some,
    ensures
        registry_scan(entries, ids, m) == registry_scan(entries, ids, n),
    decreases m - n,
{
    if m > n {
        lemma_scan_stays(entries, ids, n, m - 1);
    }
}

} // verus!
