//! Docking topology: a tree of tab groups joined by splits. The tree is
//! generic over what hosts attach to it (a tab group's presentation style and
//! a split's sizing ratio); the topology rules never read either.
use vstd::prelude::*;
use crate::panel::{spec_kind, Axis, Edge, Panel, PanelKind};

verus! {

/// A dock subtree: a group of tabs, or two subtrees side by side.
#[derive(Debug)]
pub enum DockNode<S, R> {
    Tabs { id: u32, panels: Vec<Panel>, active: Panel, tab_style: S },
    Split { id: u32, axis: Axis, fraction: R, first: Box<DockNode<S, R>>, second: Box<DockNode<S, R>> },
}

/// The mathematical shape of a dock subtree.
pub enum DockShape<S, R> {
    Tabs { id: u32, panels: Seq<Panel>, active: Panel, tab_style: S },
    Split { id: u32, axis: Axis, fraction: R, first: Box<DockShape<S, R>>, second: Box<DockShape<S, R>> },
}

pub open spec fn shape_of<S, R>(n: DockNode<S, R>) -> DockShape<S, R>
    decreases n,
{
    match n {
        DockNode::Tabs { id, panels, active, tab_style } => DockShape::Tabs {
            id,
            panels: panels@,
            active,
            tab_style,
        },
        DockNode::Split { id, axis, fraction, first, second } => DockShape::Split {
            id,
            axis,
            fraction,
            first: Box::new(shape_of(*first)),
            second: Box::new(shape_of(*second)),
        },
    }
}

impl<S, R> View for DockNode<S, R> {
    type V = DockShape<S, R>;

    open spec fn view(&self) -> DockShape<S, R> {
        shape_of(*self)
    }
}

pub open spec fn shape_id<S, R>(n: DockShape<S, R>) -> u32 {
    match n {
        DockShape::Tabs { id, .. } => id,
        DockShape::Split { id, .. } => id,
    }
}

/// The panels of a subtree, in reading order.
pub open spec fn shape_panels<S, R>(n: DockShape<S, R>) -> Seq<Panel>
    decreases n,
{
    match n {
        DockShape::Tabs { panels, .. } => panels,
        DockShape::Split { first, second, .. } => shape_panels(*first) + shape_panels(*second),
    }
}

/// The node identities of a subtree, in preorder.
pub open spec fn shape_ids<S, R>(n: DockShape<S, R>) -> Seq<u32>
    decreases n,
{
    match n {
        DockShape::Tabs { id, .. } => seq![id],
        DockShape::Split { id, first, second, .. } => seq![id] + shape_ids(*first) + shape_ids(*second),
    }
}

/// The tab group holding `panel` (its identity and active tab), searching
/// the first subtree before the second.
pub open spec fn spec_group_for<S, R>(n: DockShape<S, R>, panel: Panel) -> Option<(u32, Panel)>
    decreases n,
{
    match n {
        DockShape::Tabs { id, panels, active, .. } => if panels.contains(panel) {
            Some((id, active))
        } else {
            None
        },
        DockShape::Split { first, second, .. } => match spec_group_for(*first, panel) {
            Some(g) => Some(g),
            None => spec_group_for(*second, panel),
        },
    }
}

/// The tab group holding `panel` (its identity and tabs), searching the
/// first subtree before the second.
pub open spec fn spec_tab_group<S, R>(n: DockShape<S, R>, panel: Panel) -> Option<(u32, Seq<Panel>)>
    decreases n,
{
    match n {
        DockShape::Tabs { id, panels, .. } => if panels.contains(panel) {
            Some((id, panels))
        } else {
            None
        },
        DockShape::Split { first, second, .. } => match spec_tab_group(*first, panel) {
            Some(g) => Some(g),
            None => spec_tab_group(*second, panel),
        },
    }
}

/// The subtree with identity `target`, searching the node itself first,
/// then its first subtree, then its second.
pub open spec fn spec_find<S, R>(n: DockShape<S, R>, target: u32) -> Option<DockShape<S, R>>
    decreases n,
{
    if shape_id(n) == target {
        Some(n)
    } else {
        match n {
            DockShape::Split { first, second, .. } => match spec_find(*first, target) {
                Some(f) => Some(f),
                None => spec_find(*second, target),
            },
            _ => None,
        }
    }
}

/// `s` without any occurrence of `p`, order kept.
pub open spec fn without(s: Seq<Panel>, p: Panel) -> Seq<Panel>
    decreases s.len(),
{
    if s.len() == 0 {
        s
    } else if s.last() == p {
        without(s.drop_last(), p)
    } else {
        without(s.drop_last(), p).push(s.last())
    }
}

/// The subtree with `panel` removed: empty tab groups disappear and a split
/// that loses one side is replaced by the other side.
pub open spec fn spec_remove<S, R>(n: DockShape<S, R>, panel: Panel) -> Option<DockShape<S, R>>
    decreases n,
{
    match n {
        DockShape::Tabs { id, panels, active, tab_style } => {
            let kept = without(panels, panel);
            if kept.len() == 0 {
                None
            } else {
                Some(DockShape::Tabs {
                    id,
                    panels: kept,
                    active: if active == panel { kept[0] } else { active },
                    tab_style,
                })
            }
        },
        DockShape::Split { id, axis, fraction, first, second } => {
            match (spec_remove(*first, panel), spec_remove(*second, panel)) {
                (Some(f), Some(s)) => Some(DockShape::Split {
                    id,
                    axis,
                    fraction,
                    first: Box::new(f),
                    second: Box::new(s),
                }),
                (Some(f), None) => Some(f),
                (None, s) => s,
            }
        },
    }
}

proof fn lemma_push_contains(t: Seq<Panel>, x: Panel, q: Panel)
    ensures
        t.push(x).contains(q) <==> (t.contains(q) || x == q),
{
    if t.push(x).contains(q) {
        let i = choose|i: int| 0 <= i < t.push(x).len() && t.push(x)[i] == q;
        if i < t.len() {
            assert(t[i] == q);
        }
    }
    if t.contains(q) {
        let i = choose|i: int| 0 <= i < t.len() && t[i] == q;
        assert(t.push(x)[i] == q);
    }
    if x == q {
        assert(t.push(x)[t.len() as int] == q);
    }
}

proof fn lemma_without(s: Seq<Panel>, p: Panel)
    ensures
        !without(s, p).contains(p),
        forall|q: Panel| q != p ==> (without(s, p).contains(q) <==> s.contains(q)),
        without(s, p).len() <= s.len(),
    decreases s.len(),
{
    if s.len() > 0 {
        let t = s.drop_last();
        let x = s.last();
        lemma_without(t, p);
        assert(t.push(x) =~= s);
        let w = without(t, p);
        assert forall|q: Panel| q != p implies (without(s, p).contains(q) <==> s.contains(q)) by {
            lemma_push_contains(t, x, q);
            lemma_push_contains(w, x, q);
        }
        lemma_push_contains(w, x, p);
    }
}

pub(crate) proof fn lemma_concat_contains(a: Seq<Panel>, b: Seq<Panel>, q: Panel)
    ensures
        (a + b).contains(q) <==> (a.contains(q) || b.contains(q)),
{
    if (a + b).contains(q) {
        let i = choose|i: int| 0 <= i < (a + b).len() && (a + b)[i] == q;
        if i < a.len() {
            assert(a[i] == q);
        } else {
            assert(b[i - a.len()] == q);
        }
    }
    if a.contains(q) {
        let i = choose|i: int| 0 <= i < a.len() && a[i] == q;
        assert((a + b)[i] == q);
    }
    if b.contains(q) {
        let i = choose|i: int| 0 <= i < b.len() && b[i] == q;
        assert((a + b)[a.len() + i] == q);
    }
}

/// Removing a panel takes out exactly that panel: it no longer appears, and
/// every other panel of the subtree is still there.
pub proof fn lemma_remove_panels<S, R>(n: DockShape<S, R>, panel: Panel)
    ensures
        spec_remove(n, panel) matches Some(m) ==> !shape_panels(m).contains(panel)
            && forall|q: Panel| q != panel ==> (shape_panels(m).contains(q) <==> shape_panels(n).contains(q)),
        spec_remove(n, panel) is None ==> forall|q: Panel| shape_panels(n).contains(q) ==> q == panel,
    decreases n,
{
    match n {
        DockShape::Tabs { panels, .. } => {
            lemma_without(panels, panel);
            let kept = without(panels, panel);
            assert(shape_panels(n) == panels);
            if kept.len() == 0 {
                assert forall|q: Panel| shape_panels(n).contains(q) implies q == panel by {
                    if q != panel {
                        assert(kept.contains(q));
                        assert(kept[0] == q);
                    }
                }
            } else {
                let m = spec_remove(n, panel)->Some_0;
                assert(shape_panels(m) == kept);
            }
        },
        DockShape::Split { first, second, .. } => {
            lemma_remove_panels(*first, panel);
            lemma_remove_panels(*second, panel);
            let a = shape_panels(*first);
            let b = shape_panels(*second);
            assert(shape_panels(n) == a + b);
            assert forall|q: Panel| #[trigger] (a + b).contains(q) <==> (a.contains(q) || b.contains(q)) by {
                lemma_concat_contains(a, b, q);
            }
            match (spec_remove(*first, panel), spec_remove(*second, panel)) {
                (Some(f), Some(s)) => {
                    let c = shape_panels(f);
                    let d = shape_panels(s);
                    let m = spec_remove(n, panel)->Some_0;
                    assert(shape_panels(m) == c + d);
                    assert forall|q: Panel| #[trigger] (c + d).contains(q) <==> (c.contains(q) || d.contains(q)) by {
                        lemma_concat_contains(c, d, q);
                    }
                },
                (Some(f), None) => {
                    assert(spec_remove(n, panel) == Some(f));
                },
                (None, s) => {
                    assert(spec_remove(n, panel) == s);
                },
            }
        },
    }
}


/// Why a dock tree or a dock request was refused.
#[derive(Clone, Copy, Debug, PartialEq, Eq, Structural)]
pub enum DockError {
    /// A node identity repeats, or the tree is nested too deeply.
    InvalidIdentity,
    /// A tab group is empty or its active tab is not one of its tabs.
    InvalidTabSelection,
    /// A panel appears in more than one place.
    DuplicatePanel,
    /// A split's sizing ratio is unusable.
    InvalidSplitRatio,
    /// No band has the identity.
    UnknownDock,
    /// Fresh node identities ran out.
    IdentitiesExhausted,
}

pub open spec fn spec_dock_error_message(e: DockError) -> Seq<char> {
    match e {
        DockError::InvalidIdentity => "Invalid workspace node identity or depth"@,
        DockError::InvalidTabSelection => "Invalid workspace tab selection"@,
        DockError::DuplicatePanel => "Workspace contains duplicate panels"@,
        DockError::InvalidSplitRatio => "Invalid workspace split ratio"@,
        DockError::UnknownDock => "Unknown dock"@,
        DockError::IdentitiesExhausted => "Workspace identity limit reached"@,
    }
}

impl DockError {
    pub fn message(self) -> (m: &'static str)
        ensures
            m@ == spec_dock_error_message(self),
    {
        match self {
            DockError::InvalidIdentity => "Invalid workspace node identity or depth",
            DockError::InvalidTabSelection => "Invalid workspace tab selection",
            DockError::DuplicatePanel => "Workspace contains duplicate panels",
            DockError::InvalidSplitRatio => "Invalid workspace split ratio",
            DockError::UnknownDock => "Unknown dock",
            DockError::IdentitiesExhausted => "Workspace identity limit reached",
        }
    }
}

/// The deepest nesting a saved dock tree may have.
pub const MAX_DOCK_DEPTH: usize = 128;

pub open spec fn no_dups<T>(s: Seq<T>) -> bool {
    forall|i: int, j: int| 0 <= i < s.len() && 0 <= j < s.len() && i != j ==> s[i] != s[j]
}

/// Whether recording `tabs` one by one after `recorded` meets a panel that is
/// already recorded when it is reached.
pub open spec fn repeats_recorded(recorded: Seq<Panel>, tabs: Seq<Panel>) -> bool {
    exists|k: int| 0 <= k < tabs.len() && #[trigger] (recorded + tabs.subrange(0, k)).contains(tabs[k])
}

/// Walks a subtree the way a workspace is validated: each node identity is
/// recorded once (refusing repeats and nesting beyond the limit), each tab
/// group must be non-empty with its active tab among its tabs, each panel is
/// recorded once (refusing repeats), and each split's ratio must satisfy
/// `ratio_ok` before its sides are walked. Returns the recorded identities
/// and panels.
pub open spec fn check_shape<S, R>(n: DockShape<S, R>, ids: Seq<u32>, panels: Seq<Panel>, depth: int, ratio_ok: spec_fn(R) -> bool) -> Result<(Seq<u32>, Seq<Panel>), DockError>
    decreases n,
{
    if depth > MAX_DOCK_DEPTH || ids.contains(shape_id(n)) {
        Err(DockError::InvalidIdentity)
    } else {
        let ids2 = ids.push(shape_id(n));
        match n {
            DockShape::Tabs { panels: tabs, active, .. } => {
                if tabs.len() == 0 || !tabs.contains(active) {
                    Err(DockError::InvalidTabSelection)
                } else if repeats_recorded(panels, tabs) {
                    Err(DockError::DuplicatePanel)
                } else {
                    Ok((ids2, panels + tabs))
                }
            },
            DockShape::Split { fraction, first, second, .. } => {
                if !ratio_ok(fraction) {
                    Err(DockError::InvalidSplitRatio)
                } else {
                    match check_shape(*first, ids2, panels, depth + 1, ratio_ok) {
                        Ok((i, p)) => check_shape(*second, i, p, depth + 1, ratio_ok),
                        Err(e) => Err(e),
                    }
                }
            },
        }
    }
}

/// The subtree renumbered in preorder from `next`, with the allocator value
/// that follows; `None` when the identities run out.
pub open spec fn spec_renumber<S, R>(n: DockShape<S, R>, next: u32) -> Option<(DockShape<S, R>, u32)>
    decreases n,
{
    if next == u32::MAX {
        None
    } else {
        match n {
            DockShape::Tabs { panels, active, tab_style, .. } => Some((
                DockShape::Tabs { id: next, panels, active, tab_style },
                (next + 1) as u32,
            )),
            DockShape::Split { axis, fraction, first, second, .. } => {
                match spec_renumber(*first, (next + 1) as u32) {
                    Some((f, n1)) => match spec_renumber(*second, n1) {
                        Some((s, n2)) => Some((
                            DockShape::Split { id: next, axis, fraction, first: Box::new(f), second: Box::new(s) },
                            n2,
                        )),
                        None => None,
                    },
                    None => None,
                }
            },
        }
    }
}

/// Consecutive identities `from`, `from + 1`, ..., below `to`.
pub open spec fn id_range(from: u32, to: u32) -> Seq<u32> {
    Seq::new((to - from) as nat, |i: int| (from + i) as u32)
}

/// Renumbering hands out consecutive fresh identities in preorder and keeps
/// every panel where it was.
pub proof fn lemma_renumber<S, R>(n: DockShape<S, R>, next: u32)
    ensures
        spec_renumber(n, next) matches Some((m, after)) ==> next < after
            && shape_ids(m) == id_range(next, after)
            && shape_panels(m) == shape_panels(n),
    decreases n,
{
    if next < u32::MAX {
        match n {
            DockShape::Tabs { .. } => {
                if let Some((m, after)) = spec_renumber(n, next) {
                    assert(shape_ids(m) =~= id_range(next, after));
                }
            },
            DockShape::Split { first, second, .. } => {
                lemma_renumber(*first, (next + 1) as u32);
                if let Some((f, n1)) = spec_renumber(*first, (next + 1) as u32) {
                    lemma_renumber(*second, n1);
                    if let Some((s, n2)) = spec_renumber(*second, n1) {
                        let m = spec_renumber(n, next)->Some_0.0;
                        assert(shape_ids(m) =~= id_range(next, n2)) by {
                            assert(shape_ids(m) == seq![next] + shape_ids(f) + shape_ids(s));
                        }
                    }
                }
            },
        }
    }
}

/// A subtree accepted by validation adds only fresh identities and fresh
/// panels: when the records it started from had no repeats, neither do the
/// records it returns, and they end with the subtree's own identities and
/// panels.
pub proof fn lemma_check_shape<S, R>(n: DockShape<S, R>, ids: Seq<u32>, panels: Seq<Panel>, depth: int, ratio_ok: spec_fn(R) -> bool)
    requires
        no_dups(ids),
        no_dups(panels),
    ensures
        check_shape(n, ids, panels, depth, ratio_ok) matches Ok((i, p)) ==> no_dups(i) && no_dups(p)
            && i == ids + shape_ids(n) && p == panels + shape_panels(n),
    decreases n,
{
    if !(depth > MAX_DOCK_DEPTH || ids.contains(shape_id(n))) {
        let ids2 = ids.push(shape_id(n));
        assert(no_dups(ids2)) by {
            assert forall|i: int, j: int| 0 <= i < ids2.len() && 0 <= j < ids2.len() && i != j implies ids2[i] != ids2[j] by {
                if i < ids.len() && j < ids.len() {
                } else if i < ids.len() {
                    assert(ids2[j] == shape_id(n));
                    assert(ids.contains(ids2[i]));
                } else {
                    assert(ids2[i] == shape_id(n));
                    assert(ids.contains(ids2[j]));
                }
            }
        }
        match n {
            DockShape::Tabs { panels: tabs, .. } => {
                if let Ok((i, p)) = check_shape(n, ids, panels, depth, ratio_ok) {
                    assert(i =~= ids + shape_ids(n));
                    assert(!repeats_recorded(panels, tabs));
                    let np = panels.len();
                    assert forall|a: int, b: int| 0 <= a < b < p.len() implies p[a] != p[b] by {
                        if b >= np {
                            let k = b - np;
                            let q = panels + tabs.subrange(0, k);
                            assert(!q.contains(tabs[k]));
                            assert(p[b] == tabs[k]);
                            assert(q[a] == p[a]);
                        }
                    }
                }
            },
            DockShape::Split { first, second, .. } => {
                lemma_check_shape(*first, ids2, panels, depth + 1, ratio_ok);
                if let Ok((i1, p1)) = check_shape(*first, ids2, panels, depth + 1, ratio_ok) {
                    lemma_check_shape(*second, i1, p1, depth + 1, ratio_ok);
                    if let Ok((i, p)) = check_shape(*second, i1, p1, depth + 1, ratio_ok) {
                        assert(i =~= ids + shape_ids(n));
                        assert(p =~= panels + shape_panels(n));
                    }
                }
            },
        }
    }
}

impl<S, R> DockNode<S, R> {
    pub fn id(&self) -> (r: u32)
        ensures
            r == shape_id(self@),
    {
        match self {
            DockNode::Tabs { id, .. } => *id,
            DockNode::Split { id, .. } => *id,
        }
    }

    /// The tab group holding `panel`, with its active tab.
    pub fn group_for(&self, panel: Panel) -> (r: Option<(u32, Panel)>)
        ensures
            r == spec_group_for(self@, panel),
        decreases self,
    {
        match self {
            DockNode::Tabs { id, panels, active, .. } => {
                if contains_panel(panels.as_slice(), panel) {
                    Some((*id, *active))
                } else {
                    None
                }
            },
            DockNode::Split { first, second, .. } => {
                match first.group_for(panel) {
                    Some(g) => Some(g),
                    None => second.group_for(panel),
                }
            },
        }
    }

    /// The subtree with identity `target`.
    pub fn find(&self, target: u32) -> (r: Option<&DockNode<S, R>>)
        ensures
            match r {
                Some(n) => spec_find(self@, target) == Some(n@),
                None => spec_find(self@, target) is None,
            },
        decreases self,
    {
        if self.id() == target {
            return Some(self);
        }
        match self {
            DockNode::Split { first, second, .. } => {
                match first.find(target) {
                    Some(f) => Some(f),
                    None => second.find(target),
                }
            },
            _ => None,
        }
    }

    /// The group holding `panel`, the panel's first position in it and the
    /// group's tab count.
    pub fn find_tab(&self, panel: Panel) -> (r: Option<(u32, usize, usize)>)
        ensures
            match spec_tab_group(self@, panel) {
                Some((g, tabs)) => (r matches Some((id, index, len)) && id == g && len == tabs.len()
                    && index < len && tabs[index as int] == panel
                    && forall|j: int| 0 <= j < index ==> tabs[j] != panel),
                None => r is None,
            },
        decreases self,
    {
        match self {
            DockNode::Tabs { id, panels, .. } => {
                match first_position(panels.as_slice(), panel) {
                    Some(i) => Some((*id, i, panels.len())),
                    None => None,
                }
            },
            DockNode::Split { first, second, .. } => {
                match first.find_tab(panel) {
                    Some(t) => Some(t),
                    None => second.find_tab(panel),
                }
            },
        }
    }

    /// Records this subtree's identities and panels the way a workspace is
    /// validated (see `check_shape`); `ratio_ok` judges each split's ratio.
    pub fn check<F: Fn(&R) -> bool>(&self, ids: &mut Vec<u32>, panels: &mut Vec<Panel>, depth: usize, ratio_ok: &F) -> (r: Result<(), DockError>)
        requires
            forall|x: &R| ratio_ok.requires((x,)),
            forall|x: &R, a: bool, b: bool| ratio_ok.ensures((x,), a) && ratio_ok.ensures((x,), b) ==> a == b,
        ensures
            match check_shape(self@, old(ids)@, old(panels)@, depth as int, |x: R| ratio_ok.ensures((&x,), true)) {
                Ok((i, p)) => r is Ok && final(ids)@ == i && final(panels)@ == p,
                Err(e) => r == Err::<(), DockError>(e),
            },
        decreases self,
    {
        let id = self.id();
        if depth > MAX_DOCK_DEPTH || contains_id(ids.as_slice(), id) {
            return Err(DockError::InvalidIdentity);
        }
        ids.push(id);
        match self {
            DockNode::Tabs { panels: tabs, active, .. } => {
                if tabs.len() == 0 || !contains_panel(tabs.as_slice(), *active) {
                    return Err(DockError::InvalidTabSelection);
                }
                if record_tabs(panels, tabs.as_slice()) {
                    Ok(())
                } else {
                    Err(DockError::DuplicatePanel)
                }
            },
            DockNode::Split { fraction, first, second, .. } => {
                if !ratio_ok(fraction) {
                    return Err(DockError::InvalidSplitRatio);
                }
                match first.check(ids, panels, depth + 1, ratio_ok) {
                    Ok(()) => second.check(ids, panels, depth + 1, ratio_ok),
                    Err(e) => Err(e),
                }
            },
        }
    }

    /// Gives the subtree fresh identities in preorder, starting at `next`.
    /// Returns the renumbered subtree and the next unused identity.
    pub fn renumber(self, next: u32) -> (r: Result<(DockNode<S, R>, u32), DockError>)
        ensures
            match spec_renumber(self@, next) {
                Some((m, after)) => r matches Ok((n, a)) && n@ == m && a == after,
                None => r == Err::<(DockNode<S, R>, u32), DockError>(DockError::IdentitiesExhausted),
            },
        decreases self,
    {
        if next == 0xffff_ffff {
            return Err(DockError::IdentitiesExhausted);
        }
        match self {
            DockNode::Tabs { panels, active, tab_style, .. } => {
                Ok((DockNode::Tabs { id: next, panels, active, tab_style }, next + 1))
            },
            DockNode::Split { axis, fraction, first, second, .. } => {
                let (f, n1) = match (*first).renumber(next + 1) {
                    Ok(x) => x,
                    Err(e) => return Err(e),
                };
                let (s, n2) = match (*second).renumber(n1) {
                    Ok(x) => x,
                    Err(e) => return Err(e),
                };
                Ok((DockNode::Split { id: next, axis, fraction, first: Box::new(f), second: Box::new(s) }, n2))
            },
        }
    }

    /// Takes `panel` out of the subtree; `None` when nothing remains.
    pub fn remove(self, panel: Panel) -> (r: Option<DockNode<S, R>>)
        ensures
            match r {
                Some(n) => spec_remove(self@, panel) == Some(n@),
                None => spec_remove(self@, panel) is None,
            },
        decreases self,
    {
        match self {
            DockNode::Tabs { id, panels, active, tab_style } => {
                let kept = without_panel(&panels, panel);
                if kept.len() == 0 {
                    return None;
                }
                let active = if active == panel { kept[0] } else { active };
                Some(DockNode::Tabs { id, panels: kept, active, tab_style })
            },
            DockNode::Split { id, axis, fraction, first, second } => {
                let f = (*first).remove(panel);
                let s = (*second).remove(panel);
                match f {
                    Some(f) => match s {
                        Some(s) => Some(DockNode::Split {
                            id,
                            axis,
                            fraction,
                            first: Box::new(f),
                            second: Box::new(s),
                        }),
                        None => Some(f),
                    },
                    None => s,
                }
            },
        }
    }
}

/// Records `tabs` one by one after `panels`; false as soon as a tab is
/// already recorded when it is reached.
fn record_tabs(panels: &mut Vec<Panel>, tabs: &[Panel]) -> (r: bool)
    ensures
        r == !repeats_recorded(old(panels)@, tabs@),
        r ==> final(panels)@ == old(panels)@ + tabs@,
{
    let ghost start = panels@;
    let mut k: usize = 0;
    while k < tabs.len()
        invariant
            k <= tabs@.len(),
            start == old(panels)@,
            panels@ == start + tabs@.subrange(0, k as int),
            forall|a: int| 0 <= a < k ==> !(#[trigger] (start + tabs@.subrange(0, a)).contains(tabs@[a])),
        decreases tabs@.len() - k,
    {
        let panel = tabs[k];
        if contains_panel(panels.as_slice(), panel) {
            assert((start + tabs@.subrange(0, k as int)).contains(tabs@[k as int]));
            return false;
        }
        panels.push(panel);
        proof {
            assert(panels@ =~= start + tabs@.subrange(0, k as int + 1));
        }
        k = k + 1;
    }
    assert(tabs@.subrange(0, tabs@.len() as int) =~= tabs@);
    true
}

/// The first position of `panel` in `panels`.
fn first_position(panels: &[Panel], panel: Panel) -> (r: Option<usize>)
    ensures
        match r {
            Some(i) => i < panels@.len() && panels@[i as int] == panel
                && forall|j: int| 0 <= j < i ==> panels@[j] != panel,
            None => !panels@.contains(panel),
        },
{
    let mut i: usize = 0;
    while i < panels.len()
        invariant
            i <= panels@.len(),
            forall|j: int| 0 <= j < i ==> panels@[j] != panel,
        decreases panels@.len() - i,
    {
        if panels[i] == panel {
            return Some(i);
        }
        i = i + 1;
    }
    None
}

/// Whether `ids` holds `id`.
pub(crate) fn contains_id(ids: &[u32], id: u32) -> (r: bool)
    ensures
        r == ids@.contains(id),
{
    let mut i: usize = 0;
    while i < ids.len()
        invariant
            i <= ids@.len(),
            forall|j: int| 0 <= j < i ==> ids@[j] != id,
        decreases ids@.len() - i,
    {
        if ids[i] == id {
            return true;
        }
        i = i + 1;
    }
    false
}

/// Whether `panels` holds `panel`.
pub fn contains_panel(panels: &[Panel], panel: Panel) -> (r: bool)
    ensures
        r == panels@.contains(panel),
{
    let mut i: usize = 0;
    while i < panels.len()
        invariant
            i <= panels@.len(),
            forall|j: int| 0 <= j < i ==> panels@[j] != panel,
        decreases panels@.len() - i,
    {
        if panels[i] == panel {
            return true;
        }
        i = i + 1;
    }
    false
}

fn without_panel(panels: &Vec<Panel>, panel: Panel) -> (r: Vec<Panel>)
    ensures
        r@ == without(panels@, panel),
{
    let mut kept: Vec<Panel> = Vec::new();
    let mut i: usize = 0;
    while i < panels.len()
        invariant
            i <= panels@.len(),
            kept@ == without(panels@.subrange(0, i as int), panel),
        decreases panels@.len() - i,
    {
        let ghost pre = panels@.subrange(0, i as int + 1);
        assert(pre.drop_last() =~= panels@.subrange(0, i as int));
        if panels[i] != panel {
            kept.push(panels[i]);
        }
        i = i + 1;
    }
    assert(panels@.subrange(0, panels@.len() as int) =~= panels@);
    kept
}

/// Columns shown together, identified by their root nodes; `drawers` shows
/// them as drawers instead of full columns.
#[derive(Clone, Debug)]
pub struct ColumnStack {
    pub columns: Vec<u32>,
    pub drawers: bool,
}

impl ColumnStack {
    /// A new stack of the one column rooted at `column`, shown in full.
    pub fn single(column: u32) -> (s: ColumnStack)
        ensures
            s.columns@ == seq![column],
            !s.drawers,
    {
        ColumnStack { columns: vec![column], drawers: false }
    }
}

/// The first root holding a node `target`, in order: the node found.
pub open spec fn forest_find<S, R>(roots: Seq<DockShape<S, R>>, target: u32) -> Option<DockShape<S, R>>
    decreases roots.len(),
{
    if roots.len() == 0 {
        None
    } else {
        match spec_find(roots[0], target) {
            Some(n) => Some(n),
            None => forest_find(roots.drop_first(), target),
        }
    }
}

/// The group holding `panel` in the first root that holds it.
pub open spec fn forest_group_for<S, R>(roots: Seq<DockShape<S, R>>, panel: Panel) -> Option<(u32, Panel)>
    decreases roots.len(),
{
    if roots.len() == 0 {
        None
    } else {
        match spec_group_for(roots[0], panel) {
            Some(g) => Some(g),
            None => forest_group_for(roots.drop_first(), panel),
        }
    }
}

/// The subtree with the first node `target` made to show `panel`, when that
/// node is a tab group holding `panel`; otherwise the subtree unchanged.
pub open spec fn spec_select<S, R>(n: DockShape<S, R>, target: u32, panel: Panel) -> DockShape<S, R>
    decreases n,
{
    if shape_id(n) == target {
        match n {
            DockShape::Tabs { id, panels, active, tab_style } => if panels.contains(panel) {
                DockShape::Tabs { id, panels, active: panel, tab_style }
            } else {
                n
            },
            _ => n,
        }
    } else {
        match n {
            DockShape::Split { id, axis, fraction, first, second } => if spec_find(*first, target) is Some {
                DockShape::Split { id, axis, fraction, first: Box::new(spec_select(*first, target, panel)), second }
            } else {
                DockShape::Split { id, axis, fraction, first, second: Box::new(spec_select(*second, target, panel)) }
            },
            _ => n,
        }
    }
}

/// The roots with the node `target` of the first root holding it made to
/// show `panel` (see `spec_select`).
pub open spec fn forest_select<S, R>(roots: Seq<DockShape<S, R>>, target: u32, panel: Panel) -> Seq<DockShape<S, R>>
    decreases roots.len(),
{
    if roots.len() == 0 {
        roots
    } else if spec_find(roots[0], target) is Some {
        roots.update(0, spec_select(roots[0], target, panel))
    } else {
        seq![roots[0]] + forest_select(roots.drop_first(), target, panel)
    }
}

/// The shapes of a list of roots.
pub open spec fn shapes<S, R>(roots: Seq<DockNode<S, R>>) -> Seq<DockShape<S, R>> {
    Seq::new(roots.len(), |i: int| roots[i]@)
}

/// Why a tab request was refused.
#[derive(Clone, Copy, Debug, PartialEq, Eq, Structural)]
pub enum TabError {
    /// The group is not a tab group of the workspace.
    UnknownGroup,
    /// The panel is not a tab of the group.
    NotInGroup,
}

impl TabError {
    pub fn message(self) -> (m: &'static str)
        ensures
            self == TabError::UnknownGroup ==> m@ == "Unknown tab group"@,
            self == TabError::NotInGroup ==> m@ == "Panel is not in this tab group"@,
    {
        match self {
            TabError::UnknownGroup => "Unknown tab group",
            TabError::NotInGroup => "Panel is not in this tab group",
        }
    }
}

impl<S, R> DockNode<S, R> {
    /// Makes the first node `target` show `panel` when it is a tab group
    /// holding `panel`; returns the subtree and, for such a group, whether
    /// its active tab changed.
    pub fn select(self, target: u32, panel: Panel) -> (r: (DockNode<S, R>, Option<bool>))
        ensures
            r.0@ == spec_select(self@, target, panel),
            r.1 == (match spec_find(self@, target) {
                Some(DockShape::Tabs { panels, active, .. }) => if panels.contains(panel) { Some(active != panel) } else { None },
                _ => None,
            }),
        decreases self,
    {
        if self.id() == target {
            match self {
                DockNode::Tabs { id, panels, active, tab_style } => {
                    if contains_panel(panels.as_slice(), panel) {
                        let changed = active != panel;
                        (DockNode::Tabs { id, panels, active: panel, tab_style }, Some(changed))
                    } else {
                        (DockNode::Tabs { id, panels, active, tab_style }, None)
                    }
                },
                DockNode::Split { id, axis, fraction, first, second } => {
                    (DockNode::Split { id, axis, fraction, first, second }, None)
                },
            }
        } else {
            match self {
                DockNode::Split { id, axis, fraction, first, second } => {
                    if first.find(target).is_some() {
                        let (f, c) = (*first).select(target, panel);
                        (DockNode::Split { id, axis, fraction, first: Box::new(f), second }, c)
                    } else {
                        let (t, c) = (*second).select(target, panel);
                        (DockNode::Split { id, axis, fraction, first, second: Box::new(t) }, c)
                    }
                },
                DockNode::Tabs { id, panels, active, tab_style } => {
                    (DockNode::Tabs { id, panels, active, tab_style }, None)
                },
            }
        }
    }
}

/// The group holding `panel` among the workspace's roots (bands first, then
/// floating groups) and its active tab.
pub fn workspace_group_for<S, R>(roots: &Vec<DockNode<S, R>>, panel: Panel) -> (r: Option<(u32, Panel)>)
    ensures
        r == forest_group_for(shapes(roots@), panel),
{
    let mut i: usize = 0;
    assert(shapes(roots@).subrange(0, roots@.len() as int) =~= shapes(roots@));
    while i < roots.len()
        invariant
            i <= roots@.len(),
            forest_group_for(shapes(roots@), panel) == forest_group_for(shapes(roots@).subrange(i as int, roots@.len() as int), panel),
        decreases roots@.len() - i,
    {
        let ghost rest = shapes(roots@).subrange(i as int, roots@.len() as int);
        assert(rest[0] == roots@[i as int]@);
        assert(rest.drop_first() =~= shapes(roots@).subrange(i as int + 1, roots@.len() as int));
        match roots[i].group_for(panel) {
            Some(g) => {
                return Some(g);
            },
            None => {},
        }
        i = i + 1;
    }
    None
}

/// The tab group holding `panel`.
pub fn panel_group<S, R>(roots: &Vec<DockNode<S, R>>, panel: Panel) -> (r: Option<u32>)
    ensures
        r == (match forest_group_for(shapes(roots@), panel) {
            Some((g, _)) => Some(g),
            None => None,
        }),
{
    match workspace_group_for(roots, panel) {
        Some((g, _)) => Some(g),
        None => None,
    }
}

/// The active tab of the group holding `panel`.
pub fn active_panel<S, R>(roots: &Vec<DockNode<S, R>>, panel: Panel) -> (r: Option<Panel>)
    ensures
        r == (match forest_group_for(shapes(roots@), panel) {
            Some((_, a)) => Some(a),
            None => None,
        }),
{
    match workspace_group_for(roots, panel) {
        Some((_, a)) => Some(a),
        None => None,
    }
}

/// The node `target` of the first root holding it.
pub fn workspace_node<S, R>(roots: &Vec<DockNode<S, R>>, target: u32) -> (r: Option<&DockNode<S, R>>)
    ensures
        match r {
            Some(n) => forest_find(shapes(roots@), target) == Some(n@),
            None => forest_find(shapes(roots@), target) is None,
        },
{
    let mut i: usize = 0;
    assert(shapes(roots@).subrange(0, roots@.len() as int) =~= shapes(roots@));
    while i < roots.len()
        invariant
            i <= roots@.len(),
            forest_find(shapes(roots@), target) == forest_find(shapes(roots@).subrange(i as int, roots@.len() as int), target),
        decreases roots@.len() - i,
    {
        let ghost rest = shapes(roots@).subrange(i as int, roots@.len() as int);
        assert(rest[0] == roots@[i as int]@);
        assert(rest.drop_first() =~= shapes(roots@).subrange(i as int + 1, roots@.len() as int));
        match roots[i].find(target) {
            Some(n) => {
                return Some(n);
            },
            None => {},
        }
        i = i + 1;
    }
    None
}

/// The tabs of tab group `group`.
pub fn group_panels<S, R>(roots: &Vec<DockNode<S, R>>, group: u32) -> (r: Result<&Vec<Panel>, TabError>)
    ensures
        match forest_find(shapes(roots@), group) {
            Some(DockShape::Tabs { panels, .. }) => (r matches Ok(p) && p@ == panels),
            _ => r == Err::<&Vec<Panel>, TabError>(TabError::UnknownGroup),
        },
{
    match workspace_node(roots, group) {
        Some(DockNode::Tabs { panels, .. }) => Ok(panels),
        _ => Err(TabError::UnknownGroup),
    }
}

/// Shows `panel` in tab group `group`; returns whether the active tab
/// changed. Refused unless the group's node is a tab group holding `panel`.
pub fn select_tab<S, R>(roots: &mut Vec<DockNode<S, R>>, group: u32, panel: Panel) -> (r: Result<bool, TabError>)
    ensures
        match forest_find(shapes(old(roots)@), group) {
            Some(DockShape::Tabs { panels, active, .. }) => if panels.contains(panel) {
                r == Ok::<bool, TabError>(active != panel) && shapes(final(roots)@) == forest_select(shapes(old(roots)@), group, panel)
            } else {
                r == Err::<bool, TabError>(TabError::NotInGroup) && final(roots)@ == old(roots)@
            },
            _ => r == Err::<bool, TabError>(TabError::NotInGroup) && final(roots)@ == old(roots)@,
        },
{
    let ghost start = shapes(roots@);
    let mut i: usize = 0;
    while i < roots.len() && roots[i].find(group).is_none()
        invariant
            i <= roots@.len(),
            roots@ == old(roots)@,
            start == shapes(roots@),
            forall|j: int| 0 <= j < i ==> spec_find(#[trigger] start[j], group) is None,
        decreases roots@.len() - i,
    {
        i = i + 1;
    }
    proof {
        lemma_forest_skip(start, i as int, group, panel);
    }
    if i == roots.len() {
        assert(start.subrange(i as int, start.len() as int).len() == 0);
        return Err(TabError::NotInGroup);
    }
    let found = match roots[i].find(group) {
        Some(DockNode::Tabs { panels, .. }) => contains_panel(panels.as_slice(), panel),
        _ => false,
    };
    if !found {
        return Err(TabError::NotInGroup);
    }
    let taken = roots.remove(i);
    let (node, changed) = taken.select(group, panel);
    roots.insert(i, node);
    proof {
        assert(shapes(roots@) =~= start.update(i as int, spec_select(start[i as int], group, panel)));
    }
    match changed {
        Some(c) => Ok(c),
        None => Err(TabError::NotInGroup),
    }
}

proof fn lemma_forest_skip<S, R>(roots: Seq<DockShape<S, R>>, i: int, target: u32, panel: Panel)
    requires
        0 <= i <= roots.len(),
        forall|j: int| 0 <= j < i ==> spec_find(#[trigger] roots[j], target) is None,
    ensures
        forest_find(roots, target) == forest_find(roots.subrange(i, roots.len() as int), target),
        i < roots.len() && spec_find(roots[i], target) is Some ==> forest_find(roots, target) == spec_find(roots[i], target)
            && forest_select(roots, target, panel) == roots.update(i, spec_select(roots[i], target, panel)),
    decreases i,
{
    if i == 0 {
        assert(roots.subrange(0, roots.len() as int) =~= roots);
    } else {
        let rest = roots.drop_first();
        assert forall|j: int| 0 <= j < i - 1 implies spec_find(#[trigger] rest[j], target) is None by {
            assert(rest[j] == roots[j + 1]);
        }
        lemma_forest_skip(rest, i - 1, target, panel);
        assert(rest.subrange(i - 1, rest.len() as int) =~= roots.subrange(i, roots.len() as int));
        assert(spec_find(roots[0], target) is None);
        if i < roots.len() && spec_find(roots[i], target) is Some {
            assert(rest[i - 1] == roots[i]);
            assert(seq![roots[0]] + rest.update(i - 1, spec_select(roots[i], target, panel)) =~= roots.update(i, spec_select(roots[i], target, panel)));
        }
    }
}

/// A docked band along a window edge; `X` is its host-measured extent.
#[derive(Debug)]
pub struct DockBand<S, R, X> {
    pub id: u32,
    pub edge: Edge,
    pub extent: X,
    pub root: DockNode<S, R>,
}

/// One step of a docking arrangement read without sizes and without how
/// splits of one axis are nested.
#[derive(Clone, Debug, PartialEq, Eq)]
pub enum PlacementPart {
    Band(Edge),
    Split(Axis),
    Tabs(u32, Vec<Panel>),
    End,
}

/// The mathematical form of a placement step.
pub enum PlacementStep {
    Band(Edge),
    Split(Axis),
    Tabs(u32, Seq<Panel>),
    End,
}

impl View for PlacementPart {
    type V = PlacementStep;

    open spec fn view(&self) -> PlacementStep {
        match self {
            PlacementPart::Band(e) => PlacementStep::Band(*e),
            PlacementPart::Split(a) => PlacementStep::Split(*a),
            PlacementPart::Tabs(id, panels) => PlacementStep::Tabs(*id, panels@),
            PlacementPart::End => PlacementStep::End,
        }
    }
}

pub open spec fn steps(parts: Seq<PlacementPart>) -> Seq<PlacementStep> {
    Seq::new(parts.len(), |i: int| parts[i]@)
}

/// The placement of a subtree inside a split of axis `parent`: tab groups in
/// reading order, and a split only where its axis differs from its parent's.
pub open spec fn spec_placement<S, R>(n: DockShape<S, R>, parent: Option<Axis>) -> Seq<PlacementStep>
    decreases n,
{
    match n {
        DockShape::Tabs { id, panels, .. } => seq![PlacementStep::Tabs(id, panels)],
        DockShape::Split { axis, first, second, .. } => {
            let inner = spec_placement(*first, Some(axis)) + spec_placement(*second, Some(axis));
            if parent != Some(axis) {
                seq![PlacementStep::Split(axis)] + inner + seq![PlacementStep::End]
            } else {
                inner
            }
        },
    }
}

/// The placement of every band: its edge, its tree, and an end mark.
pub open spec fn spec_docking<S, R, X>(bands: Seq<DockBand<S, R, X>>) -> Seq<PlacementStep>
    decreases bands.len(),
{
    if bands.len() == 0 {
        Seq::empty()
    } else {
        let last = bands.last();
        spec_docking(bands.drop_last()) + seq![PlacementStep::Band(last.edge)]
            + spec_placement(last.root@, None) + seq![PlacementStep::End]
    }
}

/// `A | (B | C)` and `(A | B) | C` along one axis are the same placement.
pub proof fn lemma_placement_associative<S, R>(
    a: DockShape<S, R>, b: DockShape<S, R>, c: DockShape<S, R>,
    axis: Axis, outer: u32, inner: u32, f1: R, f2: R, parent: Option<Axis>,
)
    ensures
        spec_placement(DockShape::Split { id: outer, axis, fraction: f1, first: Box::new(a),
            second: Box::new(DockShape::Split { id: inner, axis, fraction: f2, first: Box::new(b), second: Box::new(c) }) }, parent)
        == spec_placement(DockShape::Split { id: outer, axis, fraction: f1,
            first: Box::new(DockShape::Split { id: inner, axis, fraction: f2, first: Box::new(a), second: Box::new(b) }),
            second: Box::new(c) }, parent),
{
    let pa = spec_placement(a, Some(axis));
    let pb = spec_placement(b, Some(axis));
    let pc = spec_placement(c, Some(axis));
    let bc = DockShape::Split { id: inner, axis, fraction: f2, first: Box::new(b), second: Box::new(c) };
    let ab = DockShape::Split { id: inner, axis, fraction: f2, first: Box::new(a), second: Box::new(b) };
    let l = DockShape::Split { id: outer, axis, fraction: f1, first: Box::new(a), second: Box::new(bc) };
    let r = DockShape::Split { id: outer, axis, fraction: f1, first: Box::new(ab), second: Box::new(c) };
    assert(spec_placement(bc, Some(axis)) == pb + pc);
    assert(spec_placement(ab, Some(axis)) == pa + pb);
    assert(pa + (pb + pc) =~= (pa + pb) + pc);
    if parent != Some(axis) {
        assert(spec_placement(l, parent) == seq![PlacementStep::Split(axis)] + (pa + (pb + pc)) + seq![PlacementStep::End]);
        assert(spec_placement(r, parent) == seq![PlacementStep::Split(axis)] + ((pa + pb) + pc) + seq![PlacementStep::End]);
    } else {
        assert(spec_placement(l, parent) == pa + (pb + pc));
        assert(spec_placement(r, parent) == (pa + pb) + pc);
    }
}

pub(crate) fn copy_panels(panels: &Vec<Panel>) -> (r: Vec<Panel>)
    ensures
        r@ == panels@,
{
    let mut r: Vec<Panel> = Vec::new();
    let mut i: usize = 0;
    while i < panels.len()
        invariant
            i <= panels@.len(),
            r@ == panels@.subrange(0, i as int),
        decreases panels@.len() - i,
    {
        r.push(panels[i]);
        i = i + 1;
        assert(r@ =~= panels@.subrange(0, i as int));
    }
    assert(panels@.subrange(0, panels@.len() as int) =~= panels@);
    r
}

impl<S, R> DockNode<S, R> {
    /// Appends this subtree's placement inside a split of axis `parent`.
    pub fn append_placement(&self, parent: Option<Axis>, out: &mut Vec<PlacementPart>)
        ensures
            steps(final(out)@) == steps(old(out)@) + spec_placement(self@, parent),
        decreases self,
    {
        match self {
            DockNode::Tabs { id, panels, .. } => {
                let ghost before = out@;
                out.push(PlacementPart::Tabs(*id, copy_panels(panels)));
                assert(steps(out@) =~= steps(before) + spec_placement(self@, parent));
            },
            DockNode::Split { axis, first, second, .. } => {
                let nested = match parent {
                    Some(p) => p != *axis,
                    None => true,
                };
                let ghost s0 = steps(out@);
                if nested {
                    out.push(PlacementPart::Split(*axis));
                }
                let ghost s1 = steps(out@);
                first.append_placement(Some(*axis), out);
                second.append_placement(Some(*axis), out);
                let ghost s2 = steps(out@);
                if nested {
                    out.push(PlacementPart::End);
                }
                proof {
                    let inner = spec_placement(first@, Some(*axis)) + spec_placement(second@, Some(*axis));
                    assert(s2 =~= s1 + inner);
                    if nested {
                        assert(s1 =~= s0 + seq![PlacementStep::Split(*axis)]);
                        assert(steps(out@) =~= s2 + seq![PlacementStep::End]);
                        assert(steps(out@) =~= s0 + (seq![PlacementStep::Split(*axis)] + inner + seq![PlacementStep::End]));
                    } else {
                        assert(s1 =~= s0);
                        assert(parent == Some(*axis));
                    }
                }
            },
        }
    }
}

/// The placement of every band, in order.
pub fn docking_placement<S, R, X>(bands: &Vec<DockBand<S, R, X>>) -> (r: Vec<PlacementPart>)
    ensures
        steps(r@) == spec_docking(bands@),
{
    let mut out: Vec<PlacementPart> = Vec::new();
    let mut i: usize = 0;
    while i < bands.len()
        invariant
            i <= bands@.len(),
            steps(out@) == spec_docking(bands@.subrange(0, i as int)),
        decreases bands@.len() - i,
    {
        let ghost before = steps(out@);
        out.push(PlacementPart::Band(bands[i].edge));
        let ghost s1 = steps(out@);
        assert(s1 =~= before + seq![PlacementStep::Band(bands@[i as int].edge)]);
        bands[i].root.append_placement(None, &mut out);
        let ghost s2 = steps(out@);
        out.push(PlacementPart::End);
        proof {
            assert(steps(out@) =~= s2 + seq![PlacementStep::End]);
            let next = bands@.subrange(0, i as int + 1);
            assert(next.drop_last() =~= bands@.subrange(0, i as int));
            assert(next.last() == bands@[i as int]);
            assert(steps(out@) =~= spec_docking(next));
        }
        i = i + 1;
    }
    assert(bands@.subrange(0, bands@.len() as int) =~= bands@);
    out
}

fn same_panels(a: &Vec<Panel>, b: &Vec<Panel>) -> (r: bool)
    ensures
        r == (a@ == b@),
{
    if a.len() != b.len() {
        return false;
    }
    let mut i: usize = 0;
    while i < a.len()
        invariant
            a@.len() == b@.len(),
            i <= a@.len(),
            forall|j: int| 0 <= j < i ==> a@[j] == b@[j],
        decreases a@.len() - i,
    {
        if a[i] != b[i] {
            return false;
        }
        i = i + 1;
    }
    assert(a@ =~= b@);
    true
}

fn same_part(a: &PlacementPart, b: &PlacementPart) -> (r: bool)
    ensures
        r == (a@ == b@),
{
    match (a, b) {
        (PlacementPart::Band(x), PlacementPart::Band(y)) => *x == *y,
        (PlacementPart::Split(x), PlacementPart::Split(y)) => *x == *y,
        (PlacementPart::Tabs(i, p), PlacementPart::Tabs(j, q)) => *i == *j && same_panels(p, q),
        (PlacementPart::End, PlacementPart::End) => true,
        _ => false,
    }
}

/// Whether two sets of bands dock the same panels in the same arrangement,
/// ignoring sizes and how splits of one axis are nested.
pub fn same_docking<S, R, X>(a: &Vec<DockBand<S, R, X>>, b: &Vec<DockBand<S, R, X>>) -> (r: bool)
    ensures
        r == (spec_docking(a@) == spec_docking(b@)),
{
    let pa = docking_placement(a);
    let pb = docking_placement(b);
    if pa.len() != pb.len() {
        assert(steps(pa@).len() != steps(pb@).len());
        assert(spec_docking(a@) != spec_docking(b@));
        return false;
    }
    let mut i: usize = 0;
    while i < pa.len()
        invariant
            pa@.len() == pb@.len(),
            i <= pa@.len(),
            steps(pa@) == spec_docking(a@),
            steps(pb@) == spec_docking(b@),
            forall|j: int| 0 <= j < i ==> steps(pa@)[j] == steps(pb@)[j],
        decreases pa@.len() - i,
    {
        if !same_part(&pa[i], &pb[i]) {
            assert(steps(pa@)[i as int] != steps(pb@)[i as int]);
            assert(spec_docking(a@) != spec_docking(b@)) by {
                if spec_docking(a@) == spec_docking(b@) {
                    assert(steps(pa@)[i as int] == steps(pb@)[i as int]);
                }
            }
            return false;
        }
        i = i + 1;
    }
    assert(steps(pa@) =~= steps(pb@));
    true
}

/// Selecting a tab changes no group's tabs and no identity.
pub proof fn lemma_select_keeps_layout<S, R>(n: DockShape<S, R>, target: u32, panel: Panel)
    ensures
        shape_panels(spec_select(n, target, panel)) == shape_panels(n),
        shape_ids(spec_select(n, target, panel)) == shape_ids(n),
    decreases n,
{
    match n {
        DockShape::Tabs { .. } => {},
        DockShape::Split { first, second, .. } => {
            lemma_select_keeps_layout(*first, target, panel);
            lemma_select_keeps_layout(*second, target, panel);
        },
    }
}

/// The column holding node `group` in a subtree whose column is `column`:
/// the closest horizontal split above the node starts a separate column,
/// vertical splits stack groups within one.
pub open spec fn spec_column_in<S, R>(n: DockShape<S, R>, group: u32, column: u32) -> Option<u32>
    decreases n,
{
    if shape_id(n) == group {
        Some(column)
    } else {
        match n {
            DockShape::Split { axis, first, second, .. } => {
                let c1 = if axis == Axis::Horizontal { shape_id(*first) } else { column };
                let c2 = if axis == Axis::Horizontal { shape_id(*second) } else { column };
                match spec_column_in(*first, group, c1) {
                    Some(c) => Some(c),
                    None => spec_column_in(*second, group, c2),
                }
            },
            _ => None,
        }
    }
}

/// The roots of the bands.
pub open spec fn band_roots<S, R, X>(bands: Seq<DockBand<S, R, X>>) -> Seq<DockShape<S, R>> {
    Seq::new(bands.len(), |i: int| bands[i].root@)
}

/// The first band whose tree holds node `target`.
pub open spec fn first_band_with<S, R, X>(bands: Seq<DockBand<S, R, X>>, target: u32) -> Option<int>
    decreases bands.len(),
{
    if bands.len() == 0 {
        None
    } else if spec_find(bands[0].root@, target) is Some {
        Some(0)
    } else {
        match first_band_with(bands.drop_first(), target) {
            Some(i) => Some(i + 1),
            None => None,
        }
    }
}

/// The side column holding tab group `group`: `group` must be a tab group of
/// the workspace (bands first, then floating groups) in a left or right
/// band; a lone toolbar keeps ribbon behaviour and has no column.
pub open spec fn spec_column_for_group<S, R, X>(bands: Seq<DockBand<S, R, X>>, floating: Seq<DockNode<S, R>>, group: u32) -> Option<u32> {
    match forest_find(band_roots(bands) + shapes(floating), group) {
        Some(DockShape::Tabs { .. }) => match first_band_with(bands, group) {
            Some(b) => {
                let band = bands[b];
                if !(band.edge == Edge::Left || band.edge == Edge::Right) {
                    None
                } else {
                    match spec_column_in(band.root@, group, shape_id(band.root@)) {
                        Some(root) => match spec_find(band.root@, root) {
                            Some(DockShape::Tabs { panels, active, .. }) =>
                                if panels.len() == 1 && spec_kind(active) == PanelKind::Tiles { None } else { Some(root) },
                            None => None,
                            _ => Some(root),
                        },
                        None => None,
                    }
                }
            },
            None => None,
        },
        _ => None,
    }
}

impl<S, R> DockNode<S, R> {
    /// The column holding node `group`, this subtree being column `column`.
    pub fn column_in(&self, group: u32, column: u32) -> (r: Option<u32>)
        ensures
            r == spec_column_in(self@, group, column),
        decreases self,
    {
        if self.id() == group {
            return Some(column);
        }
        match self {
            DockNode::Split { axis, first, second, .. } => {
                let horizontal = match axis {
                    Axis::Horizontal => true,
                    Axis::Vertical => false,
                };
                let c1 = if horizontal { first.id() } else { column };
                let c2 = if horizontal { second.id() } else { column };
                match first.column_in(group, c1) {
                    Some(c) => Some(c),
                    None => second.column_in(group, c2),
                }
            },
            _ => None,
        }
    }
}

proof fn lemma_first_band_skip<S, R, X>(bands: Seq<DockBand<S, R, X>>, i: int, target: u32)
    requires
        0 <= i <= bands.len(),
        forall|j: int| 0 <= j < i ==> spec_find(#[trigger] bands[j].root@, target) is None,
    ensures
        i < bands.len() && spec_find(bands[i].root@, target) is Some ==> first_band_with(bands, target) == Some(i),
        i == bands.len() ==> first_band_with(bands, target) is None,
    decreases i,
{
    if i > 0 {
        let rest = bands.drop_first();
        assert forall|j: int| 0 <= j < i - 1 implies spec_find(#[trigger] rest[j].root@, target) is None by {
            assert(rest[j] == bands[j + 1]);
        }
        lemma_first_band_skip(rest, i - 1, target);
        if i < bands.len() {
            assert(rest[i - 1] == bands[i]);
        }
    }
}

pub(crate) proof fn lemma_forest_concat<S, R>(a: Seq<DockShape<S, R>>, b: Seq<DockShape<S, R>>, target: u32)
    ensures
        forest_find(a + b, target) == match forest_find(a, target) {
            Some(n) => Some(n),
            None => forest_find(b, target),
        },
    decreases a.len(),
{
    if a.len() == 0 {
        assert(a + b =~= b);
    } else {
        assert((a + b).drop_first() =~= a.drop_first() + b);
        lemma_forest_concat(a.drop_first(), b, target);
    }
}

/// The workspace node `target`, bands first, then floating groups.
pub(crate) fn layout_node<'a, S, R, X>(bands: &'a Vec<DockBand<S, R, X>>, floating: &'a Vec<DockNode<S, R>>, target: u32) -> (r: Option<&'a DockNode<S, R>>)
    ensures
        match r {
            Some(n) => forest_find(band_roots(bands@) + shapes(floating@), target) == Some(n@),
            None => forest_find(band_roots(bands@) + shapes(floating@), target) is None,
        },
{
    proof {
        lemma_forest_concat(band_roots(bands@), shapes(floating@), target);
    }
    let mut i: usize = 0;
    assert(band_roots(bands@).subrange(0, bands@.len() as int) =~= band_roots(bands@));
    while i < bands.len()
        invariant
            i <= bands@.len(),
            forest_find(band_roots(bands@), target) == forest_find(band_roots(bands@).subrange(i as int, bands@.len() as int), target),
        decreases bands@.len() - i,
    {
        let ghost rest = band_roots(bands@).subrange(i as int, bands@.len() as int);
        assert(rest[0] == bands@[i as int].root@);
        assert(rest.drop_first() =~= band_roots(bands@).subrange(i as int + 1, bands@.len() as int));
        match bands[i].root.find(target) {
            Some(n) => {
                proof {
                    lemma_forest_concat(band_roots(bands@), shapes(floating@), target);
                }
                return Some(n);
            },
            None => {},
        }
        i = i + 1;
    }
    assert(band_roots(bands@).subrange(i as int, bands@.len() as int).len() == 0);
    workspace_node(floating, target)
}

/// The side column holding tab group `group` (see `spec_column_for_group`).
pub fn column_for_group<S, R, X>(bands: &Vec<DockBand<S, R, X>>, floating: &Vec<DockNode<S, R>>, group: u32) -> (r: Option<u32>)
    ensures
        r == spec_column_for_group(bands@, floating@, group),
{
    match layout_node(bands, floating, group) {
        Some(DockNode::Tabs { .. }) => {},
        _ => {
            return None;
        },
    }
    let mut i: usize = 0;
    while i < bands.len() && bands[i].root.find(group).is_none()
        invariant
            i <= bands@.len(),
            forall|j: int| 0 <= j < i ==> spec_find(#[trigger] bands@[j].root@, group) is None,
        decreases bands@.len() - i,
    {
        i = i + 1;
    }
    proof {
        lemma_first_band_skip(bands@, i as int, group);
    }
    if i == bands.len() {
        return None;
    }
    let band = &bands[i];
    let side = match band.edge {
        Edge::Left | Edge::Right => true,
        _ => false,
    };
    if !side {
        return None;
    }
    let root = match band.root.column_in(group, band.root.id()) {
        Some(c) => c,
        None => {
            return None;
        },
    };
    match band.root.find(root) {
        Some(DockNode::Tabs { panels, active, .. }) => {
            if panels.len() == 1 && active.kind() == PanelKind::Tiles {
                None
            } else {
                Some(root)
            }
        },
        None => None,
        _ => Some(root),
    }
}

/// The outermost collapsed column (its root is in `collapsed`) on the way
/// from this subtree down to node `group`.
pub open spec fn spec_visible_collapsed<S, R>(n: DockShape<S, R>, group: u32, collapsed: Seq<u32>) -> Option<u32>
    decreases n,
{
    if spec_find(n, group) is None {
        None
    } else if collapsed.contains(shape_id(n)) {
        Some(shape_id(n))
    } else {
        match n {
            DockShape::Split { first, second, .. } => match spec_visible_collapsed(*first, group, collapsed) {
                Some(c) => Some(c),
                None => spec_visible_collapsed(*second, group, collapsed),
            },
            _ => None,
        }
    }
}

/// The first band's collapsed column that shows node `group`.
pub open spec fn spec_collapsed_column_for_group<S, R, X>(bands: Seq<DockBand<S, R, X>>, group: u32, collapsed: Seq<u32>) -> Option<u32>
    decreases bands.len(),
{
    if bands.len() == 0 {
        None
    } else {
        match spec_visible_collapsed(bands[0].root@, group, collapsed) {
            Some(c) => Some(c),
            None => spec_collapsed_column_for_group(bands.drop_first(), group, collapsed),
        }
    }
}

pub(crate) fn holds_id(ids: &Vec<u32>, id: u32) -> (r: bool)
    ensures
        r == ids@.contains(id),
{
    let mut i: usize = 0;
    while i < ids.len()
        invariant
            i <= ids@.len(),
            forall|j: int| 0 <= j < i ==> ids@[j] != id,
        decreases ids@.len() - i,
    {
        if ids[i] == id {
            assert(ids@[i as int] == id);
            return true;
        }
        i = i + 1;
    }
    false
}

impl<S, R> DockNode<S, R> {
    /// The outermost collapsed column showing node `group` in this subtree.
    pub fn visible_collapsed(&self, group: u32, collapsed: &Vec<u32>) -> (r: Option<u32>)
        ensures
            r == spec_visible_collapsed(self@, group, collapsed@),
        decreases self,
    {
        if self.find(group).is_none() {
            return None;
        }
        if holds_id(collapsed, self.id()) {
            return Some(self.id());
        }
        match self {
            DockNode::Split { first, second, .. } => match first.visible_collapsed(group, collapsed) {
                Some(c) => Some(c),
                None => second.visible_collapsed(group, collapsed),
            },
            _ => None,
        }
    }
}

/// The collapsed column a collapsed tab group shows through: an expanded
/// column may hold collapsed subcolumns, and when its parent collapses too
/// only the outer strip is the visible anchor.
pub fn collapsed_column_for_group<S, R, X>(bands: &Vec<DockBand<S, R, X>>, group: u32, collapsed: &Vec<u32>) -> (r: Option<u32>)
    ensures
        r == spec_collapsed_column_for_group(bands@, group, collapsed@),
{
    let mut i: usize = 0;
    assert(bands@.subrange(0, bands@.len() as int) =~= bands@);
    while i < bands.len()
        invariant
            i <= bands@.len(),
            spec_collapsed_column_for_group(bands@, group, collapsed@)
                == spec_collapsed_column_for_group(bands@.subrange(i as int, bands@.len() as int), group, collapsed@),
        decreases bands@.len() - i,
    {
        let ghost rest = bands@.subrange(i as int, bands@.len() as int);
        assert(rest[0] == bands@[i as int]);
        assert(rest.drop_first() =~= bands@.subrange(i as int + 1, bands@.len() as int));
        match bands[i].root.visible_collapsed(group, collapsed) {
            Some(c) => {
                return Some(c);
            },
            None => {},
        }
        i = i + 1;
    }
    assert(bands@.subrange(i as int, bands@.len() as int).len() == 0);
    None
}

/// The mathematical form of a band.
pub struct BandShape<S, R, X> {
    pub id: u32,
    pub edge: Edge,
    pub extent: X,
    pub root: DockShape<S, R>,
}

pub open spec fn band_shape<S, R, X>(b: DockBand<S, R, X>) -> BandShape<S, R, X> {
    BandShape { id: b.id, edge: b.edge, extent: b.extent, root: b.root@ }
}

pub open spec fn band_shapes<S, R, X>(bands: Seq<DockBand<S, R, X>>) -> Seq<BandShape<S, R, X>> {
    Seq::new(bands.len(), |i: int| band_shape(bands[i]))
}

/// The subtree with each of `panels` removed in turn; `None` once nothing
/// remains.
pub open spec fn spec_remove_all<S, R>(n: DockShape<S, R>, panels: Seq<Panel>) -> Option<DockShape<S, R>>
    decreases panels.len(),
{
    if panels.len() == 0 {
        Some(n)
    } else {
        match spec_remove(n, panels[0]) {
            Some(m) => spec_remove_all(m, panels.drop_first()),
            None => None,
        }
    }
}

/// The bands with `panels` taken out; a band left empty disappears.
pub open spec fn spec_detach_bands<S, R, X>(bands: Seq<BandShape<S, R, X>>, panels: Seq<Panel>) -> Seq<BandShape<S, R, X>>
    decreases bands.len(),
{
    if bands.len() == 0 {
        Seq::empty()
    } else {
        let b = bands.last();
        let rest = spec_detach_bands(bands.drop_last(), panels);
        match spec_remove_all(b.root, panels) {
            Some(root) => rest.push(BandShape { id: b.id, edge: b.edge, extent: b.extent, root }),
            None => rest,
        }
    }
}

proof fn lemma_remove_all_step<S, R>(n: DockShape<S, R>, panels: Seq<Panel>, i: int)
    requires
        0 <= i < panels.len(),
    ensures
        spec_remove_all(n, panels.subrange(i, panels.len() as int)) == match spec_remove(n, panels[i]) {
            Some(m) => spec_remove_all(m, panels.subrange(i + 1, panels.len() as int)),
            None => None,
        },
{
    let t = panels.subrange(i, panels.len() as int);
    assert(t[0] == panels[i]);
    assert(t.drop_first() =~= panels.subrange(i + 1, panels.len() as int));
}

impl<S, R> DockNode<S, R> {
    /// Takes each of `panels` out of the subtree in turn.
    pub fn remove_all(self, panels: &[Panel]) -> (r: Option<DockNode<S, R>>)
        ensures
            match r {
                Some(n) => spec_remove_all(self@, panels@) == Some(n@),
                None => spec_remove_all(self@, panels@) is None,
            },
    {
        let ghost start = self@;
        let mut cur: Option<DockNode<S, R>> = Some(self);
        let mut i: usize = 0;
        assert(panels@.subrange(0, panels@.len() as int) =~= panels@);
        while i < panels.len()
            invariant
                i <= panels@.len(),
                match cur {
                    Some(n) => spec_remove_all(start, panels@) == spec_remove_all(n@, panels@.subrange(i as int, panels@.len() as int)),
                    None => spec_remove_all(start, panels@) is None,
                },
            decreases panels@.len() - i,
        {
            match cur {
                Some(n) => {
                    proof {
                        lemma_remove_all_step(n@, panels@, i as int);
                    }
                    cur = n.remove(panels[i]);
                },
                None => {
                    cur = None;
                },
            }
            i = i + 1;
        }
        match cur {
            Some(n) => {
                assert(panels@.subrange(i as int, panels@.len() as int) =~= Seq::<Panel>::empty());
                Some(n)
            },
            None => None,
        }
    }
}

/// Takes `panels` out of every band; a band left empty disappears and the
/// others keep their identity, edge and extent.
pub fn detach_bands<S, R, X>(bands: Vec<DockBand<S, R, X>>, panels: &[Panel]) -> (r: Vec<DockBand<S, R, X>>)
    ensures
        band_shapes(r@) == spec_detach_bands(band_shapes(bands@), panels@),
{
    let ghost all = band_shapes(bands@);
    let n = bands.len();
    let mut out: Vec<DockBand<S, R, X>> = Vec::new();
    let mut rest = bands;
    let mut i: usize = 0;
    while rest.len() > 0
        invariant
            i + rest@.len() == n,
            all.len() == n,
            band_shapes(rest@) == all.subrange(i as int, n as int),
            band_shapes(out@) == spec_detach_bands(all.subrange(0, i as int), panels@),
        decreases rest@.len(),
    {
        let ghost before_out = out@;
        let ghost before_rest = rest@;
        let b = rest.remove(0);
        proof {
            assert(band_shapes(before_rest)[0] == band_shape(b));
            assert(all[i as int] == band_shape(b));
            assert forall|j: int| 0 <= j < rest@.len() implies band_shapes(rest@)[j] == all.subrange(i as int + 1, n as int)[j] by {
                assert(rest@[j] == before_rest[j + 1]);
                assert(band_shapes(before_rest)[j + 1] == all.subrange(i as int, n as int)[j + 1]);
            }
            assert(band_shapes(rest@) =~= all.subrange(i as int + 1, n as int));
            let pre = all.subrange(0, i as int + 1);
            assert(pre.drop_last() =~= all.subrange(0, i as int));
            assert(pre.last() == band_shape(b));
        }
        let DockBand { id, edge, extent, root } = b;
        match root.remove_all(panels) {
            Some(root) => {
                out.push(DockBand { id, edge, extent, root });
                proof {
                    assert(band_shapes(out@) =~= band_shapes(before_out).push(band_shape(out@.last())));
                }
            },
            None => {},
        }
        i = i + 1;
    }
    assert(all.subrange(0, n as int) =~= all);
    out
}

/// The first band with identity `id`.
pub open spec fn band_index<S, R, X>(bands: Seq<BandShape<S, R, X>>, id: u32) -> Option<int>
    decreases bands.len(),
{
    if bands.len() == 0 {
        None
    } else if bands[0].id == id {
        Some(0)
    } else {
        match band_index(bands.drop_first(), id) {
            Some(i) => Some(i + 1),
            None => None,
        }
    }
}

pub(crate) proof fn lemma_band_index<S, R, X>(bands: Seq<BandShape<S, R, X>>, id: u32, i: int)
    requires
        0 <= i <= bands.len(),
        forall|j: int| 0 <= j < i ==> (#[trigger] bands[j]).id != id,
    ensures
        i < bands.len() && bands[i].id == id ==> band_index(bands, id) == Some(i),
        i == bands.len() ==> band_index(bands, id) is None,
    decreases i,
{
    if i > 0 {
        let rest = bands.drop_first();
        assert forall|j: int| 0 <= j < i - 1 implies (#[trigger] rest[j]).id != id by {
            assert(rest[j] == bands[j + 1]);
        }
        lemma_band_index(rest, id, i - 1);
        if i < bands.len() {
            assert(rest[i - 1] == bands[i]);
        }
    }
}

/// Moves band `id` first, giving it priority at the corners.
pub fn prioritize<S, R, X>(bands: &mut Vec<DockBand<S, R, X>>, id: u32) -> (r: Result<(), DockError>)
    ensures
        match band_index(band_shapes(old(bands)@), id) {
            Some(i) => r is Ok && band_shapes(final(bands)@)
                == seq![band_shapes(old(bands)@)[i]] + band_shapes(old(bands)@).remove(i),
            None => r == Err::<(), DockError>(DockError::UnknownDock) && final(bands)@ == old(bands)@,
        },
{
    let ghost start = band_shapes(bands@);
    let mut i: usize = 0;
    while i < bands.len() && bands[i].id != id
        invariant
            i <= bands@.len(),
            start == band_shapes(bands@),
            bands@ == old(bands)@,
            forall|j: int| 0 <= j < i ==> (#[trigger] start[j]).id != id,
        decreases bands@.len() - i,
    {
        i = i + 1;
    }
    proof {
        lemma_band_index(start, id, i as int);
    }
    if i == bands.len() {
        return Err(DockError::UnknownDock);
    }
    let band = bands.remove(i);
    let ghost rest = bands@;
    bands.insert(0, band);
    proof {
        assert(band_shapes(rest) =~= start.remove(i as int));
        assert(band_shapes(bands@) =~= seq![start[i as int]] + start.remove(i as int));
    }
    Ok(())
}

/// The bands renumbered in order from `next`: each band takes the next
/// identity, then its tree is renumbered (see `spec_renumber`); `None` when
/// identities run out.
pub open spec fn spec_renumber_bands<S, R, X>(bands: Seq<BandShape<S, R, X>>, next: u32) -> Option<(Seq<BandShape<S, R, X>>, u32)>
    decreases bands.len(),
{
    if bands.len() == 0 {
        Some((Seq::empty(), next))
    } else if next == u32::MAX {
        None
    } else {
        let b = bands[0];
        match spec_renumber(b.root, (next + 1) as u32) {
            Some((root, n1)) => match spec_renumber_bands(bands.drop_first(), n1) {
                Some((rest, n2)) => Some((seq![BandShape { id: next, edge: b.edge, extent: b.extent, root }] + rest, n2)),
                None => None,
            },
            None => None,
        }
    }
}

/// Gives every band and every node of its tree fresh identities from
/// `next`, in order, returning the bands and the next unused identity.
pub fn renumber_bands<S, R, X>(bands: Vec<DockBand<S, R, X>>, next: u32) -> (r: Result<(Vec<DockBand<S, R, X>>, u32), DockError>)
    ensures
        match spec_renumber_bands(band_shapes(bands@), next) {
            Some((b, after)) => (r matches Ok((v, a)) && band_shapes(v@) == b && a == after),
            None => r == Err::<(Vec<DockBand<S, R, X>>, u32), DockError>(DockError::IdentitiesExhausted),
        },
{
    let ghost all = band_shapes(bands@);
    let n = bands.len();
    let mut out: Vec<DockBand<S, R, X>> = Vec::new();
    let mut rest = bands;
    let mut cur = next;
    let mut i: usize = 0;
    proof {
        assert(all.subrange(0, n as int) =~= all);
        match spec_renumber_bands(all, next) {
            Some((b, a)) => {
                assert(band_shapes(out@) + b =~= b);
            },
            None => {},
        }
    }
    while rest.len() > 0
        invariant
            i + rest@.len() == n,
            all == band_shapes(bands@),
            all.len() == n,
            band_shapes(rest@) == all.subrange(i as int, n as int),
            spec_renumber_bands(all, next) == (match spec_renumber_bands(all.subrange(i as int, n as int), cur) {
                Some((b, after)) => Some((band_shapes(out@) + b, after)),
                None => None,
            }),
        decreases rest@.len(),
    {
        let ghost before_out = out@;
        let ghost before_rest = rest@;
        let ghost tail = all.subrange(i as int, n as int);
        let b = rest.remove(0);
        proof {
            assert(tail[0] == band_shape(b));
            assert(tail.drop_first() =~= all.subrange(i as int + 1, n as int));
            assert forall|j: int| 0 <= j < rest@.len() implies band_shapes(rest@)[j] == all.subrange(i as int + 1, n as int)[j] by {
                assert(rest@[j] == before_rest[j + 1]);
                assert(band_shapes(before_rest)[j + 1] == tail[j + 1]);
            }
            assert(band_shapes(rest@) =~= all.subrange(i as int + 1, n as int));
        }
        if cur == 0xffff_ffff {
            assert(spec_renumber_bands(tail, cur) is None);
            return Err(DockError::IdentitiesExhausted);
        }
        let DockBand { id: _, edge, extent, root } = b;
        let ghost root_shape = root@;
        assert(root_shape == tail[0].root);
        let (root, n1) = match root.renumber(cur + 1) {
            Ok(x) => x,
            Err(e) => {
                assert(spec_renumber(root_shape, (cur + 1) as u32) is None);
                assert(spec_renumber_bands(tail, cur) is None);
                return Err(e);
            },
        };
        let band = DockBand { id: cur, edge, extent, root };
        out.push(band);
        proof {
            assert(band_shapes(out@) =~= band_shapes(before_out).push(band_shape(band)));
            match spec_renumber_bands(all.subrange(i as int + 1, n as int), n1) {
                Some((bs, after)) => {
                    assert(band_shapes(before_out) + (seq![band_shape(band)] + bs) =~= band_shapes(out@) + bs);
                },
                None => {},
            }
        }
        cur = n1;
        i = i + 1;
    }
    assert(all.subrange(i as int, n as int) =~= Seq::<BandShape<S, R, X>>::empty());
    assert(band_shapes(out@) + Seq::<BandShape<S, R, X>>::empty() =~= band_shapes(out@));
    Ok((out, cur))
}

/// Where moved tabs land in a group of `len` tabs: before slot `at` (counted
/// before the moved tabs left, `None` appending), shifted back by one when
/// they come from the same group (`source` is their old position there),
/// and never past the end.
pub open spec fn spec_tab_insertion_index(at: Option<usize>, len: usize, source: Option<usize>) -> int {
    let base: int = match at {
        Some(i) => i as int,
        None => len + if source is Some { 1int } else { 0int },
    };
    let adjusted = match source {
        Some(s) => if base > s { base - 1 } else { base },
        None => base,
    };
    if adjusted < len { adjusted } else { len as int }
}

/// The insertion slot for moved tabs (see `spec_tab_insertion_index`).
pub fn tab_insertion_index(at: Option<usize>, len: usize, source: Option<usize>) -> (r: usize)
    ensures
        r == spec_tab_insertion_index(at, len, source),
{
    // Appending lands at the end whether or not the tabs left this group.
    let adjusted: usize = match at {
        Some(i) => match source {
            Some(s) => if i > s { i - 1 } else { i },
            None => i,
        },
        None => len,
    };
    if adjusted < len { adjusted } else { len }
}

/// A tab move that changes nothing: a whole group dropped onto itself, or a
/// tab dropped into its own group right before or after itself.
pub open spec fn spec_tab_move_is_noop(at: Option<usize>, source_len: usize, source_index: usize, whole: bool) -> bool {
    let index: int = match at {
        Some(i) => if i < source_len { i as int } else { source_len as int },
        None => source_len as int,
    };
    whole || index == source_index || index == source_index + 1
}

/// Whether dropping tabs into their own group changes nothing (see
/// `spec_tab_move_is_noop`).
pub fn tab_move_is_noop(at: Option<usize>, source_len: usize, source_index: usize, whole: bool) -> (r: bool)
    ensures
        r == spec_tab_move_is_noop(at, source_len, source_index, whole),
{
    let index = match at {
        Some(i) => if i < source_len { i } else { source_len },
        None => source_len,
    };
    whole || index == source_index || (source_index < usize::MAX && index == source_index + 1)
}

/// `panels` with `moved` placed at `index`.
pub open spec fn spliced(panels: Seq<Panel>, index: int, moved: Seq<Panel>) -> Seq<Panel> {
    panels.subrange(0, index) + moved + panels.subrange(index, panels.len() as int)
}

/// The subtree with `moved` inserted into the first node `group` when it is
/// a tab group (see `spec_tab_insertion_index`), `selected` becoming its
/// active tab; otherwise unchanged.
pub open spec fn spec_insert_tabs<S, R>(n: DockShape<S, R>, group: u32, at: Option<usize>, source: Option<usize>, moved: Seq<Panel>, selected: Panel) -> DockShape<S, R>
    decreases n,
{
    if shape_id(n) == group {
        match n {
            DockShape::Tabs { id, panels, tab_style, .. } => {
                let index = spec_tab_insertion_index(at, panels.len() as usize, source);
                DockShape::Tabs { id, panels: spliced(panels, index, moved), active: selected, tab_style }
            },
            _ => n,
        }
    } else {
        match n {
            DockShape::Split { id, axis, fraction, first, second } => if spec_find(*first, group) is Some {
                DockShape::Split { id, axis, fraction, first: Box::new(spec_insert_tabs(*first, group, at, source, moved, selected)), second }
            } else {
                DockShape::Split { id, axis, fraction, first, second: Box::new(spec_insert_tabs(*second, group, at, source, moved, selected)) }
            },
            _ => n,
        }
    }
}

/// The subtree with its first node `group` split along `edge`'s axis by a
/// new node `id`: `moving` takes the side of `edge` (first for top and
/// left, second otherwise).
pub open spec fn spec_split_group<S, R>(n: DockShape<S, R>, group: u32, id: u32, edge: Edge, fraction: R, moving: DockShape<S, R>) -> DockShape<S, R>
    decreases n,
{
    if shape_id(n) == group {
        let axis = crate::panel::spec_axis(edge);
        if edge == Edge::Top || edge == Edge::Left {
            DockShape::Split { id, axis, fraction, first: Box::new(moving), second: Box::new(n) }
        } else {
            DockShape::Split { id, axis, fraction, first: Box::new(n), second: Box::new(moving) }
        }
    } else {
        match n {
            DockShape::Split { id: sid, axis, fraction: f, first, second } => if spec_find(*first, group) is Some {
                DockShape::Split { id: sid, axis, fraction: f, first: Box::new(spec_split_group(*first, group, id, edge, fraction, moving)), second }
            } else {
                DockShape::Split { id: sid, axis, fraction: f, first, second: Box::new(spec_split_group(*second, group, id, edge, fraction, moving)) }
            },
            _ => n,
        }
    }
}

fn splice_panels(panels: &Vec<Panel>, index: usize, moved: &Vec<Panel>) -> (r: Vec<Panel>)
    requires
        index <= panels@.len(),
    ensures
        r@ == spliced(panels@, index as int, moved@),
{
    let mut r: Vec<Panel> = Vec::new();
    let mut i: usize = 0;
    while i < index
        invariant
            index <= panels@.len(),
            i <= index,
            r@ == panels@.subrange(0, i as int),
        decreases index - i,
    {
        r.push(panels[i]);
        i = i + 1;
        assert(r@ =~= panels@.subrange(0, i as int));
    }
    let mut k: usize = 0;
    while k < moved.len()
        invariant
            index <= panels@.len(),
            k <= moved@.len(),
            r@ == panels@.subrange(0, index as int) + moved@.subrange(0, k as int),
        decreases moved@.len() - k,
    {
        r.push(moved[k]);
        k = k + 1;
        assert(r@ =~= panels@.subrange(0, index as int) + moved@.subrange(0, k as int));
    }
    let mut j: usize = index;
    assert(moved@.subrange(0, moved@.len() as int) =~= moved@);
    while j < panels.len()
        invariant
            index <= j <= panels@.len(),
            r@ == panels@.subrange(0, index as int) + moved@ + panels@.subrange(index as int, j as int),
        decreases panels@.len() - j,
    {
        r.push(panels[j]);
        j = j + 1;
        assert(r@ =~= panels@.subrange(0, index as int) + moved@ + panels@.subrange(index as int, j as int));
    }
    r
}

impl<S, R> DockNode<S, R> {
    /// Inserts `moved` into the first node `group` of the subtree when it is
    /// a tab group, making `selected` active; returns the subtree and whether
    /// the group was found.
    pub fn insert_tabs(self, group: u32, at: Option<usize>, source: Option<usize>, moved: &Vec<Panel>, selected: Panel) -> (r: (DockNode<S, R>, bool))
        ensures
            r.0@ == spec_insert_tabs(self@, group, at, source, moved@, selected),
            r.1 == (spec_find(self@, group) matches Some(DockShape::Tabs { .. })),
        decreases self,
    {
        if self.id() == group {
            match self {
                DockNode::Tabs { id, panels, active: _, tab_style } => {
                    let index = tab_insertion_index(at, panels.len(), source);
                    let panels = splice_panels(&panels, index, moved);
                    (DockNode::Tabs { id, panels, active: selected, tab_style }, true)
                },
                DockNode::Split { id, axis, fraction, first, second } => {
                    (DockNode::Split { id, axis, fraction, first, second }, false)
                },
            }
        } else {
            match self {
                DockNode::Split { id, axis, fraction, first, second } => {
                    if first.find(group).is_some() {
                        let (f, found) = (*first).insert_tabs(group, at, source, moved, selected);
                        (DockNode::Split { id, axis, fraction, first: Box::new(f), second }, found)
                    } else {
                        let (t, found) = (*second).insert_tabs(group, at, source, moved, selected);
                        (DockNode::Split { id, axis, fraction, first, second: Box::new(t) }, found)
                    }
                },
                DockNode::Tabs { id, panels, active, tab_style } => {
                    (DockNode::Tabs { id, panels, active, tab_style }, false)
                },
            }
        }
    }

    /// Splits the first node `group` of the subtree (a tab group) by a new
    /// node `id` along `edge`'s axis, putting `moving` on the side of `edge`.
    pub fn split_group(self, group: u32, id: u32, edge: Edge, fraction: R, moving: DockNode<S, R>) -> (r: DockNode<S, R>)
        requires
            spec_find(self@, group) is Some,
        ensures
            r@ == spec_split_group(self@, group, id, edge, fraction, moving@),
        decreases self,
    {
        if self.id() == group {
            let axis = edge.axis();
            match edge {
                Edge::Top | Edge::Left => DockNode::Split { id, axis, fraction, first: Box::new(moving), second: Box::new(self) },
                _ => DockNode::Split { id, axis, fraction, first: Box::new(self), second: Box::new(moving) },
            }
        } else {
            match self {
                DockNode::Split { id: sid, axis, fraction: f, first, second } => {
                    if first.find(group).is_some() {
                        let t = (*first).split_group(group, id, edge, fraction, moving);
                        DockNode::Split { id: sid, axis, fraction: f, first: Box::new(t), second }
                    } else {
                        let t = (*second).split_group(group, id, edge, fraction, moving);
                        DockNode::Split { id: sid, axis, fraction: f, first, second: Box::new(t) }
                    }
                },
                DockNode::Tabs { .. } => self,
            }
        }
    }
}

proof fn lemma_spliced_contains(p: Seq<Panel>, index: int, moved: Seq<Panel>, q: Panel)
    requires
        0 <= index <= p.len(),
    ensures
        spliced(p, index, moved).contains(q) <==> (p.contains(q) || moved.contains(q)),
{
    let a = p.subrange(0, index);
    let b = p.subrange(index, p.len() as int);
    lemma_concat_contains(a, moved, q);
    lemma_concat_contains(a + moved, b, q);
    lemma_concat_contains(a, b, q);
    assert(a + b =~= p);
}

/// Dropping tabs into a tab group keeps every panel and every identity of
/// the tree and adds exactly the moved panels.
pub proof fn lemma_insert_tabs_keeps_panels<S, R>(n: DockShape<S, R>, group: u32, at: Option<usize>, source: Option<usize>, moved: Seq<Panel>, selected: Panel)
    requires
        spec_find(n, group) matches Some(DockShape::Tabs { .. }),
    ensures
        forall|q: Panel| #[trigger] shape_panels(spec_insert_tabs(n, group, at, source, moved, selected)).contains(q)
            <==> (shape_panels(n).contains(q) || moved.contains(q)),
        shape_ids(spec_insert_tabs(n, group, at, source, moved, selected)) == shape_ids(n),
    decreases n,
{
    let m = spec_insert_tabs(n, group, at, source, moved, selected);
    if shape_id(n) == group {
        if let DockShape::Tabs { panels, .. } = n {
            let index = spec_tab_insertion_index(at, panels.len() as usize, source);
            assert forall|q: Panel| #[trigger] shape_panels(m).contains(q) <==> (shape_panels(n).contains(q) || moved.contains(q)) by {
                lemma_spliced_contains(panels, index, moved, q);
            }
        }
    } else if let DockShape::Split { first, second, .. } = n {
        let a = shape_panels(*first);
        let b = shape_panels(*second);
        if spec_find(*first, group) is Some {
            lemma_insert_tabs_keeps_panels(*first, group, at, source, moved, selected);
            let a2 = shape_panels(spec_insert_tabs(*first, group, at, source, moved, selected));
            assert forall|q: Panel| #[trigger] shape_panels(m).contains(q) <==> (shape_panels(n).contains(q) || moved.contains(q)) by {
                lemma_concat_contains(a2, b, q);
                lemma_concat_contains(a, b, q);
            }
        } else {
            lemma_insert_tabs_keeps_panels(*second, group, at, source, moved, selected);
            let b2 = shape_panels(spec_insert_tabs(*second, group, at, source, moved, selected));
            assert forall|q: Panel| #[trigger] shape_panels(m).contains(q) <==> (shape_panels(n).contains(q) || moved.contains(q)) by {
                lemma_concat_contains(a, b2, q);
                lemma_concat_contains(a, b, q);
            }
        }
    }
}

/// Splitting a group keeps every panel of the tree and adds exactly the
/// panels of the moved group.
pub proof fn lemma_split_group_keeps_panels<S, R>(n: DockShape<S, R>, group: u32, id: u32, edge: Edge, fraction: R, moving: DockShape<S, R>)
    requires
        spec_find(n, group) is Some,
    ensures
        forall|q: Panel| #[trigger] shape_panels(spec_split_group(n, group, id, edge, fraction, moving)).contains(q)
            <==> (shape_panels(n).contains(q) || shape_panels(moving).contains(q)),
    decreases n,
{
    let m = spec_split_group(n, group, id, edge, fraction, moving);
    let pm = shape_panels(moving);
    if shape_id(n) == group {
        let pn = shape_panels(n);
        assert forall|q: Panel| #[trigger] shape_panels(m).contains(q) <==> (pn.contains(q) || pm.contains(q)) by {
            lemma_concat_contains(pm, pn, q);
            lemma_concat_contains(pn, pm, q);
        }
    } else if let DockShape::Split { first, second, .. } = n {
        let a = shape_panels(*first);
        let b = shape_panels(*second);
        if spec_find(*first, group) is Some {
            lemma_split_group_keeps_panels(*first, group, id, edge, fraction, moving);
            let a2 = shape_panels(spec_split_group(*first, group, id, edge, fraction, moving));
            assert forall|q: Panel| #[trigger] shape_panels(m).contains(q) <==> (shape_panels(n).contains(q) || pm.contains(q)) by {
                lemma_concat_contains(a2, b, q);
                lemma_concat_contains(a, b, q);
            }
        } else {
            lemma_split_group_keeps_panels(*second, group, id, edge, fraction, moving);
            let b2 = shape_panels(spec_split_group(*second, group, id, edge, fraction, moving));
            assert forall|q: Panel| #[trigger] shape_panels(m).contains(q) <==> (shape_panels(n).contains(q) || pm.contains(q)) by {
                lemma_concat_contains(a, b2, q);
                lemma_concat_contains(a, b, q);
            }
        }
    }
}

/// The edge of the band holding tab group `group`: the band whose tree
/// holds the group's first tab (floating groups have none).
pub open spec fn spec_group_edge<S, R, X>(bands: Seq<DockBand<S, R, X>>, floating: Seq<DockNode<S, R>>, group: u32) -> Option<Edge> {
    match forest_find(band_roots(bands) + shapes(floating), group) {
        Some(DockShape::Tabs { panels, .. }) => if panels.len() == 0 {
            None
        } else {
            match first_band_holding(bands, panels[0]) {
                Some(b) => Some(bands[b].edge),
                None => None,
            }
        },
        _ => None,
    }
}

/// The first band whose tree holds `panel`.
pub open spec fn first_band_holding<S, R, X>(bands: Seq<DockBand<S, R, X>>, panel: Panel) -> Option<int>
    decreases bands.len(),
{
    if bands.len() == 0 {
        None
    } else if spec_group_for(bands[0].root@, panel) is Some {
        Some(0)
    } else {
        match first_band_holding(bands.drop_first(), panel) {
            Some(i) => Some(i + 1),
            None => None,
        }
    }
}

proof fn lemma_first_band_holding<S, R, X>(bands: Seq<DockBand<S, R, X>>, i: int, panel: Panel)
    requires
        0 <= i <= bands.len(),
        forall|j: int| 0 <= j < i ==> spec_group_for(#[trigger] bands[j].root@, panel) is None,
    ensures
        i < bands.len() && spec_group_for(bands[i].root@, panel) is Some ==> first_band_holding(bands, panel) == Some(i),
        i == bands.len() ==> first_band_holding(bands, panel) is None,
    decreases i,
{
    if i > 0 {
        let rest = bands.drop_first();
        assert forall|j: int| 0 <= j < i - 1 implies spec_group_for(#[trigger] rest[j].root@, panel) is None by {
            assert(rest[j] == bands[j + 1]);
        }
        lemma_first_band_holding(rest, i - 1, panel);
        if i < bands.len() {
            assert(rest[i - 1] == bands[i]);
        }
    }
}

/// The edge of the band holding tab group `group` (see `spec_group_edge`).
pub fn group_edge<S, R, X>(bands: &Vec<DockBand<S, R, X>>, floating: &Vec<DockNode<S, R>>, group: u32) -> (r: Option<Edge>)
    ensures
        r == spec_group_edge(bands@, floating@, group),
{
    let first = match layout_node(bands, floating, group) {
        Some(DockNode::Tabs { panels, .. }) => {
            if panels.len() == 0 {
                return None;
            }
            panels[0]
        },
        _ => {
            return None;
        },
    };
    let mut i: usize = 0;
    while i < bands.len() && bands[i].root.group_for(first).is_none()
        invariant
            i <= bands@.len(),
            forall|j: int| 0 <= j < i ==> spec_group_for(#[trigger] bands@[j].root@, first) is None,
        decreases bands@.len() - i,
    {
        i = i + 1;
    }
    proof {
        lemma_first_band_holding(bands@, i as int, first);
    }
    if i == bands.len() {
        None
    } else {
        Some(bands[i].edge)
    }
}

/// Whether some tab of `tabs` is not in `panels`.
pub open spec fn tab_outside(tabs: Seq<Panel>, panels: Seq<Panel>) -> bool {
    exists|q: Panel| #[trigger] tabs.contains(q) && !panels.contains(q)
}

/// What remains of a subtree once every panel of a non-empty `panels` has
/// left, by identity: a tab group stays while it keeps a tab outside
/// `panels`; a split stays while both sides do, and otherwise gives way to
/// its remaining side.
pub open spec fn spec_survivor_of<S, R>(n: DockShape<S, R>, panels: Seq<Panel>) -> Option<u32>
    decreases n,
{
    match n {
        DockShape::Tabs { id, panels: tabs, .. } => if tab_outside(tabs, panels) {
            Some(id)
        } else {
            None
        },
        DockShape::Split { id, first, second, .. } => match (spec_survivor_of(*first, panels), spec_survivor_of(*second, panels)) {
            (Some(_), Some(_)) => Some(id),
            (Some(f), None) => Some(f),
            (None, t) => t,
        },
    }
}

/// The identity of what remains of a subtree once `panels` have left (see
/// `spec_survivor_of`); with no panels leaving, the subtree itself.
pub open spec fn spec_survivor<S, R>(n: DockShape<S, R>, panels: Seq<Panel>) -> Option<u32> {
    if panels.len() == 0 {
        Some(shape_id(n))
    } else {
        spec_survivor_of(n, panels)
    }
}

proof fn lemma_survivor_step<S, R>(n: DockShape<S, R>, panels: Seq<Panel>)
    requires
        panels.len() > 0,
    ensures
        spec_survivor_of(n, panels) == match spec_remove(n, panels[0]) {
            Some(m) => spec_survivor(m, panels.drop_first()),
            None => None,
        },
    decreases n,
{
    let p = panels[0];
    let rest = panels.drop_first();
    assert forall|q: Panel| panels.contains(q) <==> (q == p || rest.contains(q)) by {
        if panels.contains(q) {
            let i = choose|i: int| 0 <= i < panels.len() && panels[i] == q;
            if i > 0 {
                assert(rest[i - 1] == q);
            }
        }
        if rest.contains(q) {
            let i = choose|i: int| 0 <= i < rest.len() && rest[i] == q;
            assert(panels[i + 1] == q);
        }
        if q == p {
            assert(panels[0] == q);
        }
    }
    match n {
        DockShape::Tabs { id, panels: tabs, active, tab_style } => {
            lemma_without(tabs, p);
            let kept = without(tabs, p);
            if kept.len() == 0 {
                assert forall|q: Panel| #[trigger] tabs.contains(q) implies panels.contains(q) by {
                    if q != p {
                        assert(kept.contains(q));
                        assert(kept[0] == q);
                    }
                }
            } else {
                let m = DockShape::<S, R>::Tabs { id, panels: kept, active: if active == p { kept[0] } else { active }, tab_style };
                assert(spec_remove(n, p) == Some(m));
                if rest.len() == 0 {
                    assert(kept.contains(kept[0]));
                    assert(tabs.contains(kept[0]) && !panels.contains(kept[0]));
                } else {
                    if exists|q: Panel| #[trigger] tabs.contains(q) && !panels.contains(q) {
                        let q = choose|q: Panel| #[trigger] tabs.contains(q) && !panels.contains(q);
                        assert(kept.contains(q));
                    }
                    if exists|q: Panel| #[trigger] kept.contains(q) && !rest.contains(q) {
                        let q = choose|q: Panel| #[trigger] kept.contains(q) && !rest.contains(q);
                        assert(tabs.contains(q));
                    }
                    assert(tab_outside(kept, rest) == tab_outside(tabs, panels));
                }
            }
        },
        DockShape::Split { id, axis, fraction, first, second } => {
            lemma_survivor_step(*first, panels);
            lemma_survivor_step(*second, panels);
        },
    }
}

/// Taking panels out one by one leaves exactly the survivor that
/// `spec_survivor` names.
pub proof fn lemma_survivor<S, R>(n: DockShape<S, R>, panels: Seq<Panel>)
    ensures
        match spec_remove_all(n, panels) {
            Some(m) => spec_survivor(n, panels) == Some(shape_id(m)),
            None => spec_survivor(n, panels) is None,
        },
    decreases panels.len(),
{
    if panels.len() > 0 {
        lemma_survivor_step(n, panels);
        match spec_remove(n, panels[0]) {
            Some(m) => {
                lemma_survivor(m, panels.drop_first());
            },
            None => {},
        }
    }
}

/// Whether some tab of `tabs` is not in `panels`.
fn has_tab_outside(tabs: &[Panel], panels: &[Panel]) -> (r: bool)
    ensures
        r == tab_outside(tabs@, panels@),
{
    let mut i: usize = 0;
    while i < tabs.len()
        invariant
            i <= tabs@.len(),
            forall|j: int| 0 <= j < i ==> panels@.contains(#[trigger] tabs@[j]),
        decreases tabs@.len() - i,
    {
        if !contains_panel(panels, tabs[i]) {
            assert(tabs@.contains(tabs@[i as int]));
            return true;
        }
        i = i + 1;
    }
    assert forall|q: Panel| #[trigger] tabs@.contains(q) implies panels@.contains(q) by {
        let j = choose|j: int| 0 <= j < tabs@.len() && tabs@[j] == q;
        assert(panels@.contains(tabs@[j]));
    }
    false
}

impl<S, R> DockNode<S, R> {
    /// The identity of what remains of this subtree once `panels` have left
    /// (see `spec_survivor`), without taking them out.
    pub fn survivor(&self, panels: &[Panel]) -> (r: Option<u32>)
        ensures
            r == spec_survivor(self@, panels@),
    {
        if panels.len() == 0 {
            return Some(self.id());
        }
        self.survivor_of(panels)
    }

    fn survivor_of(&self, panels: &[Panel]) -> (r: Option<u32>)
        ensures
            r == spec_survivor_of(self@, panels@),
        decreases self,
    {
        match self {
            DockNode::Tabs { id, panels: tabs, .. } => {
                if has_tab_outside(tabs.as_slice(), panels) {
                    Some(*id)
                } else {
                    None
                }
            },
            DockNode::Split { id, first, second, .. } => {
                match (first.survivor_of(panels), second.survivor_of(panels)) {
                    (Some(_), Some(_)) => Some(*id),
                    (Some(f), None) => Some(f),
                    (None, t) => t,
                }
            },
        }
    }
}

/// The subtree with the first node `target` given tab style `style`, when
/// that node is a tab group; otherwise the subtree unchanged.
pub open spec fn spec_restyle<S, R>(n: DockShape<S, R>, target: u32, style: S) -> DockShape<S, R>
    decreases n,
{
    if shape_id(n) == target {
        match n {
            DockShape::Tabs { id, panels, active, .. } => DockShape::Tabs { id, panels, active, tab_style: style },
            _ => n,
        }
    } else {
        match n {
            DockShape::Split { id, axis, fraction, first, second } => if spec_find(*first, target) is Some {
                DockShape::Split { id, axis, fraction, first: Box::new(spec_restyle(*first, target, style)), second }
            } else {
                DockShape::Split { id, axis, fraction, first, second: Box::new(spec_restyle(*second, target, style)) }
            },
            _ => n,
        }
    }
}

impl<S, R> DockNode<S, R> {
    /// Gives the first node `target` tab style `style` when it is a tab group
    /// (see `spec_restyle`).
    pub fn restyle(self, target: u32, style: S) -> (r: DockNode<S, R>)
        ensures
            r@ == spec_restyle(self@, target, style),
        decreases self,
    {
        if self.id() == target {
            match self {
                DockNode::Tabs { id, panels, active, .. } => DockNode::Tabs { id, panels, active, tab_style: style },
                DockNode::Split { id, axis, fraction, first, second } => DockNode::Split { id, axis, fraction, first, second },
            }
        } else {
            match self {
                DockNode::Split { id, axis, fraction, first, second } => {
                    if first.find(target).is_some() {
                        let f = (*first).restyle(target, style);
                        DockNode::Split { id, axis, fraction, first: Box::new(f), second }
                    } else {
                        let t = (*second).restyle(target, style);
                        DockNode::Split { id, axis, fraction, first, second: Box::new(t) }
                    }
                },
                DockNode::Tabs { id, panels, active, tab_style } => DockNode::Tabs { id, panels, active, tab_style },
            }
        }
    }
}

/// The roots with the node `target` of the first root holding it restyled
/// (see `spec_restyle`).
pub open spec fn forest_restyle<S, R>(roots: Seq<DockShape<S, R>>, target: u32, style: S) -> Seq<DockShape<S, R>>
    decreases roots.len(),
{
    if roots.len() == 0 {
        roots
    } else if spec_find(roots[0], target) is Some {
        roots.update(0, spec_restyle(roots[0], target, style))
    } else {
        seq![roots[0]] + forest_restyle(roots.drop_first(), target, style)
    }
}

proof fn lemma_restyle_skip<S, R>(roots: Seq<DockShape<S, R>>, i: int, target: u32, style: S)
    requires
        0 <= i <= roots.len(),
        forall|j: int| 0 <= j < i ==> spec_find(#[trigger] roots[j], target) is None,
    ensures
        i < roots.len() && spec_find(roots[i], target) is Some
            ==> forest_restyle(roots, target, style) == roots.update(i, spec_restyle(roots[i], target, style)),
    decreases i,
{
    if i > 0 {
        let rest = roots.drop_first();
        assert forall|j: int| 0 <= j < i - 1 implies spec_find(#[trigger] rest[j], target) is None by {
            assert(rest[j] == roots[j + 1]);
        }
        lemma_restyle_skip(rest, i - 1, target, style);
        assert(spec_find(roots[0], target) is None);
        if i < roots.len() && spec_find(roots[i], target) is Some {
            assert(rest[i - 1] == roots[i]);
            assert(seq![roots[0]] + rest.update(i - 1, spec_restyle(roots[i], target, style)) =~= roots.update(i, spec_restyle(roots[i], target, style)));
        }
    }
}

/// The tab style of tab group `group`.
pub fn group_tab_style<S, R>(roots: &Vec<DockNode<S, R>>, group: u32) -> (r: Result<&S, TabError>)
    ensures
        match forest_find(shapes(roots@), group) {
            Some(DockShape::Tabs { tab_style, .. }) => (r matches Ok(t) && *t == tab_style),
            _ => r == Err::<&S, TabError>(TabError::UnknownGroup),
        },
{
    match workspace_node(roots, group) {
        Some(DockNode::Tabs { tab_style, .. }) => Ok(tab_style),
        _ => Err(TabError::UnknownGroup),
    }
}

/// Gives tab group `group` tab style `style` (see `forest_restyle`).
/// Refused, changing nothing, unless the node is a tab group.
pub fn set_tab_style<S, R>(roots: &mut Vec<DockNode<S, R>>, group: u32, style: S) -> (r: Result<(), TabError>)
    ensures
        match forest_find(shapes(old(roots)@), group) {
            Some(DockShape::Tabs { .. }) => r is Ok && shapes(final(roots)@) == forest_restyle(shapes(old(roots)@), group, style),
            _ => r == Err::<(), TabError>(TabError::UnknownGroup) && final(roots)@ == old(roots)@,
        },
{
    let ghost start = shapes(roots@);
    let mut i: usize = 0;
    while i < roots.len() && roots[i].find(group).is_none()
        invariant
            i <= roots@.len(),
            roots@ == old(roots)@,
            start == shapes(roots@),
            forall|j: int| 0 <= j < i ==> spec_find(#[trigger] start[j], group) is None,
        decreases roots@.len() - i,
    {
        i = i + 1;
    }
    proof {
        lemma_forest_skip(start, i as int, group, Panel::Toolbar);
        lemma_restyle_skip(start, i as int, group, style);
    }
    if i == roots.len() {
        assert(start.subrange(i as int, start.len() as int).len() == 0);
        return Err(TabError::UnknownGroup);
    }
    let is_tabs = match roots[i].find(group) {
        Some(DockNode::Tabs { .. }) => true,
        _ => false,
    };
    if !is_tabs {
        return Err(TabError::UnknownGroup);
    }
    let taken = roots.remove(i);
    let node = taken.restyle(group, style);
    roots.insert(i, node);
    proof {
        assert(shapes(roots@) =~= start.update(i as int, spec_restyle(start[i as int], group, style)));
    }
    Ok(())
}

proof fn lemma_restyle_found<S, R>(n: DockShape<S, R>, target: u32, style: S)
    ensures
        shape_panels(spec_restyle(n, target, style)) == shape_panels(n),
        shape_ids(spec_restyle(n, target, style)) == shape_ids(n),
        shape_id(spec_restyle(n, target, style)) == shape_id(n),
        match spec_find(n, target) {
            Some(DockShape::Tabs { id, panels, active, .. }) => spec_find(spec_restyle(n, target, style), target)
                == Some(DockShape::<S, R>::Tabs { id, panels, active, tab_style: style }),
            _ => true,
        },
    decreases n,
{
    match n {
        DockShape::Tabs { .. } => {},
        DockShape::Split { first, second, .. } => {
            lemma_restyle_found(*first, target, style);
            lemma_restyle_found(*second, target, style);
        },
    }
}

/// A tab style written to a tab group reads back, and the group keeps its
/// identity, tabs and active tab; no panel and no identity of the workspace
/// changes.
pub proof fn lemma_tab_style_reads_back<S, R>(roots: Seq<DockShape<S, R>>, group: u32, style: S)
    requires
        forest_find(roots, group) matches Some(DockShape::Tabs { .. }),
    ensures
        match forest_find(roots, group) {
            Some(DockShape::Tabs { id, panels, active, .. }) => forest_find(forest_restyle(roots, group, style), group)
                == Some(DockShape::<S, R>::Tabs { id, panels, active, tab_style: style }),
            _ => false,
        },
        forest_restyle(roots, group, style).len() == roots.len(),
        forall|i: int| 0 <= i < roots.len() ==> shape_panels(#[trigger] forest_restyle(roots, group, style)[i]) == shape_panels(roots[i])
            && shape_ids(forest_restyle(roots, group, style)[i]) == shape_ids(roots[i]),
    decreases roots.len(),
{
    lemma_restyle_found(roots[0], group, style);
    if spec_find(roots[0], group) is None {
        let rest = roots.drop_first();
        lemma_tab_style_reads_back(rest, group, style);
        let out = forest_restyle(roots, group, style);
        assert(out == seq![roots[0]] + forest_restyle(rest, group, style));
        assert(out.drop_first() =~= forest_restyle(rest, group, style));
        assert forall|i: int| 0 <= i < roots.len() implies shape_panels(#[trigger] out[i]) == shape_panels(roots[i])
            && shape_ids(out[i]) == shape_ids(roots[i]) by {
            if i > 0 {
                assert(out[i] == forest_restyle(rest, group, style)[i - 1]);
                assert(roots[i] == rest[i - 1]);
            }
        }
    }
}

impl<S: Copy, R: Copy> DockNode<S, R> {
    /// A copy of this subtree.
    pub fn duplicate(&self) -> (r: DockNode<S, R>)
        ensures
            r@ == self@,
        decreases self,
    {
        match self {
            DockNode::Tabs { id, panels, active, tab_style } => DockNode::Tabs {
                id: *id,
                panels: copy_panels(panels),
                active: *active,
                tab_style: *tab_style,
            },
            DockNode::Split { id, axis, fraction, first, second } => {
                let f = first.duplicate();
                let t = second.duplicate();
                DockNode::Split { id: *id, axis: *axis, fraction: *fraction, first: Box::new(f), second: Box::new(t) }
            },
        }
    }
}

impl<S, R> DockNode<S, R> {
    /// The panels of this subtree, in reading order.
    pub fn panels(&self) -> (r: Vec<Panel>)
        ensures
            r@ == shape_panels(self@),
        decreases self,
    {
        match self {
            DockNode::Tabs { panels, .. } => copy_panels(panels),
            DockNode::Split { first, second, .. } => {
                let mut a = first.panels();
                let mut b = second.panels();
                let ghost av = a@;
                a.append(&mut b);
                assert(a@ =~= av + shape_panels(second@));
                a
            },
        }
    }
}

} // verus!
