//! A workspace's docking as a whole: the validation of a saved workspace
//! (bands, floating groups, collapsed columns and tab-sizing groups), what
//! panels leaving does to the floating groups, collapsed columns and
//! tab-sizing groups, and what a double-click on a group's handle does.
//! Sizes stay with the host, which supplies the judgement of each measured
//! value.
use vstd::prelude::*;
use crate::dock::{
    band_roots, band_shape, band_shapes, check_shape, forest_find, holds_id, lemma_check_shape,
    lemma_forest_concat, lemma_survivor, no_dups, shape_id, spec_find, spec_remove_all, BandShape, DockBand, DockError,
    DockNode, DockShape,
};
use crate::panel::{spec_kind, spec_next_layout, Edge, FloatingToolbarLayout, Panel, PanelKind};

verus! {

/// A floating tab group and its host geometry `G`.
#[derive(Debug)]
pub struct FloatingGroup<S, R, G> {
    pub root: DockNode<S, R>,
    pub geometry: G,
}

/// A collapsed side column: its root node and the width `W` it had open.
#[derive(Clone, Copy, Debug)]
pub struct CollapsedColumn<W> {
    pub root: u32,
    pub expanded_width: W,
}

/// The values a host judgement accepts.
pub open spec fn judged<T, F: Fn(&T) -> bool>(f: &F) -> spec_fn(T) -> bool {
    |x: T| f.ensures((&x,), true)
}

/// Why a workspace's docking was refused.
#[derive(Clone, Copy, Debug, PartialEq, Eq, Structural)]
pub enum LayoutError {
    /// A band identity repeats or its extent is unusable.
    DockBand,
    /// A floating group is not a tab group or its geometry is unusable.
    FloatingGeometry,
    /// A dock tree was refused.
    Tree(DockError),
    /// A collapsed column repeats, has an unusable width or is not in a side band.
    CollapsedColumn,
    /// A tab-sizing group is not a tab group.
    UnknownTabGroup,
    /// A tab-sizing group is listed twice.
    DuplicateTabSizing,
    /// A node identity is not below the identity allocator.
    IdAllocator,
}

pub open spec fn spec_layout_error_message(e: LayoutError) -> Seq<char> {
    match e {
        LayoutError::DockBand => "Invalid workspace dock band"@,
        LayoutError::FloatingGeometry => "Invalid floating panel geometry"@,
        LayoutError::Tree(t) => crate::dock::spec_dock_error_message(t),
        LayoutError::CollapsedColumn => "Invalid collapsed column"@,
        LayoutError::UnknownTabGroup => "Unknown tab group"@,
        LayoutError::DuplicateTabSizing => "Duplicate tab sizing identity"@,
        LayoutError::IdAllocator => "Invalid workspace ID allocator"@,
    }
}

impl LayoutError {
    pub fn message(self) -> (m: &'static str)
        ensures
            m@ == spec_layout_error_message(self),
    {
        match self {
            LayoutError::DockBand => "Invalid workspace dock band",
            LayoutError::FloatingGeometry => "Invalid floating panel geometry",
            LayoutError::Tree(e) => e.message(),
            LayoutError::CollapsedColumn => "Invalid collapsed column",
            LayoutError::UnknownTabGroup => "Unknown tab group",
            LayoutError::DuplicateTabSizing => "Duplicate tab sizing identity",
            LayoutError::IdAllocator => "Invalid workspace ID allocator",
        }
    }
}

/// Checks the bands in order: each band identity is recorded once and its
/// extent must be usable, then its tree is checked (see `check_shape`).
pub open spec fn check_bands<S, R, X>(bands: Seq<BandShape<S, R, X>>, ids: Seq<u32>, panels: Seq<Panel>,
    extent_ok: spec_fn(X) -> bool, ratio_ok: spec_fn(R) -> bool) -> Result<(Seq<u32>, Seq<Panel>), LayoutError>
    decreases bands.len(),
{
    if bands.len() == 0 {
        Ok((ids, panels))
    } else {
        let b = bands[0];
        if ids.contains(b.id) || !extent_ok(b.extent) {
            Err(LayoutError::DockBand)
        } else {
            match check_shape(b.root, ids.push(b.id), panels, 0, ratio_ok) {
                Ok((i, p)) => check_bands(bands.drop_first(), i, p, extent_ok, ratio_ok),
                Err(e) => Err(LayoutError::Tree(e)),
            }
        }
    }
}

/// Checks the floating groups in order: each must be a tab group with usable
/// geometry, then its tree is checked.
pub open spec fn check_floating<S, R, G>(floating: Seq<FloatingGroup<S, R, G>>, ids: Seq<u32>, panels: Seq<Panel>,
    geometry_ok: spec_fn(G) -> bool, ratio_ok: spec_fn(R) -> bool) -> Result<(Seq<u32>, Seq<Panel>), LayoutError>
    decreases floating.len(),
{
    if floating.len() == 0 {
        Ok((ids, panels))
    } else {
        let f = floating[0];
        if !(f.root@ is Tabs) || !geometry_ok(f.geometry) {
            Err(LayoutError::FloatingGeometry)
        } else {
            match check_shape(f.root@, ids, panels, 0, ratio_ok) {
                Ok((i, p)) => check_floating(floating.drop_first(), i, p, geometry_ok, ratio_ok),
                Err(e) => Err(LayoutError::Tree(e)),
            }
        }
    }
}

/// Whether some left or right band holds node `root`.
pub open spec fn in_side_band<S, R, X>(bands: Seq<DockBand<S, R, X>>, root: u32) -> bool {
    exists|b: int| 0 <= b < bands.len() && (bands[b].edge == Edge::Left || bands[b].edge == Edge::Right)
        && #[trigger] spec_find(bands[b].root@, root) is Some
}

/// Every collapsed column has a usable width, is listed once and lies in a
/// side band.
pub open spec fn columns_valid<S, R, X, W>(bands: Seq<DockBand<S, R, X>>, collapsed: Seq<CollapsedColumn<W>>, width_ok: spec_fn(W) -> bool) -> bool {
    columns_valid_upto(bands, collapsed, width_ok, collapsed.len() as int)
}

/// The first `n` collapsed columns are valid (see `columns_valid`).
pub open spec fn columns_valid_upto<S, R, X, W>(bands: Seq<DockBand<S, R, X>>, collapsed: Seq<CollapsedColumn<W>>, width_ok: spec_fn(W) -> bool, n: int) -> bool {
    forall|c: int| 0 <= c < n ==> {
        &&& width_ok(#[trigger] collapsed[c].expanded_width)
        &&& forall|d: int| 0 <= d < c ==> collapsed[d].root != collapsed[c].root
        &&& in_side_band(bands, collapsed[c].root)
    }
}

/// The first tab-sizing group that is not a tab group of the workspace, or
/// that repeats an earlier one: the error it gives.
pub open spec fn check_fit_groups<S, R>(roots: Seq<DockShape<S, R>>, groups: Seq<u32>, n: int) -> Result<(), LayoutError>
    decreases n,
{
    if n <= 0 {
        Ok(())
    } else {
        match check_fit_groups(roots, groups, n - 1) {
            Err(e) => Err(e),
            Ok(()) => if !(forest_find(roots, groups[n - 1]) matches Some(DockShape::Tabs { .. })) {
                Err(LayoutError::UnknownTabGroup)
            } else if groups.subrange(0, n - 1).contains(groups[n - 1]) {
                Err(LayoutError::DuplicateTabSizing)
            } else {
                Ok(())
            },
        }
    }
}

proof fn lemma_fit_groups_stay_refused<S, R>(roots: Seq<DockShape<S, R>>, groups: Seq<u32>, k: int, n: int)
    requires
        0 <= k <= n,
        check_fit_groups(roots, groups, k) is Err,
    ensures
        check_fit_groups(roots, groups, n) == check_fit_groups(roots, groups, k),
    decreases n - k,
{
    if n > k {
        lemma_fit_groups_stay_refused(roots, groups, k, n - 1);
    }
}

/// The roots of the floating groups.
pub open spec fn floating_roots<S, R, G>(floating: Seq<FloatingGroup<S, R, G>>) -> Seq<DockShape<S, R>> {
    Seq::new(floating.len(), |i: int| floating[i].root@)
}

/// The outcome of validating a workspace's docking: the identities and
/// panels it records, or the first refusal. Bands come first, then floating
/// groups, then collapsed columns, then tab-sizing groups.
pub open spec fn spec_validate_docking<S, R, X, G, W>(
    bands: Seq<DockBand<S, R, X>>, floating: Seq<FloatingGroup<S, R, G>>,
    collapsed: Seq<CollapsedColumn<W>>, fit_groups: Seq<u32>,
    ratio_ok: spec_fn(R) -> bool, extent_ok: spec_fn(X) -> bool,
    geometry_ok: spec_fn(G) -> bool, width_ok: spec_fn(W) -> bool,
) -> Result<(Seq<u32>, Seq<Panel>), LayoutError> {
    match check_bands(band_shapes(bands), Seq::empty(), Seq::empty(), extent_ok, ratio_ok) {
        Err(e) => Err(e),
        Ok((i1, p1)) => match check_floating(floating, i1, p1, geometry_ok, ratio_ok) {
            Err(e) => Err(e),
            Ok((i2, p2)) => if !columns_valid(bands, collapsed, width_ok) {
                Err(LayoutError::CollapsedColumn)
            } else {
                match check_fit_groups(band_roots(bands) + floating_roots(floating), fit_groups, fit_groups.len() as int) {
                    Err(e) => Err(e),
                    Ok(()) => Ok((i2, p2)),
                }
            },
        },
    }
}

/// Whether a left or right band holds node `root`.
pub(crate) fn side_band_holds<S, R, X>(bands: &Vec<DockBand<S, R, X>>, root: u32) -> (r: bool)
    ensures
        r == in_side_band(bands@, root),
{
    let mut b: usize = 0;
    while b < bands.len()
        invariant
            b <= bands@.len(),
            forall|j: int| 0 <= j < b ==> !((bands@[j].edge == Edge::Left || bands@[j].edge == Edge::Right)
                && #[trigger] spec_find(bands@[j].root@, root) is Some),
        decreases bands@.len() - b,
    {
        let side = match bands[b].edge {
            Edge::Left | Edge::Right => true,
            _ => false,
        };
        if side && bands[b].root.find(root).is_some() {
            return true;
        }
        b = b + 1;
    }
    false
}

/// The workspace node `target`, bands first, then floating groups.
fn workspace_find<'a, S, R, X, G>(bands: &'a Vec<DockBand<S, R, X>>, floating: &'a Vec<FloatingGroup<S, R, G>>, target: u32) -> (r: Option<&'a DockNode<S, R>>)
    ensures
        match r {
            Some(n) => forest_find(band_roots(bands@) + floating_roots(floating@), target) == Some(n@),
            None => forest_find(band_roots(bands@) + floating_roots(floating@), target) is None,
        },
{
    proof {
        lemma_forest_concat(band_roots(bands@), floating_roots(floating@), target);
    }
    let mut i: usize = 0;
    assert(band_roots(bands@).subrange(0, bands@.len() as int) =~= band_roots(bands@));
    while i < bands.len()
        invariant
            i <= bands@.len(),
            forest_find(band_roots(bands@) + floating_roots(floating@), target) == match forest_find(band_roots(bands@), target) {
                Some(n) => Some(n),
                None => forest_find(floating_roots(floating@), target),
            },
            forest_find(band_roots(bands@), target) == forest_find(band_roots(bands@).subrange(i as int, bands@.len() as int), target),
        decreases bands@.len() - i,
    {
        let ghost rest = band_roots(bands@).subrange(i as int, bands@.len() as int);
        assert(rest[0] == bands@[i as int].root@);
        assert(rest.drop_first() =~= band_roots(bands@).subrange(i as int + 1, bands@.len() as int));
        match bands[i].root.find(target) {
            Some(n) => {
                return Some(n);
            },
            None => {},
        }
        i = i + 1;
    }
    assert(band_roots(bands@).subrange(i as int, bands@.len() as int).len() == 0);
    let mut j: usize = 0;
    assert(floating_roots(floating@).subrange(0, floating@.len() as int) =~= floating_roots(floating@));
    while j < floating.len()
        invariant
            j <= floating@.len(),
            forest_find(band_roots(bands@) + floating_roots(floating@), target) == forest_find(floating_roots(floating@), target),
            forest_find(floating_roots(floating@), target) == forest_find(floating_roots(floating@).subrange(j as int, floating@.len() as int), target),
        decreases floating@.len() - j,
    {
        let ghost rest = floating_roots(floating@).subrange(j as int, floating@.len() as int);
        assert(rest[0] == floating@[j as int].root@);
        assert(rest.drop_first() =~= floating_roots(floating@).subrange(j as int + 1, floating@.len() as int));
        match floating[j].root.find(target) {
            Some(n) => {
                return Some(n);
            },
            None => {},
        }
        j = j + 1;
    }
    assert(floating_roots(floating@).subrange(j as int, floating@.len() as int).len() == 0);
    None
}

/// Whether an earlier collapsed column has the root of column `c`.
fn root_repeats<W>(collapsed: &Vec<CollapsedColumn<W>>, c: usize) -> (r: bool)
    requires
        c < collapsed@.len(),
    ensures
        r == exists|e: int| 0 <= e < c && collapsed@[e].root == collapsed@[c as int].root,
{
    let root = collapsed[c].root;
    let mut d: usize = 0;
    while d < c
        invariant
            c < collapsed@.len(),
            d <= c,
            root == collapsed@[c as int].root,
            forall|e: int| 0 <= e < d ==> collapsed@[e].root != root,
        decreases c - d,
    {
        if collapsed[d].root == root {
            assert(collapsed@[d as int].root == collapsed@[c as int].root);
            return true;
        }
        d = d + 1;
    }
    false
}

/// Whether `groups[g]` already occurs before position `g`.
fn repeats_earlier(groups: &Vec<u32>, g: usize) -> (r: bool)
    requires
        g < groups@.len(),
    ensures
        r == groups@.subrange(0, g as int).contains(groups@[g as int]),
{
    let group = groups[g];
    let mut d: usize = 0;
    while d < g
        invariant
            g < groups@.len(),
            d <= g,
            group == groups@[g as int],
            forall|e: int| 0 <= e < d ==> groups@[e] != group,
        decreases g - d,
    {
        if groups[d] == group {
            assert(groups@.subrange(0, g as int)[d as int] == group);
            return true;
        }
        d = d + 1;
    }
    assert(!groups@.subrange(0, g as int).contains(group)) by {
        if groups@.subrange(0, g as int).contains(group) {
            let e = choose|e: int| 0 <= e < g && groups@.subrange(0, g as int)[e] == group;
            assert(groups@[e] == group);
        }
    }
    false
}

/// Validates a workspace's docking (see `spec_validate_docking`). The host's
/// judgements of split ratios, band extents, floating geometry and column
/// widths are `ratio_ok`, `extent_ok`, `geometry_ok` and `width_ok`.
/// Returns the identities and panels recorded.
pub fn validate_docking<S, R, X, G, W, FR, FX, FG, FW>(
    bands: &Vec<DockBand<S, R, X>>,
    floating: &Vec<FloatingGroup<S, R, G>>,
    collapsed: &Vec<CollapsedColumn<W>>,
    fit_groups: &Vec<u32>,
    ratio_ok: &FR,
    extent_ok: &FX,
    geometry_ok: &FG,
    width_ok: &FW,
) -> (r: Result<(Vec<u32>, Vec<Panel>), LayoutError>) where
    FR: Fn(&R) -> bool,
    FX: Fn(&X) -> bool,
    FG: Fn(&G) -> bool,
    FW: Fn(&W) -> bool,

    requires
        forall|x: &R| ratio_ok.requires((x,)),
        forall|x: &R, a: bool, b: bool| ratio_ok.ensures((x,), a) && ratio_ok.ensures((x,), b) ==> a == b,
        forall|x: &X| extent_ok.requires((x,)),
        forall|x: &X, a: bool, b: bool| extent_ok.ensures((x,), a) && extent_ok.ensures((x,), b) ==> a == b,
        forall|x: &G| geometry_ok.requires((x,)),
        forall|x: &G, a: bool, b: bool| geometry_ok.ensures((x,), a) && geometry_ok.ensures((x,), b) ==> a == b,
        forall|x: &W| width_ok.requires((x,)),
        forall|x: &W, a: bool, b: bool| width_ok.ensures((x,), a) && width_ok.ensures((x,), b) ==> a == b,
    ensures
        match spec_validate_docking(bands@, floating@, collapsed@, fit_groups@,
            judged(ratio_ok), judged(extent_ok), judged(geometry_ok), judged(width_ok)) {
            Ok((i, p)) => (r matches Ok((a, b)) && a@ == i && b@ == p),
            Err(e) => r == Err::<(Vec<u32>, Vec<Panel>), LayoutError>(e),
        },
{
    let ghost all = band_shapes(bands@);
    let mut ids: Vec<u32> = Vec::new();
    let mut panels: Vec<Panel> = Vec::new();
    let mut i: usize = 0;
    assert(all.subrange(0, all.len() as int) =~= all);
    while i < bands.len()
        invariant
            i <= bands@.len(),
            all == band_shapes(bands@),
            forall|x: &R| ratio_ok.requires((x,)),
            forall|x: &R, a: bool, b: bool| ratio_ok.ensures((x,), a) && ratio_ok.ensures((x,), b) ==> a == b,
            forall|x: &X| extent_ok.requires((x,)),
            forall|x: &X, a: bool, b: bool| extent_ok.ensures((x,), a) && extent_ok.ensures((x,), b) ==> a == b,
            check_bands(all, Seq::empty(), Seq::empty(), judged(extent_ok), judged(ratio_ok))
                == check_bands(all.subrange(i as int, all.len() as int), ids@, panels@, judged(extent_ok), judged(ratio_ok)),
        decreases bands@.len() - i,
    {
        let ghost rest = all.subrange(i as int, all.len() as int);
        let b = &bands[i];
        proof {
            assert(rest[0] == band_shape(bands@[i as int]));
            assert(rest.drop_first() =~= all.subrange(i as int + 1, all.len() as int));
        }
        let extent_usable = extent_ok(&b.extent);
        proof {
            assert(judged(extent_ok)(b.extent) == extent_usable) by {
                if judged(extent_ok)(b.extent) {
                    assert(extent_ok.ensures((&b.extent,), true));
                }
            }
        }
        if holds_id(&ids, b.id) || !extent_usable {
            return Err(LayoutError::DockBand);
        }
        ids.push(b.id);
        match b.root.check(&mut ids, &mut panels, 0, ratio_ok) {
            Ok(()) => {},
            Err(e) => {
                return Err(LayoutError::Tree(e));
            },
        }
        i = i + 1;
    }
    assert(all.subrange(i as int, all.len() as int).len() == 0);
    let ghost fl = floating@;
    let mut j: usize = 0;
    assert(fl.subrange(0, fl.len() as int) =~= fl);
    while j < floating.len()
        invariant
            j <= floating@.len(),
            fl == floating@,
            all == band_shapes(bands@),
            forall|x: &R| ratio_ok.requires((x,)),
            forall|x: &R, a: bool, b: bool| ratio_ok.ensures((x,), a) && ratio_ok.ensures((x,), b) ==> a == b,
            forall|x: &G| geometry_ok.requires((x,)),
            forall|x: &G, a: bool, b: bool| geometry_ok.ensures((x,), a) && geometry_ok.ensures((x,), b) ==> a == b,
            match check_bands(all, Seq::empty(), Seq::empty(), judged(extent_ok), judged(ratio_ok)) {
                Ok((i1, p1)) => check_floating(fl, i1, p1, judged(geometry_ok), judged(ratio_ok))
                    == check_floating(fl.subrange(j as int, fl.len() as int), ids@, panels@, judged(geometry_ok), judged(ratio_ok)),
                Err(_) => false,
            },
        decreases floating@.len() - j,
    {
        let ghost rest = fl.subrange(j as int, fl.len() as int);
        let f = &floating[j];
        proof {
            assert(rest[0] == fl[j as int]);
            assert(rest.drop_first() =~= fl.subrange(j as int + 1, fl.len() as int));
        }
        let is_tabs = match &f.root {
            DockNode::Tabs { .. } => true,
            _ => false,
        };
        let usable = geometry_ok(&f.geometry);
        proof {
            assert(judged(geometry_ok)(f.geometry) == usable) by {
                if judged(geometry_ok)(f.geometry) {
                    assert(geometry_ok.ensures((&f.geometry,), true));
                }
            }
        }
        if !is_tabs || !usable {
            return Err(LayoutError::FloatingGeometry);
        }
        match f.root.check(&mut ids, &mut panels, 0, ratio_ok) {
            Ok(()) => {},
            Err(e) => {
                return Err(LayoutError::Tree(e));
            },
        }
        j = j + 1;
    }
    assert(fl.subrange(j as int, fl.len() as int).len() == 0);
    let mut c: usize = 0;
    while c < collapsed.len()
        invariant
            c <= collapsed@.len(),
            (match check_bands(band_shapes(bands@), Seq::empty(), Seq::empty(), judged(extent_ok), judged(ratio_ok)) {
                Ok((i1, p1)) => check_floating(floating@, i1, p1, judged(geometry_ok), judged(ratio_ok)),
                Err(e) => Err(e),
            }) == Ok::<(Seq<u32>, Seq<Panel>), LayoutError>((ids@, panels@)),
            forall|x: &W| width_ok.requires((x,)),
            forall|x: &W, a: bool, b: bool| width_ok.ensures((x,), a) && width_ok.ensures((x,), b) ==> a == b,
            columns_valid_upto(bands@, collapsed@, judged(width_ok), c as int),
        decreases collapsed@.len() - c,
    {
        let column = &collapsed[c];
        let usable = width_ok(&column.expanded_width);
        proof {
            assert(judged(width_ok)(column.expanded_width) == usable) by {
                if judged(width_ok)(column.expanded_width) {
                    assert(width_ok.ensures((&column.expanded_width,), true));
                }
            }
        }
        let root = column.root;
        let repeated = root_repeats(collapsed, c);
        let in_side = side_band_holds(bands, root);
        if !usable || repeated || !in_side {
            proof {
                assert(!columns_valid(bands@, collapsed@, judged(width_ok))) by {
                    if repeated {
                        let e = choose|e: int| 0 <= e < c && collapsed@[e].root == collapsed@[c as int].root;
                        assert(collapsed@[e].root == collapsed@[c as int].root);
                    }
                }
            }
            return Err(LayoutError::CollapsedColumn);
        }
        proof {
            assert(judged(width_ok)(collapsed@[c as int].expanded_width));
            assert(forall|d: int| 0 <= d < c ==> collapsed@[d].root != collapsed@[c as int].root);
            assert(in_side_band(bands@, collapsed@[c as int].root));
            assert(columns_valid_upto(bands@, collapsed@, judged(width_ok), c + 1)) by {
                assert forall|k: int| 0 <= k < c + 1 implies {
                    &&& judged(width_ok)(#[trigger] collapsed@[k].expanded_width)
                    &&& forall|d: int| 0 <= d < k ==> collapsed@[d].root != collapsed@[k].root
                    &&& in_side_band(bands@, collapsed@[k].root)
                } by {
                    if k < c {
                        assert(judged(width_ok)(collapsed@[k].expanded_width));
                    }
                }
            }
        }
        c = c + 1;
    }
    let ghost roots = band_roots(bands@) + floating_roots(floating@);
    let mut g: usize = 0;
    while g < fit_groups.len()
        invariant
            g <= fit_groups@.len(),
            roots == band_roots(bands@) + floating_roots(floating@),
            (match check_bands(band_shapes(bands@), Seq::empty(), Seq::empty(), judged(extent_ok), judged(ratio_ok)) {
                Ok((i1, p1)) => check_floating(floating@, i1, p1, judged(geometry_ok), judged(ratio_ok)),
                Err(e) => Err(e),
            }) == Ok::<(Seq<u32>, Seq<Panel>), LayoutError>((ids@, panels@)),
            columns_valid(bands@, collapsed@, judged(width_ok)),
            check_fit_groups(roots, fit_groups@, g as int) == Ok::<(), LayoutError>(()),
        decreases fit_groups@.len() - g,
    {
        let group = fit_groups[g];
        let is_group = match workspace_find(bands, floating, group) {
            Some(DockNode::Tabs { .. }) => true,
            _ => false,
        };
        if !is_group {
            proof {
                assert(check_fit_groups(roots, fit_groups@, g + 1) == Err::<(), LayoutError>(LayoutError::UnknownTabGroup));
                lemma_fit_groups_stay_refused(roots, fit_groups@, g + 1, fit_groups@.len() as int);
            }
            return Err(LayoutError::UnknownTabGroup);
        }
        if repeats_earlier(fit_groups, g) {
            proof {
                assert(check_fit_groups(roots, fit_groups@, g + 1) == Err::<(), LayoutError>(LayoutError::DuplicateTabSizing));
                lemma_fit_groups_stay_refused(roots, fit_groups@, g + 1, fit_groups@.len() as int);
            }
            return Err(LayoutError::DuplicateTabSizing);
        }
        g = g + 1;
    }
    Ok((ids, panels))
}

/// Every recorded identity must be below the identity allocator.
pub fn check_id_allocator(ids: &Vec<u32>, next_id: u32) -> (r: Result<(), LayoutError>)
    ensures
        r == (if exists|k: int| 0 <= k < ids@.len() && ids@[k] >= next_id {
            Err(LayoutError::IdAllocator)
        } else {
            Ok(())
        }),
{
    let mut k: usize = 0;
    while k < ids.len()
        invariant
            k <= ids@.len(),
            forall|j: int| 0 <= j < k ==> ids@[j] < next_id,
        decreases ids@.len() - k,
    {
        if ids[k] >= next_id {
            return Err(LayoutError::IdAllocator);
        }
        k = k + 1;
    }
    Ok(())
}

proof fn lemma_push_fresh(ids: Seq<u32>, id: u32)
    requires
        no_dups(ids),
        !ids.contains(id),
    ensures
        no_dups(ids.push(id)),
{
    let s = ids.push(id);
    assert forall|i: int, j: int| 0 <= i < s.len() && 0 <= j < s.len() && i != j implies s[i] != s[j] by {
        if i < ids.len() && j < ids.len() {
        } else if i < ids.len() {
            assert(ids.contains(s[i]));
        } else {
            assert(ids.contains(s[j]));
        }
    }
}

proof fn lemma_check_bands<S, R, X>(bands: Seq<BandShape<S, R, X>>, ids: Seq<u32>, panels: Seq<Panel>,
    extent_ok: spec_fn(X) -> bool, ratio_ok: spec_fn(R) -> bool)
    requires
        no_dups(ids),
        no_dups(panels),
    ensures
        check_bands(bands, ids, panels, extent_ok, ratio_ok) matches Ok((i, p)) ==> no_dups(i) && no_dups(p),
    decreases bands.len(),
{
    if bands.len() > 0 {
        let b = bands[0];
        if !(ids.contains(b.id) || !extent_ok(b.extent)) {
            lemma_push_fresh(ids, b.id);
            lemma_check_shape(b.root, ids.push(b.id), panels, 0, ratio_ok);
            if let Ok((i, p)) = check_shape(b.root, ids.push(b.id), panels, 0, ratio_ok) {
                lemma_check_bands(bands.drop_first(), i, p, extent_ok, ratio_ok);
            }
        }
    }
}

proof fn lemma_check_floating<S, R, G>(floating: Seq<FloatingGroup<S, R, G>>, ids: Seq<u32>, panels: Seq<Panel>,
    geometry_ok: spec_fn(G) -> bool, ratio_ok: spec_fn(R) -> bool)
    requires
        no_dups(ids),
        no_dups(panels),
    ensures
        check_floating(floating, ids, panels, geometry_ok, ratio_ok) matches Ok((i, p)) ==> no_dups(i) && no_dups(p),
    decreases floating.len(),
{
    if floating.len() > 0 {
        let f = floating[0];
        lemma_check_shape(f.root@, ids, panels, 0, ratio_ok);
        if let Ok((i, p)) = check_shape(f.root@, ids, panels, 0, ratio_ok) {
            lemma_check_floating(floating.drop_first(), i, p, geometry_ok, ratio_ok);
        }
    }
}

/// A validated workspace docks every panel at most once and never reuses a
/// node or band identity.
pub proof fn lemma_validated_docking_unique<S, R, X, G, W>(
    bands: Seq<DockBand<S, R, X>>, floating: Seq<FloatingGroup<S, R, G>>,
    collapsed: Seq<CollapsedColumn<W>>, fit_groups: Seq<u32>,
    ratio_ok: spec_fn(R) -> bool, extent_ok: spec_fn(X) -> bool,
    geometry_ok: spec_fn(G) -> bool, width_ok: spec_fn(W) -> bool,
)
    ensures
        spec_validate_docking(bands, floating, collapsed, fit_groups, ratio_ok, extent_ok, geometry_ok, width_ok)
            matches Ok((ids, panels)) ==> no_dups(ids) && no_dups(panels),
{
    lemma_check_bands(band_shapes(bands), Seq::empty(), Seq::empty(), extent_ok, ratio_ok);
    if let Ok((i1, p1)) = check_bands(band_shapes(bands), Seq::empty(), Seq::empty(), extent_ok, ratio_ok) {
        lemma_check_floating(floating, i1, p1, geometry_ok, ratio_ok);
    }
}

/// The tree and host geometry of a floating group.
pub open spec fn floating_shapes<S, R, G>(floating: Seq<FloatingGroup<S, R, G>>) -> Seq<(DockShape<S, R>, G)> {
    Seq::new(floating.len(), |i: int| (floating[i].root@, floating[i].geometry))
}

/// Whether a tree is one tab group of several tabs.
pub open spec fn several_tabs<S, R>(n: DockShape<S, R>) -> bool {
    n matches DockShape::Tabs { panels, .. } && panels.len() > 1
}

/// Whether a tree is one standalone toolbar.
pub open spec fn lone_toolbar<S, R>(n: DockShape<S, R>) -> bool {
    n matches DockShape::Tabs { panels, active, .. } && panels.len() == 1 && spec_kind(active) == PanelKind::Tiles
}

/// The floating groups with `panels` taken out, in order: a group left
/// empty disappears; a survivor keeps its geometry and is marked when a
/// group of several tabs has become one standalone toolbar.
pub open spec fn spec_detach_floating<S, R, G>(groups: Seq<(DockShape<S, R>, G)>, panels: Seq<Panel>) -> Seq<(DockShape<S, R>, G, bool)>
    decreases groups.len(),
{
    if groups.len() == 0 {
        Seq::empty()
    } else {
        let last = groups.last();
        let rest = spec_detach_floating(groups.drop_last(), panels);
        match spec_remove_all(last.0, panels) {
            Some(root) => rest.push((root, last.1, several_tabs(last.0) && lone_toolbar(root))),
            None => rest,
        }
    }
}

/// The trees, geometry and marks of detached floating groups.
pub open spec fn detached_shapes<S, R, G>(groups: Seq<(FloatingGroup<S, R, G>, bool)>) -> Seq<(DockShape<S, R>, G, bool)> {
    Seq::new(groups.len(), |i: int| (groups[i].0.root@, groups[i].0.geometry, groups[i].1))
}

/// Takes `panels` out of every floating group (see `spec_detach_floating`).
/// A marked group has become a standalone toolbar: the host gives it that
/// toolbar's own floating geometry.
pub fn detach_floating<S, R, G>(floating: Vec<FloatingGroup<S, R, G>>, panels: &[Panel]) -> (r: Vec<(FloatingGroup<S, R, G>, bool)>)
    ensures
        detached_shapes(r@) == spec_detach_floating(floating_shapes(floating@), panels@),
{
    let ghost all = floating_shapes(floating@);
    let n = floating.len();
    let mut out: Vec<(FloatingGroup<S, R, G>, bool)> = Vec::new();
    let mut rest = floating;
    let mut i: usize = 0;
    while rest.len() > 0
        invariant
            i + rest@.len() == n,
            all.len() == n,
            floating_shapes(rest@) == all.subrange(i as int, n as int),
            detached_shapes(out@) == spec_detach_floating(all.subrange(0, i as int), panels@),
        decreases rest@.len(),
    {
        let ghost before_out = out@;
        let ghost before_rest = rest@;
        let f = rest.remove(0);
        proof {
            assert(floating_shapes(before_rest)[0] == (f.root@, f.geometry));
            assert forall|j: int| 0 <= j < rest@.len() implies floating_shapes(rest@)[j] == all.subrange(i as int + 1, n as int)[j] by {
                assert(rest@[j] == before_rest[j + 1]);
                assert(floating_shapes(before_rest)[j + 1] == all.subrange(i as int, n as int)[j + 1]);
            }
            assert(floating_shapes(rest@) =~= all.subrange(i as int + 1, n as int));
            let pre = all.subrange(0, i as int + 1);
            assert(pre.drop_last() =~= all.subrange(0, i as int));
            assert(pre.last() == (f.root@, f.geometry));
        }
        let FloatingGroup { root, geometry } = f;
        let several = match &root {
            DockNode::Tabs { panels, .. } => panels.len() > 1,
            _ => false,
        };
        match root.remove_all(panels) {
            Some(root) => {
                let toolbar = match &root {
                    DockNode::Tabs { panels, active, .. } => panels.len() == 1 && active.kind() == PanelKind::Tiles,
                    _ => false,
                };
                out.push((FloatingGroup { root, geometry }, several && toolbar));
                proof {
                    assert(detached_shapes(out@) =~= detached_shapes(before_out).push(
                        (out@.last().0.root@, out@.last().0.geometry, out@.last().1)));
                }
            },
            None => {},
        }
        i = i + 1;
    }
    assert(all.subrange(0, n as int) =~= all);
    out
}

/// Whether tab-sizing group `group` keeps sizing its tabs: it is a tab group
/// of the workspace and not one standalone toolbar.
pub open spec fn keeps_tab_sizing<S, R>(roots: Seq<DockShape<S, R>>, group: u32) -> bool {
    match forest_find(roots, group) {
        Some(DockShape::Tabs { panels, .. }) => panels.len() != 1 || spec_kind(panels[0]) != PanelKind::Tiles,
        _ => false,
    }
}

/// The tab-sizing groups that still size their tabs once panels have left
/// (see `keeps_tab_sizing`), in order.
pub fn retain_tab_sizing<S, R, X, G>(bands: &Vec<DockBand<S, R, X>>, floating: &Vec<FloatingGroup<S, R, G>>, groups: &Vec<u32>) -> (r: Vec<u32>)
    ensures
        r@ == groups@.filter(|g: u32| keeps_tab_sizing(band_roots(bands@) + floating_roots(floating@), g)),
{
    let ghost keep = |g: u32| keeps_tab_sizing(band_roots(bands@) + floating_roots(floating@), g);
    let mut out: Vec<u32> = Vec::new();
    let mut i: usize = 0;
    while i < groups.len()
        invariant
            i <= groups@.len(),
            keep == (|g: u32| keeps_tab_sizing(band_roots(bands@) + floating_roots(floating@), g)),
            out@ == groups@.subrange(0, i as int).filter(keep),
        decreases groups@.len() - i,
    {
        let g = groups[i];
        let kept = match workspace_find(bands, floating, g) {
            Some(DockNode::Tabs { panels, .. }) => panels.len() != 1 || panels[0].kind() != PanelKind::Tiles,
            _ => false,
        };
        proof {
            let pre = groups@.subrange(0, i as int + 1);
            assert(pre.drop_last() =~= groups@.subrange(0, i as int));
            assert(pre.last() == g);
            reveal(Seq::filter);
            assert(kept == keep(g));
        }
        if kept {
            out.push(g);
        }
        i = i + 1;
    }
    assert(groups@.subrange(0, groups@.len() as int) =~= groups@);
    out
}

/// The position of the first column with root `root`.
pub open spec fn root_index<W>(columns: Seq<CollapsedColumn<W>>, root: u32) -> Option<int>
    decreases columns.len(),
{
    if columns.len() == 0 {
        None
    } else if columns[0].root == root {
        Some(0)
    } else {
        match root_index(columns.drop_first(), root) {
            Some(i) => Some(i + 1),
            None => None,
        }
    }
}

proof fn lemma_root_index<W>(columns: Seq<CollapsedColumn<W>>, root: u32, i: int)
    requires
        0 <= i <= columns.len(),
        forall|j: int| 0 <= j < i ==> (#[trigger] columns[j]).root != root,
    ensures
        i < columns.len() && columns[i].root == root ==> root_index(columns, root) == Some(i),
        i == columns.len() ==> root_index(columns, root) is None,
    decreases i,
{
    if i > 0 {
        let rest = columns.drop_first();
        assert forall|j: int| 0 <= j < i - 1 implies (#[trigger] rest[j]).root != root by {
            assert(rest[j] == columns[j + 1]);
        }
        lemma_root_index(rest, root, i - 1);
        if i < columns.len() {
            assert(rest[i - 1] == columns[i]);
        }
    }
}

/// The columns with column `root` recorded at `width`: an existing column
/// with that root keeps the wider of the two widths (`wider(a, b)`: width
/// `a` exceeds `b`), otherwise the column is added at the end.
pub open spec fn merge_column<W>(columns: Seq<CollapsedColumn<W>>, root: u32, width: W, wider: spec_fn(W, W) -> bool) -> Seq<CollapsedColumn<W>> {
    match root_index(columns, root) {
        Some(k) => columns.update(k, CollapsedColumn {
            root,
            expanded_width: if wider(width, columns[k].expanded_width) { width } else { columns[k].expanded_width },
        }),
        None => columns.push(CollapsedColumn { root, expanded_width: width }),
    }
}

/// The collapsed columns once `panels` have left the workspace whose trees
/// are `roots`, in order: a column whose members all left disappears; any
/// other follows what remains of its subtree, which may be a single side of
/// a former split; two columns that end at the same node become one.
pub open spec fn spec_detach_columns<S, R, W>(roots: Seq<DockShape<S, R>>, collapsed: Seq<CollapsedColumn<W>>, panels: Seq<Panel>, wider: spec_fn(W, W) -> bool) -> Seq<CollapsedColumn<W>>
    decreases collapsed.len(),
{
    if collapsed.len() == 0 {
        Seq::empty()
    } else {
        let rest = spec_detach_columns(roots, collapsed.drop_last(), panels, wider);
        let c = collapsed.last();
        match forest_find(roots, c.root) {
            Some(n) => match spec_remove_all(n, panels) {
                Some(m) => merge_column(rest, shape_id(m), c.expanded_width, wider),
                None => rest,
            },
            None => rest,
        }
    }
}

/// The pairs of widths a host comparison reports as wider.
pub open spec fn judged_pair<T, F: Fn(&T, &T) -> bool>(f: &F) -> spec_fn(T, T) -> bool {
    |a: T, b: T| f.ensures((&a, &b), true)
}

/// The collapsed columns once `panels` have left (see
/// `spec_detach_columns`), judged against the workspace before they leave.
/// `wider(a, b)` is the host's judgement that width `a` exceeds `b`.
pub fn detach_columns<S, R, X, G, W: Copy, F: Fn(&W, &W) -> bool>(
    bands: &Vec<DockBand<S, R, X>>,
    floating: &Vec<FloatingGroup<S, R, G>>,
    collapsed: &Vec<CollapsedColumn<W>>,
    panels: &[Panel],
    wider: &F,
) -> (r: Vec<CollapsedColumn<W>>)
    requires
        forall|a: &W, b: &W| wider.requires((a, b)),
        forall|a: &W, b: &W, x: bool, y: bool| wider.ensures((a, b), x) && wider.ensures((a, b), y) ==> x == y,
    ensures
        r@ == spec_detach_columns(band_roots(bands@) + floating_roots(floating@), collapsed@, panels@, judged_pair(wider)),
{
    let ghost roots = band_roots(bands@) + floating_roots(floating@);
    let mut out: Vec<CollapsedColumn<W>> = Vec::new();
    let mut i: usize = 0;
    while i < collapsed.len()
        invariant
            i <= collapsed@.len(),
            roots == band_roots(bands@) + floating_roots(floating@),
            forall|a: &W, b: &W| wider.requires((a, b)),
            forall|a: &W, b: &W, x: bool, y: bool| wider.ensures((a, b), x) && wider.ensures((a, b), y) ==> x == y,
            out@ == spec_detach_columns(roots, collapsed@.subrange(0, i as int), panels@, judged_pair(wider)),
        decreases collapsed@.len() - i,
    {
        let c = collapsed[i];
        proof {
            let pre = collapsed@.subrange(0, i as int + 1);
            assert(pre.drop_last() =~= collapsed@.subrange(0, i as int));
            assert(pre.last() == c);
        }
        match workspace_find(bands, floating, c.root) {
            Some(n) => {
                proof {
                    lemma_survivor(n@, panels@);
                }
                match n.survivor(panels) {
                    Some(id) => {
                        merge_into(&mut out, id, c.expanded_width, wider);
                    },
                    None => {},
                }
            },
            None => {},
        }
        i = i + 1;
    }
    assert(collapsed@.subrange(0, collapsed@.len() as int) =~= collapsed@);
    out
}

/// Records column `root` at `width` (see `merge_column`).
fn merge_into<W: Copy, F: Fn(&W, &W) -> bool>(columns: &mut Vec<CollapsedColumn<W>>, root: u32, width: W, wider: &F)
    requires
        forall|a: &W, b: &W| wider.requires((a, b)),
        forall|a: &W, b: &W, x: bool, y: bool| wider.ensures((a, b), x) && wider.ensures((a, b), y) ==> x == y,
    ensures
        final(columns)@ == merge_column(old(columns)@, root, width, judged_pair(wider)),
{
    let ghost start = columns@;
    let mut k: usize = 0;
    while k < columns.len() && columns[k].root != root
        invariant
            k <= columns@.len(),
            columns@ == start,
            forall|j: int| 0 <= j < k ==> (#[trigger] start[j]).root != root,
        decreases columns@.len() - k,
    {
        k = k + 1;
    }
    proof {
        lemma_root_index(start, root, k as int);
    }
    if k == columns.len() {
        columns.push(CollapsedColumn { root, expanded_width: width });
    } else {
        let existing = columns[k].expanded_width;
        let replace = wider(&width, &existing);
        proof {
            assert(judged_pair(wider)(width, existing) == replace) by {
                if judged_pair(wider)(width, existing) {
                    assert(wider.ensures((&width, &existing), true));
                }
            }
        }
        let w = if replace { width } else { existing };
        columns.set(k, CollapsedColumn { root, expanded_width: w });
    }
}

proof fn lemma_root_index_found<W>(columns: Seq<CollapsedColumn<W>>, root: u32)
    ensures
        match root_index(columns, root) {
            Some(k) => 0 <= k < columns.len() && columns[k].root == root,
            None => forall|j: int| 0 <= j < columns.len() ==> (#[trigger] columns[j]).root != root,
        },
    decreases columns.len(),
{
    if columns.len() > 0 {
        let rest = columns.drop_first();
        lemma_root_index_found(rest, root);
        if columns[0].root != root {
            assert forall|j: int| 1 <= j < columns.len() implies columns[j] == rest[j - 1] by {}
        }
    }
}

/// Whether no two columns share a root.
pub open spec fn distinct_roots<W>(columns: Seq<CollapsedColumn<W>>) -> bool {
    forall|i: int, j: int| 0 <= i < j < columns.len() ==> (#[trigger] columns[i]).root != (#[trigger] columns[j]).root
}

/// Panels leaving never make two collapsed columns share a root: columns
/// that end at the same node are merged into one.
pub proof fn lemma_detached_columns_distinct<S, R, W>(roots: Seq<DockShape<S, R>>, collapsed: Seq<CollapsedColumn<W>>, panels: Seq<Panel>, wider: spec_fn(W, W) -> bool)
    ensures
        distinct_roots(spec_detach_columns(roots, collapsed, panels, wider)),
    decreases collapsed.len(),
{
    if collapsed.len() > 0 {
        let rest = spec_detach_columns(roots, collapsed.drop_last(), panels, wider);
        lemma_detached_columns_distinct(roots, collapsed.drop_last(), panels, wider);
        let c = collapsed.last();
        match forest_find(roots, c.root) {
            Some(n) => match spec_remove_all(n, panels) {
                Some(m) => {
                    let id = shape_id(m);
                    lemma_root_index_found(rest, id);
                    let out = merge_column(rest, id, c.expanded_width, wider);
                    match root_index(rest, id) {
                        Some(k) => {
                            assert forall|j: int| 0 <= j < out.len() implies (#[trigger] out[j]).root == rest[j].root by {}
                        },
                        None => {
                            assert forall|j: int| 0 <= j < rest.len() implies (#[trigger] out[j]) == rest[j] by {}
                        },
                    }
                },
                None => {},
            },
            None => {},
        }
    }
}

/// What a double-click on a group's handle does.
#[derive(Clone, Copy, Debug, PartialEq, Eq, Structural)]
pub enum HandleAction {
    /// Nothing changes.
    Nothing,
    /// The tab of the lone panel is shown or hidden.
    ToggleTab(Panel),
    /// The docked lone toolbar is refitted across its dock to its tiles.
    RefitToolbar(Panel),
    /// The floating lone toolbar takes its default size for the layout.
    FloatingDefault(FloatingToolbarLayout),
    /// The floating group takes its default size back; then the tab of the
    /// panel, when one is named, is shown or hidden.
    ResetSize(Option<Panel>),
}

/// Why a double-click on a group's handle was refused.
#[derive(Clone, Copy, Debug, PartialEq, Eq, Structural)]
pub enum HandleError {
    /// The group is not a tab group of the workspace.
    UnknownGroup,
    /// The floating group is not a tab group.
    InvalidFloating,
}

impl HandleError {
    pub fn message(self) -> (m: &'static str)
        ensures
            self == HandleError::UnknownGroup ==> m@ == "Unknown tab group"@,
            self == HandleError::InvalidFloating ==> m@ == "Invalid floating group"@,
    {
        match self {
            HandleError::UnknownGroup => "Unknown tab group",
            HandleError::InvalidFloating => "Invalid floating group",
        }
    }
}

/// The first floating group whose root has identity `group`.
pub open spec fn floating_index<S, R, G>(floating: Seq<FloatingGroup<S, R, G>>, group: u32) -> Option<int>
    decreases floating.len(),
{
    if floating.len() == 0 {
        None
    } else if shape_id(floating[0].root@) == group {
        Some(0)
    } else {
        match floating_index(floating.drop_first(), group) {
            Some(i) => Some(i + 1),
            None => None,
        }
    }
}

proof fn lemma_floating_index<S, R, G>(floating: Seq<FloatingGroup<S, R, G>>, group: u32, i: int)
    requires
        0 <= i <= floating.len(),
        forall|j: int| 0 <= j < i ==> shape_id((#[trigger] floating[j]).root@) != group,
    ensures
        i < floating.len() && shape_id(floating[i].root@) == group ==> floating_index(floating, group) == Some(i),
        i == floating.len() ==> floating_index(floating, group) is None,
    decreases i,
{
    if i > 0 {
        let rest = floating.drop_first();
        assert forall|j: int| 0 <= j < i - 1 implies shape_id((#[trigger] rest[j]).root@) != group by {
            assert(rest[j] == floating[j + 1]);
        }
        lemma_floating_index(rest, group, i - 1);
        if i < floating.len() {
            assert(rest[i - 1] == floating[i]);
        }
    }
}

/// A double-click on the handle of `group`. Docked, a lone content panel
/// shows or hides its tab and a lone toolbar refits to its dock. Floating, a
/// lone toolbar away from its default size (`at_default`, measured by the
/// host) returns to the compact layout's default, and at its default moves
/// on from layout `current`; any other floating group returns to its default
/// size, and a lone panel already there shows or hides its tab.
pub open spec fn spec_double_click<S, R, X, G>(bands: Seq<DockBand<S, R, X>>, floating: Seq<FloatingGroup<S, R, G>>, group: u32, current: FloatingToolbarLayout, at_default: bool) -> Result<HandleAction, HandleError> {
    match floating_index(floating, group) {
        None => match forest_find(band_roots(bands) + floating_roots(floating), group) {
            Some(DockShape::Tabs { panels, .. }) => if panels.len() != 1 {
                Ok(HandleAction::Nothing)
            } else if spec_kind(panels[0]) == PanelKind::Content {
                Ok(HandleAction::ToggleTab(panels[0]))
            } else {
                Ok(HandleAction::RefitToolbar(panels[0]))
            },
            _ => Err(HandleError::UnknownGroup),
        },
        Some(i) => match floating[i].root@ {
            DockShape::Tabs { panels, active, .. } => if panels.len() == 1 && spec_kind(active) == PanelKind::Tiles {
                Ok(HandleAction::FloatingDefault(if at_default { spec_next_layout(current) } else { FloatingToolbarLayout::Compact }))
            } else {
                Ok(HandleAction::ResetSize(if panels.len() == 1 && at_default { Some(active) } else { None }))
            },
            _ => Err(HandleError::InvalidFloating),
        },
    }
}

/// What a double-click on the handle of `group` does (see
/// `spec_double_click`).
pub fn double_click_action<S, R, X, G>(bands: &Vec<DockBand<S, R, X>>, floating: &Vec<FloatingGroup<S, R, G>>, group: u32, current: FloatingToolbarLayout, at_default: bool) -> (r: Result<HandleAction, HandleError>)
    ensures
        r == spec_double_click(bands@, floating@, group, current, at_default),
{
    let mut i: usize = 0;
    while i < floating.len() && floating[i].root.id() != group
        invariant
            i <= floating@.len(),
            forall|j: int| 0 <= j < i ==> shape_id((#[trigger] floating@[j]).root@) != group,
        decreases floating@.len() - i,
    {
        i = i + 1;
    }
    proof {
        lemma_floating_index(floating@, group, i as int);
    }
    if i < floating.len() {
        match &floating[i].root {
            DockNode::Tabs { panels, active, .. } => {
                if panels.len() == 1 && active.kind() == PanelKind::Tiles {
                    let layout = if at_default { current.next() } else { FloatingToolbarLayout::Compact };
                    Ok(HandleAction::FloatingDefault(layout))
                } else if panels.len() == 1 && at_default {
                    Ok(HandleAction::ResetSize(Some(*active)))
                } else {
                    Ok(HandleAction::ResetSize(None))
                }
            },
            _ => Err(HandleError::InvalidFloating),
        }
    } else {
        match workspace_find(bands, floating, group) {
            Some(DockNode::Tabs { panels, .. }) => {
                if panels.len() != 1 {
                    Ok(HandleAction::Nothing)
                } else if panels[0].kind() == PanelKind::Content {
                    Ok(HandleAction::ToggleTab(panels[0]))
                } else {
                    Ok(HandleAction::RefitToolbar(panels[0]))
                }
            },
            _ => Err(HandleError::UnknownGroup),
        }
    }
}

} // verus!
