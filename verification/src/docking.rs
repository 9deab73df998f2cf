//! A workspace's docking held as one value, and the one transactional path
//! by which a panel or a tab group moves through it: the request is
//! screened, the moved panels leave their places, and they land as a group
//! at the target; a refused request leaves the workspace as it was. Sizes
//! are host values carried through unchanged or taken from `MoveSizes`.
use vstd::prelude::*;
use crate::panel::{spec_axis, spec_default_edge, spec_kind, Axis, DockItem, Edge, Panel, PanelKind};
use crate::dock::{
    lemma_remove_panels, shape_panels, spec_remove, spec_remove_all, spec_tab_group,
    band_index, band_roots, band_shape, band_shapes, copy_panels, forest_find, layout_node,
    first_band_holding, shape_id, shapes, spec_detach_bands, spec_group_for, spec_find, spec_insert_tabs, spec_split_group,
    spec_tab_move_is_noop, detach_bands, holds_id, tab_move_is_noop, BandShape, DockBand,
    contains_panel, group_edge, spec_group_edge, same_docking, spec_docking, spec_placement, PlacementStep,
    DockNode, DockShape,
};
use crate::moves::{
    band_slot, check_target_edge, column_toggle, dock_shown_panel, forest_tab_group, spec_column_toggle, move_source, moves_toolbar, route_move,
    spec_target_edge, check_column_move, is_side, spec_column_move, DockTarget, MoveDecision,
    MoveError, MoveRoute, MoveSource,
};
use crate::toolbar::{move_outcome, spec_error_message, TileDrop, ToolbarError, ToolbarRegistry, ToolbarTile};
use crate::workspace::{
    detach_columns, detach_floating, detached_shapes, floating_roots, floating_shapes, judged,
    judged_pair, keeps_tab_sizing, retain_tab_sizing, spec_detach_columns, spec_detach_floating,
    check_bands, check_floating, check_fit_groups, columns_valid, in_side_band,
    validate_docking, check_id_allocator, CollapsedColumn, FloatingGroup,
    LayoutError,
};
use crate::dock::check_shape;

verus! {

/// A workspace's docking: the bands along the window edges, the floating
/// groups, the collapsed side columns, the groups that size their tabs, and
/// the next free node identity.
#[derive(Debug)]
pub struct DockLayout<S, R, X, G, W> {
    pub bands: Vec<DockBand<S, R, X>>,
    pub floating: Vec<FloatingGroup<S, R, G>>,
    pub collapsed: Vec<CollapsedColumn<W>>,
    pub fit_tab_groups: Vec<u32>,
    pub next_id: u32,
}

/// The mathematical form of a workspace's docking.
pub struct LayoutShape<S, R, X, G, W> {
    pub bands: Seq<BandShape<S, R, X>>,
    pub floating: Seq<(DockShape<S, R>, G)>,
    pub collapsed: Seq<CollapsedColumn<W>>,
    pub fit_tab_groups: Seq<u32>,
    pub next_id: u32,
}

impl<S, R, X, G, W> View for DockLayout<S, R, X, G, W> {
    type V = LayoutShape<S, R, X, G, W>;

    open spec fn view(&self) -> LayoutShape<S, R, X, G, W> {
        LayoutShape {
            bands: band_shapes(self.bands@),
            floating: floating_shapes(self.floating@),
            collapsed: self.collapsed@,
            fit_tab_groups: self.fit_tab_groups@,
            next_id: self.next_id,
        }
    }
}

/// The host's sizes for a move: the tab style of a newly formed group, the
/// ratio of a new split, the extent of a new band, the geometry of a new
/// floating group, and the geometry a floating group takes when it is left
/// holding one standalone toolbar.
pub struct MoveSizes<S, R, X, G> {
    pub tab_style: S,
    pub fraction: R,
    pub extent: X,
    pub floating: G,
    pub lone_toolbar: G,
}

/// The trees of the bands.
pub open spec fn band_trees<S, R, X>(bands: Seq<BandShape<S, R, X>>) -> Seq<DockShape<S, R>> {
    Seq::new(bands.len(), |i: int| bands[i].root)
}

/// The trees of the floating groups.
pub open spec fn floating_trees<S, R, G>(floating: Seq<(DockShape<S, R>, G)>) -> Seq<DockShape<S, R>> {
    Seq::new(floating.len(), |i: int| floating[i].0)
}

/// Every tree of the workspace: the bands first, then the floating groups.
pub open spec fn layout_trees<S, R, X, G>(bands: Seq<BandShape<S, R, X>>, floating: Seq<(DockShape<S, R>, G)>) -> Seq<DockShape<S, R>> {
    band_trees(bands) + floating_trees(floating)
}

/// The first position of `p` in `s`.
pub open spec fn first_index(s: Seq<Panel>, p: Panel) -> int {
    choose|i: int| 0 <= i < s.len() && s[i] == p && forall|j: int| 0 <= j < i ==> s[j] != p
}

/// What a drag of `item` takes with it (see `move_source`): the panels, the
/// tab shown where they land, the group they leave, the first one's place
/// in it and its tab count.
pub open spec fn spec_source<S, R>(trees: Seq<DockShape<S, R>>, item: DockItem) -> Result<(Seq<Panel>, Panel, u32, int, int), MoveError> {
    match item {
        DockItem::Panel { panel } => match forest_tab_group(trees, panel) {
            Some((g, tabs)) => Ok((seq![panel], panel, g, first_index(tabs, panel), tabs.len() as int)),
            None => Err(MoveError::UnknownPanel),
        },
        DockItem::Group { group } => match forest_find(trees, group) {
            Some(DockShape::Tabs { panels, active, .. }) => Ok((panels, active, group, 0, panels.len() as int)),
            _ => Err(MoveError::UnknownTabGroup),
        },
        _ => Err(MoveError::UnknownPanel),
    }
}

/// Whether a floating group's tree has identity `group`.
pub open spec fn floats<S, R, G>(floating: Seq<(DockShape<S, R>, G)>, group: u32) -> bool {
    exists|i: int| 0 <= i < floating.len() && shape_id(#[trigger] floating[i].0) == group
}

/// The refusal a move meets before anything is looked up: a panel or group
/// never lands in a toolbar, never splits a floating group, and never floats
/// at a position the host refuses.
pub open spec fn spec_screen<S, R, X, G, W, P>(l: LayoutShape<S, R, X, G, W>, target: DockTarget<P>, position_ok: spec_fn(P) -> bool) -> Option<MoveError> {
    match target {
        DockTarget::Tile { .. } => Some(MoveError::ToolsOnlyInToolbars),
        DockTarget::TileGroup { .. } => Some(MoveError::ToolsOnlyInToolbars),
        DockTarget::Split { group, .. } => if floats(l.floating, group) { Some(MoveError::FloatingSplit) } else { None },
        DockTarget::Float { position } => if position_ok(position) { None } else { Some(MoveError::InvalidPosition) },
        _ => None,
    }
}

/// The floating groups once the moved panels have left: a group left holding
/// one standalone toolbar takes the host's `lone` geometry.
pub open spec fn detached_floating<S, R, G>(floating: Seq<(DockShape<S, R>, G)>, moving: Seq<Panel>, lone: G) -> Seq<(DockShape<S, R>, G)> {
    let d = spec_detach_floating(floating, moving);
    Seq::new(d.len(), |i: int| (d[i].0, if d[i].2 { lone } else { d[i].1 }))
}

/// `groups` with `group` added at the end unless it is there already.
pub open spec fn fitted(groups: Seq<u32>, group: u32) -> Seq<u32> {
    if groups.contains(group) { groups } else { groups.push(group) }
}

/// The first of `trees` holding node `target`.
pub open spec fn first_with<S, R>(trees: Seq<DockShape<S, R>>, target: u32) -> Option<int>
    decreases trees.len(),
{
    if trees.len() == 0 {
        None
    } else if spec_find(trees[0], target) is Some {
        Some(0)
    } else {
        match first_with(trees.drop_first(), target) {
            Some(i) => Some(i + 1),
            None => None,
        }
    }
}

/// A change made to one node of a tree: tabs dropped into a group, or a
/// group split to take a new neighbour.
pub enum TreeEdit<S, R> {
    Insert { at: Option<usize>, source: Option<usize>, moved: Seq<Panel>, selected: Panel },
    Split { id: u32, edge: Edge, fraction: R, moving: DockShape<S, R> },
}

/// A tree with `edit` made at node `group` (see `spec_insert_tabs` and
/// `spec_split_group`).
pub open spec fn spec_edit<S, R>(n: DockShape<S, R>, group: u32, edit: TreeEdit<S, R>) -> DockShape<S, R> {
    match edit {
        TreeEdit::Insert { at, source, moved, selected } => spec_insert_tabs(n, group, at, source, moved, selected),
        TreeEdit::Split { id, edge, fraction, moving } => spec_split_group(n, group, id, edge, fraction, moving),
    }
}

/// The bands and floating groups with `edit` made in the first tree holding
/// node `group`, bands first.
pub open spec fn edit_layout<S, R, X, G>(bands: Seq<BandShape<S, R, X>>, floating: Seq<(DockShape<S, R>, G)>, group: u32, edit: TreeEdit<S, R>) -> (Seq<BandShape<S, R, X>>, Seq<(DockShape<S, R>, G)>) {
    match first_with(band_trees(bands), group) {
        Some(i) => (bands.update(i, BandShape { id: bands[i].id, edge: bands[i].edge, extent: bands[i].extent, root: spec_edit(bands[i].root, group, edit) }), floating),
        None => match first_with(floating_trees(floating), group) {
            Some(j) => (bands, floating.update(j, (spec_edit(floating[j].0, group, edit), floating[j].1))),
            None => (bands, floating),
        },
    }
}

/// The collapsed columns with the first one rooted at `group` rooted at
/// `id` instead.
pub open spec fn rebind_column<W>(collapsed: Seq<CollapsedColumn<W>>, group: u32, id: u32) -> Seq<CollapsedColumn<W>> {
    if exists|i: int| 0 <= i < collapsed.len() && (#[trigger] collapsed[i]).root == group {
        let i = choose|i: int| 0 <= i < collapsed.len() && collapsed[i].root == group
            && forall|j: int| 0 <= j < i ==> (#[trigger] collapsed[j]).root != group;
        collapsed.update(i, CollapsedColumn { root: id, expanded_width: collapsed[i].expanded_width })
    } else {
        collapsed
    }
}

/// The landing of the moved group `node` at `target`, in the workspace the
/// moved panels have left (bands `b`, floating groups `f`, columns `c`,
/// tab-sizing groups `fit`, next identity `next`). `source` is the group
/// they left and `index` the first one's place in it.
pub open spec fn spec_land<S, R, X, G, W, P>(
    b: Seq<BandShape<S, R, X>>, f: Seq<(DockShape<S, R>, G)>, c: Seq<CollapsedColumn<W>>, fit: Seq<u32>, next: u32,
    node: DockShape<S, R>, target: DockTarget<P>, sizes: MoveSizes<S, R, X, G>, was_fitted: bool,
    source: u32, index: int, moved: Seq<Panel>, selected: Panel,
) -> Result<LayoutShape<S, R, X, G, W>, MoveError> {
    let id = shape_id(node);
    let fit_moved = if was_fitted { fitted(fit, id) } else { fit };
    match target {
        DockTarget::Float { .. } => Ok(LayoutShape {
            bands: b, floating: f.push((node, sizes.floating)), collapsed: c, fit_tab_groups: fit_moved, next_id: next,
        }),
        DockTarget::Edge { edge, outer } => if next == u32::MAX {
            Err(MoveError::IdsExhausted)
        } else {
            let at = if outer { 0int } else { b.len() as int };
            Ok(LayoutShape {
                bands: b.insert(at, BandShape { id: next, edge, extent: sizes.extent, root: node }),
                floating: f, collapsed: c, fit_tab_groups: fit_moved, next_id: (next + 1) as u32,
            })
        },
        DockTarget::BesideBand { band } => match band_index(b, band) {
            None => Err(MoveError::SidebarGone),
            Some(k) => if next == u32::MAX {
                Err(MoveError::IdsExhausted)
            } else {
                Ok(LayoutShape {
                    bands: b.insert(k + 1, BandShape { id: next, edge: b[k].edge, extent: sizes.extent, root: node }),
                    floating: f, collapsed: c, fit_tab_groups: fit_moved, next_id: (next + 1) as u32,
                })
            },
        },
        DockTarget::Tab { group, index: at } => match forest_find(layout_trees(b, f), group) {
            Some(DockShape::Tabs { .. }) => {
                let src: Option<usize> = if group == source { Some(index as usize) } else { None };
                let e = edit_layout(b, f, group, TreeEdit::Insert { at, source: src, moved, selected });
                Ok(LayoutShape { bands: e.0, floating: e.1, collapsed: c, fit_tab_groups: fitted(fit, group), next_id: next })
            },
            _ => Err(MoveError::TabTargetGone),
        },
        DockTarget::Split { group, edge } => if next == u32::MAX {
            Err(MoveError::IdsExhausted)
        } else {
            let c2 = if spec_axis(edge) == Axis::Vertical { rebind_column(c, group, next) } else { c };
            match forest_find(layout_trees(b, f), group) {
                None => Err(MoveError::SplitTargetGone),
                Some(DockShape::Split { .. }) => Err(MoveError::SplitNotTabs),
                Some(DockShape::Tabs { .. }) => {
                    let e = edit_layout(b, f, group, TreeEdit::Split { id: next, edge, fraction: sizes.fraction, moving: node });
                    Ok(LayoutShape { bands: e.0, floating: e.1, collapsed: c2, fit_tab_groups: fit_moved, next_id: (next + 1) as u32 })
                },
            }
        },
        _ => Err(MoveError::ToolsOnlyInToolbars),
    }
}

/// The first band whose tree holds `panel`.
pub open spec fn first_band_holding_shape<S, R, X>(bands: Seq<BandShape<S, R, X>>, panel: Panel) -> Option<int>
    decreases bands.len(),
{
    if bands.len() == 0 {
        None
    } else if spec_group_for(bands[0].root, panel) is Some {
        Some(0)
    } else {
        match first_band_holding_shape(bands.drop_first(), panel) {
            Some(i) => Some(i + 1),
            None => None,
        }
    }
}

/// The edge of the band holding tab group `group`: the band whose tree
/// holds the group's first tab.
pub open spec fn group_edge_of<S, R, X, G>(b: Seq<BandShape<S, R, X>>, f: Seq<(DockShape<S, R>, G)>, group: u32) -> Option<Edge> {
    match forest_find(layout_trees(b, f), group) {
        Some(DockShape::Tabs { panels, .. }) => if panels.len() == 0 {
            None
        } else {
            match first_band_holding_shape(b, panels[0]) {
                Some(k) => Some(b[k].edge),
                None => None,
            }
        },
        _ => None,
    }
}

/// The edge a drop onto `target` docks at (see `spec_target_edge`).
pub open spec fn target_edge_of<S, R, X, G, P>(b: Seq<BandShape<S, R, X>>, f: Seq<(DockShape<S, R>, G)>, target: DockTarget<P>) -> Option<Edge> {
    match target {
        DockTarget::Edge { edge, .. } => Some(edge),
        DockTarget::BesideBand { band } => match band_index(b, band) {
            Some(k) => Some(b[k].edge),
            None => None,
        },
        DockTarget::Tab { group, .. } => group_edge_of(b, f, group),
        DockTarget::Split { group, .. } => group_edge_of(b, f, group),
        _ => None,
    }
}

proof fn lemma_band_index_in<S, R, X>(bands: Seq<BandShape<S, R, X>>, id: u32)
    ensures
        band_index(bands, id) matches Some(i) ==> 0 <= i < bands.len() && bands[i].id == id,
    decreases bands.len(),
{
    if bands.len() > 0 {
        lemma_band_index_in(bands.drop_first(), id);
    }
}

proof fn lemma_first_band_holding_in<S, R, X>(bands: Seq<BandShape<S, R, X>>, panel: Panel)
    ensures
        first_band_holding_shape(bands, panel) matches Some(i) ==> 0 <= i < bands.len(),
    decreases bands.len(),
{
    if bands.len() > 0 {
        lemma_first_band_holding_in(bands.drop_first(), panel);
    }
}

proof fn lemma_first_band_holding_shape<S, R, X>(bands: Seq<DockBand<S, R, X>>, panel: Panel)
    ensures
        first_band_holding(bands, panel) == first_band_holding_shape(band_shapes(bands), panel),
    decreases bands.len(),
{
    if bands.len() > 0 {
        assert(band_shapes(bands).drop_first() =~= band_shapes(bands.drop_first()));
        lemma_first_band_holding_shape(bands.drop_first(), panel);
    }
}

/// Where a move of `item` onto `target` lands (see `spec_move_item`).
pub open spec fn spec_item_landing<S, R, X, G, W, P>(
    l: LayoutShape<S, R, X, G, W>, item: DockItem, target: DockTarget<P>, sizes: MoveSizes<S, R, X, G>,
    position_ok: spec_fn(P) -> bool, wider: spec_fn(W, W) -> bool,
) -> Result<LayoutShape<S, R, X, G, W>, MoveError> {
    let trees = layout_trees(l.bands, l.floating);
    match spec_screen(l, target, position_ok) {
        Some(e) => Err(e),
        None => match spec_source(trees, item) {
            Err(e) => Err(e),
            Ok((moved, selected, source, index, len)) => {
                let whole = moved.len() == len;
                let keeps = whole || target is Tab;
                if target matches DockTarget::Tab { group, index: at } && group == source
                    && spec_tab_move_is_noop(at, len as usize, index as usize, whole) {
                    Ok(l)
                } else if !keeps && l.next_id == u32::MAX {
                    Err(MoveError::IdsExhausted)
                } else {
                    let id = if keeps { source } else { l.next_id };
                    let next = if keeps { l.next_id } else { (l.next_id + 1) as u32 };
                    let style = if whole {
                        match forest_find(trees, source) {
                            Some(DockShape::Tabs { tab_style, .. }) => tab_style,
                            _ => sizes.tab_style,
                        }
                    } else {
                        sizes.tab_style
                    };
                    let was_fitted = whole && l.fit_tab_groups.contains(source);
                    let b = spec_detach_bands(l.bands, moved);
                    let f = detached_floating(l.floating, moved, sizes.lone_toolbar);
                    let c = spec_detach_columns(trees, l.collapsed, moved, wider);
                    let fit = l.fit_tab_groups.filter(|g: u32| keeps_tab_sizing(layout_trees(b, f), g));
                    let edge = target_edge_of(b, f, target);
                    let toolbar = moved.len() == 1 && spec_kind(selected) == PanelKind::Tiles;
                    if (edge == Some(Edge::Top) || edge == Some(Edge::Bottom)) && (!toolbar || target is Tab) {
                        Err(MoveError::EdgeToolbarsOnly)
                    } else {
                        spec_land(b, f, c, fit, next,
                            DockShape::Tabs { id, panels: moved, active: selected, tab_style: style },
                            target, sizes, was_fitted, source, index, moved, selected)
                    }
                }
            },
        },
    }
}

/// The floating groups' trees read as bands of one edge, for comparing
/// placements.
pub open spec fn float_bands<S, R, G>(floating: Seq<(DockShape<S, R>, G)>) -> Seq<BandShape<S, R, u8>> {
    Seq::new(floating.len(), |i: int| BandShape { id: 0, edge: Edge::Top, extent: 0u8, root: floating[i].0 })
}

/// Whether two workspaces place the same panels the same way: every band on
/// the same edge with the same arrangement of tab groups (identities and
/// tabs) and splits, reading a run of same-axis splits as one, and the
/// floating groups likewise, whatever the sizes.
pub open spec fn same_placement<S, R, X, G, W>(a: LayoutShape<S, R, X, G, W>, b: LayoutShape<S, R, X, G, W>) -> bool {
    &&& shape_docking(a.bands) == shape_docking(b.bands)
    &&& shape_docking(float_bands(a.floating)) == shape_docking(float_bands(b.floating))
}

/// The outcome of moving `item` onto `target` (see `move_item`): where it
/// lands (`spec_item_landing`); a landing that places every panel as before
/// leaves the workspace as it was, sizes and identities included; any other
/// must leave a valid workspace (`layout_check`), else it is refused.
pub open spec fn spec_move_item<S, R, X, G, W, P>(
    l: LayoutShape<S, R, X, G, W>, item: DockItem, target: DockTarget<P>, sizes: MoveSizes<S, R, X, G>,
    position_ok: spec_fn(P) -> bool, wider: spec_fn(W, W) -> bool,
    ratio_ok: spec_fn(R) -> bool, extent_ok: spec_fn(X) -> bool, geometry_ok: spec_fn(G) -> bool, width_ok: spec_fn(W) -> bool,
) -> Result<LayoutShape<S, R, X, G, W>, MoveError> {
    match spec_item_landing(l, item, target, sizes, position_ok, wider) {
        Err(e) => Err(e),
        Ok(m) => if same_placement(l, m) {
            Ok(l)
        } else {
            match layout_check(m, ratio_ok, extent_ok, geometry_ok, width_ok) {
                Err(e) => Err(MoveError::Invalid(e)),
                Ok(()) => Ok(m),
            }
        },
    }
}

proof fn lemma_first_with<S, R>(trees: Seq<DockShape<S, R>>, target: u32, i: int)
    requires
        0 <= i <= trees.len(),
        forall|j: int| 0 <= j < i ==> spec_find(#[trigger] trees[j], target) is None,
    ensures
        i < trees.len() && spec_find(trees[i], target) is Some ==> first_with(trees, target) == Some(i),
        i == trees.len() ==> first_with(trees, target) is None,
    decreases i,
{
    if i > 0 {
        let rest = trees.drop_first();
        assert forall|j: int| 0 <= j < i - 1 implies spec_find(#[trigger] rest[j], target) is None by {
            assert(rest[j] == trees[j + 1]);
        }
        lemma_first_with(rest, target, i - 1);
        if i < trees.len() {
            assert(rest[i - 1] == trees[i]);
        }
    }
}

fn floating_tree_copies<S: Copy, R: Copy, G>(floating: &Vec<FloatingGroup<S, R, G>>) -> (r: Vec<DockNode<S, R>>)
    ensures
        shapes(r@) == floating_roots(floating@),
{
    let mut r: Vec<DockNode<S, R>> = Vec::new();
    let mut i: usize = 0;
    while i < floating.len()
        invariant
            i <= floating@.len(),
            r@.len() == i,
            shapes(r@) == floating_roots(floating@).subrange(0, i as int),
        decreases floating@.len() - i,
    {
        let ghost prev = r@;
        let t = floating[i].root.duplicate();
        r.push(t);
        proof {
            assert forall|k: int| 0 <= k < r@.len() implies shapes(r@)[k] == floating_roots(floating@).subrange(0, i as int + 1)[k] by {
                if k < i {
                    assert(r@[k] == prev[k]);
                    assert(shapes(prev)[k] == floating_roots(floating@).subrange(0, i as int)[k]);
                }
            }
        }
        i = i + 1;
        assert(shapes(r@) =~= floating_roots(floating@).subrange(0, i as int));
    }
    assert(floating_roots(floating@).subrange(0, i as int) =~= floating_roots(floating@));
    r
}

fn duplicate_bands<S: Copy, R: Copy, X: Copy>(bands: &Vec<DockBand<S, R, X>>) -> (r: Vec<DockBand<S, R, X>>)
    ensures
        band_shapes(r@) == band_shapes(bands@),
{
    let mut r: Vec<DockBand<S, R, X>> = Vec::new();
    let mut i: usize = 0;
    while i < bands.len()
        invariant
            i <= bands@.len(),
            r@.len() == i,
            band_shapes(r@) == band_shapes(bands@).subrange(0, i as int),
        decreases bands@.len() - i,
    {
        let ghost prev = r@;
        let b = &bands[i];
        r.push(DockBand { id: b.id, edge: b.edge, extent: b.extent, root: b.root.duplicate() });
        proof {
            assert forall|k: int| 0 <= k < r@.len() implies band_shapes(r@)[k] == band_shapes(bands@).subrange(0, i as int + 1)[k] by {
                if k < i {
                    assert(r@[k] == prev[k]);
                    assert(band_shapes(prev)[k] == band_shapes(bands@).subrange(0, i as int)[k]);
                }
            }
        }
        i = i + 1;
        assert(band_shapes(r@) =~= band_shapes(bands@).subrange(0, i as int));
    }
    assert(band_shapes(bands@).subrange(0, i as int) =~= band_shapes(bands@));
    r
}

fn duplicate_floating<S: Copy, R: Copy, G: Copy>(floating: &Vec<FloatingGroup<S, R, G>>) -> (r: Vec<FloatingGroup<S, R, G>>)
    ensures
        floating_shapes(r@) == floating_shapes(floating@),
{
    let mut r: Vec<FloatingGroup<S, R, G>> = Vec::new();
    let mut i: usize = 0;
    while i < floating.len()
        invariant
            i <= floating@.len(),
            r@.len() == i,
            floating_shapes(r@) == floating_shapes(floating@).subrange(0, i as int),
        decreases floating@.len() - i,
    {
        let ghost prev = r@;
        let f = &floating[i];
        r.push(FloatingGroup { root: f.root.duplicate(), geometry: f.geometry });
        proof {
            assert forall|k: int| 0 <= k < r@.len() implies floating_shapes(r@)[k] == floating_shapes(floating@).subrange(0, i as int + 1)[k] by {
                if k < i {
                    assert(r@[k] == prev[k]);
                    assert(floating_shapes(prev)[k] == floating_shapes(floating@).subrange(0, i as int)[k]);
                }
            }
        }
        i = i + 1;
        assert(floating_shapes(r@) =~= floating_shapes(floating@).subrange(0, i as int));
    }
    assert(floating_shapes(floating@).subrange(0, i as int) =~= floating_shapes(floating@));
    r
}

/// The detached floating groups, those marked taking geometry `lone`.
fn settle_floating<S, R, G: Copy>(detached: Vec<(FloatingGroup<S, R, G>, bool)>, lone: G) -> (r: Vec<FloatingGroup<S, R, G>>)
    ensures
        floating_shapes(r@) == Seq::new(detached@.len(), |i: int|
            (detached_shapes(detached@)[i].0, if detached_shapes(detached@)[i].2 { lone } else { detached_shapes(detached@)[i].1 })),
{
    let ghost all = detached_shapes(detached@);
    let n = detached.len();
    let mut rest = detached;
    let mut r: Vec<FloatingGroup<S, R, G>> = Vec::new();
    let mut i: usize = 0;
    while rest.len() > 0
        invariant
            i + rest@.len() == n,
            all.len() == n,
            detached_shapes(rest@) == all.subrange(i as int, n as int),
            r@.len() == i,
            floating_shapes(r@) == Seq::new(i as nat, |k: int| (all[k].0, if all[k].2 { lone } else { all[k].1 })),
        decreases rest@.len(),
    {
        let ghost before = rest@;
        let (f, mark) = rest.remove(0);
        proof {
            assert(detached_shapes(before)[0] == all[i as int]);
            assert forall|j: int| 0 <= j < rest@.len() implies detached_shapes(rest@)[j] == all.subrange(i as int + 1, n as int)[j] by {
                assert(rest@[j] == before[j + 1]);
                assert(detached_shapes(before)[j + 1] == all.subrange(i as int, n as int)[j + 1]);
            }
            assert(detached_shapes(rest@) =~= all.subrange(i as int + 1, n as int));
        }
        let geometry = if mark { lone } else { f.geometry };
        let ghost prev = r@;
        r.push(FloatingGroup { root: f.root, geometry });
        proof {
            assert forall|k: int| 0 <= k < r@.len() implies floating_shapes(r@)[k] == (all[k].0, if all[k].2 { lone } else { all[k].1 }) by {
                if k < i {
                    assert(r@[k] == prev[k]);
                    assert(floating_shapes(prev)[k] == (all[k].0, if all[k].2 { lone } else { all[k].1 }));
                }
            }
        }
        i = i + 1;
        assert(floating_shapes(r@) =~= Seq::new(i as nat, |k: int| (all[k].0, if all[k].2 { lone } else { all[k].1 })));
    }
    r
}

/// `groups` with `group` added unless it is there.
fn fit_group(groups: &mut Vec<u32>, group: u32)
    ensures
        final(groups)@ == fitted(old(groups)@, group),
{
    if !holds_id(groups, group) {
        groups.push(group);
    }
}

/// The first column rooted at `group` rooted at `id` instead.
fn rebind<W: Copy>(collapsed: &mut Vec<CollapsedColumn<W>>, group: u32, id: u32)
    ensures
        final(collapsed)@ == rebind_column(old(collapsed)@, group, id),
{
    let ghost start = collapsed@;
    let mut i: usize = 0;
    while i < collapsed.len() && collapsed[i].root != group
        invariant
            i <= collapsed@.len(),
            collapsed@ == start,
            forall|j: int| 0 <= j < i ==> (#[trigger] start[j]).root != group,
        decreases collapsed@.len() - i,
    {
        i = i + 1;
    }
    if i < collapsed.len() {
        let w = collapsed[i].expanded_width;
        collapsed.set(i, CollapsedColumn { root: id, expanded_width: w });
        proof {
            assert(start[i as int].root == group);
            let k = choose|k: int| 0 <= k < start.len() && start[k].root == group
                && forall|j: int| 0 <= j < k ==> (#[trigger] start[j]).root != group;
            if k < i {
                assert(start[k].root != group);
            }
            if k > i {
                assert(start[i as int].root != group);
            }
            assert(k == i);
        }
    } else {
        proof {
            assert(!exists|k: int| 0 <= k < start.len() && (#[trigger] start[k]).root == group);
        }
    }
}

proof fn lemma_first_with_found<S, R>(trees: Seq<DockShape<S, R>>, target: u32)
    ensures
        match first_with(trees, target) {
            Some(i) => 0 <= i < trees.len() && spec_find(trees[i], target) is Some,
            None => forall|j: int| 0 <= j < trees.len() ==> spec_find(#[trigger] trees[j], target) is None,
        },
    decreases trees.len(),
{
    if trees.len() > 0 {
        let rest = trees.drop_first();
        lemma_first_with_found(rest, target);
        if spec_find(trees[0], target) is None {
            assert forall|j: int| 1 <= j < trees.len() implies trees[j] == rest[j - 1] by {}
        }
    }
}

/// The first band whose tree holds node `group`, and when there is none the
/// first floating group whose tree does.
fn locate<S, R, X, G>(bands: &Vec<DockBand<S, R, X>>, floating: &Vec<FloatingGroup<S, R, G>>, group: u32) -> (r: (Option<usize>, Option<usize>))
    ensures
        match r.0 {
            Some(i) => i < bands@.len() && first_with(band_trees(band_shapes(bands@)), group) == Some(i as int),
            None => first_with(band_trees(band_shapes(bands@)), group) is None && match r.1 {
                Some(j) => j < floating@.len() && first_with(floating_trees(floating_shapes(floating@)), group) == Some(j as int),
                None => first_with(floating_trees(floating_shapes(floating@)), group) is None,
            },
        },
{
    let ghost bt = band_trees(band_shapes(bands@));
    let mut i: usize = 0;
    while i < bands.len() && bands[i].root.find(group).is_none()
        invariant
            i <= bands@.len(),
            bt == band_trees(band_shapes(bands@)),
            forall|j: int| 0 <= j < i ==> spec_find(#[trigger] bt[j], group) is None,
        decreases bands@.len() - i,
    {
        assert(bt[i as int] == bands@[i as int].root@);
        i = i + 1;
    }
    proof {
        lemma_first_with(bt, group, i as int);
        if i < bands@.len() {
            assert(bt[i as int] == bands@[i as int].root@);
        }
    }
    if i < bands.len() {
        return (Some(i), None);
    }
    let ghost ft = floating_trees(floating_shapes(floating@));
    let mut j: usize = 0;
    while j < floating.len() && floating[j].root.find(group).is_none()
        invariant
            j <= floating@.len(),
            ft == floating_trees(floating_shapes(floating@)),
            forall|k: int| 0 <= k < j ==> spec_find(#[trigger] ft[k], group) is None,
        decreases floating@.len() - j,
    {
        assert(ft[j as int] == floating@[j as int].root@);
        j = j + 1;
    }
    proof {
        lemma_first_with(ft, group, j as int);
        if j < floating@.len() {
            assert(ft[j as int] == floating@[j as int].root@);
        }
    }
    if j < floating.len() {
        (None, Some(j))
    } else {
        (None, None)
    }
}

/// Drops `moved` into tab group `group` (see `edit_layout`).
fn insert_in_layout<S, R, X, G>(bands: &mut Vec<DockBand<S, R, X>>, floating: &mut Vec<FloatingGroup<S, R, G>>, group: u32,
    at: Option<usize>, source: Option<usize>, moved: &Vec<Panel>, selected: Panel)
    ensures
        (band_shapes(final(bands)@), floating_shapes(final(floating)@)) == edit_layout(band_shapes(old(bands)@), floating_shapes(old(floating)@),
            group, TreeEdit::Insert { at, source, moved: moved@, selected }),
{
    let ghost b0 = band_shapes(bands@);
    let ghost f0 = floating_shapes(floating@);
    let ghost e = TreeEdit::<S, R>::Insert { at, source, moved: moved@, selected };
    let (bi, fi) = locate(bands, floating, group);
    match bi {
        Some(i) => {
            let band = bands.remove(i);
            let DockBand { id, edge, extent, root } = band;
            let (root, _) = root.insert_tabs(group, at, source, moved, selected);
            bands.insert(i, DockBand { id, edge, extent, root });
            proof {
                assert(band_shapes(bands@) =~= b0.update(i as int, BandShape { id: b0[i as int].id, edge: b0[i as int].edge,
                    extent: b0[i as int].extent, root: spec_edit(b0[i as int].root, group, e) }));
            }
        },
        None => match fi {
            Some(j) => {
                let f = floating.remove(j);
                let FloatingGroup { root, geometry } = f;
                let (root, _) = root.insert_tabs(group, at, source, moved, selected);
                floating.insert(j, FloatingGroup { root, geometry });
                proof {
                    assert(floating_shapes(floating@) =~= f0.update(j as int, (spec_edit(f0[j as int].0, group, e), f0[j as int].1)));
                }
            },
            None => {},
        },
    }
}

/// Splits node `group` to place `moving` on its `edge` (see `edit_layout`).
fn split_in_layout<S, R, X, G>(bands: &mut Vec<DockBand<S, R, X>>, floating: &mut Vec<FloatingGroup<S, R, G>>, group: u32,
    id: u32, edge: Edge, fraction: R, moving: DockNode<S, R>)
    ensures
        (band_shapes(final(bands)@), floating_shapes(final(floating)@)) == edit_layout(band_shapes(old(bands)@), floating_shapes(old(floating)@),
            group, TreeEdit::Split { id, edge, fraction, moving: moving@ }),
{
    let ghost b0 = band_shapes(bands@);
    let ghost f0 = floating_shapes(floating@);
    let ghost e = TreeEdit::<S, R>::Split { id, edge, fraction, moving: moving@ };
    proof {
        lemma_first_with_found(band_trees(b0), group);
        lemma_first_with_found(floating_trees(f0), group);
    }
    let (bi, fi) = locate(bands, floating, group);
    match bi {
        Some(i) => {
            let band = bands.remove(i);
            let DockBand { id: band_id, edge: band_edge, extent, root } = band;
            assert(band_trees(b0)[i as int] == root@);
            let root = root.split_group(group, id, edge, fraction, moving);
            bands.insert(i, DockBand { id: band_id, edge: band_edge, extent, root });
            proof {
                assert(band_shapes(bands@) =~= b0.update(i as int, BandShape { id: b0[i as int].id, edge: b0[i as int].edge,
                    extent: b0[i as int].extent, root: spec_edit(b0[i as int].root, group, e) }));
            }
        },
        None => match fi {
            Some(j) => {
                let f = floating.remove(j);
                let FloatingGroup { root, geometry } = f;
                assert(floating_trees(f0)[j as int] == root@);
                let root = root.split_group(group, id, edge, fraction, moving);
                floating.insert(j, FloatingGroup { root, geometry });
                proof {
                    assert(floating_shapes(floating@) =~= f0.update(j as int, (spec_edit(f0[j as int].0, group, e), f0[j as int].1)));
                }
            },
            None => {},
        },
    }
}

proof fn lemma_first_index(s: Seq<Panel>, p: Panel, i: int)
    requires
        0 <= i < s.len(),
        s[i] == p,
        forall|j: int| 0 <= j < i ==> s[j] != p,
    ensures
        first_index(s, p) == i,
{
    let k = first_index(s, p);
    assert(0 <= k < s.len() && s[k] == p && forall|j: int| 0 <= j < k ==> s[j] != p);
    if k < i {
        assert(s[k] != p);
    }
    if k > i {
        assert(s[i] != p);
    }
}

/// Lands the moved group `node` at `target` in the workspace the moved
/// panels have left (see `spec_land`).
fn land<S: Copy, R: Copy, X: Copy, G: Copy, W: Copy, P>(
    bands: Vec<DockBand<S, R, X>>,
    floating: Vec<FloatingGroup<S, R, G>>,
    collapsed: Vec<CollapsedColumn<W>>,
    fit: Vec<u32>,
    next: u32,
    node: DockNode<S, R>,
    target: &DockTarget<P>,
    sizes: &MoveSizes<S, R, X, G>,
    was_fitted: bool,
    source: u32,
    source_index: usize,
    moved: &Vec<Panel>,
    selected: Panel,
) -> (r: Result<DockLayout<S, R, X, G, W>, MoveError>)
    ensures
        match spec_land(band_shapes(bands@), floating_shapes(floating@), collapsed@, fit@, next, node@, *target, *sizes,
            was_fitted, source, source_index as int, moved@, selected) {
            Ok(l) => (r matches Ok(d) && d@ == l),
            Err(e) => r == Err::<DockLayout<S, R, X, G, W>, MoveError>(e),
        },
{
    let ghost b0 = band_shapes(bands@);
    let ghost f0 = floating_shapes(floating@);
    let froots2 = floating_tree_copies(&floating);
    proof {
        assert(band_roots(bands@) =~= band_trees(b0));
        assert(floating_roots(floating@) =~= floating_trees(f0));
        assert(band_roots(bands@) + shapes(froots2@) == layout_trees(b0, f0));
    }
    let ghost want = spec_land(b0, f0, collapsed@, fit@, next, node@, *target, *sizes, was_fitted, source, source_index as int, moved@, selected);
    let ghost c0 = collapsed@;
    let ghost fit_in = fit@;
    let id = node.id();
    let mut next = next;
    let mut bands = bands;
    let mut floating = floating;
    let mut collapsed = collapsed;
    let mut fit = fit;
    match &target {
        DockTarget::Float { .. } => {
            let ghost nv = node@;
            floating.push(FloatingGroup { root: node, geometry: sizes.floating });
            if was_fitted {
                fit_group(&mut fit, id);
            }
            assert(floating_shapes(floating@) =~= f0.push((nv, sizes.floating)));
            assert(want matches Ok(l) && l.floating == floating_shapes(floating@) && l.bands == band_shapes(bands@) && l.fit_tab_groups == fit@ && l.collapsed == collapsed@ && l.next_id == next);
        },
        DockTarget::Edge { edge, outer } => {
            if next == u32::MAX {
                return Err(MoveError::IdsExhausted);
            }
            let band = next;
            next = next + 1;
            let at = if *outer { 0 } else { bands.len() };
            let ghost nv = node@;
            bands.insert(at, DockBand { id: band, edge: *edge, extent: sizes.extent, root: node });
            if was_fitted {
                fit_group(&mut fit, id);
            }
            assert(band_shapes(bands@) =~= b0.insert(at as int, BandShape { id: band, edge: *edge, extent: sizes.extent, root: nv }));
            assert(want == Ok::<LayoutShape<S, R, X, G, W>, MoveError>(LayoutShape { bands: band_shapes(bands@), floating: floating_shapes(floating@), collapsed: collapsed@, fit_tab_groups: fit@, next_id: next }));
        },
        DockTarget::BesideBand { band } => {
            proof {
                lemma_band_index_in(band_shapes(bands@), *band);
            }
            let (edge, at) = match band_slot(&bands, target) {
                Some(slot) => slot,
                None => {
                    return Err(MoveError::SidebarGone);
                },
            };
            assert(band_shapes(bands@) == b0);
            assert(*target == DockTarget::<P>::BesideBand { band: *band });
            let count = bands.len();
            let ghost k = band_index(b0, *band)->Some_0;
            assert(k < count);
            assert(band_index(b0, *band) == Some(k));
            assert(at as int == k + 1);
            assert(edge == b0[k].edge);
            if next == u32::MAX {
                return Err(MoveError::IdsExhausted);
            }
            let band_id = next;
            next = next + 1;
            let ghost nv = node@;
            bands.insert(at, DockBand { id: band_id, edge, extent: sizes.extent, root: node });
            if was_fitted {
                fit_group(&mut fit, id);
            }
            assert(band_shapes(bands@) =~= b0.insert(at as int, BandShape { id: band_id, edge, extent: sizes.extent, root: nv }));
            assert(want == Ok::<LayoutShape<S, R, X, G, W>, MoveError>(LayoutShape { bands: band_shapes(bands@), floating: floating_shapes(floating@), collapsed: collapsed@, fit_tab_groups: fit@, next_id: next }));
        },
        DockTarget::Tab { group, index } => {
            match layout_node(&bands, &froots2, *group) {
                Some(DockNode::Tabs { .. }) => {},
                _ => {
                    return Err(MoveError::TabTargetGone);
                },
            }
            let src = if *group == source { Some(source_index) } else { None };
            insert_in_layout(&mut bands, &mut floating, *group, *index, src, moved, selected);
            fit_group(&mut fit, *group);
            assert(want == Ok::<LayoutShape<S, R, X, G, W>, MoveError>(LayoutShape { bands: band_shapes(bands@), floating: floating_shapes(floating@), collapsed: collapsed@, fit_tab_groups: fit@, next_id: next }));
        },
        DockTarget::Split { group, edge } => {
            if next == u32::MAX {
                return Err(MoveError::IdsExhausted);
            }
            let split = next;
            next = next + 1;
            match edge.axis() {
                Axis::Vertical => {
                    rebind(&mut collapsed, *group, split);
                },
                Axis::Horizontal => {},
            }
            match layout_node(&bands, &froots2, *group) {
                Some(DockNode::Tabs { .. }) => {},
                Some(DockNode::Split { .. }) => {
                    return Err(MoveError::SplitNotTabs);
                },
                None => {
                    return Err(MoveError::SplitTargetGone);
                },
            }
            split_in_layout(&mut bands, &mut floating, *group, split, *edge, sizes.fraction, node);
            if was_fitted {
                fit_group(&mut fit, id);
            }
            assert(want == Ok::<LayoutShape<S, R, X, G, W>, MoveError>(LayoutShape { bands: band_shapes(bands@), floating: floating_shapes(floating@), collapsed: collapsed@, fit_tab_groups: fit@, next_id: next }));
        },
        _ => {
            return Err(MoveError::ToolsOnlyInToolbars);
        },
    }
    Ok(DockLayout { bands, floating, collapsed, fit_tab_groups: fit, next_id: next })
}

/// Moves a panel, or a whole tab group, onto `target`: the one
/// transactional move path (see `spec_move_item`). The request is screened
/// (`route_move`) and the moved panels are looked up (`move_source`); a tab
/// dropped next to itself returns at once. Otherwise the moved panels leave
/// every tree, collapsed column and tab-sizing group, and land at the target
/// as one group: a whole group keeps its identity and tab style, a single
/// panel forms a new group unless it joins a tab group. A landing that
/// places every panel as before keeps the workspace as it was, with its
/// identities, shares and extents; any other is committed only if the
/// workspace it leaves passes `layout_check` under the host's judgements.
/// Any refusal leaves the workspace exactly as it was.
pub fn move_item<S: Copy, R: Copy, X: Copy, G: Copy, W: Copy, P, FP, FW, FR, FX, FG, FV>(
    layout: &mut DockLayout<S, R, X, G, W>,
    item: DockItem,
    target: DockTarget<P>,
    sizes: MoveSizes<S, R, X, G>,
    position_ok: &FP,
    wider: &FW,
    ratio_ok: &FR,
    extent_ok: &FX,
    geometry_ok: &FG,
    width_ok: &FV,
) -> (r: Result<(), MoveError>) where
    FP: Fn(&P) -> bool,
    FW: Fn(&W, &W) -> bool,
    FR: Fn(&R) -> bool,
    FX: Fn(&X) -> bool,
    FG: Fn(&G) -> bool,
    FV: Fn(&W) -> bool,

    requires
        item is Panel || item is Group,
        forall|x: &P| position_ok.requires((x,)),
        forall|x: &P, a: bool, b: bool| position_ok.ensures((x,), a) && position_ok.ensures((x,), b) ==> a == b,
        forall|a: &W, b: &W| wider.requires((a, b)),
        forall|a: &W, b: &W, x: bool, y: bool| wider.ensures((a, b), x) && wider.ensures((a, b), y) ==> x == y,
        forall|x: &R| ratio_ok.requires((x,)),
        forall|x: &R, a: bool, b: bool| ratio_ok.ensures((x,), a) && ratio_ok.ensures((x,), b) ==> a == b,
        forall|x: &X| extent_ok.requires((x,)),
        forall|x: &X, a: bool, b: bool| extent_ok.ensures((x,), a) && extent_ok.ensures((x,), b) ==> a == b,
        forall|x: &G| geometry_ok.requires((x,)),
        forall|x: &G, a: bool, b: bool| geometry_ok.ensures((x,), a) && geometry_ok.ensures((x,), b) ==> a == b,
        forall|x: &W| width_ok.requires((x,)),
        forall|x: &W, a: bool, b: bool| width_ok.ensures((x,), a) && width_ok.ensures((x,), b) ==> a == b,
    ensures
        match spec_move_item(old(layout)@, item, target, sizes, judged(position_ok), judged_pair(wider),
            judged(ratio_ok), judged(extent_ok), judged(geometry_ok), judged(width_ok)) {
            Ok(l) => r is Ok && final(layout)@ == l,
            Err(e) => r == Err::<(), MoveError>(e) && final(layout)@ == old(layout)@,
        },
        r is Ok && layout_check(old(layout)@, judged(ratio_ok), judged(extent_ok), judged(geometry_ok), judged(width_ok)) is Ok
            ==> layout_check(final(layout)@, judged(ratio_ok), judged(extent_ok), judged(geometry_ok), judged(width_ok)) is Ok,
        r is Ok ==> forall|p: Panel| #[trigger] docked(layout_trees(final(layout)@.bands, final(layout)@.floating), p)
            == docked(layout_trees(old(layout)@.bands, old(layout)@.floating), p),
        r is Ok && !(target is Tab) ==> (item matches DockItem::Group { group } ==>
            match forest_find(layout_trees(old(layout)@.bands, old(layout)@.floating), group) {
                Some(DockShape::Tabs { panels, active, tab_style, .. }) => {
                    let t = layout_trees(final(layout)@.bands, final(layout)@.floating);
                    exists|i: int| 0 <= i < t.len() && holds_node(#[trigger] t[i], DockShape::Tabs { id: group, panels, active, tab_style })
                },
                _ => false,
            }),
{
    let ghost l0 = layout@;
    let ghost trees = layout_trees(l0.bands, l0.floating);
    let ghost expected = spec_item_landing(l0, item, target, sizes, judged(position_ok), judged_pair(wider));
    let froots = floating_tree_copies(&layout.floating);
    proof {
        assert(band_roots(layout.bands@) =~= band_trees(l0.bands));
        assert(floating_roots(layout.floating@) =~= floating_trees(l0.floating));
        assert(band_roots(layout.bands@) + shapes(froots@) == trees);
        assert forall|g: u32| crate::moves::is_floating_root(froots@, g) == floats(l0.floating, g) by {
            if crate::moves::is_floating_root(froots@, g) {
                let i = choose|i: int| 0 <= i < froots@.len() && shape_id(#[trigger] froots@[i]@) == g;
                assert(shapes(froots@)[i] == froots@[i]@);
                assert(l0.floating[i].0 == floating_roots(layout.floating@)[i]);
            }
            if floats(l0.floating, g) {
                let i = choose|i: int| 0 <= i < l0.floating.len() && shape_id(#[trigger] l0.floating[i].0) == g;
                assert(shapes(froots@)[i] == froots@[i]@);
                assert(l0.floating[i].0 == floating_roots(layout.floating@)[i]);
            }
        }
    }
    match route_move(item, &target, &froots, position_ok) {
        Err(e) => {
            assert(expected == Err::<LayoutShape<S, R, X, G, W>, MoveError>(e));
            return Err(e);
        },
        Ok(_) => {},
    }
    assert(spec_screen(l0, target, judged(position_ok)) is None);
    let source = match move_source(&layout.bands, &froots, item) {
        Ok(s) => s,
        Err(e) => {
            assert(expected == Err::<LayoutShape<S, R, X, G, W>, MoveError>(e));
            return Err(e);
        },
    };
    proof {
        if let DockItem::Panel { panel } = item {
            if let Some((g, tabs)) = forest_tab_group(trees, panel) {
                lemma_first_index(tabs, panel, source.index as int);
            }
        }
    }
    let whole = source.moving.len() == source.len;
    let to_tab = match &target {
        DockTarget::Tab { .. } => true,
        _ => false,
    };
    match &target {
        DockTarget::Tab { group, index } => {
            if *group == source.group && tab_move_is_noop(*index, source.len, source.index, whole) {
                assert(expected == Ok::<LayoutShape<S, R, X, G, W>, MoveError>(l0));
                proof {
                    lemma_unmoved_laws(l0, item, target);
                }
                return Ok(());
            }
        },
        _ => {},
    }
    let keeps = whole || to_tab;
    let mut next = layout.next_id;
    let id = if keeps {
        source.group
    } else {
        if next == u32::MAX {
            assert(expected == Err::<LayoutShape<S, R, X, G, W>, MoveError>(MoveError::IdsExhausted));
            return Err(MoveError::IdsExhausted);
        }
        let a = next;
        next = next + 1;
        a
    };
    let style = if whole {
        match layout_node(&layout.bands, &froots, source.group) {
            Some(DockNode::Tabs { tab_style, .. }) => *tab_style,
            _ => sizes.tab_style,
        }
    } else {
        sizes.tab_style
    };
    let was_fitted = whole && holds_id(&layout.fit_tab_groups, source.group);
    let mut collapsed = detach_columns(&layout.bands, &layout.floating, &layout.collapsed, source.moving.as_slice(), wider);
    let mut bands = detach_bands(duplicate_bands(&layout.bands), source.moving.as_slice());
    let detached = detach_floating(duplicate_floating(&layout.floating), source.moving.as_slice());
    let mut floating = settle_floating(detached, sizes.lone_toolbar);
    let mut fit = retain_tab_sizing(&bands, &floating, &layout.fit_tab_groups);
    let froots2 = floating_tree_copies(&floating);
    let ghost b = spec_detach_bands(l0.bands, source.moving@);
    let ghost f = detached_floating(l0.floating, source.moving@, sizes.lone_toolbar);
    proof {
        assert(band_shapes(bands@) == b);
        assert(floating_shapes(floating@) =~= f);
        assert(band_roots(bands@) =~= band_trees(b));
        assert(floating_roots(floating@) =~= floating_trees(f));
        assert(band_roots(bands@) + shapes(froots2@) == layout_trees(b, f));
        assert(band_roots(bands@) + floating_roots(floating@) == layout_trees(b, f));
        lemma_band_index_in(b, 0);
        match target {
            DockTarget::Tab { group, .. } | DockTarget::Split { group, .. } => {
                match forest_find(layout_trees(b, f), group) {
                    Some(DockShape::Tabs { panels, .. }) => {
                        if panels.len() > 0 {
                            lemma_first_band_holding_shape(bands@, panels[0]);
                            lemma_first_band_holding_in(b, panels[0]);
                        }
                    },
                    _ => {},
                }
            },
            DockTarget::BesideBand { band } => {
                lemma_band_index_in(b, band);
            },
            _ => {},
        }
        assert(spec_target_edge(bands@, froots2@, target) == target_edge_of(b, f, target));
    }
    match check_target_edge(&bands, &froots2, &target, &source) {
        Err(e) => {
            assert(expected == Err::<LayoutShape<S, R, X, G, W>, MoveError>(e));
            return Err(e);
        },
        Ok(()) => {},
    }
    let node = DockNode::Tabs { id, panels: copy_panels(&source.moving), active: source.selected, tab_style: style };
    let ghost c = spec_detach_columns(trees, l0.collapsed, source.moving@, judged_pair(wider));
    let ghost fit0 = l0.fit_tab_groups.filter(|g: u32| keeps_tab_sizing(layout_trees(b, f), g));
    let ghost landed = spec_land(b, f, c, fit0, next, node@, target, sizes, was_fitted, source.group, source.index as int, source.moving@, source.selected);
    assert(collapsed@ == c);
    assert(fit@ == fit0);
    assert(expected == landed);
    match land(bands, floating, collapsed, fit, next, node, &target, &sizes, was_fitted, source.group, source.index, &source.moving, source.selected) {
        Ok(done) => {
            if placed_alike(layout, &done) {
                proof {
                    lemma_move_laws(l0, item, target, sizes, judged(position_ok), judged_pair(wider));
                    lemma_unmoved_laws(l0, item, target);
                }
                return Ok(());
            }
            match check_layout(&done, ratio_ok, extent_ok, geometry_ok, width_ok) {
                Err(e) => {
                    return Err(MoveError::Invalid(e));
                },
                Ok(()) => {},
            }
            *layout = done;
            proof {
                lemma_move_laws(l0, item, target, sizes, judged(position_ok), judged_pair(wider));
            }
            Ok(())
        },
        Err(e) => Err(e),
    }
}

/// Whether tree `t` has `n` as a subtree.
pub open spec fn holds_node<S, R>(t: DockShape<S, R>, n: DockShape<S, R>) -> bool
    decreases t,
{
    t == n || match t {
        DockShape::Split { first, second, .. } => holds_node(*first, n) || holds_node(*second, n),
        _ => false,
    }
}

proof fn lemma_first_with_forest<S, R>(trees: Seq<DockShape<S, R>>, target: u32)
    ensures
        (first_with(trees, target) is Some) == (forest_find(trees, target) is Some),
    decreases trees.len(),
{
    if trees.len() > 0 {
        lemma_first_with_forest(trees.drop_first(), target);
    }
}

proof fn lemma_split_holds<S, R>(n: DockShape<S, R>, group: u32, id: u32, edge: Edge, fraction: R, moving: DockShape<S, R>)
    requires
        spec_find(n, group) is Some,
    ensures
        holds_node(spec_split_group(n, group, id, edge, fraction, moving), moving),
    decreases n,
{
    assert(holds_node(moving, moving));
    if shape_id(n) != group {
        match n {
            DockShape::Split { first, second, .. } => {
                if spec_find(*first, group) is Some {
                    lemma_split_holds(*first, group, id, edge, fraction, moving);
                } else {
                    lemma_split_holds(*second, group, id, edge, fraction, moving);
                }
            },
            _ => {},
        }
    }
}

/// A tab group moved whole anywhere but into another tab group keeps its
/// identity, its tabs in their order, its active tab and its tab style: the
/// workspace it lands in (`spec_item_landing`) holds that very group.
pub proof fn lemma_group_move_keeps_group<S, R, X, G, W, P>(
    l: LayoutShape<S, R, X, G, W>, group: u32, target: DockTarget<P>, sizes: MoveSizes<S, R, X, G>,
    position_ok: spec_fn(P) -> bool, wider: spec_fn(W, W) -> bool,
)
    requires
        !(target is Tab),
        spec_item_landing(l, DockItem::Group { group }, target, sizes, position_ok, wider) is Ok,
    ensures
        match forest_find(layout_trees(l.bands, l.floating), group) {
            Some(DockShape::Tabs { panels, active, tab_style, .. }) => {
                let m = spec_item_landing(l, DockItem::Group { group }, target, sizes, position_ok, wider)->Ok_0;
                let t = layout_trees(m.bands, m.floating);
                exists|i: int| 0 <= i < t.len() && holds_node(#[trigger] t[i], DockShape::Tabs { id: group, panels, active, tab_style })
            },
            _ => false,
        },
{
    let trees = layout_trees(l.bands, l.floating);
    let m = spec_item_landing(l, DockItem::Group { group }, target, sizes, position_ok, wider)->Ok_0;
    if let Some(DockShape::Tabs { panels, active, tab_style, .. }) = forest_find(trees, group) {
        let node = DockShape::<S, R>::Tabs { id: group, panels, active, tab_style };
        let b = spec_detach_bands(l.bands, panels);
        let f = detached_floating(l.floating, panels, sizes.lone_toolbar);
        let t = layout_trees(m.bands, m.floating);
        match target {
            DockTarget::Float { .. } => {
                assert(m.bands == b);
                assert(m.floating == f.push((node, sizes.floating)));
                let i = (b.len() + f.len()) as int;
                assert(t[i] == floating_trees(m.floating)[f.len() as int]);
                assert(holds_node(t[i], node));
            },
            DockTarget::Edge { edge, outer } => {
                let at = if outer { 0int } else { b.len() as int };
                assert(m.bands == b.insert(at, BandShape { id: l.next_id, edge, extent: sizes.extent, root: node }));
                assert(t[at] == band_trees(m.bands)[at]);
                assert(holds_node(t[at], node));
            },
            DockTarget::BesideBand { band } => {
                lemma_band_index_in(b, band);
                let k = band_index(b, band)->Some_0;
                assert(m.bands == b.insert(k + 1, BandShape { id: l.next_id, edge: b[k].edge, extent: sizes.extent, root: node }));
                assert(t[k + 1] == band_trees(m.bands)[k + 1]);
                assert(holds_node(t[k + 1], node));
            },
            DockTarget::Split { group: g, edge } => {
                let e = TreeEdit::<S, R>::Split { id: l.next_id, edge, fraction: sizes.fraction, moving: node };
                lemma_first_with_found(band_trees(b), g);
                lemma_first_with_found(floating_trees(f), g);
                match first_with(band_trees(b), g) {
                    Some(i) => {
                        lemma_split_holds(b[i].root, g, l.next_id, edge, sizes.fraction, node);
                        assert(t[i] == band_trees(m.bands)[i]);
                        assert(holds_node(t[i], node));
                    },
                    None => {
                        crate::dock::lemma_forest_concat(band_trees(b), floating_trees(f), g);
                        lemma_first_with_forest(band_trees(b), g);
                        lemma_first_with_forest(floating_trees(f), g);
                        let j = first_with(floating_trees(f), g)->Some_0;
                        assert(m.bands == b);
                        assert(floating_trees(f)[j] == f[j].0);
                        lemma_split_holds(f[j].0, g, l.next_id, edge, sizes.fraction, node);
                        assert(t[b.len() + j] == floating_trees(m.floating)[j]);
                        assert(holds_node(t[b.len() + j], node));
                    },
                }
            },
            _ => {},
        }
    }
}

/// The host's sizes for moving a column: the extent of the band it lands in
/// (a new band, or the band it joins), the ratio of the split beside a
/// group, and the geometry a floating group takes when it is left holding
/// one standalone toolbar.
pub struct ColumnSizes<R, X, G> {
    pub extent: X,
    pub fraction: R,
    pub lone_toolbar: G,
}

/// The screening of a column drag (see `spec_column_move`), over the
/// mathematical form of the workspace.
pub open spec fn column_screen<S, R, X, G, P>(b: Seq<BandShape<S, R, X>>, f: Seq<(DockShape<S, R>, G)>, collapsed: Seq<u32>, column: u32, target: DockTarget<P>) -> Result<MoveDecision, MoveError> {
    if !collapsed.contains(column) {
        Err(MoveError::ColumnNotCollapsed)
    } else {
        match forest_find(layout_trees(b, f), column) {
            None => Err(MoveError::UnknownColumn),
            Some(moving) => match target {
                DockTarget::Edge { edge, .. } => if is_side(edge) { Ok(MoveDecision::Proceed) } else { Err(MoveError::ColumnTarget) },
                DockTarget::BesideBand { band } => if !(exists|i: int| 0 <= i < b.len() && (#[trigger] b[i]).id == band && is_side(b[i].edge)) {
                    Err(MoveError::ColumnTarget)
                } else if exists|i: int| 0 <= i < b.len() && (#[trigger] b[i]).id == band && shape_id(b[i].root) == column {
                    Ok(MoveDecision::Unchanged)
                } else {
                    Ok(MoveDecision::Proceed)
                },
                DockTarget::Split { group, edge } => if !is_side(edge) || !(group_edge_of(b, f, group) matches Some(e) && is_side(e)) {
                    Err(MoveError::ColumnTarget)
                } else if spec_find(moving, group) is Some {
                    Ok(MoveDecision::Unchanged)
                } else {
                    Ok(MoveDecision::Proceed)
                },
                _ => Err(MoveError::ColumnTarget),
            },
        }
    }
}

/// The roots of the collapsed columns.
pub open spec fn column_roots<W>(collapsed: Seq<CollapsedColumn<W>>) -> Seq<u32> {
    Seq::new(collapsed.len(), |i: int| collapsed[i].root)
}

/// The docking steps of bands, read as `spec_docking` reads them.
pub open spec fn shape_docking<S, R, X>(bands: Seq<BandShape<S, R, X>>) -> Seq<PlacementStep>
    decreases bands.len(),
{
    if bands.len() == 0 {
        Seq::empty()
    } else {
        let last = bands.last();
        shape_docking(bands.drop_last()) + seq![PlacementStep::Band(last.edge)]
            + spec_placement(last.root, None) + seq![PlacementStep::End]
    }
}

proof fn lemma_shape_docking<S, R, X>(bands: Seq<DockBand<S, R, X>>)
    ensures
        spec_docking(bands) == shape_docking(band_shapes(bands)),
    decreases bands.len(),
{
    if bands.len() > 0 {
        assert(band_shapes(bands.drop_last()) =~= band_shapes(bands).drop_last());
        lemma_shape_docking(bands.drop_last());
    }
}

/// The outcome of moving collapsed column `column` onto `target` (see
/// `move_column`): where it lands (`spec_column_landing`); a landing that
/// places every panel as before leaves the workspace as it was; any other
/// must leave a valid workspace (`layout_check`), else it is refused.
pub open spec fn spec_move_column<S, R, X, G, W, P>(
    l: LayoutShape<S, R, X, G, W>, column: u32, target: DockTarget<P>, sizes: ColumnSizes<R, X, G>, wider: spec_fn(W, W) -> bool,
    ratio_ok: spec_fn(R) -> bool, extent_ok: spec_fn(X) -> bool, geometry_ok: spec_fn(G) -> bool, width_ok: spec_fn(W) -> bool,
) -> Result<LayoutShape<S, R, X, G, W>, MoveError> {
    match spec_column_landing(l, column, target, sizes, wider) {
        Ok(m) => if same_placement(l, m) {
            Ok(l)
        } else {
            match layout_check(m, ratio_ok, extent_ok, geometry_ok, width_ok) {
                Err(e) => Err(MoveError::Invalid(e)),
                Ok(()) => Ok(m),
            }
        },
        Err(e) => Err(e),
    }
}

/// Where collapsed column `column` lands on `target` (see `move_column`).
pub open spec fn spec_column_landing<S, R, X, G, W, P>(
    l: LayoutShape<S, R, X, G, W>, column: u32, target: DockTarget<P>, sizes: ColumnSizes<R, X, G>, wider: spec_fn(W, W) -> bool,
) -> Result<LayoutShape<S, R, X, G, W>, MoveError> {
    let trees = layout_trees(l.bands, l.floating);
    match column_screen(l.bands, l.floating, column_roots(l.collapsed), column, target) {
        Err(e) => Err(e),
        Ok(MoveDecision::Unchanged) => Ok(l),
        Ok(MoveDecision::Proceed) => {
            let moving = forest_find(trees, column)->Some_0;
            let panels = crate::dock::shape_panels(moving);
            let inside = l.collapsed.filter(|c: CollapsedColumn<W>| spec_find(moving, c.root) is Some);
            let b = spec_detach_bands(l.bands, panels);
            let f = detached_floating(l.floating, panels, sizes.lone_toolbar);
            let c = spec_detach_columns(trees, l.collapsed, panels, wider);
            let fit = l.fit_tab_groups.filter(|g: u32| keeps_tab_sizing(layout_trees(b, f), g));
            match target {
                DockTarget::Edge { edge, outer } => if l.next_id == u32::MAX {
                    Err(MoveError::IdsExhausted)
                } else {
                    let at = if outer { 0int } else { b.len() as int };
                    Ok(LayoutShape {
                        bands: b.insert(at, BandShape { id: l.next_id, edge, extent: sizes.extent, root: moving }),
                        floating: f, collapsed: c + inside, fit_tab_groups: fit, next_id: (l.next_id + 1) as u32,
                    })
                },
                DockTarget::BesideBand { band } => match band_index(b, band) {
                    None => Err(MoveError::ColumnGone),
                    Some(k) => if l.next_id == u32::MAX {
                        Err(MoveError::IdsExhausted)
                    } else {
                        Ok(LayoutShape {
                            bands: b.insert(k + 1, BandShape { id: l.next_id, edge: b[k].edge, extent: sizes.extent, root: moving }),
                            floating: f, collapsed: c + inside, fit_tab_groups: fit, next_id: (l.next_id + 1) as u32,
                        })
                    },
                },
                DockTarget::Split { group, edge } => match first_with(band_trees(b), group) {
                    None => if forest_find(layout_trees(b, f), group) is None {
                        Err(MoveError::ColumnGone)
                    } else {
                        Err(MoveError::ColumnNotDocked)
                    },
                    Some(i) => if l.next_id == u32::MAX {
                        Err(MoveError::IdsExhausted)
                    } else {
                        Ok(LayoutShape {
                            bands: b.update(i, BandShape { id: b[i].id, edge: b[i].edge, extent: sizes.extent,
                                root: spec_split_group(b[i].root, group, l.next_id, edge, sizes.fraction, moving) }),
                            floating: f, collapsed: c + inside, fit_tab_groups: fit, next_id: (l.next_id + 1) as u32,
                        })
                    },
                },
                _ => Err(MoveError::ColumnTarget),
            }
        },
    }
}

proof fn lemma_column_screen<S, R, X, G, P>(bands: Seq<DockBand<S, R, X>>, froots: Seq<DockNode<S, R>>, f: Seq<(DockShape<S, R>, G)>,
    collapsed: Seq<u32>, column: u32, target: DockTarget<P>)
    requires
        band_roots(bands) + shapes(froots) == layout_trees(band_shapes(bands), f),
    ensures
        spec_column_move(bands, froots, collapsed, column, target) == column_screen(band_shapes(bands), f, collapsed, column, target),
{
    let b = band_shapes(bands);
    match target {
        DockTarget::BesideBand { band } => {
            assert((exists|i: int| 0 <= i < b.len() && (#[trigger] b[i]).id == band && is_side(b[i].edge))
                == crate::moves::side_band(bands, band)) by {
                if crate::moves::side_band(bands, band) {
                    let i = choose|i: int| 0 <= i < bands.len() && (#[trigger] bands[i]).id == band && is_side(bands[i].edge);
                    assert(b[i].id == bands[i].id);
                }
            }
            assert((exists|i: int| 0 <= i < b.len() && (#[trigger] b[i]).id == band && shape_id(b[i].root) == column)
                == crate::moves::band_is_column(bands, band, column)) by {
                if crate::moves::band_is_column(bands, band, column) {
                    let i = choose|i: int| 0 <= i < bands.len() && (#[trigger] bands[i]).id == band && shape_id(bands[i].root@) == column;
                    assert(b[i].id == bands[i].id);
                }
            }
        },
        DockTarget::Split { group, .. } => {
            match forest_find(layout_trees(b, f), group) {
                Some(DockShape::Tabs { panels, .. }) => {
                    if panels.len() > 0 {
                        lemma_first_band_holding_shape(bands, panels[0]);
                        lemma_first_band_holding_in(b, panels[0]);
                    }
                },
                _ => {},
            }
        },
        _ => {},
    }
}

fn column_root_list<W>(collapsed: &Vec<CollapsedColumn<W>>) -> (r: Vec<u32>)
    ensures
        r@ == column_roots(collapsed@),
{
    let mut r: Vec<u32> = Vec::new();
    let mut i: usize = 0;
    while i < collapsed.len()
        invariant
            i <= collapsed@.len(),
            r@ == column_roots(collapsed@).subrange(0, i as int),
        decreases collapsed@.len() - i,
    {
        r.push(collapsed[i].root);
        i = i + 1;
        assert(r@ =~= column_roots(collapsed@).subrange(0, i as int));
    }
    assert(column_roots(collapsed@).subrange(0, i as int) =~= column_roots(collapsed@));
    r
}

/// The collapsed columns whose roots lie in `moving`, in order.
fn columns_inside<S, R, W: Copy>(collapsed: &Vec<CollapsedColumn<W>>, moving: &DockNode<S, R>) -> (r: Vec<CollapsedColumn<W>>)
    ensures
        r@ == collapsed@.filter(|c: CollapsedColumn<W>| spec_find(moving@, c.root) is Some),
{
    let ghost keep = |c: CollapsedColumn<W>| spec_find(moving@, c.root) is Some;
    let mut r: Vec<CollapsedColumn<W>> = Vec::new();
    let mut i: usize = 0;
    while i < collapsed.len()
        invariant
            i <= collapsed@.len(),
            keep == (|c: CollapsedColumn<W>| spec_find(moving@, c.root) is Some),
            r@ == collapsed@.subrange(0, i as int).filter(keep),
        decreases collapsed@.len() - i,
    {
        let c = collapsed[i];
        let inside = moving.find(c.root).is_some();
        proof {
            let pre = collapsed@.subrange(0, i as int + 1);
            assert(pre.drop_last() =~= collapsed@.subrange(0, i as int));
            assert(pre.last() == c);
            reveal(Seq::filter);
        }
        if inside {
            r.push(c);
        }
        i = i + 1;
    }
    assert(collapsed@.subrange(0, collapsed@.len() as int) =~= collapsed@);
    r
}

/// Moves collapsed column `column` intact onto `target` (see
/// `spec_move_column`): to a side edge as a band of its own, beside a side
/// band, or beside a group docked at a side, in a new side-by-side split.
/// Its panels leave their places first; its subtree, identities and the
/// collapsed columns inside it are kept. A landing that places every panel
/// as before changes nothing; any other is committed only if the workspace
/// it leaves passes `layout_check` under the host's judgements. Any refusal
/// leaves the workspace exactly as it was.
pub fn move_column<S: Copy, R: Copy, X: Copy, G: Copy, W: Copy, P, FW, FR, FX, FG, FV>(
    layout: &mut DockLayout<S, R, X, G, W>,
    column: u32,
    target: DockTarget<P>,
    sizes: ColumnSizes<R, X, G>,
    wider: &FW,
    ratio_ok: &FR,
    extent_ok: &FX,
    geometry_ok: &FG,
    width_ok: &FV,
) -> (r: Result<(), MoveError>) where
    FW: Fn(&W, &W) -> bool,
    FR: Fn(&R) -> bool,
    FX: Fn(&X) -> bool,
    FG: Fn(&G) -> bool,
    FV: Fn(&W) -> bool,

    requires
        forall|a: &W, b: &W| wider.requires((a, b)),
        forall|a: &W, b: &W, x: bool, y: bool| wider.ensures((a, b), x) && wider.ensures((a, b), y) ==> x == y,
        forall|x: &R| ratio_ok.requires((x,)),
        forall|x: &R, a: bool, b: bool| ratio_ok.ensures((x,), a) && ratio_ok.ensures((x,), b) ==> a == b,
        forall|x: &X| extent_ok.requires((x,)),
        forall|x: &X, a: bool, b: bool| extent_ok.ensures((x,), a) && extent_ok.ensures((x,), b) ==> a == b,
        forall|x: &G| geometry_ok.requires((x,)),
        forall|x: &G, a: bool, b: bool| geometry_ok.ensures((x,), a) && geometry_ok.ensures((x,), b) ==> a == b,
        forall|x: &W| width_ok.requires((x,)),
        forall|x: &W, a: bool, b: bool| width_ok.ensures((x,), a) && width_ok.ensures((x,), b) ==> a == b,
    ensures
        match spec_move_column(old(layout)@, column, target, sizes, judged_pair(wider),
            judged(ratio_ok), judged(extent_ok), judged(geometry_ok), judged(width_ok)) {
            Ok(l) => r is Ok && final(layout)@ == l,
            Err(e) => r == Err::<(), MoveError>(e) && final(layout)@ == old(layout)@,
        },
        r is Ok && layout_check(old(layout)@, judged(ratio_ok), judged(extent_ok), judged(geometry_ok), judged(width_ok)) is Ok
            ==> layout_check(final(layout)@, judged(ratio_ok), judged(extent_ok), judged(geometry_ok), judged(width_ok)) is Ok,
        r is Ok && final(layout)@ != old(layout)@ ==> ({
            let moving = forest_find(layout_trees(old(layout)@.bands, old(layout)@.floating), column)->Some_0;
            let m = final(layout)@;
            &&& exists|i: int| 0 <= i < m.bands.len() && holds_node(#[trigger] m.bands[i].root, moving)
            &&& forall|c: CollapsedColumn<W>| old(layout)@.collapsed.contains(c) && spec_find(moving, c.root) is Some ==> m.collapsed.contains(c)
            &&& target matches DockTarget::Edge { edge, .. } ==>
                exists|i: int| 0 <= i < m.bands.len() && m.bands[i].edge == edge && #[trigger] m.bands[i].root == moving
        }),
{
    let ghost l0 = layout@;
    let ghost trees = layout_trees(l0.bands, l0.floating);
    let froots = floating_tree_copies(&layout.floating);
    let roots = column_root_list(&layout.collapsed);
    proof {
        assert(band_roots(layout.bands@) =~= band_trees(l0.bands));
        assert(floating_roots(layout.floating@) =~= floating_trees(l0.floating));
        assert(band_roots(layout.bands@) + shapes(froots@) == trees);
        lemma_column_screen(layout.bands@, froots@, l0.floating, roots@, column, target);
    }
    match check_column_move(&layout.bands, &froots, &roots, column, &target) {
        Err(e) => {
            return Err(e);
        },
        Ok(MoveDecision::Unchanged) => {
            return Ok(());
        },
        Ok(MoveDecision::Proceed) => {},
    }
    let moving = match layout_node(&layout.bands, &froots, column) {
        Some(n) => n.duplicate(),
        None => {
            return Err(MoveError::UnknownColumn);
        },
    };
    let panels = moving.panels();
    let inside = columns_inside(&layout.collapsed, &moving);
    let collapsed = detach_columns(&layout.bands, &layout.floating, &layout.collapsed, panels.as_slice(), wider);
    let mut bands = detach_bands(duplicate_bands(&layout.bands), panels.as_slice());
    let detached = detach_floating(duplicate_floating(&layout.floating), panels.as_slice());
    let floating = settle_floating(detached, sizes.lone_toolbar);
    let fit = retain_tab_sizing(&bands, &floating, &layout.fit_tab_groups);
    let ghost b = spec_detach_bands(l0.bands, panels@);
    let ghost f = detached_floating(l0.floating, panels@, sizes.lone_toolbar);
    proof {
        assert(band_shapes(bands@) == b);
        assert(floating_shapes(floating@) =~= f);
        assert(band_roots(bands@) =~= band_trees(b));
        assert(floating_roots(floating@) =~= floating_trees(f));
        assert(band_roots(bands@) + floating_roots(floating@) == layout_trees(b, f));
    }
    let next = layout.next_id;
    let ghost mv = moving@;
    match &target {
        DockTarget::Edge { edge, outer } => {
            if next == u32::MAX {
                return Err(MoveError::IdsExhausted);
            }
            let at = if *outer { 0 } else { bands.len() };
            bands.insert(at, DockBand { id: next, edge: *edge, extent: sizes.extent, root: moving });
            proof {
                assert(band_shapes(bands@) =~= b.insert(at as int, BandShape { id: next, edge: *edge, extent: sizes.extent, root: mv }));
            }
        },
        DockTarget::BesideBand { band } => {
            proof {
                lemma_band_index_in(band_shapes(bands@), *band);
            }
            let count = bands.len();
            let (edge, at) = match band_slot(&bands, &target) {
                Some(slot) => slot,
                None => {
                    return Err(MoveError::ColumnGone);
                },
            };
            if next == u32::MAX {
                return Err(MoveError::IdsExhausted);
            }
            let ghost k = band_index(b, *band)->Some_0;
            assert(k < count);
            assert(at as int == k + 1);
            bands.insert(at, DockBand { id: next, edge, extent: sizes.extent, root: moving });
            proof {
                assert(band_shapes(bands@) =~= b.insert(at as int, BandShape { id: next, edge, extent: sizes.extent, root: mv }));
            }
        },
        DockTarget::Split { group, edge } => {
            let (bi, _) = locate(&bands, &floating, *group);
            let i = match bi {
                Some(i) => i,
                None => {
                    let froots2 = floating_tree_copies(&floating);
                    proof {
                        assert(band_roots(bands@) + shapes(froots2@) == layout_trees(b, f));
                    }
                    if layout_node(&bands, &froots2, *group).is_none() {
                        return Err(MoveError::ColumnGone);
                    }
                    return Err(MoveError::ColumnNotDocked);
                },
            };
            if next == u32::MAX {
                return Err(MoveError::IdsExhausted);
            }
            proof {
                lemma_first_with_found(band_trees(b), *group);
            }
            let old_band = bands.remove(i);
            let DockBand { id: band_id, edge: band_edge, extent: _, root } = old_band;
            assert(band_trees(b)[i as int] == root@);
            let root = root.split_group(*group, next, *edge, sizes.fraction, moving);
            bands.insert(i, DockBand { id: band_id, edge: band_edge, extent: sizes.extent, root });
            proof {
                assert(band_shapes(bands@) =~= b.update(i as int, BandShape { id: b[i as int].id, edge: b[i as int].edge, extent: sizes.extent,
                    root: spec_split_group(b[i as int].root, *group, next, *edge, sizes.fraction, mv) }));
            }
        },
        _ => {
            return Err(MoveError::ColumnTarget);
        },
    }
    let mut collapsed = collapsed;
    let mut inside = inside;
    let ghost cv = collapsed@;
    let ghost iv = inside@;
    collapsed.append(&mut inside);
    assert(collapsed@ =~= cv + iv);
    let done = DockLayout { bands, floating, collapsed, fit_tab_groups: fit, next_id: next + 1 };
    if placed_alike(layout, &done) {
        return Ok(());
    }
    match check_layout(&done, ratio_ok, extent_ok, geometry_ok, width_ok) {
        Err(e) => {
            return Err(MoveError::Invalid(e));
        },
        Ok(()) => {},
    }
    *layout = done;
    proof {
        lemma_column_move_keeps_column(l0, column, target, sizes, judged_pair(wider));
    }
    Ok(())
}


/// A column moved somewhere new stays whole: a band of the workspace it
/// lands in (`spec_column_landing`) holds the column's own subtree, every
/// identity, tab and split inside it unchanged, the collapsed columns inside
/// it stay collapsed, and a drop at an edge docks it at that edge.
pub proof fn lemma_column_move_keeps_column<S, R, X, G, W, P>(
    l: LayoutShape<S, R, X, G, W>, column: u32, target: DockTarget<P>, sizes: ColumnSizes<R, X, G>, wider: spec_fn(W, W) -> bool,
)
    requires
        column_screen(l.bands, l.floating, column_roots(l.collapsed), column, target) == Ok::<MoveDecision, MoveError>(MoveDecision::Proceed),
        spec_column_landing(l, column, target, sizes, wider) is Ok,
    ensures
        ({
            let moving = forest_find(layout_trees(l.bands, l.floating), column)->Some_0;
            let m = spec_column_landing(l, column, target, sizes, wider)->Ok_0;
            &&& exists|i: int| 0 <= i < m.bands.len() && holds_node(#[trigger] m.bands[i].root, moving)
            &&& forall|c: CollapsedColumn<W>| l.collapsed.contains(c) && spec_find(moving, c.root) is Some ==> m.collapsed.contains(c)
            &&& target matches DockTarget::Edge { edge, .. } ==>
                exists|i: int| 0 <= i < m.bands.len() && m.bands[i].edge == edge && #[trigger] m.bands[i].root == moving
        }),
{
    let trees = layout_trees(l.bands, l.floating);
    let moving = forest_find(trees, column)->Some_0;
    let m = spec_column_landing(l, column, target, sizes, wider)->Ok_0;
    let panels = crate::dock::shape_panels(moving);
    let b = spec_detach_bands(l.bands, panels);
    let c = spec_detach_columns(trees, l.collapsed, panels, wider);
    let inside = l.collapsed.filter(|c: CollapsedColumn<W>| spec_find(moving, c.root) is Some);
    assert(m.collapsed == c + inside);
    assert forall|x: CollapsedColumn<W>| l.collapsed.contains(x) && spec_find(moving, x.root) is Some implies m.collapsed.contains(x) by {
        l.collapsed.filter_lemma(|c: CollapsedColumn<W>| spec_find(moving, c.root) is Some);
        let k = choose|k: int| 0 <= k < l.collapsed.len() && l.collapsed[k] == x;
        assert(inside.contains(x));
        let j = choose|j: int| 0 <= j < inside.len() && inside[j] == x;
        assert((c + inside)[c.len() + j] == x);
    }
    assert(holds_node(moving, moving));
    match target {
        DockTarget::Edge { edge, outer } => {
            let at = if outer { 0int } else { b.len() as int };
            assert(m.bands[at].root == moving && m.bands[at].edge == edge);
        },
        DockTarget::BesideBand { band } => {
            lemma_band_index_in(b, band);
            let k = band_index(b, band)->Some_0;
            assert(m.bands[k + 1].root == moving);
        },
        DockTarget::Split { group, edge } => {
            lemma_first_with_found(band_trees(b), group);
            let i = first_with(band_trees(b), group)->Some_0;
            lemma_split_holds(b[i].root, group, l.next_id, edge, sizes.fraction, moving);
            assert(m.bands[i].root == spec_split_group(b[i].root, group, l.next_id, edge, sizes.fraction, moving));
        },
        _ => {},
    }
}

/// Whether some tree of `trees` holds `panel`.
pub open spec fn docked<S, R>(trees: Seq<DockShape<S, R>>, panel: Panel) -> bool {
    exists|i: int| 0 <= i < trees.len() && #[trigger] shape_panels(trees[i]).contains(panel)
}

proof fn lemma_docked_push<S, R>(trees: Seq<DockShape<S, R>>, t: DockShape<S, R>, p: Panel)
    ensures
        docked(trees.push(t), p) == (docked(trees, p) || shape_panels(t).contains(p)),
{
    let s = trees.push(t);
    if docked(s, p) {
        let i = choose|i: int| 0 <= i < s.len() && #[trigger] shape_panels(s[i]).contains(p);
        if i < trees.len() {
            assert(s[i] == trees[i]);
        }
    }
    if docked(trees, p) {
        let i = choose|i: int| 0 <= i < trees.len() && #[trigger] shape_panels(trees[i]).contains(p);
        assert(s[i] == trees[i]);
    }
    if shape_panels(t).contains(p) {
        assert(s[trees.len() as int] == t);
    }
}

proof fn lemma_docked_concat<S, R>(a: Seq<DockShape<S, R>>, b: Seq<DockShape<S, R>>, p: Panel)
    ensures
        docked(a + b, p) == (docked(a, p) || docked(b, p)),
{
    let s = a + b;
    if docked(s, p) {
        let i = choose|i: int| 0 <= i < s.len() && #[trigger] shape_panels(s[i]).contains(p);
        if i < a.len() {
            assert(s[i] == a[i]);
        } else {
            assert(s[i] == b[i - a.len()]);
        }
    }
    if docked(a, p) {
        let i = choose|i: int| 0 <= i < a.len() && #[trigger] shape_panels(a[i]).contains(p);
        assert(s[i] == a[i]);
    }
    if docked(b, p) {
        let i = choose|i: int| 0 <= i < b.len() && #[trigger] shape_panels(b[i]).contains(p);
        assert(s[a.len() + i] == b[i]);
    }
}

proof fn lemma_docked_update<S, R>(trees: Seq<DockShape<S, R>>, i: int, t: DockShape<S, R>, moved: Seq<Panel>, p: Panel)
    requires
        0 <= i < trees.len(),
        forall|q: Panel| #[trigger] shape_panels(t).contains(q) <==> (shape_panels(trees[i]).contains(q) || moved.contains(q)),
    ensures
        docked(trees.update(i, t), p) == (docked(trees, p) || moved.contains(p)),
{
    let s = trees.update(i, t);
    if docked(s, p) {
        let k = choose|k: int| 0 <= k < s.len() && #[trigger] shape_panels(s[k]).contains(p);
        if k != i {
            assert(s[k] == trees[k]);
        } else if !moved.contains(p) {
            assert(shape_panels(trees[i]).contains(p));
        }
    }
    if docked(trees, p) {
        let k = choose|k: int| 0 <= k < trees.len() && #[trigger] shape_panels(trees[k]).contains(p);
        if k != i {
            assert(s[k] == trees[k]);
        } else {
            assert(shape_panels(s[i]).contains(p));
        }
    }
    if moved.contains(p) {
        assert(shape_panels(s[i]).contains(p));
    }
}

proof fn lemma_remove_all_panels<S, R>(n: DockShape<S, R>, ps: Seq<Panel>)
    ensures
        match spec_remove_all(n, ps) {
            Some(m) => forall|q: Panel| #[trigger] shape_panels(m).contains(q) == (shape_panels(n).contains(q) && !ps.contains(q)),
            None => forall|q: Panel| #[trigger] shape_panels(n).contains(q) ==> ps.contains(q),
        },
    decreases ps.len(),
{
    if ps.len() == 0 {
        assert forall|q: Panel| !ps.contains(q) by {}
    } else {
        let p = ps[0];
        let rest = ps.drop_first();
        assert forall|q: Panel| ps.contains(q) <==> (q == p || rest.contains(q)) by {
            if ps.contains(q) {
                let i = choose|i: int| 0 <= i < ps.len() && ps[i] == q;
                if i > 0 {
                    assert(rest[i - 1] == q);
                }
            }
            if rest.contains(q) {
                let i = choose|i: int| 0 <= i < rest.len() && rest[i] == q;
                assert(ps[i + 1] == q);
            }
            if q == p {
                assert(ps[0] == q);
            }
        }
        lemma_remove_panels(n, p);
        match spec_remove(n, p) {
            Some(m1) => {
                lemma_remove_all_panels(m1, rest);
            },
            None => {},
        }
    }
}

proof fn lemma_detach_bands_docked<S, R, X>(bands: Seq<BandShape<S, R, X>>, ps: Seq<Panel>, p: Panel)
    ensures
        docked(band_trees(spec_detach_bands(bands, ps)), p) == (docked(band_trees(bands), p) && !ps.contains(p)),
    decreases bands.len(),
{
    if bands.len() == 0 {
        assert(band_trees(spec_detach_bands(bands, ps)) =~= Seq::<DockShape<S, R>>::empty());
    } else {
        let last = bands.last();
        let front = bands.drop_last();
        lemma_detach_bands_docked(front, ps, p);
        assert(band_trees(bands) =~= band_trees(front).push(last.root));
        lemma_docked_push(band_trees(front), last.root, p);
        lemma_remove_all_panels(last.root, ps);
        let rest = spec_detach_bands(front, ps);
        match spec_remove_all(last.root, ps) {
            Some(root) => {
                let nb = BandShape { id: last.id, edge: last.edge, extent: last.extent, root };
                assert(band_trees(rest.push(nb)) =~= band_trees(rest).push(root));
                lemma_docked_push(band_trees(rest), root, p);
            },
            None => {},
        }
    }
}

/// The trees of detached floating groups.
pub open spec fn detached_trees<S, R, G>(d: Seq<(DockShape<S, R>, G, bool)>) -> Seq<DockShape<S, R>> {
    Seq::new(d.len(), |i: int| d[i].0)
}

proof fn lemma_detach_floating_docked<S, R, G>(floating: Seq<(DockShape<S, R>, G)>, ps: Seq<Panel>, p: Panel)
    ensures
        docked(detached_trees(spec_detach_floating(floating, ps)), p) == (docked(floating_trees(floating), p) && !ps.contains(p)),
    decreases floating.len(),
{
    if floating.len() == 0 {
        assert(detached_trees(spec_detach_floating(floating, ps)) =~= Seq::<DockShape<S, R>>::empty());
    } else {
        let last = floating.last();
        let front = floating.drop_last();
        lemma_detach_floating_docked(front, ps, p);
        assert(floating_trees(floating) =~= floating_trees(front).push(last.0));
        lemma_docked_push(floating_trees(front), last.0, p);
        lemma_remove_all_panels(last.0, ps);
        let rest = spec_detach_floating(front, ps);
        match spec_remove_all(last.0, ps) {
            Some(root) => {
                let e = (root, last.1, crate::workspace::several_tabs(last.0) && crate::workspace::lone_toolbar(root));
                assert(detached_trees(rest.push(e)) =~= detached_trees(rest).push(root));
                lemma_docked_push(detached_trees(rest), root, p);
            },
            None => {},
        }
    }
}

proof fn lemma_docked_insert<S, R>(trees: Seq<DockShape<S, R>>, at: int, t: DockShape<S, R>, p: Panel)
    requires
        0 <= at <= trees.len(),
    ensures
        docked(trees.insert(at, t), p) == (docked(trees, p) || shape_panels(t).contains(p)),
{
    let s = trees.insert(at, t);
    if docked(s, p) {
        let i = choose|i: int| 0 <= i < s.len() && #[trigger] shape_panels(s[i]).contains(p);
        if i < at {
            assert(s[i] == trees[i]);
        } else if i > at {
            assert(s[i] == trees[i - 1]);
        }
    }
    if docked(trees, p) {
        let i = choose|i: int| 0 <= i < trees.len() && #[trigger] shape_panels(trees[i]).contains(p);
        if i < at {
            assert(s[i] == trees[i]);
        } else {
            assert(s[i + 1] == trees[i]);
        }
    }
    if shape_panels(t).contains(p) {
        assert(s[at] == t);
    }
}

proof fn lemma_tab_group_docked<S, R>(n: DockShape<S, R>, p: Panel)
    ensures
        spec_tab_group(n, p) is Some ==> shape_panels(n).contains(p),
    decreases n,
{
    match n {
        DockShape::Split { first, second, .. } => {
            lemma_tab_group_docked(*first, p);
            lemma_tab_group_docked(*second, p);
            crate::dock::lemma_concat_contains(shape_panels(*first), shape_panels(*second), p);
        },
        _ => {},
    }
}

proof fn lemma_forest_tab_group_docked<S, R>(trees: Seq<DockShape<S, R>>, p: Panel)
    ensures
        forest_tab_group(trees, p) is Some ==> docked(trees, p),
    decreases trees.len(),
{
    if trees.len() > 0 {
        lemma_tab_group_docked(trees[0], p);
        lemma_forest_tab_group_docked(trees.drop_first(), p);
        if spec_tab_group(trees[0], p) is None && docked(trees.drop_first(), p) {
            let i = choose|i: int| 0 <= i < trees.drop_first().len() && #[trigger] shape_panels(trees.drop_first()[i]).contains(p);
            assert(trees[i + 1] == trees.drop_first()[i]);
        }
    }
}

proof fn lemma_find_panels<S, R>(n: DockShape<S, R>, g: u32, q: Panel)
    ensures
        spec_find(n, g) matches Some(x) ==> (shape_panels(x).contains(q) ==> shape_panels(n).contains(q)),
    decreases n,
{
    match n {
        DockShape::Split { first, second, .. } => {
            lemma_find_panels(*first, g, q);
            lemma_find_panels(*second, g, q);
            crate::dock::lemma_concat_contains(shape_panels(*first), shape_panels(*second), q);
        },
        _ => {},
    }
}

proof fn lemma_forest_find_docked<S, R>(trees: Seq<DockShape<S, R>>, g: u32, q: Panel)
    ensures
        forest_find(trees, g) matches Some(x) ==> (shape_panels(x).contains(q) ==> docked(trees, q)),
    decreases trees.len(),
{
    if trees.len() > 0 {
        lemma_find_panels(trees[0], g, q);
        lemma_forest_find_docked(trees.drop_first(), g, q);
        if spec_find(trees[0], g) is None && docked(trees.drop_first(), q) {
            let i = choose|i: int| 0 <= i < trees.drop_first().len() && #[trigger] shape_panels(trees.drop_first()[i]).contains(q);
            assert(trees[i + 1] == trees.drop_first()[i]);
        }
    }
}

proof fn lemma_first_with_is_find<S, R>(trees: Seq<DockShape<S, R>>, g: u32)
    ensures
        first_with(trees, g) matches Some(i) ==> forest_find(trees, g) == spec_find(trees[i], g),
    decreases trees.len(),
{
    if trees.len() > 0 {
        lemma_first_with_is_find(trees.drop_first(), g);
        lemma_first_with_found(trees.drop_first(), g);
        if spec_find(trees[0], g) is None {
            if let Some(i) = first_with(trees.drop_first(), g) {
                assert(trees[i + 1] == trees.drop_first()[i]);
            }
        }
    }
}

/// The panels an edit brings in.
pub open spec fn edit_panels<S, R>(e: TreeEdit<S, R>) -> Seq<Panel> {
    match e {
        TreeEdit::Insert { moved, .. } => moved,
        TreeEdit::Split { moving, .. } => shape_panels(moving),
    }
}

proof fn lemma_edit_docked<S, R, X, G>(b: Seq<BandShape<S, R, X>>, f: Seq<(DockShape<S, R>, G)>, group: u32, e: TreeEdit<S, R>, p: Panel)
    requires
        forest_find(layout_trees(b, f), group) matches Some(DockShape::Tabs { .. }),
    ensures
        docked(layout_trees(edit_layout(b, f, group, e).0, edit_layout(b, f, group, e).1), p)
            == (docked(layout_trees(b, f), p) || edit_panels(e).contains(p)),
{
    let bt = band_trees(b);
    let ft = floating_trees(f);
    crate::dock::lemma_forest_concat(bt, ft, group);
    lemma_first_with_forest(bt, group);
    lemma_first_with_forest(ft, group);
    lemma_first_with_is_find(bt, group);
    lemma_first_with_is_find(ft, group);
    lemma_first_with_found(bt, group);
    lemma_first_with_found(ft, group);
    lemma_docked_concat(bt, ft, p);
    let r = edit_layout(b, f, group, e);
    match first_with(bt, group) {
        Some(i) => {
            let t = bt[i];
            assert(t == b[i].root);
            let edited = spec_edit(t, group, e);
            match e {
                TreeEdit::Insert { at, source, moved, selected } => {
                    crate::dock::lemma_insert_tabs_keeps_panels(t, group, at, source, moved, selected);
                },
                TreeEdit::Split { id, edge, fraction, moving } => {
                    crate::dock::lemma_split_group_keeps_panels(t, group, id, edge, fraction, moving);
                },
            }
            assert(band_trees(r.0) =~= bt.update(i, edited));
            assert(r.1 == f);
            lemma_docked_update(bt, i, edited, edit_panels(e), p);
            lemma_docked_concat(bt.update(i, edited), ft, p);
        },
        None => {
            let j = first_with(ft, group)->Some_0;
            let t = ft[j];
            assert(t == f[j].0);
            let edited = spec_edit(t, group, e);
            match e {
                TreeEdit::Insert { at, source, moved, selected } => {
                    crate::dock::lemma_insert_tabs_keeps_panels(t, group, at, source, moved, selected);
                },
                TreeEdit::Split { id, edge, fraction, moving } => {
                    crate::dock::lemma_split_group_keeps_panels(t, group, id, edge, fraction, moving);
                },
            }
            assert(floating_trees(r.1) =~= ft.update(j, edited));
            assert(r.0 == b);
            lemma_docked_update(ft, j, edited, edit_panels(e), p);
            lemma_docked_concat(bt, ft.update(j, edited), p);
        },
    }
}

/// A move of a panel or a tab group never adds or loses a docked panel:
/// every panel docked before is docked in the workspace the move lands in
/// (`spec_item_landing`), and no other.
pub proof fn lemma_move_keeps_docked_panels<S, R, X, G, W, P>(
    l: LayoutShape<S, R, X, G, W>, item: DockItem, target: DockTarget<P>, sizes: MoveSizes<S, R, X, G>,
    position_ok: spec_fn(P) -> bool, wider: spec_fn(W, W) -> bool, p: Panel,
)
    requires
        spec_item_landing(l, item, target, sizes, position_ok, wider) is Ok,
    ensures
        ({
            let m = spec_item_landing(l, item, target, sizes, position_ok, wider)->Ok_0;
            docked(layout_trees(m.bands, m.floating), p) == docked(layout_trees(l.bands, l.floating), p)
        }),
{
    let trees = layout_trees(l.bands, l.floating);
    let m = spec_item_landing(l, item, target, sizes, position_ok, wider)->Ok_0;
    let (moved, selected, source, index, len) = spec_source(trees, item)->Ok_0;
    let whole = moved.len() == len;
    if target matches DockTarget::Tab { group, index: at } && group == source
        && spec_tab_move_is_noop(at, len as usize, index as usize, whole) {
        return;
    }
    // The moved panels were docked.
    match item {
        DockItem::Panel { panel } => {
            lemma_forest_tab_group_docked(trees, panel);
            assert(moved == seq![panel]);
            assert(moved.contains(p) ==> p == panel) by {
                if moved.contains(p) {
                    let k = choose|k: int| 0 <= k < moved.len() && moved[k] == p;
                }
            }
        },
        DockItem::Group { group } => {
            lemma_forest_find_docked(trees, group, p);
        },
        _ => {},
    }
    assert(moved.contains(p) ==> docked(trees, p));
    // Once they leave, exactly the other panels stay docked.
    let b = spec_detach_bands(l.bands, moved);
    let f = detached_floating(l.floating, moved, sizes.lone_toolbar);
    lemma_detach_bands_docked(l.bands, moved, p);
    lemma_detach_floating_docked(l.floating, moved, p);
    assert(floating_trees(f) =~= detached_trees(spec_detach_floating(l.floating, moved)));
    lemma_docked_concat(band_trees(b), floating_trees(f), p);
    lemma_docked_concat(band_trees(l.bands), floating_trees(l.floating), p);
    assert(docked(layout_trees(b, f), p) == (docked(trees, p) && !moved.contains(p)));
    // They land as one group holding exactly them.
    let keeps = whole || target is Tab;
    let id = if keeps { source } else { l.next_id };
    let style = if whole {
        match forest_find(trees, source) {
            Some(DockShape::Tabs { tab_style, .. }) => tab_style,
            _ => sizes.tab_style,
        }
    } else {
        sizes.tab_style
    };
    let node = DockShape::<S, R>::Tabs { id, panels: moved, active: selected, tab_style: style };
    assert(shape_panels(node) == moved);
    let next = if keeps { l.next_id } else { (l.next_id + 1) as u32 };
    match target {
        DockTarget::Float { .. } => {
            assert(m.bands == b && m.floating == f.push((node, sizes.floating)));
            assert(floating_trees(f.push((node, sizes.floating))) =~= floating_trees(f).push(node));
            lemma_docked_push(floating_trees(f), node, p);
            lemma_docked_concat(band_trees(b), floating_trees(f).push(node), p);
            assert(layout_trees(m.bands, m.floating) == band_trees(b) + floating_trees(f).push(node));
        },
        DockTarget::Edge { edge, outer } => {
            let at = if outer { 0int } else { b.len() as int };
            let nb = BandShape { id: next, edge, extent: sizes.extent, root: node };
            assert(m.bands == b.insert(at, nb) && m.floating == f);
            assert(band_trees(b.insert(at, nb)) =~= band_trees(b).insert(at, node));
            lemma_docked_insert(band_trees(b), at, node, p);
            lemma_docked_concat(band_trees(b).insert(at, node), floating_trees(f), p);
        },
        DockTarget::BesideBand { band } => {
            lemma_band_index_in(b, band);
            let k = band_index(b, band)->Some_0;
            let nb = BandShape { id: next, edge: b[k].edge, extent: sizes.extent, root: node };
            assert(m.bands == b.insert(k + 1, nb) && m.floating == f);
            assert(band_trees(b.insert(k + 1, nb)) =~= band_trees(b).insert(k + 1, node));
            lemma_docked_insert(band_trees(b), k + 1, node, p);
            lemma_docked_concat(band_trees(b).insert(k + 1, node), floating_trees(f), p);
        },
        DockTarget::Tab { group, index: at } => {
            let src: Option<usize> = if group == source { Some(index as usize) } else { None };
            lemma_edit_docked(b, f, group, TreeEdit::Insert { at, source: src, moved, selected }, p);
        },
        DockTarget::Split { group, edge } => {
            lemma_edit_docked(b, f, group, TreeEdit::Split { id: next, edge, fraction: sizes.fraction, moving: node }, p);
        },
        _ => {},
    }
}

/// Both laws of a successful move, stated over the layout before it.
proof fn lemma_move_laws<S, R, X, G, W, P>(
    l: LayoutShape<S, R, X, G, W>, item: DockItem, target: DockTarget<P>, sizes: MoveSizes<S, R, X, G>,
    position_ok: spec_fn(P) -> bool, wider: spec_fn(W, W) -> bool,
)
    requires
        spec_item_landing(l, item, target, sizes, position_ok, wider) is Ok,
    ensures
        ({
            let m = spec_item_landing(l, item, target, sizes, position_ok, wider)->Ok_0;
            &&& forall|p: Panel| #[trigger] docked(layout_trees(m.bands, m.floating), p) == docked(layout_trees(l.bands, l.floating), p)
            &&& !(target is Tab) ==> (item matches DockItem::Group { group } ==>
                match forest_find(layout_trees(l.bands, l.floating), group) {
                    Some(DockShape::Tabs { panels, active, tab_style, .. }) => {
                        let t = layout_trees(m.bands, m.floating);
                        exists|i: int| 0 <= i < t.len() && holds_node(#[trigger] t[i], DockShape::Tabs { id: group, panels, active, tab_style })
                    },
                    _ => false,
                })
        }),
{
    let m = spec_item_landing(l, item, target, sizes, position_ok, wider)->Ok_0;
    assert forall|p: Panel| #[trigger] docked(layout_trees(m.bands, m.floating), p) == docked(layout_trees(l.bands, l.floating), p) by {
        lemma_move_keeps_docked_panels(l, item, target, sizes, position_ok, wider, p);
    }
    if !(target is Tab) {
        if let DockItem::Group { group } = item {
            lemma_group_move_keeps_group(l, group, target, sizes, position_ok, wider);
        }
    }
}

/// The workspace once `panel` joins tab group `group` as its last tab and is
/// shown there (see `add_panel_to_group`). `registered` lists the panels the
/// workspace knows; a panel already in the group changes nothing. The panel
/// first leaves wherever it is docked, as in a move (`lone` is the geometry
/// a floating group takes when left holding one standalone toolbar).
pub open spec fn spec_add_panel_to_group<S, R, X, G, W>(
    l: LayoutShape<S, R, X, G, W>, registered: Seq<Panel>, panel: Panel, group: u32, lone: G, wider: spec_fn(W, W) -> bool,
) -> Result<LayoutShape<S, R, X, G, W>, MoveError> {
    let trees = layout_trees(l.bands, l.floating);
    if !registered.contains(panel) {
        Err(MoveError::UnknownPanel)
    } else {
        match forest_find(trees, group) {
            Some(DockShape::Tabs { panels, .. }) => if panels.contains(panel) {
                Ok(l)
            } else if group_edge_of(l.bands, l.floating, group) == Some(Edge::Top)
                || group_edge_of(l.bands, l.floating, group) == Some(Edge::Bottom) {
                Err(MoveError::EdgeToolbarsOnly)
            } else {
                let moved = seq![panel];
                let b = spec_detach_bands(l.bands, moved);
                let f = detached_floating(l.floating, moved, lone);
                let c = spec_detach_columns(trees, l.collapsed, moved, wider);
                let fit = l.fit_tab_groups.filter(|g: u32| keeps_tab_sizing(layout_trees(b, f), g));
                if forest_find(layout_trees(b, f), group) matches Some(DockShape::Tabs { .. }) {
                    let e = edit_layout(b, f, group, TreeEdit::Insert { at: None, source: None, moved, selected: panel });
                    Ok(LayoutShape { bands: e.0, floating: e.1, collapsed: c, fit_tab_groups: fitted(fit, group), next_id: l.next_id })
                } else {
                    Err(MoveError::UnknownTabGroup)
                }
            },
            _ => Err(MoveError::UnknownTabGroup),
        }
    }
}

/// Adds `panel` to tab group `group` as its last, active tab (see
/// `spec_add_panel_to_group`). Afterwards exactly the panels docked before
/// and `panel` are docked. Any refusal leaves the workspace as it was.
pub fn add_panel_to_group<S: Copy, R: Copy, X: Copy, G: Copy, W: Copy, FW: Fn(&W, &W) -> bool>(
    layout: &mut DockLayout<S, R, X, G, W>,
    registered: &[Panel],
    panel: Panel,
    group: u32,
    lone: G,
    wider: &FW,
) -> (r: Result<(), MoveError>)
    requires
        forall|a: &W, b: &W| wider.requires((a, b)),
        forall|a: &W, b: &W, x: bool, y: bool| wider.ensures((a, b), x) && wider.ensures((a, b), y) ==> x == y,
    ensures
        match spec_add_panel_to_group(old(layout)@, registered@, panel, group, lone, judged_pair(wider)) {
            Ok(l) => r is Ok && final(layout)@ == l,
            Err(e) => r == Err::<(), MoveError>(e) && final(layout)@ == old(layout)@,
        },
        r is Ok ==> forall|q: Panel| #[trigger] docked(layout_trees(final(layout)@.bands, final(layout)@.floating), q)
            == (docked(layout_trees(old(layout)@.bands, old(layout)@.floating), q) || q == panel),
        !registered@.contains(panel) ==> r == Err::<(), MoveError>(MoveError::UnknownPanel),
        registered@.contains(panel) && (forest_find(layout_trees(old(layout)@.bands, old(layout)@.floating), group)
            matches Some(DockShape::Tabs { panels, .. }) && panels.contains(panel)) ==> r is Ok && final(layout)@ == old(layout)@,
        registered@.contains(panel) && !(forest_find(layout_trees(old(layout)@.bands, old(layout)@.floating), group)
            matches Some(DockShape::Tabs { .. })) ==> r == Err::<(), MoveError>(MoveError::UnknownTabGroup),
        r is Ok && !(forest_find(layout_trees(old(layout)@.bands, old(layout)@.floating), group)
            matches Some(DockShape::Tabs { panels, .. }) && panels.contains(panel)) ==>
            (forest_find(layout_trees(final(layout)@.bands, final(layout)@.floating), group)
                matches Some(DockShape::Tabs { panels, active, .. })
                && active == panel && panels.len() > 0 && panels.last() == panel),
{
    let ghost l0 = layout@;
    let ghost trees = layout_trees(l0.bands, l0.floating);
    let ghost expected = spec_add_panel_to_group(l0, registered@, panel, group, lone, judged_pair(wider));
    if !contains_panel(registered, panel) {
        return Err(MoveError::UnknownPanel);
    }
    let froots = floating_tree_copies(&layout.floating);
    proof {
        assert(band_roots(layout.bands@) =~= band_trees(l0.bands));
        assert(floating_roots(layout.floating@) =~= floating_trees(l0.floating));
        assert(band_roots(layout.bands@) + shapes(froots@) == trees);
    }
    match layout_node(&layout.bands, &froots, group) {
        Some(DockNode::Tabs { panels, .. }) => {
            if contains_panel(panels.as_slice(), panel) {
                assert(expected == Ok::<LayoutShape<S, R, X, G, W>, MoveError>(l0));
                proof {
                    lemma_add_panel_docked(l0, registered@, panel, group, lone, judged_pair(wider));
                    let m = expected->Ok_0;
                    assert forall|q: Panel| #[trigger] docked(layout_trees(layout@.bands, layout@.floating), q)
                        == (docked(trees, q) || q == panel) by {
                        assert(docked(layout_trees(m.bands, m.floating), q) == (docked(trees, q) || q == panel));
                    }
                }
                return Ok(());
            }
        },
        _ => {
            return Err(MoveError::UnknownTabGroup);
        },
    }
    let edge = group_edge(&layout.bands, &froots, group);
    proof {
        match forest_find(trees, group) {
            Some(DockShape::Tabs { panels, .. }) => {
                if panels.len() > 0 {
                    lemma_first_band_holding_shape(layout.bands@, panels[0]);
                    lemma_first_band_holding_in(l0.bands, panels[0]);
                }
            },
            _ => {},
        }
        assert(edge == group_edge_of(l0.bands, l0.floating, group));
    }
    match edge {
        Some(Edge::Top) | Some(Edge::Bottom) => {
            return Err(MoveError::EdgeToolbarsOnly);
        },
        _ => {},
    }
    let moved = vec![panel];
    assert(moved@ =~= seq![panel]);
    let collapsed = detach_columns(&layout.bands, &layout.floating, &layout.collapsed, moved.as_slice(), wider);
    let mut bands = detach_bands(duplicate_bands(&layout.bands), moved.as_slice());
    let detached = detach_floating(duplicate_floating(&layout.floating), moved.as_slice());
    let mut floating = settle_floating(detached, lone);
    let mut fit = retain_tab_sizing(&bands, &floating, &layout.fit_tab_groups);
    let froots2 = floating_tree_copies(&floating);
    let ghost b = spec_detach_bands(l0.bands, moved@);
    let ghost f = detached_floating(l0.floating, moved@, lone);
    proof {
        assert(band_roots(layout.bands@) + floating_roots(layout.floating@) == trees);
        assert(band_shapes(bands@) == b);
        assert(floating_shapes(floating@) =~= f);
        assert(band_roots(bands@) =~= band_trees(b));
        assert(floating_roots(floating@) =~= floating_trees(f));
        assert(band_roots(bands@) + shapes(froots2@) == layout_trees(b, f));
        assert(band_roots(bands@) + floating_roots(floating@) == layout_trees(b, f));
    }
    match layout_node(&bands, &froots2, group) {
        Some(DockNode::Tabs { panels, .. }) => {
            proof {
                assert(panels.len() == panels@.len());
                lemma_joined_tab_is_last_and_active(b, f, group, panel);
            }
        },
        _ => {
            return Err(MoveError::UnknownTabGroup);
        },
    }
    insert_in_layout(&mut bands, &mut floating, group, None, None, &moved, panel);
    fit_group(&mut fit, group);
    let next_id = layout.next_id;
    *layout = DockLayout { bands, floating, collapsed, fit_tab_groups: fit, next_id };
    assert(expected == Ok::<LayoutShape<S, R, X, G, W>, MoveError>(layout@));
    proof {
        lemma_add_panel_docked(l0, registered@, panel, group, lone, judged_pair(wider));
        let m = expected->Ok_0;
        assert forall|q: Panel| #[trigger] docked(layout_trees(layout@.bands, layout@.floating), q)
            == (docked(trees, q) || q == panel) by {
            assert(docked(layout_trees(m.bands, m.floating), q) == (docked(trees, q) || q == panel));
        }
    }
    Ok(())
}

proof fn lemma_first_with_least<S, R>(trees: Seq<DockShape<S, R>>, target: u32)
    ensures
        first_with(trees, target) matches Some(i) ==> forall|j: int| 0 <= j < i ==> spec_find(#[trigger] trees[j], target) is None,
    decreases trees.len(),
{
    if trees.len() > 0 && spec_find(trees[0], target) is None {
        let rest = trees.drop_first();
        lemma_first_with_least(rest, target);
        lemma_first_with_found(trees, target);
        if let Some(i) = first_with(trees, target) {
            assert forall|j: int| 0 <= j < i implies spec_find(#[trigger] trees[j], target) is None by {
                if j > 0 {
                    assert(trees[j] == rest[j - 1]);
                }
            }
        }
    }
}

/// Appending `p` to the first node `group` of a tree, when that node is a tab
/// group, leaves it found there with `p` as its last and active tab.
proof fn lemma_append_tab_found<S, R>(n: DockShape<S, R>, group: u32, p: Panel)
    requires
        spec_find(n, group) matches Some(DockShape::Tabs { panels, .. }) && panels.len() <= usize::MAX,
    ensures
        match spec_find(n, group) {
            Some(DockShape::Tabs { id, panels, tab_style, .. }) =>
                spec_find(crate::dock::spec_insert_tabs(n, group, None, None, seq![p], p), group)
                    == Some(DockShape::<S, R>::Tabs { id, panels: panels.push(p), active: p, tab_style }),
            _ => false,
        },
    decreases n,
{
    if shape_id(n) != group {
        match n {
            DockShape::Split { first, second, .. } => {
                if spec_find(*first, group) is Some {
                    lemma_append_tab_found(*first, group, p);
                } else {
                    lemma_append_tab_found(*second, group, p);
                }
            },
            _ => {},
        }
    } else {
        if let DockShape::Tabs { panels, .. } = n {
            assert(crate::dock::spliced(panels, panels.len() as int, seq![p]) =~= panels.push(p));
        }
    }
}

/// A panel joining tab group `group` (as `add_panel_to_group` inserts it)
/// becomes the group's last tab and its active tab; the group keeps its
/// identity, its other tabs in their order and its tab style.
pub proof fn lemma_joined_tab_is_last_and_active<S, R, X, G>(b: Seq<BandShape<S, R, X>>, f: Seq<(DockShape<S, R>, G)>, group: u32, p: Panel)
    requires
        forest_find(layout_trees(b, f), group) matches Some(DockShape::Tabs { panels, .. }) && panels.len() <= usize::MAX,
    ensures
        match forest_find(layout_trees(b, f), group) {
            Some(DockShape::Tabs { id, panels, tab_style, .. }) => {
                let e = edit_layout(b, f, group, TreeEdit::Insert { at: None, source: None, moved: seq![p], selected: p });
                forest_find(layout_trees(e.0, e.1), group)
                    == Some(DockShape::<S, R>::Tabs { id, panels: panels.push(p), active: p, tab_style })
            },
            _ => false,
        },
{
    let bt = band_trees(b);
    let ft = floating_trees(f);
    let edit = TreeEdit::<S, R>::Insert { at: None, source: None, moved: seq![p], selected: p };
    let e = edit_layout(b, f, group, edit);
    crate::dock::lemma_forest_concat(bt, ft, group);
    lemma_first_with_forest(bt, group);
    lemma_first_with_forest(ft, group);
    lemma_first_with_is_find(bt, group);
    lemma_first_with_is_find(ft, group);
    lemma_first_with_found(bt, group);
    lemma_first_with_found(ft, group);
    lemma_first_with_least(bt, group);
    lemma_first_with_least(ft, group);
    match first_with(bt, group) {
        Some(i) => {
            let t = bt[i];
            assert(t == b[i].root);
            let edited = spec_edit(t, group, edit);
            lemma_append_tab_found(t, group, p);
            let bt2 = bt.update(i, edited);
            assert(band_trees(e.0) =~= bt2);
            assert(e.1 == f);
            assert forall|j: int| 0 <= j < i implies spec_find(#[trigger] bt2[j], group) is None by {
                assert(bt2[j] == bt[j]);
            }
            lemma_first_with(bt2, group, i);
            lemma_first_with_is_find(bt2, group);
            crate::dock::lemma_forest_concat(bt2, ft, group);
        },
        None => {
            let j = first_with(ft, group)->Some_0;
            let t = ft[j];
            assert(t == f[j].0);
            let edited = spec_edit(t, group, edit);
            lemma_append_tab_found(t, group, p);
            let ft2 = ft.update(j, edited);
            assert(floating_trees(e.1) =~= ft2);
            assert(e.0 == b);
            assert forall|k: int| 0 <= k < j implies spec_find(#[trigger] ft2[k], group) is None by {
                assert(ft2[k] == ft[k]);
            }
            lemma_first_with(ft2, group, j);
            lemma_first_with_is_find(ft2, group);
            crate::dock::lemma_forest_concat(bt, ft2, group);
        },
    }
}

/// A panel added to a tab group is docked afterwards, and so is every panel
/// docked before; no other panel is.
proof fn lemma_add_panel_docked<S, R, X, G, W>(
    l: LayoutShape<S, R, X, G, W>, registered: Seq<Panel>, panel: Panel, group: u32, lone: G, wider: spec_fn(W, W) -> bool,
)
    requires
        spec_add_panel_to_group(l, registered, panel, group, lone, wider) is Ok,
    ensures
        ({
            let m = spec_add_panel_to_group(l, registered, panel, group, lone, wider)->Ok_0;
            forall|q: Panel| #[trigger] docked(layout_trees(m.bands, m.floating), q)
                == (docked(layout_trees(l.bands, l.floating), q) || q == panel)
        }),
{
    let trees = layout_trees(l.bands, l.floating);
    let m = spec_add_panel_to_group(l, registered, panel, group, lone, wider)->Ok_0;
    let moved = seq![panel];
    assert forall|q: Panel| #[trigger] docked(layout_trees(m.bands, m.floating), q)
        == (docked(trees, q) || q == panel) by {
        if let Some(DockShape::Tabs { panels, .. }) = forest_find(trees, group) {
            if panels.contains(panel) {
                lemma_forest_find_docked(trees, group, panel);
            } else {
                let b = spec_detach_bands(l.bands, moved);
                let f = detached_floating(l.floating, moved, lone);
                lemma_detach_bands_docked(l.bands, moved, q);
                lemma_detach_floating_docked(l.floating, moved, q);
                assert(floating_trees(f) =~= detached_trees(spec_detach_floating(l.floating, moved)));
                lemma_docked_concat(band_trees(b), floating_trees(f), q);
                lemma_docked_concat(band_trees(l.bands), floating_trees(l.floating), q);
                assert(moved.contains(q) <==> q == panel) by {
                    if moved.contains(q) {
                        let k = choose|k: int| 0 <= k < moved.len() && moved[k] == q;
                    }
                    if q == panel {
                        assert(moved[0] == q);
                    }
                }
                lemma_edit_docked(b, f, group, TreeEdit::Insert { at: None, source: None, moved, selected: panel }, q);
            }
        }
    }
}

/// The workspace once `panel` leaves every tree, collapsed column and
/// tab-sizing group, as in a move (`lone` is the geometry a floating group
/// takes when left holding one standalone toolbar).
pub open spec fn spec_hidden<S, R, X, G, W>(l: LayoutShape<S, R, X, G, W>, panel: Panel, lone: G, wider: spec_fn(W, W) -> bool) -> LayoutShape<S, R, X, G, W> {
    let moved = seq![panel];
    let b = spec_detach_bands(l.bands, moved);
    let f = detached_floating(l.floating, moved, lone);
    LayoutShape {
        bands: b,
        floating: f,
        collapsed: spec_detach_columns(layout_trees(l.bands, l.floating), l.collapsed, moved, wider),
        fit_tab_groups: l.fit_tab_groups.filter(|g: u32| keeps_tab_sizing(layout_trees(b, f), g)),
        next_id: l.next_id,
    }
}

fn take_out<S: Copy, R: Copy, X: Copy, G: Copy, W: Copy, FW: Fn(&W, &W) -> bool>(
    layout: &mut DockLayout<S, R, X, G, W>, panel: Panel, lone: G, wider: &FW,
)
    requires
        forall|a: &W, b: &W| wider.requires((a, b)),
        forall|a: &W, b: &W, x: bool, y: bool| wider.ensures((a, b), x) && wider.ensures((a, b), y) ==> x == y,
    ensures
        final(layout)@ == spec_hidden(old(layout)@, panel, lone, judged_pair(wider)),
        forall|q: Panel| #[trigger] docked(layout_trees(final(layout)@.bands, final(layout)@.floating), q)
            == (q != panel && docked(layout_trees(old(layout)@.bands, old(layout)@.floating), q)),
{
    let ghost l0 = layout@;
    let ghost trees = layout_trees(l0.bands, l0.floating);
    let moved = vec![panel];
    assert(moved@ =~= seq![panel]);
    let collapsed = detach_columns(&layout.bands, &layout.floating, &layout.collapsed, moved.as_slice(), wider);
    let bands = detach_bands(duplicate_bands(&layout.bands), moved.as_slice());
    let detached = detach_floating(duplicate_floating(&layout.floating), moved.as_slice());
    let floating = settle_floating(detached, lone);
    let fit = retain_tab_sizing(&bands, &floating, &layout.fit_tab_groups);
    let ghost b = spec_detach_bands(l0.bands, moved@);
    let ghost f = detached_floating(l0.floating, moved@, lone);
    proof {
        assert(band_roots(layout.bands@) =~= band_trees(l0.bands));
        assert(floating_roots(layout.floating@) =~= floating_trees(l0.floating));
        assert(band_roots(layout.bands@) + floating_roots(layout.floating@) == trees);
        assert(band_shapes(bands@) == b);
        assert(floating_shapes(floating@) =~= f);
        assert(band_roots(bands@) =~= band_trees(b));
        assert(floating_roots(floating@) =~= floating_trees(f));
        assert(band_roots(bands@) + floating_roots(floating@) == layout_trees(b, f));
    }
    let next_id = layout.next_id;
    *layout = DockLayout { bands, floating, collapsed, fit_tab_groups: fit, next_id };
    assert(layout@ == spec_hidden(l0, panel, lone, judged_pair(wider)));
    proof {
        assert forall|q: Panel| #[trigger] docked(layout_trees(layout@.bands, layout@.floating), q)
            == (q != panel && docked(trees, q)) by {
            lemma_detach_bands_docked(l0.bands, moved@, q);
            lemma_detach_floating_docked(l0.floating, moved@, q);
            assert(floating_trees(f) =~= detached_trees(spec_detach_floating(l0.floating, moved@)));
            lemma_docked_concat(band_trees(b), floating_trees(f), q);
            lemma_docked_concat(band_trees(l0.bands), floating_trees(l0.floating), q);
            assert(moved@.contains(q) <==> q == panel) by {
                if moved@.contains(q) {
                    let k = choose|k: int| 0 <= k < moved@.len() && moved@[k] == q;
                }
                if q == panel {
                    assert(moved@[0] == q);
                }
            }
        }
    }
}

/// The workspace and toolbar tiles once custom or built-in toolbar `panel`
/// is deleted (see `delete_toolbar`): refused for a panel not in
/// `registered` and for a content panel, which can only be hidden.
/// Otherwise the toolbar leaves the docking as a hidden panel does, and
/// its tiles go.
pub open spec fn spec_delete_toolbar<S, R, X, G, W>(
    l: LayoutShape<S, R, X, G, W>, tiles: Map<Panel, Seq<ToolbarTile>>, registered: Seq<Panel>, panel: Panel, lone: G,
    wider: spec_fn(W, W) -> bool,
) -> Result<(LayoutShape<S, R, X, G, W>, Map<Panel, Seq<ToolbarTile>>), MoveError> {
    if !registered.contains(panel) {
        Err(MoveError::UnknownPanel)
    } else if spec_kind(panel) != PanelKind::Tiles {
        Err(MoveError::BuiltInPanel)
    } else {
        Ok((spec_hidden(l, panel, lone, wider), tiles.remove(panel)))
    }
}

/// Deletes toolbar `panel` (see `spec_delete_toolbar`); a refusal changes
/// nothing. Afterwards the toolbar is docked nowhere and every other panel
/// is docked exactly as before.
pub fn delete_toolbar<S: Copy, R: Copy, X: Copy, G: Copy, W: Copy, FW: Fn(&W, &W) -> bool>(
    layout: &mut DockLayout<S, R, X, G, W>,
    toolbars: &mut ToolbarRegistry,
    registered: &[Panel],
    panel: Panel,
    lone: G,
    wider: &FW,
) -> (r: Result<(), MoveError>)
    requires
        forall|a: &W, b: &W| wider.requires((a, b)),
        forall|a: &W, b: &W, x: bool, y: bool| wider.ensures((a, b), x) && wider.ensures((a, b), y) ==> x == y,
    ensures
        match spec_delete_toolbar(old(layout)@, old(toolbars)@, registered@, panel, lone, judged_pair(wider)) {
            Ok((l, t)) => r is Ok && final(layout)@ == l && final(toolbars)@ == t,
            Err(e) => r == Err::<(), MoveError>(e) && final(layout)@ == old(layout)@ && final(toolbars)@ == old(toolbars)@,
        },
        final(toolbars).allocator() == old(toolbars).allocator(),
        r is Ok ==> forall|q: Panel| #[trigger] docked(layout_trees(final(layout)@.bands, final(layout)@.floating), q)
            == (q != panel && docked(layout_trees(old(layout)@.bands, old(layout)@.floating), q)),
        !registered@.contains(panel) ==> r == Err::<(), MoveError>(MoveError::UnknownPanel),
        registered@.contains(panel) && spec_kind(panel) != PanelKind::Tiles ==> r == Err::<(), MoveError>(MoveError::BuiltInPanel),
        registered@.contains(panel) && spec_kind(panel) == PanelKind::Tiles ==> r is Ok
            && final(toolbars)@ == old(toolbars)@.remove(panel),
{
    if !contains_panel(registered, panel) {
        return Err(MoveError::UnknownPanel);
    }
    if panel.kind() != PanelKind::Tiles {
        return Err(MoveError::BuiltInPanel);
    }
    take_out(layout, panel, lone, wider);
    let ghost t0 = toolbars@;
    let _ = toolbars.remove_toolbar(panel);
    assert(toolbars@ =~= t0.remove(panel));
    Ok(())
}

/// The workspace once `panel` is shown (`visible`) or hidden (see
/// `set_panel_visible`). `registered` lists the panels the workspace knows.
/// Asking for what already holds changes nothing. Hiding takes the panel out
/// as a move does (`lone` is the geometry a floating group takes when left
/// holding one standalone toolbar). Showing docks it alone in a new tab
/// group of style `tab_style`, in a new band of extent `extent` at its
/// default edge (see `Panel::default_edge`) after every other band; the
/// group takes the next identity and the band the one after, and the
/// workspace this leaves must pass `layout_check`, else showing is refused.
pub open spec fn spec_set_panel_visible<S, R, X, G, W>(
    l: LayoutShape<S, R, X, G, W>, registered: Seq<Panel>, panel: Panel, visible: bool,
    extent: X, tab_style: S, lone: G, wider: spec_fn(W, W) -> bool,
    ratio_ok: spec_fn(R) -> bool, extent_ok: spec_fn(X) -> bool, geometry_ok: spec_fn(G) -> bool, width_ok: spec_fn(W) -> bool,
) -> Result<LayoutShape<S, R, X, G, W>, MoveError> {
    let trees = layout_trees(l.bands, l.floating);
    if !registered.contains(panel) {
        Err(MoveError::UnknownPanel)
    } else if visible == docked(trees, panel) {
        Ok(l)
    } else if !visible {
        Ok(spec_hidden(l, panel, lone, wider))
    } else if l.next_id >= u32::MAX - 1 {
        Err(MoveError::IdsExhausted)
    } else {
        let shown = LayoutShape {
            bands: l.bands.push(BandShape {
                id: (l.next_id + 1) as u32,
                edge: spec_default_edge(panel),
                extent,
                root: DockShape::Tabs { id: l.next_id, panels: seq![panel], active: panel, tab_style },
            }),
            next_id: (l.next_id + 2) as u32,
            ..l
        };
        match layout_check(shown, ratio_ok, extent_ok, geometry_ok, width_ok) {
            Err(e) => Err(MoveError::Invalid(e)),
            Ok(()) => Ok(shown),
        }
    }
}

/// Whether some band or floating group docks `panel`.
fn docks<S, R, X, G>(bands: &Vec<DockBand<S, R, X>>, floating: &Vec<FloatingGroup<S, R, G>>, panel: Panel) -> (r: bool)
    ensures
        r == docked(layout_trees(band_shapes(bands@), floating_shapes(floating@)), panel),
{
    let ghost t = layout_trees(band_shapes(bands@), floating_shapes(floating@));
    let ghost nb = bands@.len() as int;
    assert(t.len() == bands@.len() + floating@.len());
    let mut i: usize = 0;
    while i < bands.len()
        invariant
            i <= bands@.len(),
            t == layout_trees(band_shapes(bands@), floating_shapes(floating@)),
            nb == bands@.len(),
            forall|j: int| 0 <= j < i ==> !(#[trigger] shape_panels(t[j])).contains(panel),
        decreases bands@.len() - i,
    {
        assert(t[i as int] == bands@[i as int].root@);
        if contains_panel(bands[i].root.panels().as_slice(), panel) {
            assert(shape_panels(t[i as int]).contains(panel));
            return true;
        }
        i = i + 1;
    }
    let mut k: usize = 0;
    while k < floating.len()
        invariant
            k <= floating@.len(),
            t == layout_trees(band_shapes(bands@), floating_shapes(floating@)),
            nb == bands@.len(),
            t.len() == nb + floating@.len(),
            forall|j: int| 0 <= j < nb + k ==> !(#[trigger] shape_panels(t[j])).contains(panel),
        decreases floating@.len() - k,
    {
        assert(t[nb + k] == floating@[k as int].root@);
        if contains_panel(floating[k].root.panels().as_slice(), panel) {
            assert(shape_panels(t[nb + k]).contains(panel));
            return true;
        }
        k = k + 1;
    }
    false
}

/// Shows or hides `panel` (see `spec_set_panel_visible`). A refusal leaves
/// the workspace as it was; afterwards `panel` is docked exactly when it was
/// asked to be, and every other panel is docked exactly as before.
pub fn set_panel_visible<S: Copy, R: Copy, X: Copy, G: Copy, W: Copy, FW, FR, FX, FG, FV>(
    layout: &mut DockLayout<S, R, X, G, W>,
    registered: &[Panel],
    panel: Panel,
    visible: bool,
    extent: X,
    tab_style: S,
    lone: G,
    wider: &FW,
    ratio_ok: &FR,
    extent_ok: &FX,
    geometry_ok: &FG,
    width_ok: &FV,
) -> (r: Result<(), MoveError>) where
    FW: Fn(&W, &W) -> bool,
    FR: Fn(&R) -> bool,
    FX: Fn(&X) -> bool,
    FG: Fn(&G) -> bool,
    FV: Fn(&W) -> bool,

    requires
        forall|a: &W, b: &W| wider.requires((a, b)),
        forall|a: &W, b: &W, x: bool, y: bool| wider.ensures((a, b), x) && wider.ensures((a, b), y) ==> x == y,
        forall|x: &R| ratio_ok.requires((x,)),
        forall|x: &R, a: bool, b: bool| ratio_ok.ensures((x,), a) && ratio_ok.ensures((x,), b) ==> a == b,
        forall|x: &X| extent_ok.requires((x,)),
        forall|x: &X, a: bool, b: bool| extent_ok.ensures((x,), a) && extent_ok.ensures((x,), b) ==> a == b,
        forall|x: &G| geometry_ok.requires((x,)),
        forall|x: &G, a: bool, b: bool| geometry_ok.ensures((x,), a) && geometry_ok.ensures((x,), b) ==> a == b,
        forall|x: &W| width_ok.requires((x,)),
        forall|x: &W, a: bool, b: bool| width_ok.ensures((x,), a) && width_ok.ensures((x,), b) ==> a == b,
    ensures
        match spec_set_panel_visible(old(layout)@, registered@, panel, visible, extent, tab_style, lone, judged_pair(wider),
            judged(ratio_ok), judged(extent_ok), judged(geometry_ok), judged(width_ok)) {
            Ok(l) => r is Ok && final(layout)@ == l,
            Err(e) => r == Err::<(), MoveError>(e) && final(layout)@ == old(layout)@,
        },
        r is Ok ==> forall|q: Panel| #[trigger] docked(layout_trees(final(layout)@.bands, final(layout)@.floating), q)
            == (if q == panel { visible } else { docked(layout_trees(old(layout)@.bands, old(layout)@.floating), q) }),
        !registered@.contains(panel) ==> r == Err::<(), MoveError>(MoveError::UnknownPanel),
        registered@.contains(panel) && visible == docked(layout_trees(old(layout)@.bands, old(layout)@.floating), panel)
            ==> r is Ok && final(layout)@ == old(layout)@,
        r is Ok && visible && !docked(layout_trees(old(layout)@.bands, old(layout)@.floating), panel) ==>
            final(layout)@ == (LayoutShape {
                bands: old(layout)@.bands.push(BandShape {
                    id: (old(layout)@.next_id + 1) as u32,
                    edge: spec_default_edge(panel),
                    extent,
                    root: DockShape::Tabs { id: old(layout)@.next_id, panels: seq![panel], active: panel, tab_style },
                }),
                next_id: (old(layout)@.next_id + 2) as u32,
                ..old(layout)@
            }),
{
    let ghost l0 = layout@;
    let ghost trees = layout_trees(l0.bands, l0.floating);
    let ghost expected = spec_set_panel_visible(l0, registered@, panel, visible, extent, tab_style, lone, judged_pair(wider),
        judged(ratio_ok), judged(extent_ok), judged(geometry_ok), judged(width_ok));
    if !contains_panel(registered, panel) {
        return Err(MoveError::UnknownPanel);
    }
    if visible == docks(&layout.bands, &layout.floating, panel) {
        assert(expected == Ok::<LayoutShape<S, R, X, G, W>, MoveError>(l0));
        return Ok(());
    }
    if !visible {
        take_out(layout, panel, lone, wider);
        assert(expected == Ok::<LayoutShape<S, R, X, G, W>, MoveError>(layout@));
        return Ok(());
    }
    let ghost nv = DockShape::<S, R>::Tabs { id: l0.next_id, panels: seq![panel], active: panel, tab_style };
    let mut bands = duplicate_bands(&layout.bands);
    let next = match dock_shown_panel(&mut bands, layout.next_id, panel, tab_style, extent) {
        Ok(next) => next,
        Err(e) => {
            assert(expected == Err::<LayoutShape<S, R, X, G, W>, MoveError>(e));
            return Err(e);
        },
    };
    let done = DockLayout {
        bands,
        floating: duplicate_floating(&layout.floating),
        collapsed: column_copies(&layout.collapsed),
        fit_tab_groups: copy_ids(&layout.fit_tab_groups),
        next_id: next,
    };
    let ghost nb = BandShape { id: (l0.next_id + 1) as u32, edge: spec_default_edge(panel), extent, root: nv };
    assert(done@.bands == l0.bands.push(nb));
    assert(done@.floating == l0.floating);
    match check_layout(&done, ratio_ok, extent_ok, geometry_ok, width_ok) {
        Err(e) => {
            assert(expected == Err::<LayoutShape<S, R, X, G, W>, MoveError>(MoveError::Invalid(e)));
            return Err(MoveError::Invalid(e));
        },
        Ok(()) => {},
    }
    *layout = done;
    proof {
        assert(band_shapes(layout.bands@) == l0.bands.push(nb));
        assert(expected == Ok::<LayoutShape<S, R, X, G, W>, MoveError>(layout@));
        assert(band_trees(l0.bands.push(nb)) =~= band_trees(l0.bands).push(nv));
        assert(shape_panels(nv) =~= seq![panel]);
        assert forall|q: Panel| #[trigger] docked(layout_trees(layout@.bands, layout@.floating), q)
            == (if q == panel { visible } else { docked(trees, q) }) by {
            lemma_docked_push(band_trees(l0.bands), nv, q);
            lemma_docked_concat(band_trees(l0.bands).push(nv), floating_trees(l0.floating), q);
            lemma_docked_concat(band_trees(l0.bands), floating_trees(l0.floating), q);
            if q == panel {
                assert(shape_panels(nv).contains(q)) by {
                    assert(shape_panels(nv)[0] == q);
                }
            } else {
                assert(!shape_panels(nv).contains(q)) by {
                    if shape_panels(nv).contains(q) {
                        let k = choose|k: int| 0 <= k < shape_panels(nv).len() && shape_panels(nv)[k] == q;
                    }
                }
            }
        }
    }
    Ok(())
}

/// The share `shares` gives split `id`, else `fraction`.
pub open spec fn share_of<R>(shares: Seq<(u32, R)>, id: u32, fraction: R) -> R
    decreases shares.len(),
{
    if shares.len() == 0 {
        fraction
    } else if shares[0].0 == id {
        shares[0].1
    } else {
        share_of(shares.drop_first(), id, fraction)
    }
}

/// The subtree `n` once column `root` inside it is resized: each side-by-side
/// split on the way down to `root` takes its new share from `shares`; every
/// node, tab group and stacked split stays as it was.
pub open spec fn refit_shape<S, R>(n: DockShape<S, R>, root: u32, shares: Seq<(u32, R)>) -> DockShape<S, R>
    decreases n,
{
    if shape_id(n) == root {
        n
    } else {
        match n {
            DockShape::Split { id, axis, fraction, first, second } => {
                let f = if axis == Axis::Horizontal { share_of(shares, id, fraction) } else { fraction };
                if spec_find(*first, root) is Some {
                    DockShape::Split { id, axis, fraction: f, first: Box::new(refit_shape(*first, root, shares)), second }
                } else {
                    DockShape::Split { id, axis, fraction: f, first, second: Box::new(refit_shape(*second, root, shares)) }
                }
            },
            _ => n,
        }
    }
}

/// The first collapsed column with root `root`.
pub open spec fn column_index<W>(collapsed: Seq<CollapsedColumn<W>>, root: u32) -> Option<int>
    decreases collapsed.len(),
{
    if collapsed.len() == 0 {
        None
    } else if collapsed[0].root == root {
        Some(0)
    } else {
        match column_index(collapsed.drop_first(), root) {
            Some(i) => Some(i + 1),
            None => None,
        }
    }
}

/// The floating groups' trees, as nodes.
pub open spec fn floating_nodes<S, R, G>(floating: Seq<FloatingGroup<S, R, G>>) -> Seq<DockNode<S, R>> {
    Seq::new(floating.len(), |i: int| floating[i].root)
}

/// The workspace once column `root` is collapsed (`collapse`) or expanded
/// (see `set_column_collapsed`): collapsing records the width `now` it has
/// open; expanding drops its record. The band holding it takes extent
/// `extent` and its tree is refitted (see `refit_shape`).
pub open spec fn spec_toggle_column<S, R, X, G, W>(
    l: LayoutShape<S, R, X, G, W>, root: u32, collapse: bool, now: Option<W>, extent: X, shares: Seq<(u32, R)>,
) -> LayoutShape<S, R, X, G, W> {
    let k = first_with(band_trees(l.bands), root)->Some_0;
    let band = l.bands[k];
    LayoutShape {
        bands: l.bands.update(k, BandShape { id: band.id, edge: band.edge, extent, root: refit_shape(band.root, root, shares) }),
        collapsed: if collapse {
            l.collapsed.push(CollapsedColumn { root, expanded_width: now->Some_0 })
        } else {
            l.collapsed.remove(column_index(l.collapsed, root)->Some_0)
        },
        ..l
    }
}

proof fn lemma_column_index<W>(collapsed: Seq<CollapsedColumn<W>>, root: u32)
    ensures
        match column_index(collapsed, root) {
            Some(i) => 0 <= i < collapsed.len() && collapsed[i].root == root,
            None => !column_roots(collapsed).contains(root),
        },
    decreases collapsed.len(),
{
    if collapsed.len() > 0 {
        lemma_column_index(collapsed.drop_first(), root);
        if column_index(collapsed, root) is None {
            assert(column_roots(collapsed.drop_first()) =~= column_roots(collapsed).drop_first());
            if column_roots(collapsed).contains(root) {
                let j = choose|j: int| 0 <= j < column_roots(collapsed).len() && column_roots(collapsed)[j] == root;
                assert(j != 0);
                assert(column_roots(collapsed.drop_first())[j - 1] == root);
            }
        }
    }
}

fn share_lookup<R: Copy>(shares: &Vec<(u32, R)>, id: u32, fraction: R) -> (r: R)
    ensures
        r == share_of(shares@, id, fraction),
{
    let mut i: usize = 0;
    assert(shares@.subrange(0, shares@.len() as int) =~= shares@);
    while i < shares.len()
        invariant
            i <= shares@.len(),
            share_of(shares@, id, fraction) == share_of(shares@.subrange(i as int, shares@.len() as int), id, fraction),
        decreases shares@.len() - i,
    {
        let ghost rest = shares@.subrange(i as int, shares@.len() as int);
        assert(rest.drop_first() =~= shares@.subrange(i + 1, shares@.len() as int));
        if shares[i].0 == id {
            return shares[i].1;
        }
        i = i + 1;
    }
    fraction
}

fn refit<S, R: Copy>(n: DockNode<S, R>, root: u32, shares: &Vec<(u32, R)>) -> (r: DockNode<S, R>)
    ensures
        r@ == refit_shape(n@, root, shares@),
    decreases n,
{
    if n.id() == root {
        return n;
    }
    match n {
        DockNode::Split { id, axis, fraction, first, second } => {
            let f = match axis {
                Axis::Horizontal => share_lookup(shares, id, fraction),
                Axis::Vertical => fraction,
            };
            if first.find(root).is_some() {
                let a = refit(*first, root, shares);
                DockNode::Split { id, axis, fraction: f, first: Box::new(a), second }
            } else {
                let b = refit(*second, root, shares);
                DockNode::Split { id, axis, fraction: f, first, second: Box::new(b) }
            }
        },
        DockNode::Tabs { id, panels, active, tab_style } => DockNode::Tabs { id, panels, active, tab_style },
    }
}

fn find_column<W>(collapsed: &Vec<CollapsedColumn<W>>, root: u32) -> (r: Option<usize>)
    ensures
        match column_index(collapsed@, root) {
            Some(i) => r == Some(i as usize),
            None => r is None,
        },
{
    let mut i: usize = 0;
    assert(collapsed@.subrange(0, collapsed@.len() as int) =~= collapsed@);
    while i < collapsed.len()
        invariant
            i <= collapsed@.len(),
            column_index(collapsed@, root) == match column_index(collapsed@.subrange(i as int, collapsed@.len() as int), root) {
                Some(j) => Some(j + i),
                None => None::<int>,
            },
        decreases collapsed@.len() - i,
    {
        let ghost rest = collapsed@.subrange(i as int, collapsed@.len() as int);
        assert(rest.drop_first() =~= collapsed@.subrange(i + 1, collapsed@.len() as int));
        if collapsed[i].root == root {
            return Some(i);
        }
        i = i + 1;
    }
    None
}

fn column_copies<W: Copy>(collapsed: &Vec<CollapsedColumn<W>>) -> (r: Vec<CollapsedColumn<W>>)
    ensures
        r@ == collapsed@,
{
    let mut r: Vec<CollapsedColumn<W>> = Vec::new();
    let mut i: usize = 0;
    while i < collapsed.len()
        invariant
            i <= collapsed@.len(),
            r@ == collapsed@.subrange(0, i as int),
        decreases collapsed@.len() - i,
    {
        r.push(collapsed[i]);
        i = i + 1;
    }
    assert(r@ =~= collapsed@);
    r
}

fn copy_ids(ids: &Vec<u32>) -> (r: Vec<u32>)
    ensures
        r@ == ids@,
{
    let mut r: Vec<u32> = Vec::new();
    let mut i: usize = 0;
    while i < ids.len()
        invariant
            i <= ids@.len(),
            r@ == ids@.subrange(0, i as int),
        decreases ids@.len() - i,
    {
        r.push(ids[i]);
        i = i + 1;
    }
    assert(r@ =~= ids@);
    r
}

/// Collapses (`collapse`) or expands the side column of `group`. Which
/// column is decided by `column_toggle` over the workspace; a column already
/// as asked changes nothing. The host measures the rest: `now` is the
/// column's open width (none when it is not on screen, which refuses a
/// collapse), `extent` the new extent of the band holding it, and `shares`
/// the new shares of the side-by-side splits above it. The dock tree keeps
/// every node, tab group and active tab; a column's open width is kept while
/// it is collapsed.
pub fn set_column_collapsed<S: Copy, R: Copy, X: Copy, G: Copy, W: Copy>(
    layout: &mut DockLayout<S, R, X, G, W>,
    group: u32,
    collapse: bool,
    now: Option<W>,
    extent: X,
    shares: &Vec<(u32, R)>,
) -> (r: Result<(), MoveError>)
    ensures
        match spec_column_toggle(old(layout).bands@, floating_nodes(old(layout).floating@), column_roots(old(layout).collapsed@), group, collapse) {
            Err(e) => r == Err::<(), MoveError>(e) && final(layout)@ == old(layout)@,
            Ok(None) => r is Ok && final(layout)@ == old(layout)@,
            Ok(Some(root)) => if collapse && now is None {
                r == Err::<(), MoveError>(MoveError::ColumnHidden) && final(layout)@ == old(layout)@
            } else {
                r is Ok && final(layout)@ == spec_toggle_column(old(layout)@, root, collapse, now, extent, shares@)
            },
        },
        r is Ok ==> bands_keep_arrangement(final(layout)@.bands, old(layout)@.bands),
{
    let ghost l0 = layout@;
    let froots = floating_tree_copies(&layout.floating);
    let roots = column_root_list(&layout.collapsed);
    proof {
        assert(shapes(froots@) =~= shapes(floating_nodes(layout.floating@)));
    }
    let root = match column_toggle(&layout.bands, &froots, &roots, group, collapse) {
        Err(e) => {
            return Err(e);
        },
        Ok(None) => {
            proof {
                assert forall|i: int| #![trigger l0.bands[i]] 0 <= i < l0.bands.len() implies l0.bands[i].id == l0.bands[i].id
                    && l0.bands[i].edge == l0.bands[i].edge && same_arrangement(l0.bands[i].root, l0.bands[i].root) by {
                    lemma_same_arrangement_refl(l0.bands[i].root);
                }
                assert(bands_keep_arrangement(l0.bands, l0.bands));
            }
            return Ok(());
        },
        Ok(Some(root)) => root,
    };
    let ghost want = spec_toggle_column(l0, root, collapse, now, extent, shares@);
    if collapse && now.is_none() {
        return Err(MoveError::ColumnHidden);
    }
    let (bi, _) = locate(&layout.bands, &layout.floating, root);
    proof {
        assert(band_shapes(layout.bands@) == l0.bands);
        let b = choose|b: int| 0 <= b < layout.bands@.len() && (layout.bands@[b].edge == Edge::Left || layout.bands@[b].edge == Edge::Right)
            && #[trigger] spec_find(layout.bands@[b].root@, root) is Some;
        lemma_first_with_found(band_trees(l0.bands), root);
        assert(band_trees(l0.bands)[b] == layout.bands@[b].root@);
    }
    let k = match bi {
        Some(k) => k,
        None => {
            return Err(MoveError::NotCollapsible);
        },
    };
    let mut collapsed = column_copies(&layout.collapsed);
    if collapse {
        let w = match now {
            Some(w) => w,
            None => {
                return Err(MoveError::ColumnHidden);
            },
        };
        collapsed.push(CollapsedColumn { root, expanded_width: w });
    } else {
        proof {
            lemma_column_index(l0.collapsed, root);
            assert(column_roots(l0.collapsed) == roots@);
        }
        match find_column(&collapsed, root) {
            Some(i) => {
                collapsed.remove(i);
            },
            None => {
                return Err(MoveError::NotCollapsible);
            },
        }
    }
    let mut bands = duplicate_bands(&layout.bands);
    let band = bands.remove(k);
    let DockBand { id, edge, extent: _, root: tree } = band;
    let tree = refit(tree, root, shares);
    bands.insert(k, DockBand { id, edge, extent, root: tree });
    let floating = duplicate_floating(&layout.floating);
    let fit = copy_ids(&layout.fit_tab_groups);
    let next_id = layout.next_id;
    *layout = DockLayout { bands, floating, collapsed, fit_tab_groups: fit, next_id };
    proof {
        assert(layout@.bands =~= want.bands);
        assert(layout@.collapsed =~= want.collapsed);
        lemma_toggle_keeps_arrangement(l0, root, collapse, now, extent, shares@);
    }
    Ok(())
}

/// Whether two subtrees have the same nodes, tab groups, active tabs and
/// tab styles, whatever their split shares.
pub open spec fn same_arrangement<S, R>(a: DockShape<S, R>, b: DockShape<S, R>) -> bool
    decreases a,
{
    match a {
        DockShape::Tabs { id, panels, active, tab_style } => b == DockShape::<S, R>::Tabs { id, panels, active, tab_style },
        DockShape::Split { id, axis, first, second, .. } => match b {
            DockShape::Split { id: id2, axis: axis2, first: first2, second: second2, .. } =>
                id == id2 && axis == axis2 && same_arrangement(*first, *first2) && same_arrangement(*second, *second2),
            _ => false,
        },
    }
}

proof fn lemma_same_arrangement_refl<S, R>(n: DockShape<S, R>)
    ensures
        same_arrangement(n, n),
    decreases n,
{
    if let DockShape::Split { first, second, .. } = n {
        lemma_same_arrangement_refl(*first);
        lemma_same_arrangement_refl(*second);
    }
}

proof fn lemma_refit_arrangement<S, R>(n: DockShape<S, R>, root: u32, shares: Seq<(u32, R)>)
    ensures
        same_arrangement(refit_shape(n, root, shares), n),
    decreases n,
{
    lemma_same_arrangement_refl(n);
    if shape_id(n) != root {
        if let DockShape::Split { first, second, .. } = n {
            lemma_refit_arrangement(*first, root, shares);
            lemma_refit_arrangement(*second, root, shares);
            lemma_same_arrangement_refl(*first);
            lemma_same_arrangement_refl(*second);
        }
    }
}

/// Whether bands `m` are bands `l` with every band's identity, edge and
/// tree arrangement (see `same_arrangement`) kept.
pub open spec fn bands_keep_arrangement<S, R, X>(m: Seq<BandShape<S, R, X>>, l: Seq<BandShape<S, R, X>>) -> bool {
    &&& m.len() == l.len()
    &&& forall|i: int| #![trigger m[i]] 0 <= i < l.len() ==> m[i].id == l[i].id
        && m[i].edge == l[i].edge && same_arrangement(m[i].root, l[i].root)
}

/// Collapsing or expanding a column keeps the dock tree: every band keeps
/// its identity, its edge and its tree's nodes, tab groups, active tabs and
/// tab styles (only split shares above the column may change), and the
/// floating groups, tab-sizing groups and next identity stay as they were.
pub proof fn lemma_toggle_keeps_arrangement<S, R, X, G, W>(
    l: LayoutShape<S, R, X, G, W>, root: u32, collapse: bool, now: Option<W>, extent: X, shares: Seq<(u32, R)>,
)
    requires
        first_with(band_trees(l.bands), root) is Some,
    ensures
        ({
            let m = spec_toggle_column(l, root, collapse, now, extent, shares);
            &&& bands_keep_arrangement(m.bands, l.bands)
            &&& m.floating == l.floating && m.fit_tab_groups == l.fit_tab_groups && m.next_id == l.next_id
        }),
{
    let m = spec_toggle_column(l, root, collapse, now, extent, shares);
    lemma_first_with_found(band_trees(l.bands), root);
    let k = first_with(band_trees(l.bands), root)->Some_0;
    assert forall|i: int| #![trigger m.bands[i]] 0 <= i < l.bands.len() implies m.bands[i].id == l.bands[i].id
        && m.bands[i].edge == l.bands[i].edge && same_arrangement(m.bands[i].root, l.bands[i].root) by {
        if i == k {
            lemma_refit_arrangement(l.bands[k].root, root, shares);
        } else {
            lemma_same_arrangement_refl(l.bands[i].root);
        }
    }
}

/// A collapsed column keeps the width it had open: collapsing records it,
/// and expanding the column again drops exactly that record, leaving the
/// collapsed columns as they were before.
pub proof fn lemma_collapse_then_expand<S, R, X, G, W>(
    l: LayoutShape<S, R, X, G, W>, root: u32, now: W, extent: X, shares: Seq<(u32, R)>, extent2: X, shares2: Seq<(u32, R)>,
)
    requires
        first_with(band_trees(l.bands), root) is Some,
        !column_roots(l.collapsed).contains(root),
    ensures
        ({
            let c = spec_toggle_column(l, root, true, Some(now), extent, shares);
            &&& c.collapsed.contains(CollapsedColumn { root, expanded_width: now })
            &&& spec_toggle_column(c, root, false, None, extent2, shares2).collapsed == l.collapsed
        }),
{
    let x = CollapsedColumn { root, expanded_width: now };
    let c = spec_toggle_column(l, root, true, Some(now), extent, shares);
    assert(c.collapsed == l.collapsed.push(x));
    assert(c.collapsed[l.collapsed.len() as int] == x);
    lemma_column_index(l.collapsed, root);
    if let Some(i) = column_index(l.collapsed, root) {
        assert(column_roots(l.collapsed)[i] == root);
    }
    lemma_column_index_push(l.collapsed, x);
    assert(c.collapsed.remove(l.collapsed.len() as int) =~= l.collapsed);
}

proof fn lemma_column_index_push<W>(collapsed: Seq<CollapsedColumn<W>>, x: CollapsedColumn<W>)
    requires
        column_index(collapsed, x.root) is None,
    ensures
        column_index(collapsed.push(x), x.root) == Some(collapsed.len() as int),
    decreases collapsed.len(),
{
    if collapsed.len() > 0 {
        assert(collapsed.push(x).drop_first() =~= collapsed.drop_first().push(x));
        lemma_column_index_push(collapsed.drop_first(), x);
    }
}

/// `check_floating` over the mathematical form of the floating groups.
pub open spec fn check_floating_shapes<S, R, G>(floating: Seq<(DockShape<S, R>, G)>, ids: Seq<u32>, panels: Seq<Panel>,
    geometry_ok: spec_fn(G) -> bool, ratio_ok: spec_fn(R) -> bool) -> Result<(Seq<u32>, Seq<Panel>), LayoutError>
    decreases floating.len(),
{
    if floating.len() == 0 {
        Ok((ids, panels))
    } else {
        let f = floating[0];
        if !(f.0 is Tabs) || !geometry_ok(f.1) {
            Err(LayoutError::FloatingGeometry)
        } else {
            match check_shape(f.0, ids, panels, 0, ratio_ok) {
                Ok((i, p)) => check_floating_shapes(floating.drop_first(), i, p, geometry_ok, ratio_ok),
                Err(e) => Err(LayoutError::Tree(e)),
            }
        }
    }
}

/// Every collapsed column has a usable width, is listed once and lies in a
/// side band (see `columns_valid`).
pub open spec fn columns_ok<S, R, X, W>(bands: Seq<BandShape<S, R, X>>, collapsed: Seq<CollapsedColumn<W>>, width_ok: spec_fn(W) -> bool) -> bool {
    forall|c: int| 0 <= c < collapsed.len() ==> {
        &&& width_ok(#[trigger] collapsed[c].expanded_width)
        &&& forall|d: int| 0 <= d < c ==> collapsed[d].root != collapsed[c].root
        &&& in_side_shape(bands, collapsed[c].root)
    }
}

/// Whether a left or right band holds node `root`.
pub open spec fn in_side_shape<S, R, X>(bands: Seq<BandShape<S, R, X>>, root: u32) -> bool {
    exists|b: int| 0 <= b < bands.len() && (bands[b].edge == Edge::Left || bands[b].edge == Edge::Right)
        && #[trigger] spec_find(bands[b].root, root) is Some
}

/// Whether a workspace's docking is valid, judged by the host's `ratio_ok`,
/// `extent_ok`, `geometry_ok` and `width_ok`: the checks of
/// `spec_validate_docking`, then every recorded identity below the
/// identity allocator.
pub open spec fn layout_check<S, R, X, G, W>(
    l: LayoutShape<S, R, X, G, W>, ratio_ok: spec_fn(R) -> bool, extent_ok: spec_fn(X) -> bool,
    geometry_ok: spec_fn(G) -> bool, width_ok: spec_fn(W) -> bool,
) -> Result<(), LayoutError> {
    match check_bands(l.bands, Seq::empty(), Seq::empty(), extent_ok, ratio_ok) {
        Err(e) => Err(e),
        Ok((i1, p1)) => match check_floating_shapes(l.floating, i1, p1, geometry_ok, ratio_ok) {
            Err(e) => Err(e),
            Ok((i2, _)) => if !columns_ok(l.bands, l.collapsed, width_ok) {
                Err(LayoutError::CollapsedColumn)
            } else {
                match check_fit_groups(layout_trees(l.bands, l.floating), l.fit_tab_groups, l.fit_tab_groups.len() as int) {
                    Err(e) => Err(e),
                    Ok(()) => if exists|k: int| 0 <= k < i2.len() && i2[k] >= l.next_id {
                        Err(LayoutError::IdAllocator)
                    } else {
                        Ok(())
                    },
                }
            },
        },
    }
}

proof fn lemma_check_floating_shapes<S, R, G>(floating: Seq<FloatingGroup<S, R, G>>, ids: Seq<u32>, panels: Seq<Panel>,
    geometry_ok: spec_fn(G) -> bool, ratio_ok: spec_fn(R) -> bool)
    ensures
        check_floating(floating, ids, panels, geometry_ok, ratio_ok)
            == check_floating_shapes(floating_shapes(floating), ids, panels, geometry_ok, ratio_ok),
    decreases floating.len(),
{
    if floating.len() > 0 {
        assert(floating_shapes(floating).drop_first() =~= floating_shapes(floating.drop_first()));
        match check_shape(floating[0].root@, ids, panels, 0, ratio_ok) {
            Ok((i, p)) => lemma_check_floating_shapes(floating.drop_first(), i, p, geometry_ok, ratio_ok),
            Err(_) => {},
        }
    }
}

proof fn lemma_columns_ok<S, R, X, W>(bands: Seq<DockBand<S, R, X>>, collapsed: Seq<CollapsedColumn<W>>, width_ok: spec_fn(W) -> bool)
    ensures
        columns_valid(bands, collapsed, width_ok) == columns_ok(band_shapes(bands), collapsed, width_ok),
{
    let bs = band_shapes(bands);
    assert forall|root: u32| #[trigger] in_side_band(bands, root) == in_side_shape(bs, root) by {
        if in_side_band(bands, root) {
            let b = choose|b: int| 0 <= b < bands.len() && (bands[b].edge == Edge::Left || bands[b].edge == Edge::Right)
                && #[trigger] spec_find(bands[b].root@, root) is Some;
            assert(bs[b].root == bands[b].root@);
        }
        if in_side_shape(bs, root) {
            let b = choose|b: int| 0 <= b < bs.len() && (bs[b].edge == Edge::Left || bs[b].edge == Edge::Right)
                && #[trigger] spec_find(bs[b].root, root) is Some;
            assert(bs[b].root == bands[b].root@);
        }
    }
    if columns_valid(bands, collapsed, width_ok) {
        assert forall|c: int| 0 <= c < collapsed.len() implies in_side_shape(bs, #[trigger] collapsed[c].root) by {
            assert(width_ok(collapsed[c].expanded_width));
            assert(in_side_band(bands, collapsed[c].root));
        }
    }
    if columns_ok(bs, collapsed, width_ok) {
        assert forall|c: int| 0 <= c < collapsed.len() implies in_side_band(bands, #[trigger] collapsed[c].root) by {
            assert(width_ok(collapsed[c].expanded_width));
            assert(in_side_shape(bs, collapsed[c].root));
        }
    }
}

/// Checks a workspace's docking (see `layout_check`).
pub fn check_layout<S, R, X, G, W, FR, FX, FG, FW>(
    layout: &DockLayout<S, R, X, G, W>,
    ratio_ok: &FR,
    extent_ok: &FX,
    geometry_ok: &FG,
    width_ok: &FW,
) -> (r: Result<(), LayoutError>) where
    FR: Fn(&R) -> bool,
    FX: Fn(&X) -> bool,
    FG: Fn(&G) -> bool,
    FW: Fn(&W) -> bool,

    requires
        forall|x: &R| ratio_ok.requires((x,)),
        forall|x: &R, a: bool, b: bool| ratio_ok.ensures((x,), a) && ratio_ok.ensures((x,), b) ==> a == b,
        forall|x: &X| extent_ok.requires((x,)),
        forall|x: &X, a: bool, b: bool| extent_ok.ensures((x,), a) && extent_ok.ensures((x,), b) ==> a == b,
        forall|x: &G| geometry_ok.requires((x,)),
        forall|x: &G, a: bool, b: bool| geometry_ok.ensures((x,), a) && geometry_ok.ensures((x,), b) ==> a == b,
        forall|x: &W| width_ok.requires((x,)),
        forall|x: &W, a: bool, b: bool| width_ok.ensures((x,), a) && width_ok.ensures((x,), b) ==> a == b,
    ensures
        r == layout_check(layout@, judged(ratio_ok), judged(extent_ok), judged(geometry_ok), judged(width_ok)),
{
    proof {
        let l = layout@;
        lemma_check_floating_shapes(layout.floating@, Seq::empty(), Seq::empty(), judged(geometry_ok), judged(ratio_ok));
        match check_bands(l.bands, Seq::empty(), Seq::empty(), judged(extent_ok), judged(ratio_ok)) {
            Ok((i1, p1)) => lemma_check_floating_shapes(layout.floating@, i1, p1, judged(geometry_ok), judged(ratio_ok)),
            Err(_) => {},
        }
        lemma_columns_ok(layout.bands@, layout.collapsed@, judged(width_ok));
        assert(band_roots(layout.bands@) =~= band_trees(l.bands));
        assert(floating_roots(layout.floating@) =~= floating_trees(l.floating));
    }
    match validate_docking(&layout.bands, &layout.floating, &layout.collapsed, &layout.fit_tab_groups,
        ratio_ok, extent_ok, geometry_ok, width_ok) {
        Err(e) => Err(e),
        Ok((ids, _)) => check_id_allocator(&ids, layout.next_id),
    }
}

/// What a move that leaves the workspace as it was keeps: every docked
/// panel, and a tab group present in it.
proof fn lemma_unmoved_laws<S, R, X, G, W, P>(l: LayoutShape<S, R, X, G, W>, item: DockItem, target: DockTarget<P>)
    ensures
        !(target is Tab) ==> (item matches DockItem::Group { group } ==>
            (forest_find(layout_trees(l.bands, l.floating), group) matches Some(DockShape::Tabs { panels, active, tab_style, .. }) ==> {
                let t = layout_trees(l.bands, l.floating);
                exists|i: int| 0 <= i < t.len() && holds_node(#[trigger] t[i], DockShape::Tabs { id: group, panels, active, tab_style })
            })),
{
    if let DockItem::Group { group } = item {
        lemma_forest_find_holds(layout_trees(l.bands, l.floating), group);
    }
}

proof fn lemma_find_holds<S, R>(n: DockShape<S, R>, g: u32)
    ensures
        spec_find(n, g) matches Some(x) ==> holds_node(n, x) && shape_id(x) == g,
    decreases n,
{
    if shape_id(n) != g {
        if let DockShape::Split { first, second, .. } = n {
            lemma_find_holds(*first, g);
            lemma_find_holds(*second, g);
        }
    }
}

proof fn lemma_forest_find_holds<S, R>(trees: Seq<DockShape<S, R>>, g: u32)
    ensures
        forest_find(trees, g) matches Some(x) ==> shape_id(x) == g
            && exists|i: int| 0 <= i < trees.len() && holds_node(#[trigger] trees[i], x),
    decreases trees.len(),
{
    if trees.len() > 0 {
        lemma_find_holds(trees[0], g);
        lemma_forest_find_holds(trees.drop_first(), g);
        if let Some(x) = forest_find(trees, g) {
            if spec_find(trees[0], g) is Some {
                assert(holds_node(trees[0], x));
            } else {
                let i = choose|i: int| 0 <= i < trees.drop_first().len() && holds_node(#[trigger] trees.drop_first()[i], x);
                assert(trees.drop_first()[i] == trees[i + 1]);
            }
        }
    }
}

/// The floating groups' trees as bands of one edge.
fn float_band_copies<S: Copy, R: Copy, G>(floating: &Vec<FloatingGroup<S, R, G>>) -> (r: Vec<DockBand<S, R, u8>>)
    ensures
        band_shapes(r@) == float_bands(floating_shapes(floating@)),
{
    let mut r: Vec<DockBand<S, R, u8>> = Vec::new();
    let mut i: usize = 0;
    while i < floating.len()
        invariant
            i <= floating@.len(),
            band_shapes(r@) == float_bands(floating_shapes(floating@)).subrange(0, i as int),
        decreases floating@.len() - i,
    {
        let ghost before = r@;
        r.push(DockBand { id: 0, edge: Edge::Top, extent: 0u8, root: floating[i].root.duplicate() });
        assert(band_shapes(r@) =~= band_shapes(before).push(band_shape(r@[i as int])));
        assert(band_shapes(r@) =~= float_bands(floating_shapes(floating@)).subrange(0, i + 1));
        i = i + 1;
    }
    assert(float_bands(floating_shapes(floating@)).subrange(0, floating@.len() as int) =~= float_bands(floating_shapes(floating@)));
    r
}

/// Whether two workspaces place every panel alike (see `same_placement`).
fn placed_alike<S: Copy, R: Copy, X, G, W>(a: &DockLayout<S, R, X, G, W>, b: &DockLayout<S, R, X, G, W>) -> (r: bool)
    ensures
        r == same_placement(a@, b@),
{
    let fa = float_band_copies(&a.floating);
    let fb = float_band_copies(&b.floating);
    proof {
        lemma_shape_docking(a.bands@);
        lemma_shape_docking(b.bands@);
        lemma_shape_docking(fa@);
        lemma_shape_docking(fb@);
    }
    same_docking(&a.bands, &b.bands) && same_docking(&fa, &fb)
}

/// Why a drag in the workspace was refused: by the docking, or by the
/// toolbars for a dragged tile.
#[derive(Clone, Copy, Debug, PartialEq, Eq, Structural)]
pub enum DragError {
    Docking(MoveError),
    Toolbar(ToolbarError),
}

pub open spec fn spec_drag_error_message(e: DragError) -> Seq<char> {
    match e {
        DragError::Docking(m) => crate::moves::spec_move_error_message(m),
        DragError::Toolbar(t) => spec_error_message(t),
    }
}

impl DragError {
    pub fn message(self) -> (m: &'static str)
        ensures
            m@ == spec_drag_error_message(self),
    {
        match self {
            DragError::Docking(m) => m.message(),
            DragError::Toolbar(t) => t.message(),
        }
    }
}

/// Where a dragged tile goes for a docking target: into a toolbar strip
/// before a tile, as a group at a separator, or anywhere else.
pub open spec fn tile_drop_of<P>(target: DockTarget<P>) -> TileDrop {
    match target {
        DockTarget::Tile { panel, before } => TileDrop::Tile { panel, before },
        DockTarget::TileGroup { panel, divider } => TileDrop::TileGroup { panel, divider },
        _ => TileDrop::Elsewhere,
    }
}

pub fn tile_drop<P>(target: &DockTarget<P>) -> (d: TileDrop)
    ensures
        d == tile_drop_of(*target),
{
    match target {
        DockTarget::Tile { panel, before } => TileDrop::Tile { panel: *panel, before: *before },
        DockTarget::TileGroup { panel, divider } => TileDrop::TileGroup { panel: *panel, divider: *divider },
        _ => TileDrop::Elsewhere,
    }
}

/// A column move's sizes taken from a move's.
pub open spec fn column_sizes_of<S, R, X, G>(sizes: MoveSizes<S, R, X, G>) -> ColumnSizes<R, X, G> {
    ColumnSizes { extent: sizes.extent, fraction: sizes.fraction, lone_toolbar: sizes.lone_toolbar }
}

/// Carries out any drag of the workspace: a tile moves among the toolbars
/// (`ToolbarRegistry::move_tile`), a collapsed column moves as a unit
/// (`move_column`), a panel or tab group moves through the dock trees
/// (`move_item`). What the drag does not concern stays as it was.
pub fn drag_item<S: Copy, R: Copy, X: Copy, G: Copy, W: Copy, P, FP, FW, FR, FX, FG, FV>(
    layout: &mut DockLayout<S, R, X, G, W>,
    toolbars: &mut ToolbarRegistry,
    item: DockItem,
    target: DockTarget<P>,
    sizes: MoveSizes<S, R, X, G>,
    position_ok: &FP,
    wider: &FW,
    ratio_ok: &FR,
    extent_ok: &FX,
    geometry_ok: &FG,
    width_ok: &FV,
) -> (r: Result<(), DragError>) where
    FP: Fn(&P) -> bool,
    FW: Fn(&W, &W) -> bool,
    FR: Fn(&R) -> bool,
    FX: Fn(&X) -> bool,
    FG: Fn(&G) -> bool,
    FV: Fn(&W) -> bool,

    requires
        forall|x: &P| position_ok.requires((x,)),
        forall|x: &P, a: bool, b: bool| position_ok.ensures((x,), a) && position_ok.ensures((x,), b) ==> a == b,
        forall|a: &W, b: &W| wider.requires((a, b)),
        forall|a: &W, b: &W, x: bool, y: bool| wider.ensures((a, b), x) && wider.ensures((a, b), y) ==> x == y,
        forall|x: &R| ratio_ok.requires((x,)),
        forall|x: &R, a: bool, b: bool| ratio_ok.ensures((x,), a) && ratio_ok.ensures((x,), b) ==> a == b,
        forall|x: &X| extent_ok.requires((x,)),
        forall|x: &X, a: bool, b: bool| extent_ok.ensures((x,), a) && extent_ok.ensures((x,), b) ==> a == b,
        forall|x: &G| geometry_ok.requires((x,)),
        forall|x: &G, a: bool, b: bool| geometry_ok.ensures((x,), a) && geometry_ok.ensures((x,), b) ==> a == b,
        forall|x: &W| width_ok.requires((x,)),
        forall|x: &W, a: bool, b: bool| width_ok.ensures((x,), a) && width_ok.ensures((x,), b) ==> a == b,
    ensures
        match item {
            DockItem::Tile { panel, tile } => {
                &&& final(layout)@ == old(layout)@
                &&& match move_outcome(old(toolbars)@, old(toolbars).allocator(), panel, tile, tile_drop_of(target)) {
                    Ok((m, next)) => r is Ok && final(toolbars)@ == m && final(toolbars).allocator() == next,
                    Err(e) => r == Err::<(), DragError>(DragError::Toolbar(e)) && final(toolbars)@ == old(toolbars)@
                        && final(toolbars).allocator() == old(toolbars).allocator(),
                }
            },
            DockItem::Column { column } => {
                &&& final(toolbars)@ == old(toolbars)@ && final(toolbars).allocator() == old(toolbars).allocator()
                &&& match spec_move_column(old(layout)@, column, target, column_sizes_of(sizes), judged_pair(wider),
                    judged(ratio_ok), judged(extent_ok), judged(geometry_ok), judged(width_ok)) {
                    Ok(l) => r is Ok && final(layout)@ == l,
                    Err(e) => r == Err::<(), DragError>(DragError::Docking(e)) && final(layout)@ == old(layout)@,
                }
            },
            _ => {
                &&& final(toolbars)@ == old(toolbars)@ && final(toolbars).allocator() == old(toolbars).allocator()
                &&& match spec_move_item(old(layout)@, item, target, sizes, judged(position_ok), judged_pair(wider),
                    judged(ratio_ok), judged(extent_ok), judged(geometry_ok), judged(width_ok)) {
                    Ok(l) => r is Ok && final(layout)@ == l,
                    Err(e) => r == Err::<(), DragError>(DragError::Docking(e)) && final(layout)@ == old(layout)@,
                }
            },
        },
{
    match item {
        DockItem::Tile { panel, tile } => {
            let drop = tile_drop(&target);
            match toolbars.move_tile(panel, tile, drop) {
                Ok(()) => Ok(()),
                Err(e) => Err(DragError::Toolbar(e)),
            }
        },
        DockItem::Column { column } => {
            let columns = ColumnSizes { extent: sizes.extent, fraction: sizes.fraction, lone_toolbar: sizes.lone_toolbar };
            match move_column(layout, column, target, columns, wider, ratio_ok, extent_ok, geometry_ok, width_ok) {
                Ok(()) => Ok(()),
                Err(e) => Err(DragError::Docking(e)),
            }
        },
        _ => {
            match move_item(layout, item, target, sizes, position_ok, wider, ratio_ok, extent_ok, geometry_ok, width_ok) {
                Ok(()) => Ok(()),
                Err(e) => Err(DragError::Docking(e)),
            }
        },
    }
}

} // verus!
