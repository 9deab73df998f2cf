//! Screening a docking request before the host lays the workspace out
//! again: which drops are refused, which leave everything where it is, what
//! leaves its place, where a new band goes, which column a collapse
//! toggles, and where a shown panel docks.
use vstd::prelude::*;
use crate::workspace::{spec_layout_error_message, LayoutError};
use crate::panel::{spec_default_edge, spec_kind, Axis, DockItem, Edge, Panel, PanelKind};
use crate::workspace::{in_side_band, judged, side_band_holds};
use crate::dock::{
    band_index, band_roots, band_shape, band_shapes, column_for_group, contains_id, copy_panels,
    forest_find, forest_group_for, group_edge, layout_node, lemma_band_index, shape_id, shapes,
    spec_column_for_group, spec_find, spec_group_edge, spec_group_for, spec_tab_group, BandShape,
    DockBand, DockNode, DockShape,
};

verus! {

/// Where a dragged item is dropped; `P` is the host's pointer position for a
/// floating drop.
#[derive(Clone, Debug)]
pub enum DockTarget<P> {
    /// A floating group under the pointer.
    Float { position: P },
    /// A new band next to the centre; `outer` grants it corner priority.
    Edge { edge: Edge, outer: bool },
    /// Beside a whole sidebar, without splitting one of its groups.
    BesideBand { band: u32 },
    /// Into a tab group, before the tab at `index` as counted before the
    /// moved tabs leave; absent appends.
    Tab { group: u32, index: Option<usize> },
    /// Beside a tab group, on its `edge`.
    Split { group: u32, edge: Edge },
    /// Into a toolbar, before tile `before`; absent appends.
    Tile { panel: Panel, before: Option<u32> },
    /// Into a toolbar as a group of its own, at separator `divider`.
    TileGroup { panel: Panel, divider: u32 },
}

/// Why a docking request was refused.
#[derive(Clone, Copy, Debug, PartialEq, Eq, Structural)]
pub enum MoveError {
    /// A panel or group was dropped inside a toolbar.
    ToolsOnlyInToolbars,
    /// A split was asked of a floating group.
    FloatingSplit,
    /// The dragged panel is in no tab group.
    UnknownPanel,
    /// The dragged group is not a tab group.
    UnknownTabGroup,
    /// Only a standalone toolbar docks at the top or bottom, and not as a tab.
    EdgeToolbarsOnly,
    /// The dragged column is not collapsed.
    ColumnNotCollapsed,
    /// The dragged column is not in the workspace.
    UnknownColumn,
    /// A column was dropped somewhere other than a side edge or beside
    /// another column.
    ColumnTarget,
    /// The group lies in no column that can collapse.
    NotCollapsible,
    /// Fresh node identities ran out.
    IdsExhausted,
    /// A floating drop's position is unusable.
    InvalidPosition,
    /// The band beside which a group would land is gone.
    SidebarGone,
    /// The tab group tabs would be dropped into is gone.
    TabTargetGone,
    /// The group that would be split is gone.
    SplitTargetGone,
    /// The node that would be split is not a tab group.
    SplitNotTabs,
    /// The column beside which a column would land is gone.
    ColumnGone,
    /// The group beside which a column would land is not docked.
    ColumnNotDocked,
    /// The column to collapse is not on screen.
    ColumnHidden,
    /// A content panel was to be deleted; it can only be hidden.
    BuiltInPanel,
    /// The workspace the request would leave is not valid.
    Invalid(LayoutError),
}

pub open spec fn spec_move_error_message(e: MoveError) -> Seq<char> {
    match e {
        MoveError::ToolsOnlyInToolbars => "Only tools can be dropped inside a toolbar"@,
        MoveError::FloatingSplit => "Floating groups accept tabs, not docking splits"@,
        MoveError::UnknownPanel => "Unknown panel"@,
        MoveError::UnknownTabGroup => "Unknown tab group"@,
        MoveError::EdgeToolbarsOnly => "Top and bottom docks only support standalone toolbars"@,
        MoveError::ColumnNotCollapsed => "Only collapsed columns move as a unit"@,
        MoveError::UnknownColumn => "Unknown column"@,
        MoveError::ColumnTarget => "Columns dock at side edges or beside other columns"@,
        MoveError::NotCollapsible => "This group has no collapsible column"@,
        MoveError::IdsExhausted => "Workspace ID space exhausted"@,
        MoveError::InvalidPosition => "Invalid floating panel position"@,
        MoveError::SidebarGone => "The target sidebar no longer exists"@,
        MoveError::TabTargetGone => "The tab target no longer exists"@,
        MoveError::SplitTargetGone => "The split target no longer exists"@,
        MoveError::SplitNotTabs => "Split targets must be tab groups"@,
        MoveError::ColumnGone => "The target column no longer exists"@,
        MoveError::ColumnNotDocked => "The target column is not docked"@,
        MoveError::ColumnHidden => "The column is not visible"@,
        MoveError::BuiltInPanel => "Built-in panels can be hidden, not deleted"@,
        MoveError::Invalid(e) => spec_layout_error_message(e),
    }
}

impl MoveError {
    pub fn message(self) -> (m: &'static str)
        ensures
            m@ == spec_move_error_message(self),
    {
        match self {
            MoveError::ToolsOnlyInToolbars => "Only tools can be dropped inside a toolbar",
            MoveError::FloatingSplit => "Floating groups accept tabs, not docking splits",
            MoveError::UnknownPanel => "Unknown panel",
            MoveError::UnknownTabGroup => "Unknown tab group",
            MoveError::EdgeToolbarsOnly => "Top and bottom docks only support standalone toolbars",
            MoveError::ColumnNotCollapsed => "Only collapsed columns move as a unit",
            MoveError::UnknownColumn => "Unknown column",
            MoveError::ColumnTarget => "Columns dock at side edges or beside other columns",
            MoveError::NotCollapsible => "This group has no collapsible column",
            MoveError::IdsExhausted => "Workspace ID space exhausted",
            MoveError::InvalidPosition => "Invalid floating panel position",
            MoveError::SidebarGone => "The target sidebar no longer exists",
            MoveError::TabTargetGone => "The tab target no longer exists",
            MoveError::SplitTargetGone => "The split target no longer exists",
            MoveError::SplitNotTabs => "Split targets must be tab groups",
            MoveError::ColumnGone => "The target column no longer exists",
            MoveError::ColumnNotDocked => "The target column is not docked",
            MoveError::ColumnHidden => "The column is not visible",
            MoveError::BuiltInPanel => "Built-in panels can be hidden, not deleted",
            MoveError::Invalid(e) => e.message(),
        }
    }
}

/// Which part of the workspace carries out a drag.
#[derive(Clone, Copy, Debug, PartialEq, Eq, Structural)]
pub enum MoveRoute {
    /// A toolbar tile moves among toolbars.
    Toolbar,
    /// A collapsed column moves as a unit.
    Column,
    /// Panels or a whole tab group move through the dock trees.
    Panels,
}

/// Whether a floating group's root has identity `group`.
pub open spec fn is_floating_root<S, R>(floating: Seq<DockNode<S, R>>, group: u32) -> bool {
    exists|i: int| 0 <= i < floating.len() && shape_id(#[trigger] floating[i]@) == group
}

/// Tiles and columns have routes of their own; a panel or group may not land
/// inside a toolbar, nor split a floating group, nor float at a position
/// that `position_ok` refuses.
pub open spec fn spec_route_move<S, R, P>(item: DockItem, target: DockTarget<P>, floating: Seq<DockNode<S, R>>, position_ok: spec_fn(P) -> bool) -> Result<MoveRoute, MoveError> {
    match item {
        DockItem::Tile { .. } => Ok(MoveRoute::Toolbar),
        DockItem::Column { .. } => Ok(MoveRoute::Column),
        _ => match target {
            DockTarget::Tile { .. } => Err(MoveError::ToolsOnlyInToolbars),
            DockTarget::TileGroup { .. } => Err(MoveError::ToolsOnlyInToolbars),
            DockTarget::Split { group, .. } => if is_floating_root(floating, group) {
                Err(MoveError::FloatingSplit)
            } else {
                Ok(MoveRoute::Panels)
            },
            DockTarget::Float { position } => if position_ok(position) {
                Ok(MoveRoute::Panels)
            } else {
                Err(MoveError::InvalidPosition)
            },
            _ => Ok(MoveRoute::Panels),
        },
    }
}

/// Whether a floating group's root has identity `group`.
fn is_floating_group<S, R>(floating: &Vec<DockNode<S, R>>, group: u32) -> (r: bool)
    ensures
        r == is_floating_root(floating@, group),
{
    let mut i: usize = 0;
    while i < floating.len()
        invariant
            i <= floating@.len(),
            forall|j: int| 0 <= j < i ==> shape_id(#[trigger] floating@[j]@) != group,
        decreases floating@.len() - i,
    {
        if floating[i].id() == group {
            assert(shape_id(floating@[i as int]@) == group);
            return true;
        }
        i = i + 1;
    }
    false
}

/// The route of a drag of `item` onto `target` (see `spec_route_move`);
/// `floating` holds the roots of the floating groups and `position_ok` is
/// the host's judgement of a floating drop's position.
pub fn route_move<S, R, P, F: Fn(&P) -> bool>(item: DockItem, target: &DockTarget<P>, floating: &Vec<DockNode<S, R>>, position_ok: &F) -> (r: Result<MoveRoute, MoveError>)
    requires
        forall|x: &P| position_ok.requires((x,)),
        forall|x: &P, a: bool, b: bool| position_ok.ensures((x,), a) && position_ok.ensures((x,), b) ==> a == b,
    ensures
        r == spec_route_move(item, *target, floating@, judged(position_ok)),
{
    match item {
        DockItem::Tile { .. } => {
            return Ok(MoveRoute::Toolbar);
        },
        DockItem::Column { .. } => {
            return Ok(MoveRoute::Column);
        },
        _ => {},
    }
    match target {
        DockTarget::Tile { .. } => Err(MoveError::ToolsOnlyInToolbars),
        DockTarget::TileGroup { .. } => Err(MoveError::ToolsOnlyInToolbars),
        DockTarget::Split { group, .. } => if is_floating_group(floating, *group) {
            Err(MoveError::FloatingSplit)
        } else {
            Ok(MoveRoute::Panels)
        },
        DockTarget::Float { position } => {
            let ok = position_ok(position);
            proof {
                assert(judged(position_ok)(*position) == ok) by {
                    if judged(position_ok)(*position) {
                        assert(position_ok.ensures((position,), true));
                    }
                }
            }
            if ok {
                Ok(MoveRoute::Panels)
            } else {
                Err(MoveError::InvalidPosition)
            }
        },
        _ => Ok(MoveRoute::Panels),
    }
}

/// What a panel or group drag takes from its place.
#[derive(Debug)]
pub struct MoveSource {
    /// The panels that move, in tab order.
    pub moving: Vec<Panel>,
    /// The tab shown once they land.
    pub selected: Panel,
    /// The tab group they leave.
    pub group: u32,
    /// Where the first moved tab stands in that group.
    pub index: usize,
    /// How many tabs that group has.
    pub len: usize,
}

/// The tab group holding `panel` in the first root that holds it: its
/// identity and its tabs.
pub open spec fn forest_tab_group<S, R>(roots: Seq<DockShape<S, R>>, panel: Panel) -> Option<(u32, Seq<Panel>)>
    decreases roots.len(),
{
    if roots.len() == 0 {
        None
    } else {
        match spec_tab_group(roots[0], panel) {
            Some(g) => Some(g),
            None => forest_tab_group(roots.drop_first(), panel),
        }
    }
}

proof fn lemma_tab_forest_concat<S, R>(a: Seq<DockShape<S, R>>, b: Seq<DockShape<S, R>>, panel: Panel)
    ensures
        forest_tab_group(a + b, panel) == match forest_tab_group(a, panel) {
            Some(g) => Some(g),
            None => forest_tab_group(b, panel),
        },
    decreases a.len(),
{
    if a.len() == 0 {
        assert(a + b =~= b);
    } else {
        assert((a + b).drop_first() =~= a.drop_first() + b);
        lemma_tab_forest_concat(a.drop_first(), b, panel);
    }
}

/// Whether `found` is the first position of `panel` among the tabs of the
/// group `g` holding it, as `DockNode::find_tab` reports it.
pub open spec fn tab_found(found: Option<(u32, usize, usize)>, group: Option<(u32, Seq<Panel>)>, panel: Panel) -> bool {
    match group {
        Some((g, tabs)) => (found matches Some((id, index, len)) && id == g && len == tabs.len()
            && index < len && tabs[index as int] == panel
            && forall|j: int| 0 <= j < index ==> tabs[j] != panel),
        None => found is None,
    }
}

/// `find_tab` over a list of roots, in order.
fn roots_find_tab<S, R>(roots: &Vec<DockNode<S, R>>, panel: Panel) -> (r: Option<(u32, usize, usize)>)
    ensures
        tab_found(r, forest_tab_group(shapes(roots@), panel), panel),
{
    let mut i: usize = 0;
    assert(shapes(roots@).subrange(0, roots@.len() as int) =~= shapes(roots@));
    while i < roots.len()
        invariant
            i <= roots@.len(),
            forest_tab_group(shapes(roots@), panel) == forest_tab_group(shapes(roots@).subrange(i as int, roots@.len() as int), panel),
        decreases roots@.len() - i,
    {
        let ghost rest = shapes(roots@).subrange(i as int, roots@.len() as int);
        assert(rest[0] == roots@[i as int]@);
        assert(rest.drop_first() =~= shapes(roots@).subrange(i as int + 1, roots@.len() as int));
        match roots[i].find_tab(panel) {
            Some(t) => {
                return Some(t);
            },
            None => {},
        }
        i = i + 1;
    }
    None
}

/// `find_tab` over the bands' trees, then the floating groups.
fn layout_find_tab<S, R, X>(bands: &Vec<DockBand<S, R, X>>, floating: &Vec<DockNode<S, R>>, panel: Panel) -> (r: Option<(u32, usize, usize)>)
    ensures
        tab_found(r, forest_tab_group(band_roots(bands@) + shapes(floating@), panel), panel),
{
    proof {
        lemma_tab_forest_concat(band_roots(bands@), shapes(floating@), panel);
    }
    let mut i: usize = 0;
    assert(band_roots(bands@).subrange(0, bands@.len() as int) =~= band_roots(bands@));
    while i < bands.len()
        invariant
            i <= bands@.len(),
            forest_tab_group(band_roots(bands@), panel) == forest_tab_group(band_roots(bands@).subrange(i as int, bands@.len() as int), panel),
        decreases bands@.len() - i,
    {
        let ghost rest = band_roots(bands@).subrange(i as int, bands@.len() as int);
        assert(rest[0] == bands@[i as int].root@);
        assert(rest.drop_first() =~= band_roots(bands@).subrange(i as int + 1, bands@.len() as int));
        match bands[i].root.find_tab(panel) {
            Some(t) => {
                proof {
                    lemma_tab_forest_concat(band_roots(bands@), shapes(floating@), panel);
                }
                return Some(t);
            },
            None => {},
        }
        i = i + 1;
    }
    assert(band_roots(bands@).subrange(i as int, bands@.len() as int).len() == 0);
    roots_find_tab(floating, panel)
}

/// What a drag of `item` takes with it. A panel leaves the first group
/// holding it (bands first, then floating groups) alone and is shown where
/// it lands; a group takes all its tabs and keeps its active one.
pub fn move_source<S, R, X>(bands: &Vec<DockBand<S, R, X>>, floating: &Vec<DockNode<S, R>>, item: DockItem) -> (r: Result<MoveSource, MoveError>)
    requires
        item is Panel || item is Group,
    ensures
        match item {
            DockItem::Panel { panel } => match forest_tab_group(band_roots(bands@) + shapes(floating@), panel) {
                Some((g, tabs)) => (r matches Ok(s) && s.moving@ == seq![panel] && s.selected == panel
                    && s.group == g && s.len == tabs.len() && s.index < s.len && tabs[s.index as int] == panel
                    && forall|j: int| 0 <= j < s.index ==> tabs[j] != panel),
                None => r == Err::<MoveSource, MoveError>(MoveError::UnknownPanel),
            },
            DockItem::Group { group } => match forest_find(band_roots(bands@) + shapes(floating@), group) {
                Some(DockShape::Tabs { panels, active, .. }) => (r matches Ok(s) && s.moving@ == panels
                    && s.selected == active && s.group == group && s.index == 0 && s.len == panels.len()),
                _ => r == Err::<MoveSource, MoveError>(MoveError::UnknownTabGroup),
            },
            _ => true,
        },
{
    match item {
        DockItem::Panel { panel } => {
            match layout_find_tab(bands, floating, panel) {
                Some((group, index, len)) => {
                    let moving = vec![panel];
                    assert(moving@ =~= seq![panel]);
                    Ok(MoveSource { moving, selected: panel, group, index, len })
                },
                None => Err(MoveError::UnknownPanel),
            }
        },
        DockItem::Group { group } => {
            match layout_node(bands, floating, group) {
                Some(DockNode::Tabs { panels, active, .. }) => {
                    let moving = copy_panels(panels);
                    let len = moving.len();
                    Ok(MoveSource { moving, selected: *active, group, index: 0, len })
                },
                _ => Err(MoveError::UnknownTabGroup),
            }
        },
        _ => Err(MoveError::UnknownPanel),
    }
}

/// The position of the first band with identity `id`.
fn band_position<S, R, X>(bands: &Vec<DockBand<S, R, X>>, id: u32) -> (r: Option<usize>)
    ensures
        match r {
            Some(k) => k < bands@.len() && band_index(band_shapes(bands@), id) == Some(k as int),
            None => band_index(band_shapes(bands@), id) is None,
        },
{
    let ghost all = band_shapes(bands@);
    let mut i: usize = 0;
    while i < bands.len() && bands[i].id != id
        invariant
            i <= bands@.len(),
            all == band_shapes(bands@),
            forall|j: int| 0 <= j < i ==> (#[trigger] all[j]).id != id,
        decreases bands@.len() - i,
    {
        i = i + 1;
    }
    proof {
        lemma_band_index(all, id, i as int);
    }
    if i == bands.len() {
        None
    } else {
        Some(i)
    }
}

/// The edge a drop onto `target` docks at: the edge asked for, the edge of
/// the band beside which it lands, or the edge of the band holding the
/// target group; a floating or toolbar drop has none.
pub open spec fn spec_target_edge<S, R, X, P>(bands: Seq<DockBand<S, R, X>>, floating: Seq<DockNode<S, R>>, target: DockTarget<P>) -> Option<Edge> {
    match target {
        DockTarget::Edge { edge, .. } => Some(edge),
        DockTarget::BesideBand { band } => match band_index(band_shapes(bands), band) {
            Some(i) => Some(bands[i].edge),
            None => None,
        },
        DockTarget::Tab { group, .. } => spec_group_edge(bands, floating, group),
        DockTarget::Split { group, .. } => spec_group_edge(bands, floating, group),
        _ => None,
    }
}

/// The edge a drop onto `target` docks at (see `spec_target_edge`).
pub fn target_edge<S, R, X, P>(bands: &Vec<DockBand<S, R, X>>, floating: &Vec<DockNode<S, R>>, target: &DockTarget<P>) -> (r: Option<Edge>)
    ensures
        r == spec_target_edge(bands@, floating@, *target),
{
    match target {
        DockTarget::Edge { edge, .. } => Some(*edge),
        DockTarget::BesideBand { band } => match band_position(bands, *band) {
            Some(i) => Some(bands[i].edge),
            None => None,
        },
        DockTarget::Tab { group, .. } => group_edge(bands, floating, *group),
        DockTarget::Split { group, .. } => group_edge(bands, floating, *group),
        _ => None,
    }
}

/// Whether the drag moves exactly one standalone toolbar.
pub open spec fn moves_toolbar(source: MoveSource) -> bool {
    source.moving@.len() == 1 && spec_kind(source.selected) == PanelKind::Tiles
}

/// Whether an edge is the top or the bottom of the window.
pub open spec fn is_end(edge: Option<Edge>) -> bool {
    edge == Some(Edge::Top) || edge == Some(Edge::Bottom)
}

/// Refuses a drop at a top or bottom dock unless it brings one standalone
/// toolbar there, beside the others rather than as a tab. `bands` are the
/// bands once the moved panels have left.
pub fn check_target_edge<S, R, X, P>(bands: &Vec<DockBand<S, R, X>>, floating: &Vec<DockNode<S, R>>, target: &DockTarget<P>, source: &MoveSource) -> (r: Result<(), MoveError>)
    ensures
        r is Err <==> is_end(spec_target_edge(bands@, floating@, *target))
            && (!moves_toolbar(*source) || target is Tab),
        r is Err ==> r == Err::<(), MoveError>(MoveError::EdgeToolbarsOnly),
{
    let edge = target_edge(bands, floating, target);
    let end = match edge {
        Some(Edge::Top) | Some(Edge::Bottom) => true,
        _ => false,
    };
    let toolbar = source.moving.len() == 1 && source.selected.kind() == PanelKind::Tiles;
    let to_tab = match target {
        DockTarget::Tab { .. } => true,
        _ => false,
    };
    if end && (!toolbar || to_tab) {
        Err(MoveError::EdgeToolbarsOnly)
    } else {
        Ok(())
    }
}

/// Where a new band for a drop at an edge or beside a band goes: at the
/// edge asked for, first when `outer` and last otherwise, or right after the
/// band beside which it lands, at that band's edge; `None` when that band is
/// gone.
pub fn band_slot<S, R, X, P>(bands: &Vec<DockBand<S, R, X>>, target: &DockTarget<P>) -> (r: Option<(Edge, usize)>)
    requires
        target is Edge || target is BesideBand,
    ensures
        match *target {
            DockTarget::Edge { edge, outer } => r == Some((edge, if outer { 0usize } else { bands@.len() as usize })),
            DockTarget::BesideBand { band } => match band_index(band_shapes(bands@), band) {
                Some(i) => r == Some((bands@[i].edge, (i + 1) as usize)),
                None => r is None,
            },
            _ => true,
        },
{
    match target {
        DockTarget::Edge { edge, outer } => {
            if *outer {
                Some((*edge, 0))
            } else {
                Some((*edge, bands.len()))
            }
        },
        DockTarget::BesideBand { band } => match band_position(bands, *band) {
            Some(i) => {
                let count = bands.len();
                assert(i < count);
                Some((bands[i].edge, i + 1))
            },
            None => None,
        },
        _ => None,
    }
}

/// What a drag that was not refused does.
#[derive(Clone, Copy, Debug, PartialEq, Eq, Structural)]
pub enum MoveDecision {
    /// The item is already where it would land: nothing changes.
    Unchanged,
    /// The item moves.
    Proceed,
}

/// Whether an edge is a side of the window.
pub open spec fn is_side(edge: Edge) -> bool {
    edge == Edge::Left || edge == Edge::Right
}

/// Whether some band `band` docks at a side.
pub open spec fn side_band<S, R, X>(bands: Seq<DockBand<S, R, X>>, band: u32) -> bool {
    exists|i: int| 0 <= i < bands.len() && (#[trigger] bands[i]).id == band && is_side(bands[i].edge)
}

/// Whether some band `band` has the column `column` as its whole tree.
pub open spec fn band_is_column<S, R, X>(bands: Seq<DockBand<S, R, X>>, band: u32, column: u32) -> bool {
    exists|i: int| 0 <= i < bands.len() && (#[trigger] bands[i]).id == band && shape_id(bands[i].root@) == column
}

/// A column moves intact, and only while collapsed: to a side edge, beside
/// a side band, or beside a group docked at a side. Dropped beside the band
/// it fills, or beside one of its own groups, it stays where it is.
pub open spec fn spec_column_move<S, R, X, P>(bands: Seq<DockBand<S, R, X>>, floating: Seq<DockNode<S, R>>, collapsed: Seq<u32>, column: u32, target: DockTarget<P>) -> Result<MoveDecision, MoveError> {
    if !collapsed.contains(column) {
        Err(MoveError::ColumnNotCollapsed)
    } else {
        match forest_find(band_roots(bands) + shapes(floating), column) {
            None => Err(MoveError::UnknownColumn),
            Some(moving) => match target {
                DockTarget::Edge { edge, .. } => if is_side(edge) {
                    Ok(MoveDecision::Proceed)
                } else {
                    Err(MoveError::ColumnTarget)
                },
                DockTarget::BesideBand { band } => if !side_band(bands, band) {
                    Err(MoveError::ColumnTarget)
                } else if band_is_column(bands, band, column) {
                    Ok(MoveDecision::Unchanged)
                } else {
                    Ok(MoveDecision::Proceed)
                },
                DockTarget::Split { group, edge } => if !is_side(edge) || !(spec_group_edge(bands, floating, group) matches Some(e) && is_side(e)) {
                    Err(MoveError::ColumnTarget)
                } else if spec_find(moving, group) is Some {
                    Ok(MoveDecision::Unchanged)
                } else {
                    Ok(MoveDecision::Proceed)
                },
                _ => Err(MoveError::ColumnTarget),
            },
        }
    }
}

/// Screens a drag of column `column` onto `target` (see `spec_column_move`);
/// `collapsed` holds the roots of the collapsed columns.
pub fn check_column_move<S, R, X, P>(bands: &Vec<DockBand<S, R, X>>, floating: &Vec<DockNode<S, R>>, collapsed: &Vec<u32>, column: u32, target: &DockTarget<P>) -> (r: Result<MoveDecision, MoveError>)
    ensures
        r == spec_column_move(bands@, floating@, collapsed@, column, *target),
{
    if !contains_id(collapsed.as_slice(), column) {
        return Err(MoveError::ColumnNotCollapsed);
    }
    let moving = match layout_node(bands, floating, column) {
        Some(n) => n,
        None => {
            return Err(MoveError::UnknownColumn);
        },
    };
    match target {
        DockTarget::Edge { edge, .. } => match edge {
            Edge::Left | Edge::Right => Ok(MoveDecision::Proceed),
            _ => Err(MoveError::ColumnTarget),
        },
        DockTarget::BesideBand { band } => {
            let (side, holds) = band_facts(bands, *band, column);
            if !side {
                Err(MoveError::ColumnTarget)
            } else if holds {
                Ok(MoveDecision::Unchanged)
            } else {
                Ok(MoveDecision::Proceed)
            }
        },
        DockTarget::Split { group, edge } => {
            let side_edge = match edge {
                Edge::Left | Edge::Right => true,
                _ => false,
            };
            let side_group = match group_edge(bands, floating, *group) {
                Some(Edge::Left) | Some(Edge::Right) => true,
                _ => false,
            };
            if !side_edge || !side_group {
                Err(MoveError::ColumnTarget)
            } else if moving.find(*group).is_some() {
                Ok(MoveDecision::Unchanged)
            } else {
                Ok(MoveDecision::Proceed)
            }
        },
        _ => Err(MoveError::ColumnTarget),
    }
}

/// Whether some band `band` docks at a side, and whether some band `band`
/// is the column `column` alone.
fn band_facts<S, R, X>(bands: &Vec<DockBand<S, R, X>>, band: u32, column: u32) -> (r: (bool, bool))
    ensures
        r.0 == side_band(bands@, band),
        r.1 == band_is_column(bands@, band, column),
{
    let mut side = false;
    let mut holds = false;
    let mut i: usize = 0;
    while i < bands.len()
        invariant
            i <= bands@.len(),
            side == exists|j: int| 0 <= j < i && (#[trigger] bands@[j]).id == band && is_side(bands@[j].edge),
            holds == exists|j: int| 0 <= j < i && (#[trigger] bands@[j]).id == band && shape_id(bands@[j].root@) == column,
        decreases bands@.len() - i,
    {
        if bands[i].id == band {
            match bands[i].edge {
                Edge::Left | Edge::Right => {
                    side = true;
                },
                _ => {},
            }
            if bands[i].root.id() == column {
                holds = true;
            }
        }
        i = i + 1;
    }
    (side, holds)
}

/// The column a collapse request for `group` toggles: a collapsed column or
/// a split is its own column; a tab group belongs to its side column.
pub open spec fn spec_collapse_root<S, R, X>(bands: Seq<DockBand<S, R, X>>, floating: Seq<DockNode<S, R>>, collapsed: Seq<u32>, group: u32) -> Option<u32> {
    if collapsed.contains(group) || forest_find(band_roots(bands) + shapes(floating), group) matches Some(DockShape::Split { .. }) {
        Some(group)
    } else {
        spec_column_for_group(bands, floating, group)
    }
}

/// Collapsing (`collapse`) or expanding the column of `group`: the column
/// toggled (see `spec_collapse_root`), `None` when it already is as asked;
/// refused when there is no such column or it is not docked at a side.
pub open spec fn spec_column_toggle<S, R, X>(bands: Seq<DockBand<S, R, X>>, floating: Seq<DockNode<S, R>>, collapsed: Seq<u32>, group: u32, collapse: bool) -> Result<Option<u32>, MoveError> {
    match spec_collapse_root(bands, floating, collapsed, group) {
        None => Err(MoveError::NotCollapsible),
        Some(root) => if collapsed.contains(root) == collapse {
            Ok(None)
        } else if !in_side_band(bands, root) {
            Err(MoveError::NotCollapsible)
        } else {
            Ok(Some(root))
        },
    }
}

/// The column a request to collapse (`collapse`) or expand the column of
/// `group` toggles (see `spec_column_toggle`); `collapsed` holds the roots of
/// the collapsed columns.
pub fn column_toggle<S, R, X>(bands: &Vec<DockBand<S, R, X>>, floating: &Vec<DockNode<S, R>>, collapsed: &Vec<u32>, group: u32, collapse: bool) -> (r: Result<Option<u32>, MoveError>)
    ensures
        r == spec_column_toggle(bands@, floating@, collapsed@, group, collapse),
{
    let own = contains_id(collapsed.as_slice(), group) || match layout_node(bands, floating, group) {
        Some(DockNode::Split { .. }) => true,
        _ => false,
    };
    let root = if own {
        group
    } else {
        match column_for_group(bands, floating, group) {
            Some(c) => c,
            None => {
                return Err(MoveError::NotCollapsible);
            },
        }
    };
    if contains_id(collapsed.as_slice(), root) == collapse {
        return Ok(None);
    }
    if !side_band_holds(bands, root) {
        return Err(MoveError::NotCollapsible);
    }
    Ok(Some(root))
}


/// The collapsed column reached from `n` towards one side (`right`): `n`
/// itself when collapsed, else through the near child of a horizontal split.
pub open spec fn spec_edge_column<S, R>(n: DockShape<S, R>, collapsed: Seq<u32>, right: bool) -> Option<u32>
    decreases n,
{
    if collapsed.contains(shape_id(n)) {
        Some(shape_id(n))
    } else {
        match n {
            DockShape::Split { axis, first, second, .. } => if axis != Axis::Horizontal {
                None
            } else if right {
                spec_edge_column(*second, collapsed, right)
            } else {
                spec_edge_column(*first, collapsed, right)
            },
            _ => None,
        }
    }
}

/// The collapsed columns on the left and on the right of a width divider:
/// a band's outer handle (`band`, after the band unless `reversed`) reaches
/// the band's outermost collapsed column; a split's handle reaches the
/// collapsed columns facing it on either side. Height dividers reach none.
pub open spec fn spec_divider_columns<S, R, X>(bands: Seq<DockBand<S, R, X>>, floating: Seq<DockNode<S, R>>, collapsed: Seq<u32>, axis: Axis, band: bool, id: u32, reversed: bool) -> (Option<u32>, Option<u32>) {
    if axis != Axis::Horizontal {
        (None, None)
    } else if band {
        match band_index(band_shapes(bands), id) {
            Some(i) => {
                let c = spec_edge_column(bands[i].root@, collapsed, !reversed);
                if reversed { (None, c) } else { (c, None) }
            },
            None => (None, None),
        }
    } else {
        match forest_find(band_roots(bands) + shapes(floating), id) {
            Some(DockShape::Split { first, second, .. }) => (
                spec_edge_column(*first, collapsed, true),
                spec_edge_column(*second, collapsed, false),
            ),
            _ => (None, None),
        }
    }
}

impl<S, R> DockNode<S, R> {
    /// The collapsed column reached from this subtree towards one side (see
    /// `spec_edge_column`).
    pub fn edge_column(&self, collapsed: &Vec<u32>, right: bool) -> (r: Option<u32>)
        ensures
            r == spec_edge_column(self@, collapsed@, right),
        decreases self,
    {
        let id = self.id();
        if contains_id(collapsed.as_slice(), id) {
            return Some(id);
        }
        match self {
            DockNode::Split { axis: Axis::Horizontal, first, second, .. } => {
                if right {
                    second.edge_column(collapsed, right)
                } else {
                    first.edge_column(collapsed, right)
                }
            },
            _ => None,
        }
    }
}

/// The collapsed columns on either side of divider `id` (see
/// `spec_divider_columns`); `collapsed` holds the roots of the collapsed
/// columns.
pub fn divider_columns<S, R, X>(bands: &Vec<DockBand<S, R, X>>, floating: &Vec<DockNode<S, R>>, collapsed: &Vec<u32>, axis: Axis, band: bool, id: u32, reversed: bool) -> (r: (Option<u32>, Option<u32>))
    ensures
        r == spec_divider_columns(bands@, floating@, collapsed@, axis, band, id, reversed),
{
    match axis {
        Axis::Horizontal => {},
        _ => {
            return (None, None);
        },
    }
    if band {
        match band_position(bands, id) {
            Some(i) => {
                let c = bands[i].root.edge_column(collapsed, !reversed);
                if reversed { (None, c) } else { (c, None) }
            },
            None => (None, None),
        }
    } else {
        match layout_node(bands, floating, id) {
            Some(DockNode::Split { first, second, .. }) => (
                first.edge_column(collapsed, true),
                second.edge_column(collapsed, false),
            ),
            _ => (None, None),
        }
    }
}

proof fn lemma_tab_group_is_group<S, R>(n: DockShape<S, R>, panel: Panel)
    ensures
        match spec_tab_group(n, panel) {
            Some((g, tabs)) => (spec_group_for(n, panel) matches Some((h, _)) && h == g && tabs.contains(panel)),
            None => spec_group_for(n, panel) is None,
        },
    decreases n,
{
    match n {
        DockShape::Split { first, second, .. } => {
            lemma_tab_group_is_group(*first, panel);
            lemma_tab_group_is_group(*second, panel);
        },
        _ => {},
    }
}

/// The group a panel drag leaves is the group the workspace reports as
/// holding the panel, and the panel is one of its tabs.
pub proof fn lemma_source_is_panel_group<S, R>(roots: Seq<DockShape<S, R>>, panel: Panel)
    ensures
        match forest_tab_group(roots, panel) {
            Some((g, tabs)) => (forest_group_for(roots, panel) matches Some((h, _)) && h == g && tabs.contains(panel)),
            None => forest_group_for(roots, panel) is None,
        },
    decreases roots.len(),
{
    if roots.len() > 0 {
        lemma_tab_group_is_group(roots[0], panel);
        lemma_source_is_panel_group(roots.drop_first(), panel);
    }
}

/// Docks a shown panel in a band of its own at its default edge (see
/// `Panel::default_edge`), after every other band, as a single tab group
/// with the host's `tab_style` and band `extent`. The group takes identity
/// `next_id` and the band the one after; returns the identity allocator
/// that follows. Refused, changing nothing, when identities run out.
pub fn dock_shown_panel<S, R, X>(bands: &mut Vec<DockBand<S, R, X>>, next_id: u32, panel: Panel, tab_style: S, extent: X) -> (r: Result<u32, MoveError>)
    ensures
        next_id as int + 2 <= u32::MAX ==> r == Ok::<u32, MoveError>((next_id + 2) as u32)
            && band_shapes(final(bands)@) == band_shapes(old(bands)@).push(BandShape {
                id: (next_id + 1) as u32,
                edge: spec_default_edge(panel),
                extent,
                root: DockShape::Tabs { id: next_id, panels: seq![panel], active: panel, tab_style },
            }),
        next_id as int + 2 > u32::MAX ==> r == Err::<u32, MoveError>(MoveError::IdsExhausted) && final(bands)@ == old(bands)@,
{
    if next_id >= u32::MAX - 1 {
        return Err(MoveError::IdsExhausted);
    }
    let group = next_id;
    let band = next_id + 1;
    let tabs = vec![panel];
    let root: DockNode<S, R> = DockNode::Tabs { id: group, panels: tabs, active: panel, tab_style };
    let ghost before = bands@;
    bands.push(DockBand { id: band, edge: panel.default_edge(), extent, root });
    proof {
        assert(tabs@ =~= seq![panel]);
        assert(band_shapes(bands@) =~= band_shapes(before).push(band_shape(bands@.last())));
    }
    Ok(next_id + 2)
}

} // verus!
