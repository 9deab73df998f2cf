use layer_ui::dock::{panel_group, DockBand, DockNode};
use layer_ui::moves::{
    band_slot, check_column_move, column_toggle, divider_columns, dock_shown_panel, check_target_edge, move_source, route_move, target_edge,
    DockTarget, MoveDecision, MoveError, MoveRoute, MoveSource,
};
use layer_ui::panel::{Axis, DockItem, Edge, Panel};

type Node = DockNode<(), u32>;
type Band = DockBand<(), u32, u32>;
type Target = DockTarget<(i32, i32)>;

fn tabs(id: u32, panels: &[Panel], active: Panel) -> Node {
    DockNode::Tabs { id, panels: panels.to_vec(), active, tab_style: () }
}

fn split(id: u32, axis: Axis, first: Node, second: Node) -> Node {
    DockNode::Split { id, axis, fraction: 50, first: Box::new(first), second: Box::new(second) }
}

fn on_screen(p: &(i32, i32)) -> bool {
    p.0 >= 0 && p.1 >= 0
}

fn band(id: u32, edge: Edge, root: Node) -> Band {
    DockBand { id, edge, extent: 0, root }
}

/// A left sidebar whose column (node 3) stacks two groups, a toolbar band at
/// the top, and one floating group.
fn workspace() -> (Vec<Band>, Vec<Node>) {
    let left = split(
        2,
        Axis::Horizontal,
        split(3, Axis::Vertical, tabs(4, &[Panel::Layers, Panel::Properties], Panel::Properties), tabs(5, &[Panel::Color], Panel::Color)),
        tabs(6, &[Panel::Navigator], Panel::Navigator),
    );
    let bands = vec![band(1, Edge::Left, left), band(7, Edge::Top, tabs(8, &[Panel::Toolbar], Panel::Toolbar)), band(9, Edge::Right, tabs(11, &[Panel::Stats], Panel::Stats))];
    let floating = vec![tabs(10, &[Panel::Adjustments, Panel::Brushes], Panel::Brushes)];
    (bands, floating)
}

#[test]
fn drags_are_routed_by_what_moves() {
    let (_, floating) = workspace();
    let edge: Target = DockTarget::Edge { edge: Edge::Left, outer: false };
    assert_eq!(route_move(DockItem::Tile { panel: Panel::Toolbar, tile: 3 }, &edge, &floating, &on_screen), Ok(MoveRoute::Toolbar));
    assert_eq!(route_move(DockItem::Column { column: 3 }, &edge, &floating, &on_screen), Ok(MoveRoute::Column));
    assert_eq!(route_move(DockItem::Panel { panel: Panel::Layers }, &edge, &floating, &on_screen), Ok(MoveRoute::Panels));
    let float: Target = DockTarget::Float { position: (4, 5) };
    assert_eq!(route_move(DockItem::Group { group: 4 }, &float, &floating, &on_screen), Ok(MoveRoute::Panels));
}

#[test]
fn panels_never_land_in_toolbars_or_split_floating_groups() {
    let (_, floating) = workspace();
    let tile: Target = DockTarget::Tile { panel: Panel::Toolbar, before: None };
    let group: Target = DockTarget::TileGroup { panel: Panel::Toolbar, divider: 2 };
    let item = DockItem::Panel { panel: Panel::Layers };
    assert_eq!(route_move(item, &tile, &floating, &on_screen), Err(MoveError::ToolsOnlyInToolbars));
    assert_eq!(route_move(item, &group, &floating, &on_screen), Err(MoveError::ToolsOnlyInToolbars));
    let split_float: Target = DockTarget::Split { group: 10, edge: Edge::Left };
    assert_eq!(route_move(item, &split_float, &floating, &on_screen), Err(MoveError::FloatingSplit));
    let split_docked: Target = DockTarget::Split { group: 5, edge: Edge::Left };
    assert_eq!(route_move(item, &split_docked, &floating, &on_screen), Ok(MoveRoute::Panels));
    let tab_float: Target = DockTarget::Tab { group: 10, index: None };
    assert_eq!(route_move(item, &tab_float, &floating, &on_screen), Ok(MoveRoute::Panels));
    let off_screen: Target = DockTarget::Float { position: (-1, 5) };
    assert_eq!(route_move(item, &off_screen, &floating, &on_screen), Err(MoveError::InvalidPosition));
    let tile_item = DockItem::Tile { panel: Panel::Toolbar, tile: 1 };
    assert_eq!(route_move(tile_item, &off_screen, &floating, &on_screen), Ok(MoveRoute::Toolbar));
    assert_eq!(MoveError::InvalidPosition.message(), "Invalid floating panel position");
    assert_eq!(MoveError::FloatingSplit.message(), "Floating groups accept tabs, not docking splits");
    assert_eq!(MoveError::ToolsOnlyInToolbars.message(), "Only tools can be dropped inside a toolbar");
}

#[test]
fn a_dragged_panel_leaves_its_group_alone() {
    let (bands, floating) = workspace();
    let s: MoveSource = move_source(&bands, &floating, DockItem::Panel { panel: Panel::Properties }).unwrap();
    assert_eq!(s.moving, vec![Panel::Properties]);
    assert_eq!(s.selected, Panel::Properties);
    assert_eq!((s.group, s.index, s.len), (4, 1, 2));
    let f = move_source(&bands, &floating, DockItem::Panel { panel: Panel::Adjustments }).unwrap();
    assert_eq!((f.group, f.index, f.len), (10, 0, 2));
    assert_eq!(move_source(&bands, &floating, DockItem::Panel { panel: Panel::Sizes }).unwrap_err(), MoveError::UnknownPanel);
}

#[test]
fn a_dragged_group_takes_every_tab_and_keeps_its_choice() {
    let (bands, floating) = workspace();
    let s = move_source(&bands, &floating, DockItem::Group { group: 4 }).unwrap();
    assert_eq!(s.moving, vec![Panel::Layers, Panel::Properties]);
    assert_eq!(s.selected, Panel::Properties);
    assert_eq!((s.group, s.index, s.len), (4, 0, 2));
    let f = move_source(&bands, &floating, DockItem::Group { group: 10 }).unwrap();
    assert_eq!(f.moving, vec![Panel::Adjustments, Panel::Brushes]);
    assert_eq!(move_source(&bands, &floating, DockItem::Group { group: 2 }).unwrap_err(), MoveError::UnknownTabGroup);
    assert_eq!(move_source(&bands, &floating, DockItem::Group { group: 99 }).unwrap_err(), MoveError::UnknownTabGroup);
}

#[test]
fn drops_dock_at_the_edge_of_their_target() {
    let (bands, floating) = workspace();
    let t: Target = DockTarget::Edge { edge: Edge::Bottom, outer: true };
    assert_eq!(target_edge(&bands, &floating, &t), Some(Edge::Bottom));
    let t: Target = DockTarget::BesideBand { band: 7 };
    assert_eq!(target_edge(&bands, &floating, &t), Some(Edge::Top));
    let t: Target = DockTarget::Tab { group: 5, index: Some(0) };
    assert_eq!(target_edge(&bands, &floating, &t), Some(Edge::Left));
    let t: Target = DockTarget::Split { group: 8, edge: Edge::Left };
    assert_eq!(target_edge(&bands, &floating, &t), Some(Edge::Top));
    let t: Target = DockTarget::Tab { group: 10, index: None };
    assert_eq!(target_edge(&bands, &floating, &t), None);
    let t: Target = DockTarget::Float { position: (0, 0) };
    assert_eq!(target_edge(&bands, &floating, &t), None);
    let t: Target = DockTarget::BesideBand { band: 42 };
    assert_eq!(target_edge(&bands, &floating, &t), None);
}

#[test]
fn top_and_bottom_docks_take_standalone_toolbars_only() {
    let (bands, floating) = workspace();
    let toolbar = move_source(&bands, &floating, DockItem::Panel { panel: Panel::Toolbar }).unwrap();
    let layers = move_source(&bands, &floating, DockItem::Panel { panel: Panel::Layers }).unwrap();
    let beside_top: Target = DockTarget::BesideBand { band: 7 };
    assert_eq!(check_target_edge(&bands, &floating, &beside_top, &toolbar), Ok(()));
    assert_eq!(check_target_edge(&bands, &floating, &beside_top, &layers), Err(MoveError::EdgeToolbarsOnly));
    let top_tab: Target = DockTarget::Tab { group: 8, index: None };
    assert_eq!(check_target_edge(&bands, &floating, &top_tab, &toolbar), Err(MoveError::EdgeToolbarsOnly));
    let bottom: Target = DockTarget::Edge { edge: Edge::Bottom, outer: false };
    assert_eq!(check_target_edge(&bands, &floating, &bottom, &toolbar), Ok(()));
    let left: Target = DockTarget::Edge { edge: Edge::Left, outer: false };
    assert_eq!(check_target_edge(&bands, &floating, &left, &layers), Ok(()));
    let group = move_source(&bands, &floating, DockItem::Group { group: 4 }).unwrap();
    assert_eq!(check_target_edge(&bands, &floating, &bottom, &group), Err(MoveError::EdgeToolbarsOnly));
    assert_eq!(MoveError::EdgeToolbarsOnly.message(), "Top and bottom docks only support standalone toolbars");
}

#[test]
fn new_bands_go_first_last_or_beside_their_neighbour() {
    let (bands, _) = workspace();
    let outer: Target = DockTarget::Edge { edge: Edge::Right, outer: true };
    assert_eq!(band_slot(&bands, &outer), Some((Edge::Right, 0)));
    let inner: Target = DockTarget::Edge { edge: Edge::Right, outer: false };
    assert_eq!(band_slot(&bands, &inner), Some((Edge::Right, 3)));
    let beside: Target = DockTarget::BesideBand { band: 7 };
    assert_eq!(band_slot(&bands, &beside), Some((Edge::Top, 2)));
    let gone: Target = DockTarget::BesideBand { band: 42 };
    assert_eq!(band_slot(&bands, &gone), None);
}

#[test]
fn only_collapsed_known_columns_move() {
    let (bands, floating) = workspace();
    let left: Target = DockTarget::Edge { edge: Edge::Left, outer: false };
    assert_eq!(check_column_move(&bands, &floating, &vec![], 3, &left), Err(MoveError::ColumnNotCollapsed));
    assert_eq!(check_column_move(&bands, &floating, &vec![77], 77, &left), Err(MoveError::UnknownColumn));
    assert_eq!(check_column_move(&bands, &floating, &vec![3], 3, &left), Ok(MoveDecision::Proceed));
    assert_eq!(MoveError::ColumnNotCollapsed.message(), "Only collapsed columns move as a unit");
    assert_eq!(MoveError::UnknownColumn.message(), "Unknown column");
}

#[test]
fn columns_dock_at_sides_and_stay_put_beside_themselves() {
    let (bands, floating) = workspace();
    let collapsed = vec![3, 2];
    let top: Target = DockTarget::Edge { edge: Edge::Top, outer: false };
    assert_eq!(check_column_move(&bands, &floating, &collapsed, 3, &top), Err(MoveError::ColumnTarget));
    let beside_top: Target = DockTarget::BesideBand { band: 7 };
    assert_eq!(check_column_move(&bands, &floating, &collapsed, 3, &beside_top), Err(MoveError::ColumnTarget));
    let beside_right: Target = DockTarget::BesideBand { band: 9 };
    assert_eq!(check_column_move(&bands, &floating, &collapsed, 3, &beside_right), Ok(MoveDecision::Proceed));
    let beside_left: Target = DockTarget::BesideBand { band: 1 };
    assert_eq!(check_column_move(&bands, &floating, &collapsed, 2, &beside_left), Ok(MoveDecision::Unchanged));
    let into_self: Target = DockTarget::Split { group: 5, edge: Edge::Right };
    assert_eq!(check_column_move(&bands, &floating, &collapsed, 3, &into_self), Ok(MoveDecision::Unchanged));
    let beside_nav: Target = DockTarget::Split { group: 6, edge: Edge::Left };
    assert_eq!(check_column_move(&bands, &floating, &collapsed, 3, &beside_nav), Ok(MoveDecision::Proceed));
    let above_nav: Target = DockTarget::Split { group: 6, edge: Edge::Top };
    assert_eq!(check_column_move(&bands, &floating, &collapsed, 3, &above_nav), Err(MoveError::ColumnTarget));
    let toolbar: Target = DockTarget::Split { group: 8, edge: Edge::Left };
    assert_eq!(check_column_move(&bands, &floating, &collapsed, 3, &toolbar), Err(MoveError::ColumnTarget));
    let tab: Target = DockTarget::Tab { group: 6, index: None };
    assert_eq!(check_column_move(&bands, &floating, &collapsed, 3, &tab), Err(MoveError::ColumnTarget));
    assert_eq!(MoveError::ColumnTarget.message(), "Columns dock at side edges or beside other columns");
}

#[test]
fn collapsing_toggles_the_side_column_of_a_group() {
    let (bands, floating) = workspace();
    assert_eq!(column_toggle(&bands, &floating, &vec![], 4, true), Ok(Some(3)));
    assert_eq!(column_toggle(&bands, &floating, &vec![], 6, true), Ok(Some(6)));
    assert_eq!(column_toggle(&bands, &floating, &vec![3], 4, true), Ok(None));
    assert_eq!(column_toggle(&bands, &floating, &vec![3], 3, false), Ok(Some(3)));
    assert_eq!(column_toggle(&bands, &floating, &vec![], 3, false), Ok(None));
    assert_eq!(column_toggle(&bands, &floating, &vec![], 2, true), Ok(Some(2)));
    assert_eq!(column_toggle(&bands, &floating, &vec![], 8, true), Err(MoveError::NotCollapsible));
    assert_eq!(column_toggle(&bands, &floating, &vec![], 10, true), Err(MoveError::NotCollapsible));
    assert_eq!(column_toggle(&bands, &floating, &vec![8], 8, false), Err(MoveError::NotCollapsible));
    assert_eq!(MoveError::NotCollapsible.message(), "This group has no collapsible column");
}

#[test]
fn width_dividers_reach_the_collapsed_columns_facing_them() {
    let (bands, floating) = workspace();
    let h = Axis::Horizontal;
    assert_eq!(divider_columns(&bands, &floating, &vec![6], h, true, 1, false), (Some(6), None));
    assert_eq!(divider_columns(&bands, &floating, &vec![6], h, true, 1, true), (None, None));
    assert_eq!(divider_columns(&bands, &floating, &vec![3], h, true, 1, true), (None, Some(3)));
    assert_eq!(divider_columns(&bands, &floating, &vec![2], h, true, 1, false), (Some(2), None));
    assert_eq!(divider_columns(&bands, &floating, &vec![3, 6], h, false, 2, false), (Some(3), Some(6)));
    assert_eq!(divider_columns(&bands, &floating, &vec![3], h, false, 2, false), (Some(3), None));
    assert_eq!(divider_columns(&bands, &floating, &vec![4], h, false, 3, false), (Some(4), None));
    assert_eq!(divider_columns(&bands, &floating, &vec![3, 6], h, false, 4, false), (None, None));
    assert_eq!(divider_columns(&bands, &floating, &vec![3, 6], Axis::Vertical, false, 2, false), (None, None));
    assert_eq!(divider_columns(&bands, &floating, &vec![6], h, true, 42, false), (None, None));
    assert_eq!(bands[0].root.edge_column(&vec![6], true), Some(6));
}

/// The initial workspace: a left column (node 4) stacking the tool set over
/// the sizes, the layers group on the right and the tools strip on top.
fn initial() -> (Vec<Band>, Vec<Node>) {
    let left = split(4, Axis::Vertical, tabs(5, &[Panel::Brushes], Panel::Brushes), tabs(6, &[Panel::Sizes], Panel::Sizes));
    let right = tabs(8, &[Panel::Layers, Panel::Adjustments, Panel::Properties], Panel::Layers);
    (vec![band(3, Edge::Left, left), band(7, Edge::Right, right), band(1, Edge::Top, tabs(2, &[Panel::Toolbar], Panel::Toolbar))], vec![])
}

#[test]
fn the_initial_left_column_collapses_and_moves_whole() {
    let (bands, floating) = initial();
    assert_eq!(column_toggle(&bands, &floating, &vec![], 5, true), Ok(Some(4)));
    assert_eq!(column_toggle(&bands, &floating, &vec![4], 4, false), Ok(Some(4)));
    assert_eq!(column_toggle(&bands, &floating, &vec![], 2, true), Err(MoveError::NotCollapsible));
    let collapsed = vec![4];
    let accepted: [Target; 5] = [
        DockTarget::Edge { edge: Edge::Right, outer: true },
        DockTarget::BesideBand { band: 7 },
        DockTarget::Split { group: 8, edge: Edge::Left },
        DockTarget::Split { group: 8, edge: Edge::Right },
        DockTarget::Edge { edge: Edge::Left, outer: true },
    ];
    for target in &accepted {
        assert_eq!(check_column_move(&bands, &floating, &collapsed, 4, target), Ok(MoveDecision::Proceed), "{target:?}");
    }
    let refused: [Target; 4] = [
        DockTarget::Float { position: (600, 400) },
        DockTarget::Tab { group: 8, index: None },
        DockTarget::Edge { edge: Edge::Top, outer: true },
        DockTarget::Split { group: 8, edge: Edge::Bottom },
    ];
    for target in &refused {
        assert_eq!(check_column_move(&bands, &floating, &collapsed, 4, target), Err(MoveError::ColumnTarget), "{target:?}");
    }
    let beside_itself: Target = DockTarget::BesideBand { band: 3 };
    assert_eq!(check_column_move(&bands, &floating, &collapsed, 4, &beside_itself), Ok(MoveDecision::Unchanged));
}

#[test]
fn a_panel_drag_leaves_the_group_reported_for_the_panel() {
    let (bands, floating) = workspace();
    let (b, f) = workspace();
    let roots: Vec<Node> = b.into_iter().map(|band| band.root).chain(f).collect();
    for panel in [Panel::Layers, Panel::Properties, Panel::Color, Panel::Navigator, Panel::Toolbar, Panel::Stats, Panel::Brushes, Panel::Sizes] {
        let source = move_source(&bands, &floating, DockItem::Panel { panel }).ok().map(|s| s.group);
        assert_eq!(source, panel_group(&roots, panel), "{panel:?}");
    }
}

#[test]
fn shown_panels_dock_alone_at_their_default_edge() {
    let (mut bands, _) = initial();
    assert_eq!(dock_shown_panel(&mut bands, 9, Panel::Navigator, (), 232), Ok(11));
    let b = bands.last().unwrap();
    assert_eq!((b.id, b.edge, b.extent), (10, Edge::Right, 232));
    match &b.root {
        DockNode::Tabs { id, panels, active, .. } => assert_eq!((*id, panels.clone(), *active), (9, vec![Panel::Navigator], Panel::Navigator)),
        DockNode::Split { .. } => panic!("a shown panel docks as one tab group"),
    }
    assert_eq!(dock_shown_panel(&mut bands, 11, Panel::Color, (), 232), Ok(13));
    assert_eq!(bands.last().unwrap().edge, Edge::Left);
    assert_eq!(dock_shown_panel(&mut bands, 13, Panel::CustomToolbar(4), (), 40), Ok(15));
    assert_eq!(bands.last().unwrap().edge, Edge::Top);
    assert_eq!(bands.len(), 6);
    assert_eq!(dock_shown_panel(&mut bands, u32::MAX - 1, Panel::Stats, (), 232), Err(MoveError::IdsExhausted));
    assert_eq!(dock_shown_panel(&mut bands, u32::MAX, Panel::Stats, (), 232), Err(MoveError::IdsExhausted));
    assert_eq!(bands.len(), 6);
    assert_eq!(dock_shown_panel(&mut bands, u32::MAX - 2, Panel::Stats, (), 232), Ok(u32::MAX));
    assert_eq!(MoveError::IdsExhausted.message(), "Workspace ID space exhausted");
}
