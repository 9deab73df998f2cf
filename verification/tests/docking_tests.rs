use layer_ui::dock::{DockBand, DockNode};
use layer_ui::docking::{add_panel_to_group, check_layout, delete_toolbar, drag_item, move_column, move_item, set_column_collapsed, set_panel_visible, ColumnSizes, DockLayout, DragError, MoveSizes};
use layer_ui::moves::{DockTarget, MoveError};
use layer_ui::panel::{Axis, DockItem, Edge, Panel};
use layer_ui::workspace::{CollapsedColumn, FloatingGroup};

type Node = DockNode<u8, u32>;
type Layout = DockLayout<u8, u32, u32, (i32, i32), u32>;
type Target = DockTarget<(i32, i32)>;

fn tabs(id: u32, panels: &[Panel], style: u8) -> Node {
    DockNode::Tabs { id, panels: panels.to_vec(), active: panels[0], tab_style: style }
}

fn split(id: u32, axis: Axis, first: Node, second: Node) -> Node {
    DockNode::Split { id, axis, fraction: 50, first: Box::new(first), second: Box::new(second) }
}

/// A left column stacking the tool set over the sizes, the layers group on
/// the right, the tools strip on top and one floating navigator.
fn initial() -> Layout {
    DockLayout {
        bands: vec![
            DockBand { id: 3, edge: Edge::Left, extent: 232, root: split(4, Axis::Vertical, tabs(5, &[Panel::Brushes], 1), tabs(6, &[Panel::Sizes], 1)) },
            DockBand { id: 7, edge: Edge::Right, extent: 232, root: tabs(8, &[Panel::Layers, Panel::Adjustments, Panel::Properties], 2) },
            DockBand { id: 1, edge: Edge::Top, extent: 40, root: tabs(2, &[Panel::Toolbar], 0) },
        ],
        floating: vec![FloatingGroup { root: tabs(20, &[Panel::Navigator], 3), geometry: (500, 300) }],
        collapsed: vec![CollapsedColumn { root: 4, expanded_width: 232 }],
        fit_tab_groups: vec![5],
        next_id: 21,
    }
}

fn sizes() -> MoveSizes<u8, u32, u32, (i32, i32)> {
    MoveSizes { tab_style: 9, fraction: 30, extent: 250, floating: (100, 100), lone_toolbar: (7, 7) }
}

fn on_screen(p: &(i32, i32)) -> bool {
    p.0 >= 0 && p.1 >= 0
}

fn wider(a: &u32, b: &u32) -> bool {
    a > b
}

fn ratio_ok(r: &u32) -> bool {
    *r > 0 && *r < 100
}

fn extent_ok(x: &u32) -> bool {
    *x > 0
}

fn geometry_ok(_: &(i32, i32)) -> bool {
    true
}

fn width_ok(w: &u32) -> bool {
    *w > 0
}

fn group(n: &Node) -> (u32, Vec<Panel>, Panel, u8) {
    match n {
        DockNode::Tabs { id, panels, active, tab_style } => (*id, panels.clone(), *active, *tab_style),
        DockNode::Split { .. } => panic!("a tab group was expected"),
    }
}

fn shape(layout: &Layout) -> String {
    fn tree(n: &Node) -> String {
        match n {
            DockNode::Tabs { id, panels, active, tab_style } => format!("{id}{panels:?}@{active:?}/{tab_style}"),
            DockNode::Split { id, axis, fraction, first, second } => format!("{id}{axis:?}{fraction}({},{})", tree(first), tree(second)),
        }
    }
    let bands: Vec<String> = layout.bands.iter().map(|b| format!("{}:{:?}:{}:{}", b.id, b.edge, b.extent, tree(&b.root))).collect();
    let floating: Vec<String> = layout.floating.iter().map(|f| format!("{}:{:?}", tree(&f.root), f.geometry)).collect();
    let collapsed: Vec<(u32, u32)> = layout.collapsed.iter().map(|c| (c.root, c.expanded_width)).collect();
    format!("{bands:?} {floating:?} {collapsed:?} {:?} {}", layout.fit_tab_groups, layout.next_id)
}

fn run(layout: &mut Layout, item: DockItem, target: Target) -> Result<(), MoveError> {
    move_item(layout, item, target, sizes(), &on_screen, &wider, &ratio_ok, &extent_ok, &geometry_ok, &width_ok)
}

#[test]
fn a_panel_moved_to_an_edge_forms_a_new_group_in_a_new_band() {
    let mut layout = initial();
    run(&mut layout, DockItem::Panel { panel: Panel::Properties }, DockTarget::Edge { edge: Edge::Left, outer: true }).unwrap();
    assert_eq!(layout.bands.len(), 4);
    assert_eq!((layout.bands[0].id, layout.bands[0].edge, layout.bands[0].extent), (22, Edge::Left, 250));
    assert_eq!(group(&layout.bands[0].root), (21, vec![Panel::Properties], Panel::Properties, 9));
    assert_eq!(group(&layout.bands[2].root), (8, vec![Panel::Layers, Panel::Adjustments], Panel::Layers, 2));
    assert_eq!(layout.next_id, 23);
}

#[test]
fn a_whole_group_floats_with_its_identity_tabs_and_style() {
    let mut layout = initial();
    run(&mut layout, DockItem::Group { group: 8 }, DockTarget::Float { position: (10, 10) }).unwrap();
    assert_eq!(layout.bands.len(), 2, "the emptied band disappears");
    assert_eq!(layout.floating.len(), 2);
    assert_eq!(group(&layout.floating[1].root), (8, vec![Panel::Layers, Panel::Adjustments, Panel::Properties], Panel::Layers, 2));
    assert_eq!(layout.floating[1].geometry, (100, 100));
    assert_eq!(layout.next_id, 21);
}

#[test]
fn a_fitted_group_stays_fitted_and_its_column_follows_the_survivor() {
    let mut layout = initial();
    run(&mut layout, DockItem::Group { group: 5 }, DockTarget::BesideBand { band: 7 }).unwrap();
    assert_eq!(group(&layout.bands[0].root), (6, vec![Panel::Sizes], Panel::Sizes, 1));
    assert_eq!(layout.collapsed[0].root, 6);
    assert_eq!((layout.bands[2].id, layout.bands[2].edge), (21, Edge::Right));
    assert_eq!(group(&layout.bands[2].root), (5, vec![Panel::Brushes], Panel::Brushes, 1));
    assert_eq!(layout.fit_tab_groups, vec![5]);
}

#[test]
fn tabs_join_a_group_at_their_slot_and_show() {
    let mut layout = initial();
    run(&mut layout, DockItem::Panel { panel: Panel::Navigator }, DockTarget::Tab { group: 8, index: Some(1) }).unwrap();
    assert_eq!(group(&layout.bands[1].root), (8, vec![Panel::Layers, Panel::Navigator, Panel::Adjustments, Panel::Properties], Panel::Navigator, 2));
    assert!(layout.floating.is_empty());
    assert_eq!(layout.fit_tab_groups, vec![5, 8]);
    let before = shape(&layout);
    run(&mut layout, DockItem::Panel { panel: Panel::Navigator }, DockTarget::Tab { group: 8, index: Some(2) }).unwrap();
    assert_eq!(shape(&layout), before, "dropping a tab next to itself changes nothing");
}

#[test]
fn splits_stack_inside_a_collapsed_column_under_a_new_root() {
    let mut layout = initial();
    layout.collapsed = vec![CollapsedColumn { root: 6, expanded_width: 120 }];
    run(&mut layout, DockItem::Panel { panel: Panel::Properties }, DockTarget::Split { group: 6, edge: Edge::Bottom }).unwrap();
    let DockNode::Split { second: column, .. } = &layout.bands[0].root else { panic!("the left column was expected") };
    match &**column {
        DockNode::Split { id, axis, fraction, first, second } => {
            assert_eq!((*id, *axis, *fraction), (22, Axis::Vertical, 30));
            assert_eq!(first.id(), 6);
            assert_eq!(group(second), (21, vec![Panel::Properties], Panel::Properties, 9));
        }
        DockNode::Tabs { .. } => panic!("a split was expected"),
    }
    assert_eq!((layout.collapsed[0].root, layout.collapsed[0].expanded_width), (22, 120));
    assert_eq!(layout.next_id, 23);
    let mut wide = initial();
    wide.collapsed = vec![CollapsedColumn { root: 6, expanded_width: 120 }];
    run(&mut wide, DockItem::Panel { panel: Panel::Properties }, DockTarget::Split { group: 6, edge: Edge::Right }).unwrap();
    assert_eq!(wide.collapsed[0].root, 6, "a side-by-side split starts a column of its own");
}

#[test]
fn refused_moves_leave_the_workspace_untouched() {
    let mut layout = initial();
    let before = shape(&layout);
    let refused: Vec<(DockItem, Target, MoveError)> = vec![
        (DockItem::Panel { panel: Panel::Layers }, DockTarget::Tile { panel: Panel::Toolbar, before: None }, MoveError::ToolsOnlyInToolbars),
        (DockItem::Panel { panel: Panel::Layers }, DockTarget::Split { group: 20, edge: Edge::Left }, MoveError::FloatingSplit),
        (DockItem::Panel { panel: Panel::Layers }, DockTarget::Float { position: (-1, 0) }, MoveError::InvalidPosition),
        (DockItem::Panel { panel: Panel::Color }, DockTarget::Edge { edge: Edge::Left, outer: false }, MoveError::UnknownPanel),
        (DockItem::Group { group: 4 }, DockTarget::Edge { edge: Edge::Left, outer: false }, MoveError::UnknownTabGroup),
        (DockItem::Panel { panel: Panel::Layers }, DockTarget::Tab { group: 2, index: None }, MoveError::EdgeToolbarsOnly),
        (DockItem::Panel { panel: Panel::Layers }, DockTarget::BesideBand { band: 1 }, MoveError::EdgeToolbarsOnly),
        (DockItem::Panel { panel: Panel::Layers }, DockTarget::BesideBand { band: 99 }, MoveError::SidebarGone),
        (DockItem::Panel { panel: Panel::Layers }, DockTarget::Tab { group: 99, index: None }, MoveError::TabTargetGone),
        (DockItem::Panel { panel: Panel::Layers }, DockTarget::Split { group: 99, edge: Edge::Left }, MoveError::SplitTargetGone),
        (DockItem::Panel { panel: Panel::Layers }, DockTarget::Split { group: 4, edge: Edge::Left }, MoveError::SplitNotTabs),
        (DockItem::Group { group: 5 }, DockTarget::Split { group: 5, edge: Edge::Left }, MoveError::SplitTargetGone),
    ];
    for (item, target, error) in refused {
        assert_eq!(run(&mut layout, item, target.clone()), Err(error), "{item:?} {target:?}");
        assert_eq!(shape(&layout), before, "{item:?} {target:?}");
    }
    layout.next_id = u32::MAX;
    assert_eq!(run(&mut layout, DockItem::Panel { panel: Panel::Properties }, DockTarget::Float { position: (1, 1) }), Err(MoveError::IdsExhausted));
    assert_eq!(run(&mut layout, DockItem::Group { group: 8 }, DockTarget::Edge { edge: Edge::Left, outer: false }), Err(MoveError::IdsExhausted));
    assert_eq!(MoveError::SidebarGone.message(), "The target sidebar no longer exists");
    assert_eq!(MoveError::TabTargetGone.message(), "The tab target no longer exists");
    assert_eq!(MoveError::SplitTargetGone.message(), "The split target no longer exists");
    assert_eq!(MoveError::SplitNotTabs.message(), "Split targets must be tab groups");
}

#[test]
fn a_floating_group_left_with_one_toolbar_takes_the_toolbar_geometry() {
    let mut layout = initial();
    layout.floating.push(FloatingGroup { root: tabs(30, &[Panel::Commands, Panel::Stats], 4), geometry: (600, 400) });
    layout.next_id = 31;
    run(&mut layout, DockItem::Panel { panel: Panel::Stats }, DockTarget::Tab { group: 8, index: None }).unwrap();
    assert_eq!(group(&layout.floating[1].root), (30, vec![Panel::Commands], Panel::Commands, 4));
    assert_eq!(layout.floating[1].geometry, (7, 7));
    assert_eq!(layout.floating[0].geometry, (500, 300));
}

fn column_sizes() -> ColumnSizes<u32, u32, (i32, i32)> {
    ColumnSizes { extent: 48, fraction: 20, lone_toolbar: (7, 7) }
}

fn run_column(layout: &mut Layout, column: u32, target: Target) -> Result<(), MoveError> {
    move_column(layout, column, target, column_sizes(), &wider, &ratio_ok, &extent_ok, &geometry_ok, &width_ok)
}

#[test]
fn whole_column_moves_keep_the_subtree_and_its_collapse() {
    for target in [
        DockTarget::Edge { edge: Edge::Right, outer: true },
        DockTarget::BesideBand { band: 7 },
        DockTarget::Split { group: 8, edge: Edge::Left },
        DockTarget::Split { group: 8, edge: Edge::Right },
    ] {
        let mut layout = initial();
        run_column(&mut layout, 4, target.clone()).unwrap();
        let column = layout.bands.iter().find_map(|b| b.root.find(4)).expect("the column is docked");
        assert_eq!(column.panels(), vec![Panel::Brushes, Panel::Sizes], "{target:?}");
        assert_eq!(layout.collapsed.iter().map(|c| (c.root, c.expanded_width)).collect::<Vec<_>>(), vec![(4, 232)]);
        assert!(layout.bands.iter().all(|b| b.edge != Edge::Left), "{target:?}");
        assert_eq!(layout.next_id, 22);
        assert_eq!(layout.floating.len(), 1);
    }
}

#[test]
fn column_moves_reject_float_merge_and_keep_the_same_slot() {
    let mut layout = initial();
    let before = shape(&layout);
    for target in [
        DockTarget::Float { position: (600, 400) },
        DockTarget::Tab { group: 8, index: None },
        DockTarget::Edge { edge: Edge::Top, outer: true },
        DockTarget::Split { group: 8, edge: Edge::Bottom },
    ] {
        assert_eq!(run_column(&mut layout, 4, target.clone()), Err(MoveError::ColumnTarget), "{target:?}");
        assert_eq!(shape(&layout), before);
    }
    assert_eq!(run_column(&mut layout, 4, DockTarget::BesideBand { band: 3 }), Ok(()));
    assert_eq!(run_column(&mut layout, 4, DockTarget::Split { group: 6, edge: Edge::Left }), Ok(()));
    assert_eq!(shape(&layout), before, "a column dropped beside itself stays put");
    assert_eq!(run_column(&mut layout, 8, DockTarget::Edge { edge: Edge::Left, outer: false }), Err(MoveError::ColumnNotCollapsed));
    layout.collapsed.push(CollapsedColumn { root: 77, expanded_width: 1 });
    assert_eq!(run_column(&mut layout, 77, DockTarget::Edge { edge: Edge::Left, outer: false }), Err(MoveError::UnknownColumn));
    layout.collapsed.pop();
    layout.next_id = u32::MAX;
    assert_eq!(run_column(&mut layout, 4, DockTarget::Edge { edge: Edge::Right, outer: false }), Err(MoveError::IdsExhausted));
    layout.next_id = 21;
    assert_eq!(shape(&layout), before);
    assert_eq!(MoveError::ColumnGone.message(), "The target column no longer exists");
    assert_eq!(MoveError::ColumnNotDocked.message(), "The target column is not docked");
}

#[test]
fn a_column_split_beside_a_group_shares_its_band() {
    let mut layout = initial();
    run_column(&mut layout, 4, DockTarget::Split { group: 8, edge: Edge::Left }).unwrap();
    assert_eq!(layout.bands.len(), 2);
    assert_eq!((layout.bands[0].id, layout.bands[0].edge, layout.bands[0].extent), (7, Edge::Right, 48));
    match &layout.bands[0].root {
        DockNode::Split { id, axis, fraction, first, second } => {
            assert_eq!((*id, *axis, *fraction), (21, Axis::Horizontal, 20));
            assert_eq!(first.id(), 4);
            assert_eq!(second.id(), 8);
        }
        DockNode::Tabs { .. } => panic!("a split was expected"),
    }
}

fn docked_panels(layout: &Layout) -> Vec<Panel> {
    let mut all: Vec<Panel> = layout.bands.iter().flat_map(|b| b.root.panels()).collect();
    all.extend(layout.floating.iter().flat_map(|f| f.root.panels()));
    all.sort_by_key(|p| format!("{p:?}"));
    all
}

#[test]
fn every_move_keeps_the_docked_panels() {
    let before = docked_panels(&initial());
    let moves: Vec<(DockItem, Target)> = vec![
        (DockItem::Panel { panel: Panel::Properties }, DockTarget::Edge { edge: Edge::Left, outer: true }),
        (DockItem::Group { group: 8 }, DockTarget::Float { position: (10, 10) }),
        (DockItem::Group { group: 5 }, DockTarget::BesideBand { band: 7 }),
        (DockItem::Panel { panel: Panel::Navigator }, DockTarget::Tab { group: 8, index: Some(1) }),
        (DockItem::Panel { panel: Panel::Layers }, DockTarget::Split { group: 6, edge: Edge::Bottom }),
        (DockItem::Group { group: 20 }, DockTarget::Split { group: 8, edge: Edge::Left }),
    ];
    for (item, target) in moves {
        let mut layout = initial();
        run(&mut layout, item, target).unwrap();
        assert_eq!(docked_panels(&layout), before);
    }
}

#[test]
fn a_group_moved_beside_another_keeps_its_identity_tabs_and_active_tab() {
    let mut layout = initial();
    run(&mut layout, DockItem::Panel { panel: Panel::Adjustments }, DockTarget::Tab { group: 8, index: None }).unwrap();
    assert_eq!(group(&layout.bands[1].root), (8, vec![Panel::Layers, Panel::Properties, Panel::Adjustments], Panel::Adjustments, 2));
    run(&mut layout, DockItem::Group { group: 8 }, DockTarget::Split { group: 5, edge: Edge::Top }).unwrap();
    assert_eq!(layout.bands.len(), 2, "the emptied right band disappears");
    let DockNode::Split { first: upper, .. } = &layout.bands[0].root else { panic!("the left column was expected") };
    let DockNode::Split { id, axis, first: moved, second: kept, .. } = &**upper else { panic!("a new split was expected") };
    assert_eq!((*id, *axis), (21, Axis::Vertical));
    assert_eq!(group(moved), (8, vec![Panel::Layers, Panel::Properties, Panel::Adjustments], Panel::Adjustments, 2));
    assert_eq!(kept.id(), 5);
    assert_eq!(layout.next_id, 22);
}

const REGISTERED: [Panel; 8] = [
    Panel::Toolbar, Panel::Brushes, Panel::Sizes, Panel::Layers,
    Panel::Adjustments, Panel::Properties, Panel::Navigator, Panel::Color,
];

#[test]
fn a_panel_added_to_a_group_becomes_its_last_active_tab() {
    let mut layout = initial();
    add_panel_to_group(&mut layout, &REGISTERED, Panel::Navigator, 8, (7, 7), &wider).unwrap();
    assert_eq!(group(&layout.bands[1].root), (8, vec![Panel::Layers, Panel::Adjustments, Panel::Properties, Panel::Navigator], Panel::Navigator, 2));
    assert!(layout.floating.is_empty());
    assert_eq!(layout.fit_tab_groups, vec![5, 8]);
    let before = shape(&layout);
    add_panel_to_group(&mut layout, &REGISTERED, Panel::Layers, 8, (7, 7), &wider).unwrap();
    assert_eq!(shape(&layout), before, "a panel already in the group stays where it is");
}

#[test]
fn adding_to_a_group_refuses_unknown_panels_groups_and_edge_docks() {
    let mut layout = initial();
    let before = shape(&layout);
    assert_eq!(add_panel_to_group(&mut layout, &REGISTERED, Panel::Stats, 8, (7, 7), &wider), Err(MoveError::UnknownPanel));
    assert_eq!(add_panel_to_group(&mut layout, &REGISTERED, Panel::Color, 99, (7, 7), &wider), Err(MoveError::UnknownTabGroup));
    assert_eq!(add_panel_to_group(&mut layout, &REGISTERED, Panel::Color, 4, (7, 7), &wider), Err(MoveError::UnknownTabGroup));
    assert_eq!(add_panel_to_group(&mut layout, &REGISTERED, Panel::Brushes, 2, (7, 7), &wider), Err(MoveError::EdgeToolbarsOnly));
    assert_eq!(shape(&layout), before);
}

#[test]
fn showing_a_panel_docks_it_alone_at_its_home_edge() {
    let mut layout = initial();
    set_panel_visible(&mut layout, &REGISTERED, Panel::Color, true, 200, 4, (7, 7), &wider, &ratio_ok, &extent_ok, &geometry_ok, &width_ok).unwrap();
    let band = layout.bands.last().unwrap();
    assert_eq!((band.id, band.edge, band.extent), (22, Edge::Left, 200));
    assert_eq!(group(&band.root), (21, vec![Panel::Color], Panel::Color, 4));
    assert_eq!(layout.next_id, 23);
    let before = shape(&layout);
    set_panel_visible(&mut layout, &REGISTERED, Panel::Color, true, 200, 4, (7, 7), &wider, &ratio_ok, &extent_ok, &geometry_ok, &width_ok).unwrap();
    assert_eq!(shape(&layout), before, "a shown panel stays where it is");
}

#[test]
fn hiding_a_panel_takes_it_out_and_keeps_the_rest() {
    let mut layout = initial();
    set_panel_visible(&mut layout, &REGISTERED, Panel::Navigator, false, 200, 4, (7, 7), &wider, &ratio_ok, &extent_ok, &geometry_ok, &width_ok).unwrap();
    assert!(layout.floating.is_empty());
    assert!(!docked_panels(&layout).contains(&Panel::Navigator));
    assert_eq!(docked_panels(&layout).len(), docked_panels(&initial()).len() - 1);
    let mut full = initial();
    full.next_id = u32::MAX - 1;
    let before = shape(&full);
    assert_eq!(set_panel_visible(&mut full, &REGISTERED, Panel::Color, true, 200, 4, (7, 7), &wider, &ratio_ok, &extent_ok, &geometry_ok, &width_ok), Err(MoveError::IdsExhausted));
    assert_eq!(shape(&full), before);
}

#[test]
fn expanding_and_collapsing_a_column_keeps_its_tree_and_its_width() {
    let mut layout = initial();
    let arrangement = format!("{:?}", layout.bands.iter().map(|b| (b.id, b.edge, b.root.panels())).collect::<Vec<_>>());
    set_column_collapsed(&mut layout, 5, false, None, 240, &vec![]).unwrap();
    assert!(layout.collapsed.is_empty());
    assert_eq!(layout.bands[0].extent, 240);
    assert_eq!(format!("{:?}", layout.bands.iter().map(|b| (b.id, b.edge, b.root.panels())).collect::<Vec<_>>()), arrangement);
    set_column_collapsed(&mut layout, 6, true, Some(232), 48, &vec![]).unwrap();
    assert_eq!(layout.collapsed.iter().map(|c| (c.root, c.expanded_width)).collect::<Vec<_>>(), [(4, 232)]);
    assert_eq!(layout.bands[0].extent, 48);
    assert_eq!(shape(&initial()).replace(":232:4", ":48:4"), shape(&layout));
    let before = shape(&layout);
    set_column_collapsed(&mut layout, 4, true, Some(1), 1, &vec![]).unwrap();
    assert_eq!(shape(&layout), before, "a collapsed column stays as it is");
}

#[test]
fn collapse_refusals_leave_the_workspace_untouched() {
    let mut layout = initial();
    let before = shape(&layout);
    assert_eq!(set_column_collapsed(&mut layout, 8, true, None, 48, &vec![]), Err(MoveError::ColumnHidden));
    assert_eq!(set_column_collapsed(&mut layout, 2, true, Some(40), 48, &vec![]), Err(MoveError::NotCollapsible));
    assert_eq!(set_column_collapsed(&mut layout, 20, true, Some(40), 48, &vec![]), Err(MoveError::NotCollapsible));
    assert_eq!(shape(&layout), before);
    assert_eq!(MoveError::ColumnHidden.message(), "The column is not visible");
    set_column_collapsed(&mut layout, 8, true, Some(232), 48, &vec![]).unwrap();
    assert_eq!(layout.collapsed.iter().map(|c| (c.root, c.expanded_width)).collect::<Vec<_>>(), [(4, 232), (8, 232)]);
}

#[test]
fn a_nested_column_refits_only_the_side_by_side_split_above_it() {
    let mut layout = initial();
    layout.bands[1].root = split(9, Axis::Horizontal, tabs(8, &[Panel::Layers], 2), tabs(10, &[Panel::Color], 2));
    layout.collapsed.clear();
    set_column_collapsed(&mut layout, 10, true, Some(120), 300, &vec![(9, 70), (4, 11)]).unwrap();
    match &layout.bands[1].root {
        DockNode::Split { id, axis, fraction, .. } => assert_eq!((*id, *axis, *fraction), (9, Axis::Horizontal, 70)),
        DockNode::Tabs { .. } => panic!("the split stays"),
    }
    assert_eq!(layout.bands[1].extent, 300);
    assert_eq!(layout.collapsed.iter().map(|c| (c.root, c.expanded_width)).collect::<Vec<_>>(), [(10, 120)]);
    match &layout.bands[0].root {
        DockNode::Split { fraction, .. } => assert_eq!(*fraction, 50, "other bands keep their shares"),
        DockNode::Tabs { .. } => panic!("the left column stays"),
    }
}

#[test]
fn deleting_a_toolbar_undocks_it_and_drops_its_tiles() {
    let mut layout = initial();
    let mut toolbars = layer_ui::toolbar::ToolbarRegistry::editor_default();
    let before = shape(&layout);
    assert_eq!(delete_toolbar(&mut layout, &mut toolbars, &REGISTERED, Panel::Layers, (7, 7), &wider), Err(MoveError::BuiltInPanel));
    assert_eq!(delete_toolbar(&mut layout, &mut toolbars, &REGISTERED, Panel::Commands, (7, 7), &wider), Err(MoveError::UnknownPanel));
    assert_eq!(shape(&layout), before);
    assert!(toolbars.tiles(Panel::Commands).is_some());
    assert_eq!(MoveError::BuiltInPanel.message(), "Built-in panels can be hidden, not deleted");
    delete_toolbar(&mut layout, &mut toolbars, &REGISTERED, Panel::Toolbar, (7, 7), &wider).unwrap();
    assert!(!docked_panels(&layout).contains(&Panel::Toolbar));
    assert_eq!(layout.bands.len(), 2, "the emptied top band disappears");
    assert!(toolbars.tiles(Panel::Toolbar).is_none());
    assert!(toolbars.tiles(Panel::Commands).is_some());
    assert_eq!(toolbars.next_tile_id(), 33);
}

fn plain() -> Layout {
    layer_ui::presets::plain_docking(&layer_ui::presets::PlainSizes { tab_style: 0u8, column_extent: 232u32, tile_extent: 42, brushes_share: 68u32 })
}

fn node<'a>(layout: &'a Layout, id: u32) -> Option<&'a Node> {
    layout.bands.iter().find_map(|b| b.root.find(id)).or_else(|| layout.floating.iter().find_map(|f| f.root.find(id)))
}

fn grip_sizes() -> MoveSizes<u8, u32, u32, (i32, i32)> {
    MoveSizes { tab_style: 0, fraction: 50, extent: 232, floating: (0, 0), lone_toolbar: (7, 7) }
}

#[test]
fn group_grip_moves_all_tabs_and_preserves_active_order_and_identity() {
    let mut layout = plain();
    let go = |layout: &mut Layout, item: DockItem, target: Target| move_item(layout, item, target, grip_sizes(), &on_screen, &wider, &ratio_ok, &extent_ok, &geometry_ok, &width_ok);
    go(&mut layout, DockItem::Panel { panel: Panel::Toolbar }, DockTarget::Tab { group: 8, index: None }).unwrap();
    go(&mut layout, DockItem::Panel { panel: Panel::Brushes }, DockTarget::Tab { group: 8, index: None }).unwrap();
    let k = layout.bands.iter().position(|b| b.root.find(8).is_some()).unwrap();
    let root = std::mem::replace(&mut layout.bands[k].root, tabs(99, &[Panel::Stats], 0));
    layout.bands[k].root = root.select(8, Panel::Toolbar).0;
    let original = group(node(&layout, 8).unwrap());
    assert_eq!(original.2, Panel::Toolbar);
    let before = shape(&layout);
    assert!(go(&mut layout, DockItem::Group { group: 8 }, DockTarget::Split { group: 8, edge: Edge::Left }).is_err());
    assert_eq!(shape(&layout), before);
    go(&mut layout, DockItem::Group { group: 8 }, DockTarget::Edge { edge: Edge::Left, outer: false }).unwrap();
    assert_eq!(group(&layout.bands.last().unwrap().root), original);
    assert_eq!(layout.bands.last().unwrap().extent, 232, "a mixed tab group retains its width");
    go(&mut layout, DockItem::Group { group: 8 }, DockTarget::Split { group: 6, edge: Edge::Top }).unwrap();
    assert_eq!(group(node(&layout, 8).unwrap()), original);
    go(&mut layout, DockItem::Group { group: 8 }, DockTarget::Tab { group: 6, index: Some(0) }).unwrap();
    assert_eq!(
        group(node(&layout, 6).unwrap()),
        (6, vec![Panel::Layers, Panel::Adjustments, Panel::Properties, Panel::Toolbar, Panel::Brushes, Panel::Sizes], Panel::Toolbar, 0)
    );
}

fn collapsed_plain() -> Layout {
    let mut layout = plain();
    set_column_collapsed(&mut layout, 5, true, Some(226), 42, &vec![]).unwrap();
    layout
}

#[test]
fn whole_column_moves_preserve_subtree_and_neighbor_widths() {
    let targets: [Target; 4] = [
        DockTarget::Edge { edge: Edge::Right, outer: true },
        DockTarget::BesideBand { band: 7 },
        DockTarget::Split { group: 8, edge: Edge::Left },
        DockTarget::Split { group: 8, edge: Edge::Right },
    ];
    for target in targets {
        let mut layout = collapsed_plain();
        let moving = format!("{:?}", node(&layout, 4).unwrap());
        let column = (layout.collapsed[0].root, layout.collapsed[0].expanded_width);
        run_column(&mut layout, 4, target).unwrap();
        assert_eq!(format!("{:?}", node(&layout, 4).unwrap()), moving);
        assert_eq!(layout.collapsed.iter().map(|c| (c.root, c.expanded_width)).collect::<Vec<_>>(), [column]);
        let edge = layout.bands.iter().find(|b| b.root.find(5).is_some()).unwrap().edge;
        assert_eq!(edge, Edge::Right);
        assert!(layout.floating.is_empty());
    }
}

#[test]
fn column_moves_reject_float_merge_and_preserve_same_slot() {
    let mut layout = collapsed_plain();
    let before = shape(&layout);
    let refused: [Target; 4] = [
        DockTarget::Float { position: (600, 400) },
        DockTarget::Tab { group: 8, index: None },
        DockTarget::Edge { edge: Edge::Top, outer: true },
        DockTarget::Split { group: 8, edge: Edge::Bottom },
    ];
    for target in refused {
        assert!(run_column(&mut layout, 4, target).is_err());
        assert_eq!(shape(&layout), before);
    }
    run_column(&mut layout, 4, DockTarget::Edge { edge: Edge::Left, outer: true }).unwrap();
    assert_eq!(shape(&layout), before);
    run_column(&mut layout, 4, DockTarget::Split { group: 8, edge: Edge::Left }).unwrap();
}

fn slotted(axis: Axis) -> Layout {
    let mut original = plain();
    original.bands[0].extent = 560;
    let stack = DockNode::Split {
        id: 9,
        axis,
        fraction: 41,
        first: Box::new(tabs(6, &[Panel::Sizes], 0)),
        second: Box::new(tabs(10, &[Panel::Color], 0)),
    };
    original.bands[0].root = DockNode::Split { id: 4, axis, fraction: 26, first: Box::new(tabs(5, &[Panel::Brushes], 0)), second: Box::new(stack) };
    original.next_id = 11;
    original
}

#[test]
fn same_slot_drops_preserve_sizes_ids_and_active_tabs() {
    let go = |layout: &mut Layout, item: DockItem, target: Target| move_item(layout, item, target, grip_sizes(), &on_screen, &wider, &ratio_ok, &extent_ok, &geometry_ok, &width_ok);
    for axis in [Axis::Vertical, Axis::Horizontal] {
        let original = slotted(axis);
        check_layout(&original, &ratio_ok, &extent_ok, &geometry_ok, &width_ok).unwrap();
        let (leading, trailing) = if axis == Axis::Vertical { (Edge::Top, Edge::Bottom) } else { (Edge::Left, Edge::Right) };
        let first_panel = |group: u32| match group { 5 => Panel::Brushes, 6 => Panel::Sizes, _ => Panel::Color };
        for (source, target, edge) in [(5, 6, leading), (6, 5, trailing), (6, 10, leading), (10, 6, trailing)] {
            for item in [DockItem::Group { group: source }, DockItem::Panel { panel: first_panel(source) }] {
                let mut next = slotted(axis);
                go(&mut next, item, DockTarget::Split { group: target, edge }).unwrap();
                assert_eq!(shape(&next), shape(&original), "same slot in {axis:?}: {item:?}");
            }
        }
        let mut reordered = slotted(axis);
        go(&mut reordered, DockItem::Group { group: 10 }, DockTarget::Split { group: 5, edge: leading }).unwrap();
        assert_ne!(shape(&reordered), shape(&original), "real reorder must still work");
    }
    let original = plain();
    for (panel, index) in [(Panel::Adjustments, Some(1)), (Panel::Adjustments, Some(2)), (Panel::Properties, None)] {
        let mut next = plain();
        go(&mut next, DockItem::Panel { panel }, DockTarget::Tab { group: 8, index }).unwrap();
        assert_eq!(shape(&next), shape(&original), "no tab activation or fit reset for same-slot drops");
    }
    let mut next = plain();
    next.bands.retain(|band| band.id == 7);
    next.bands[0].extent = 315;
    let kept = shape(&next);
    go(&mut next, DockItem::Group { group: 8 }, DockTarget::Edge { edge: Edge::Right, outer: false }).unwrap();
    assert_eq!(shape(&next), kept);
}

#[test]
fn moves_keep_a_valid_workspace_valid_and_refuse_invalid_results() {
    let mut layout = initial();
    check_layout(&layout, &ratio_ok, &extent_ok, &geometry_ok, &width_ok).unwrap();
    run(&mut layout, DockItem::Panel { panel: Panel::Properties }, DockTarget::Edge { edge: Edge::Left, outer: true }).unwrap();
    check_layout(&layout, &ratio_ok, &extent_ok, &geometry_ok, &width_ok).unwrap();
    run(&mut layout, DockItem::Group { group: 8 }, DockTarget::Float { position: (10, 10) }).unwrap();
    check_layout(&layout, &ratio_ok, &extent_ok, &geometry_ok, &width_ok).unwrap();
    let mut layout = initial();
    let before = shape(&layout);
    let zero = MoveSizes { tab_style: 9, fraction: 30, extent: 0, floating: (100, 100), lone_toolbar: (7, 7) };
    let r = move_item(&mut layout, DockItem::Panel { panel: Panel::Properties }, DockTarget::Edge { edge: Edge::Left, outer: true },
        zero, &on_screen, &wider, &ratio_ok, &extent_ok, &geometry_ok, &width_ok);
    assert_eq!(r, Err(MoveError::Invalid(layer_ui::workspace::LayoutError::DockBand)));
    assert_eq!(r.unwrap_err().message(), "Invalid workspace dock band");
    assert_eq!(shape(&layout), before);
    let flat = MoveSizes { tab_style: 9, fraction: 0, extent: 250, floating: (100, 100), lone_toolbar: (7, 7) };
    let r = move_item(&mut layout, DockItem::Panel { panel: Panel::Properties }, DockTarget::Split { group: 5, edge: Edge::Top },
        flat, &on_screen, &wider, &ratio_ok, &extent_ok, &geometry_ok, &width_ok);
    assert!(matches!(r, Err(MoveError::Invalid(_))));
    assert_eq!(shape(&layout), before);
}

#[test]
fn drags_route_tiles_columns_and_panels() {
    let mut layout = initial();
    let mut toolbars = layer_ui::toolbar::ToolbarRegistry::editor_default();
    let drag = |layout: &mut Layout, toolbars: &mut layer_ui::toolbar::ToolbarRegistry, item: DockItem, target: Target| {
        drag_item(layout, toolbars, item, target, sizes(), &on_screen, &wider, &ratio_ok, &extent_ok, &geometry_ok, &width_ok)
    };
    let before = shape(&layout);
    drag(&mut layout, &mut toolbars, DockItem::Tile { panel: Panel::Toolbar, tile: 1 }, DockTarget::Tile { panel: Panel::Commands, before: None }).unwrap();
    assert_eq!(shape(&layout), before);
    assert_eq!(toolbars.tiles(Panel::Commands).unwrap().last().unwrap().id, 1);
    assert_eq!(
        drag(&mut layout, &mut toolbars, DockItem::Tile { panel: Panel::Toolbar, tile: 99 }, DockTarget::Tile { panel: Panel::Commands, before: None }),
        Err(DragError::Toolbar(layer_ui::toolbar::ToolbarError::MissingDraggedTool))
    );
    assert_eq!(
        drag(&mut layout, &mut toolbars, DockItem::Panel { panel: Panel::Layers }, DockTarget::Tile { panel: Panel::Commands, before: None }),
        Err(DragError::Docking(MoveError::ToolsOnlyInToolbars))
    );
    drag(&mut layout, &mut toolbars, DockItem::Column { column: 4 }, DockTarget::Edge { edge: Edge::Right, outer: true }).unwrap();
    assert_eq!(layout.bands[0].root.id(), 4);
    drag(&mut layout, &mut toolbars, DockItem::Panel { panel: Panel::Navigator }, DockTarget::Tab { group: 8, index: None }).unwrap();
    assert!(layout.floating.is_empty());
    assert_eq!(DragError::Docking(MoveError::FloatingSplit).message(), "Floating groups accept tabs, not docking splits");
}
