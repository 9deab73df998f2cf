use layer_ui::dock::{DockBand, DockError, DockNode};
use layer_ui::panel::{Axis, Edge, FloatingToolbarLayout, Panel};
use layer_ui::workspace::{
    check_id_allocator, detach_columns, detach_floating, double_click_action, HandleAction, HandleError, retain_tab_sizing, validate_docking, CollapsedColumn, FloatingGroup,
    LayoutError,
};

type Node = DockNode<(), f32>;

fn tabs(id: u32, panels: &[Panel]) -> Node {
    DockNode::Tabs { id, panels: panels.to_vec(), active: panels[0], tab_style: () }
}

fn split(id: u32, fraction: f32, first: Node, second: Node) -> Node {
    DockNode::Split { id, axis: Axis::Horizontal, fraction, first: Box::new(first), second: Box::new(second) }
}

fn band(id: u32, edge: Edge, extent: f32, root: Node) -> DockBand<(), f32, f32> {
    DockBand { id, edge, extent, root }
}

fn ratio_ok(f: &f32) -> bool {
    f.is_finite() && *f > 0.0 && *f < 1.0
}

fn positive(v: &f32) -> bool {
    v.is_finite() && *v > 0.0
}

type Floating = FloatingGroup<(), f32, f32>;

fn run(
    bands: &Vec<DockBand<(), f32, f32>>,
    floating: &Vec<Floating>,
    collapsed: &Vec<CollapsedColumn<f32>>,
    fit: &Vec<u32>,
) -> Result<(Vec<u32>, Vec<Panel>), LayoutError> {
    validate_docking(bands, floating, collapsed, fit, &ratio_ok, &positive, &positive, &positive)
}

fn sample_bands() -> Vec<DockBand<(), f32, f32>> {
    vec![
        band(1, Edge::Right, 232.0, split(2, 0.5, tabs(3, &[Panel::Layers]), tabs(4, &[Panel::Color, Panel::Stats]))),
        band(5, Edge::Top, 40.0, tabs(6, &[Panel::Toolbar])),
    ]
}

#[test]
fn valid_docking_records_identities_and_panels() {
    let floating = vec![FloatingGroup { root: tabs(7, &[Panel::Navigator]), geometry: 300.0 }];
    let collapsed = vec![CollapsedColumn { root: 4, expanded_width: 180.0 }];
    let (ids, panels) = run(&sample_bands(), &floating, &collapsed, &vec![3, 7]).unwrap();
    assert_eq!(ids, vec![1, 2, 3, 4, 5, 6, 7]);
    assert_eq!(panels, vec![Panel::Layers, Panel::Color, Panel::Stats, Panel::Toolbar, Panel::Navigator]);
    assert_eq!(check_id_allocator(&ids, 8), Ok(()));
    assert_eq!(check_id_allocator(&ids, 7), Err(LayoutError::IdAllocator));
    assert_eq!(LayoutError::IdAllocator.message(), "Invalid workspace ID allocator");
}

#[test]
fn docking_refusals_come_in_order() {
    let none: Vec<Floating> = vec![];
    let mut bands = sample_bands();
    bands[1].extent = f32::NAN;
    assert_eq!(run(&bands, &none, &vec![], &vec![]), Err(LayoutError::DockBand));
    let mut bands = sample_bands();
    bands[1].id = 1;
    assert_eq!(run(&bands, &none, &vec![], &vec![]), Err(LayoutError::DockBand));
    let bands = vec![band(1, Edge::Left, 200.0, split(2, 1.0, tabs(3, &[Panel::Layers]), tabs(4, &[Panel::Color])))];
    assert_eq!(run(&bands, &none, &vec![], &vec![]), Err(LayoutError::Tree(DockError::InvalidSplitRatio)));
    let floating = vec![FloatingGroup { root: split(7, 0.5, tabs(8, &[Panel::Navigator]), tabs(9, &[Panel::Sizes])), geometry: 300.0 }];
    assert_eq!(run(&sample_bands(), &floating, &vec![], &vec![]), Err(LayoutError::FloatingGeometry));
    let floating = vec![FloatingGroup { root: tabs(7, &[Panel::Layers]), geometry: 300.0 }];
    assert_eq!(run(&sample_bands(), &floating, &vec![], &vec![]), Err(LayoutError::Tree(DockError::DuplicatePanel)));
    let floating = vec![FloatingGroup { root: tabs(7, &[Panel::Navigator]), geometry: -1.0 }];
    assert_eq!(run(&sample_bands(), &floating, &vec![], &vec![]), Err(LayoutError::FloatingGeometry));
    assert_eq!(LayoutError::Tree(DockError::DuplicatePanel).message(), "Workspace contains duplicate panels");
}

#[test]
fn collapsed_columns_and_tab_sizing_groups() {
    let none: Vec<Floating> = vec![];
    let bands = sample_bands();
    let column = |root, w| CollapsedColumn { root, expanded_width: w };
    assert_eq!(run(&bands, &none, &vec![column(6, 100.0)], &vec![]), Err(LayoutError::CollapsedColumn), "top bands hold no columns");
    assert_eq!(run(&bands, &none, &vec![column(3, 100.0), column(3, 90.0)], &vec![]), Err(LayoutError::CollapsedColumn));
    assert_eq!(run(&bands, &none, &vec![column(3, 0.0)], &vec![]), Err(LayoutError::CollapsedColumn));
    assert!(run(&bands, &none, &vec![column(2, 100.0)], &vec![]).is_ok());
    assert_eq!(run(&bands, &none, &vec![], &vec![2]), Err(LayoutError::UnknownTabGroup));
    assert_eq!(run(&bands, &none, &vec![], &vec![99]), Err(LayoutError::UnknownTabGroup));
    assert_eq!(run(&bands, &none, &vec![], &vec![3, 6, 3]), Err(LayoutError::DuplicateTabSizing));
    assert_eq!(LayoutError::DuplicateTabSizing.message(), "Duplicate tab sizing identity");
    assert_eq!(LayoutError::CollapsedColumn.message(), "Invalid collapsed column");
}

fn floating_groups() -> Vec<Floating> {
    vec![
        FloatingGroup { root: tabs(10, &[Panel::Layers, Panel::Toolbar]), geometry: 300.0 },
        FloatingGroup { root: tabs(11, &[Panel::Stats]), geometry: 200.0 },
        FloatingGroup { root: tabs(12, &[Panel::Color, Panel::Navigator]), geometry: 250.0 },
        FloatingGroup { root: tabs(13, &[Panel::Commands]), geometry: 120.0 },
    ]
}

fn group_tabs(f: &Floating) -> Vec<Panel> {
    match &f.root {
        DockNode::Tabs { panels, .. } => panels.clone(),
        DockNode::Split { .. } => Vec::new(),
    }
}

#[test]
fn detaching_floating_panels_drops_empty_groups_and_marks_new_toolbars() {
    let out = detach_floating(floating_groups(), &[Panel::Layers, Panel::Stats, Panel::Navigator]);
    let seen: Vec<(u32, Vec<Panel>, f32, bool)> = out.iter().map(|(f, mark)| (f.root.id(), group_tabs(f), f.geometry, *mark)).collect();
    assert_eq!(
        seen,
        vec![
            (10, vec![Panel::Toolbar], 300.0, true),
            (12, vec![Panel::Color], 250.0, false),
            (13, vec![Panel::Commands], 120.0, false),
        ]
    );
    let untouched = detach_floating(floating_groups(), &[]);
    assert_eq!(untouched.len(), 4);
    assert!(untouched.iter().all(|(_, mark)| !*mark));
}

#[test]
fn tab_sizing_stops_for_lone_toolbars_and_vanished_groups() {
    let bands = vec![band(1, Edge::Left, 200.0, split(2, 0.5, tabs(3, &[Panel::Toolbar]), tabs(4, &[Panel::Color, Panel::Stats])))];
    let floating = vec![FloatingGroup { root: tabs(10, &[Panel::Layers]), geometry: 100.0 }];
    let kept = retain_tab_sizing(&bands, &floating, &vec![3, 4, 2, 10, 99, 4]);
    assert_eq!(kept, vec![4, 10, 4]);
    assert!(retain_tab_sizing(&bands, &floating, &vec![]).is_empty());
}

fn stack(id: u32, first: Node, second: Node) -> Node {
    DockNode::Split { id, axis: Axis::Vertical, fraction: 0.5, first: Box::new(first), second: Box::new(second) }
}

fn wider(a: &f32, b: &f32) -> bool {
    a > b
}

/// A left column (node 4) stacking a pair of columns (node 9: tool set |
/// properties) over the sizes.
fn column_bands() -> Vec<DockBand<(), f32, f32>> {
    vec![band(3, Edge::Left, 232.0, stack(4, split(9, 0.5, tabs(5, &[Panel::Brushes]), tabs(10, &[Panel::Properties])), tabs(6, &[Panel::Sizes])))]
}

fn column(root: u32, expanded_width: f32) -> CollapsedColumn<f32> {
    CollapsedColumn { root, expanded_width }
}

fn roots_and_widths(c: &[CollapsedColumn<f32>]) -> Vec<(u32, f32)> {
    c.iter().map(|c| (c.root, c.expanded_width)).collect()
}

#[test]
fn collapsed_columns_follow_what_remains_of_their_subtree() {
    let bands = column_bands();
    let none: Vec<Floating> = vec![];
    let collapsed = vec![column(4, 232.0)];
    let kept = detach_columns(&bands, &none, &collapsed, &[Panel::Sizes], &wider);
    assert_eq!(roots_and_widths(&kept), vec![(9, 232.0)]);
    let kept = detach_columns(&bands, &none, &collapsed, &[Panel::Sizes, Panel::Brushes], &wider);
    assert_eq!(roots_and_widths(&kept), vec![(10, 232.0)]);
    let gone = detach_columns(&bands, &none, &collapsed, &[Panel::Sizes, Panel::Brushes, Panel::Properties], &wider);
    assert!(gone.is_empty());
    let same = detach_columns(&bands, &none, &collapsed, &[], &wider);
    assert_eq!(roots_and_widths(&same), vec![(4, 232.0)]);
    let stale = detach_columns(&bands, &none, &vec![column(77, 10.0), column(6, 50.0)], &[Panel::Layers], &wider);
    assert_eq!(roots_and_widths(&stale), vec![(6, 50.0)]);
}

#[test]
fn columns_that_end_at_one_node_merge_at_the_wider_width() {
    let bands = column_bands();
    let none: Vec<Floating> = vec![];
    let collapsed = vec![column(10, 40.0), column(9, 100.0), column(6, 60.0)];
    let merged = detach_columns(&bands, &none, &collapsed, &[Panel::Brushes], &wider);
    assert_eq!(roots_and_widths(&merged), vec![(10, 100.0), (6, 60.0)]);
    let collapsed = vec![column(9, 100.0), column(10, 140.0)];
    let merged = detach_columns(&bands, &none, &collapsed, &[Panel::Brushes], &wider);
    assert_eq!(roots_and_widths(&merged), vec![(10, 140.0)]);
}

#[test]
fn survivors_are_named_without_removing_anything() {
    let tree = stack(4, split(9, 0.5, tabs(5, &[Panel::Brushes]), tabs(10, &[Panel::Properties, Panel::Layers])), tabs(6, &[Panel::Sizes]));
    assert_eq!(tree.survivor(&[]), Some(4));
    assert_eq!(tree.survivor(&[Panel::Navigator]), Some(4));
    assert_eq!(tree.survivor(&[Panel::Sizes]), Some(9));
    assert_eq!(tree.survivor(&[Panel::Sizes, Panel::Brushes]), Some(10));
    assert_eq!(tree.survivor(&[Panel::Properties, Panel::Layers]), Some(4));
    assert_eq!(tree.survivor(&[Panel::Properties, Panel::Layers, Panel::Sizes]), Some(5));
    assert_eq!(tree.survivor(&[Panel::Properties, Panel::Layers, Panel::Sizes, Panel::Brushes]), None);
    assert_eq!(tree.remove_all(&[Panel::Sizes, Panel::Brushes]).map(|n| n.id()), Some(10));
}

#[test]
fn detached_columns_never_share_a_root() {
    let bands = column_bands();
    let none: Vec<Floating> = vec![];
    let collapsed = vec![column(4, 232.0), column(9, 100.0), column(10, 40.0), column(6, 60.0)];
    for leaving in [&[][..], &[Panel::Brushes][..], &[Panel::Sizes][..], &[Panel::Sizes, Panel::Brushes][..], &[Panel::Properties, Panel::Sizes][..]] {
        let out = detach_columns(&bands, &none, &collapsed, leaving, &wider);
        for (i, a) in out.iter().enumerate() {
            for b in &out[i + 1..] {
                assert_ne!(a.root, b.root, "{leaving:?}");
            }
        }
    }
}

#[test]
fn double_clicks_toggle_tabs_refit_toolbars_and_cycle_floating_layouts() {
    let bands = vec![band(1, Edge::Left, 200.0, split(2, 0.5, tabs(3, &[Panel::Layers]), split(5, 0.5, tabs(4, &[Panel::Color, Panel::Stats]), tabs(6, &[Panel::Toolbar]))))];
    let floating = vec![
        FloatingGroup { root: tabs(10, &[Panel::Commands]), geometry: 100.0 },
        FloatingGroup { root: tabs(11, &[Panel::Navigator]), geometry: 100.0 },
        FloatingGroup { root: tabs(12, &[Panel::Adjustments, Panel::Properties]), geometry: 100.0 },
        FloatingGroup { root: split(13, 0.5, tabs(14, &[Panel::Sizes]), tabs(15, &[Panel::Brushes])), geometry: 100.0 },
    ];
    let compact = FloatingToolbarLayout::Compact;
    let act = |group, current, at_default| double_click_action(&bands, &floating, group, current, at_default);
    assert_eq!(act(3, compact, false), Ok(HandleAction::ToggleTab(Panel::Layers)));
    assert_eq!(act(6, compact, false), Ok(HandleAction::RefitToolbar(Panel::Toolbar)));
    assert_eq!(act(4, compact, true), Ok(HandleAction::Nothing));
    assert_eq!(act(2, compact, true), Err(HandleError::UnknownGroup));
    assert_eq!(act(99, compact, true), Err(HandleError::UnknownGroup));
    assert_eq!(act(10, compact, true), Ok(HandleAction::FloatingDefault(FloatingToolbarLayout::Vertical)));
    assert_eq!(act(10, FloatingToolbarLayout::Horizontal, true), Ok(HandleAction::FloatingDefault(compact)));
    assert_eq!(act(10, FloatingToolbarLayout::Vertical, false), Ok(HandleAction::FloatingDefault(compact)));
    assert_eq!(act(11, compact, true), Ok(HandleAction::ResetSize(Some(Panel::Navigator))));
    assert_eq!(act(11, compact, false), Ok(HandleAction::ResetSize(None)));
    assert_eq!(act(12, compact, true), Ok(HandleAction::ResetSize(None)));
    assert_eq!(act(13, compact, true), Err(HandleError::InvalidFloating));
    assert_eq!(act(14, compact, true), Ok(HandleAction::ToggleTab(Panel::Sizes)));
    assert_eq!(HandleError::InvalidFloating.message(), "Invalid floating group");
    assert_eq!(HandleError::UnknownGroup.message(), "Unknown tab group");
}
