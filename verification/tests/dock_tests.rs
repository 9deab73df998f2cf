use layer_ui::dock::{
    active_panel, group_panels, group_tab_style, set_tab_style, panel_group, select_tab, workspace_node, ColumnStack, DockError,
    DockNode, TabError, MAX_DOCK_DEPTH,
};
use layer_ui::panel::{Axis, Panel};

type Node = DockNode<(), u32>;

fn tabs(id: u32, panels: &[Panel], active: Panel) -> Node {
    DockNode::Tabs { id, panels: panels.to_vec(), active, tab_style: () }
}

fn split(id: u32, first: Node, second: Node) -> Node {
    DockNode::Split { id, axis: Axis::Horizontal, fraction: 50, first: Box::new(first), second: Box::new(second) }
}

fn sample() -> Node {
    split(
        1,
        tabs(2, &[Panel::Layers, Panel::Properties], Panel::Properties),
        split(3, tabs(4, &[Panel::Color], Panel::Color), tabs(5, &[Panel::Navigator, Panel::Stats], Panel::Navigator)),
    )
}

fn panels_of(node: &Node) -> Vec<Panel> {
    match node {
        DockNode::Tabs { panels, .. } => panels.clone(),
        DockNode::Split { first, second, .. } => {
            let mut all = panels_of(first);
            all.extend(panels_of(second));
            all
        }
    }
}

fn ids_of(node: &Node) -> Vec<u32> {
    match node {
        DockNode::Tabs { id, .. } => vec![*id],
        DockNode::Split { id, first, second, .. } => {
            let mut all = vec![*id];
            all.extend(ids_of(first));
            all.extend(ids_of(second));
            all
        }
    }
}

fn ratio_ok(r: &u32) -> bool {
    *r > 0 && *r < 100
}

#[test]
fn new_stacks_default_to_full_columns() {
    assert!(!ColumnStack::single(4).drawers);
}

#[test]
fn single_stacks_hold_their_column() {
    assert_eq!(ColumnStack::single(9).columns, vec![9]);
}

#[test]
fn groups_and_nodes_are_found_first_subtree_first() {
    let root = sample();
    assert_eq!(root.id(), 1);
    assert_eq!(root.group_for(Panel::Layers), Some((2, Panel::Properties)));
    assert_eq!(root.group_for(Panel::Stats), Some((5, Panel::Navigator)));
    assert_eq!(root.group_for(Panel::Brushes), None);
    assert_eq!(root.find(4).map(|n| n.id()), Some(4));
    assert_eq!(root.find(3).map(|n| n.id()), Some(3));
    assert!(root.find(42).is_none());
    assert_eq!(root.find_tab(Panel::Stats), Some((5, 1, 2)));
    assert_eq!(root.find_tab(Panel::Layers), Some((2, 0, 2)));
    assert_eq!(root.find_tab(Panel::Sizes), None);
}

#[test]
fn removing_panels_collapses_empty_groups_and_splits() {
    let root = sample().remove(Panel::Color).unwrap();
    assert_eq!(ids_of(&root), vec![1, 2, 5]);
    assert_eq!(panels_of(&root), vec![Panel::Layers, Panel::Properties, Panel::Navigator, Panel::Stats]);
    let root = root.remove(Panel::Properties).unwrap();
    assert_eq!(root.group_for(Panel::Layers), Some((2, Panel::Layers)), "the first remaining tab becomes active");
    let root = root.remove(Panel::Layers).unwrap();
    assert_eq!(ids_of(&root), vec![5]);
    let root = root.remove(Panel::Navigator).unwrap();
    assert!(root.remove(Panel::Stats).is_none());
}

#[test]
fn validation_records_identities_and_panels_in_order() {
    let root = sample();
    let mut ids = Vec::new();
    let mut panels = Vec::new();
    assert_eq!(root.check(&mut ids, &mut panels, 0, &ratio_ok), Ok(()));
    assert_eq!(ids, vec![1, 2, 3, 4, 5]);
    assert_eq!(panels, vec![Panel::Layers, Panel::Properties, Panel::Color, Panel::Navigator, Panel::Stats]);
    // A second walk over the same tree repeats every identity.
    assert_eq!(root.check(&mut ids, &mut panels, 0, &ratio_ok), Err(DockError::InvalidIdentity));
}

#[test]
fn validation_refusals() {
    let run = |node: &Node, depth: usize| {
        let mut ids = Vec::new();
        let mut panels = Vec::new();
        node.check(&mut ids, &mut panels, depth, &ratio_ok)
    };
    assert_eq!(run(&tabs(1, &[], Panel::Color), 0), Err(DockError::InvalidTabSelection));
    assert_eq!(run(&tabs(1, &[Panel::Layers], Panel::Color), 0), Err(DockError::InvalidTabSelection));
    assert_eq!(run(&tabs(1, &[Panel::Color, Panel::Color], Panel::Color), 0), Err(DockError::DuplicatePanel));
    assert_eq!(
        run(&split(1, tabs(2, &[Panel::Color], Panel::Color), tabs(3, &[Panel::Color], Panel::Color)), 0),
        Err(DockError::DuplicatePanel)
    );
    assert_eq!(
        run(&split(1, tabs(1, &[Panel::Color], Panel::Color), tabs(3, &[Panel::Layers], Panel::Layers)), 0),
        Err(DockError::InvalidIdentity)
    );
    let bad_ratio = DockNode::Split {
        id: 1,
        axis: Axis::Vertical,
        fraction: 100,
        first: Box::new(tabs(2, &[Panel::Color], Panel::Color)),
        second: Box::new(tabs(3, &[Panel::Layers], Panel::Layers)),
    };
    assert_eq!(run(&bad_ratio, 0), Err(DockError::InvalidSplitRatio));
    assert_eq!(run(&tabs(1, &[Panel::Color], Panel::Color), MAX_DOCK_DEPTH), Ok(()));
    assert_eq!(run(&tabs(1, &[Panel::Color], Panel::Color), MAX_DOCK_DEPTH + 1), Err(DockError::InvalidIdentity));
    assert_eq!(DockError::DuplicatePanel.message(), "Workspace contains duplicate panels");
    assert_eq!(DockError::InvalidSplitRatio.message(), "Invalid workspace split ratio");
}

#[test]
fn renumbering_hands_out_consecutive_identities_in_preorder() {
    let (root, next) = sample().renumber(100).unwrap();
    assert_eq!(ids_of(&root), vec![100, 101, 102, 103, 104]);
    assert_eq!(next, 105);
    assert_eq!(panels_of(&root), panels_of(&sample()));
    assert_eq!(sample().renumber(u32::MAX - 2).err(), Some(DockError::IdentitiesExhausted));
    let (single, next) = tabs(7, &[Panel::Color], Panel::Color).renumber(u32::MAX - 1).unwrap();
    assert_eq!((single.id(), next), (u32::MAX - 1, u32::MAX));
    assert_eq!(DockError::IdentitiesExhausted.message(), "Workspace identity limit reached");
}

#[test]
fn workspace_queries_span_every_root() {
    let roots = vec![sample(), tabs(9, &[Panel::Brushes, Panel::Sizes], Panel::Sizes)];
    assert_eq!(panel_group(&roots, Panel::Brushes), Some(9));
    assert_eq!(panel_group(&roots, Panel::Color), Some(4));
    assert_eq!(panel_group(&roots, Panel::Adjustments), None);
    assert_eq!(active_panel(&roots, Panel::Brushes), Some(Panel::Sizes));
    assert_eq!(workspace_node(&roots, 9).map(|n| n.id()), Some(9));
    assert!(workspace_node(&roots, 77).is_none());
    assert_eq!(group_panels(&roots, 5).unwrap(), &vec![Panel::Navigator, Panel::Stats]);
    assert_eq!(group_panels(&roots, 3).err(), Some(TabError::UnknownGroup));
    assert_eq!(TabError::UnknownGroup.message(), "Unknown tab group");
}

#[test]
fn selecting_tabs_reports_changes() {
    let mut roots = vec![sample(), tabs(9, &[Panel::Brushes, Panel::Sizes], Panel::Sizes)];
    assert_eq!(select_tab(&mut roots, 9, Panel::Brushes), Ok(true));
    assert_eq!(active_panel(&roots, Panel::Sizes), Some(Panel::Brushes));
    assert_eq!(select_tab(&mut roots, 9, Panel::Brushes), Ok(false));
    assert_eq!(select_tab(&mut roots, 5, Panel::Stats), Ok(true));
    assert_eq!(active_panel(&roots, Panel::Navigator), Some(Panel::Stats));
    assert_eq!(select_tab(&mut roots, 5, Panel::Color), Err(TabError::NotInGroup));
    assert_eq!(select_tab(&mut roots, 3, Panel::Color), Err(TabError::NotInGroup));
    assert_eq!(select_tab(&mut roots, 77, Panel::Color), Err(TabError::NotInGroup));
    assert_eq!(ids_of(&roots[0]), vec![1, 2, 3, 4, 5]);
    assert_eq!(TabError::NotInGroup.message(), "Panel is not in this tab group");
}

use layer_ui::dock::{collapsed_column_for_group, column_for_group, docking_placement, same_docking, DockBand, PlacementPart};
use layer_ui::panel::Edge;

fn vsplit(id: u32, first: Node, second: Node) -> Node {
    DockNode::Split { id, axis: Axis::Vertical, fraction: 50, first: Box::new(first), second: Box::new(second) }
}

fn band(id: u32, edge: Edge, root: Node) -> DockBand<(), u32, u32> {
    DockBand { id, edge, extent: 200, root }
}

#[test]
fn columns_start_at_the_closest_horizontal_split() {
    // Right band: columns 2 | (3 stacked over 4).
    let right = split(1, tabs(2, &[Panel::Layers], Panel::Layers), vsplit(5, tabs(3, &[Panel::Color], Panel::Color), tabs(4, &[Panel::Stats], Panel::Stats)));
    let bands = vec![band(100, Edge::Right, right), band(101, Edge::Top, tabs(6, &[Panel::Navigator], Panel::Navigator))];
    let floating = vec![tabs(7, &[Panel::Brushes], Panel::Brushes)];
    assert_eq!(column_for_group(&bands, &floating, 2), Some(2));
    assert_eq!(column_for_group(&bands, &floating, 3), Some(5));
    assert_eq!(column_for_group(&bands, &floating, 4), Some(5));
    assert_eq!(column_for_group(&bands, &floating, 5), None, "splits are not tab groups");
    assert_eq!(column_for_group(&bands, &floating, 6), None, "top bands have no columns");
    assert_eq!(column_for_group(&bands, &floating, 7), None, "floating groups have no columns");
    let lone = vec![band(100, Edge::Left, split(1, tabs(2, &[Panel::Toolbar], Panel::Toolbar), tabs(3, &[Panel::Color], Panel::Color)))];
    assert_eq!(column_for_group(&lone, &floating, 2), None, "a lone toolbar keeps ribbon behaviour");
    assert_eq!(column_for_group(&lone, &floating, 3), Some(3));
}

#[test]
fn collapsed_columns_show_through_their_outermost_strip() {
    let right = split(1, tabs(2, &[Panel::Layers], Panel::Layers), vsplit(5, tabs(3, &[Panel::Color], Panel::Color), tabs(4, &[Panel::Stats], Panel::Stats)));
    let bands = vec![band(100, Edge::Right, right)];
    assert_eq!(collapsed_column_for_group(&bands, 3, &vec![]), None);
    assert_eq!(collapsed_column_for_group(&bands, 3, &vec![3]), Some(3));
    assert_eq!(collapsed_column_for_group(&bands, 3, &vec![3, 5]), Some(5));
    assert_eq!(collapsed_column_for_group(&bands, 2, &vec![5]), None);
    assert_eq!(collapsed_column_for_group(&bands, 9, &vec![9]), None);
}

#[test]
fn docking_placement_ignores_how_one_axis_nests() {
    let a = || tabs(2, &[Panel::Layers], Panel::Layers);
    let b = || tabs(3, &[Panel::Color], Panel::Color);
    let c = || tabs(4, &[Panel::Stats], Panel::Stats);
    let left_nested = vec![band(100, Edge::Right, split(1, a(), split(5, b(), c())))];
    let right_nested = vec![band(100, Edge::Right, split(1, split(5, a(), b()), c()))];
    assert!(same_docking(&left_nested, &right_nested));
    let crossed = vec![band(100, Edge::Right, split(1, a(), vsplit(5, b(), c())))];
    assert!(!same_docking(&left_nested, &crossed));
    let moved = vec![band(100, Edge::Left, split(1, a(), split(5, b(), c())))];
    assert!(!same_docking(&left_nested, &moved));
    assert_eq!(
        docking_placement(&crossed),
        vec![
            PlacementPart::Band(Edge::Right),
            PlacementPart::Split(Axis::Horizontal),
            PlacementPart::Tabs(2, vec![Panel::Layers]),
            PlacementPart::Split(Axis::Vertical),
            PlacementPart::Tabs(3, vec![Panel::Color]),
            PlacementPart::Tabs(4, vec![Panel::Stats]),
            PlacementPart::End,
            PlacementPart::End,
            PlacementPart::End,
        ]
    );
}

use layer_ui::dock::{detach_bands, prioritize, renumber_bands};

fn band_ids(bands: &[DockBand<(), u32, u32>]) -> Vec<u32> {
    bands.iter().map(|b| b.id).collect()
}

#[test]
fn prioritized_bands_move_first() {
    let mut bands = vec![
        band(10, Edge::Left, tabs(1, &[Panel::Color], Panel::Color)),
        band(11, Edge::Right, tabs(2, &[Panel::Layers], Panel::Layers)),
        band(12, Edge::Top, tabs(3, &[Panel::Toolbar], Panel::Toolbar)),
    ];
    prioritize(&mut bands, 12).unwrap();
    assert_eq!(band_ids(&bands), vec![12, 10, 11]);
    prioritize(&mut bands, 12).unwrap();
    assert_eq!(band_ids(&bands), vec![12, 10, 11]);
    assert_eq!(prioritize(&mut bands, 99), Err(DockError::UnknownDock));
    assert_eq!(band_ids(&bands), vec![12, 10, 11]);
    assert_eq!(DockError::UnknownDock.message(), "Unknown dock");
}

#[test]
fn detaching_panels_drops_emptied_bands() {
    let bands = vec![
        band(10, Edge::Left, tabs(1, &[Panel::Color], Panel::Color)),
        band(11, Edge::Right, sample()),
        band(12, Edge::Top, tabs(3, &[Panel::Toolbar], Panel::Toolbar)),
    ];
    let kept = detach_bands(bands, &[Panel::Color, Panel::Layers, Panel::Toolbar]);
    assert_eq!(band_ids(&kept), vec![11]);
    assert_eq!(kept[0].extent, 200);
    assert_eq!(panels_of(&kept[0].root), vec![Panel::Properties, Panel::Navigator, Panel::Stats]);
    let root = sample().remove_all(&[Panel::Layers, Panel::Properties]).unwrap();
    assert_eq!(ids_of(&root), vec![3, 4, 5]);
    assert!(tabs(1, &[Panel::Color], Panel::Color).remove_all(&[Panel::Color, Panel::Layers]).is_none());
}

#[test]
fn bands_are_renumbered_in_order() {
    let bands = vec![
        band(10, Edge::Left, tabs(1, &[Panel::Color], Panel::Color)),
        band(11, Edge::Right, sample()),
    ];
    let (bands, next) = renumber_bands(bands, 50).unwrap();
    assert_eq!(band_ids(&bands), vec![50, 52]);
    assert_eq!(ids_of(&bands[0].root), vec![51]);
    assert_eq!(ids_of(&bands[1].root), vec![53, 54, 55, 56, 57]);
    assert_eq!(next, 58);
    let exhausted = vec![band(10, Edge::Left, tabs(1, &[Panel::Color], Panel::Color))];
    assert_eq!(renumber_bands(exhausted, u32::MAX - 1).err(), Some(DockError::IdentitiesExhausted));
}

use layer_ui::dock::{tab_insertion_index, tab_move_is_noop};

#[test]
fn moved_tabs_land_at_the_adjusted_slot() {
    assert_eq!(tab_insertion_index(None, 3, None), 3);
    assert_eq!(tab_insertion_index(None, 3, Some(1)), 3);
    assert_eq!(tab_insertion_index(Some(1), 3, None), 1);
    assert_eq!(tab_insertion_index(Some(9), 3, None), 3);
    // Counting from before the tab left its own group.
    assert_eq!(tab_insertion_index(Some(3), 2, Some(0)), 2);
    assert_eq!(tab_insertion_index(Some(0), 2, Some(1)), 0);
    assert!(tab_move_is_noop(Some(0), 3, 5, true));
    assert!(tab_move_is_noop(Some(1), 3, 1, false));
    assert!(tab_move_is_noop(Some(2), 3, 1, false));
    assert!(tab_move_is_noop(None, 3, 2, false));
    assert!(!tab_move_is_noop(Some(0), 3, 2, false));
    assert!(!tab_move_is_noop(None, 3, 0, false));
}

#[test]
fn tabs_are_inserted_and_groups_split() {
    let (root, found) = sample().insert_tabs(5, Some(1), None, &vec![Panel::Sizes, Panel::Brushes], Panel::Sizes);
    assert!(found);
    assert_eq!(root.find_tab(Panel::Sizes), Some((5, 1, 4)));
    assert_eq!(root.group_for(Panel::Navigator), Some((5, Panel::Sizes)));
    assert_eq!(panels_of(&root), vec![Panel::Layers, Panel::Properties, Panel::Color, Panel::Navigator, Panel::Sizes, Panel::Brushes, Panel::Stats]);
    let (same, found) = sample().insert_tabs(3, None, None, &vec![Panel::Sizes], Panel::Sizes);
    assert!(!found, "splits take no tabs");
    assert_eq!(panels_of(&same), panels_of(&sample()));
    let root = sample().split_group(4, 40, Edge::Top, 50, tabs(41, &[Panel::Sizes], Panel::Sizes));
    assert_eq!(ids_of(&root), vec![1, 2, 3, 40, 41, 4, 5]);
    let root = sample().split_group(2, 40, Edge::Right, 50, tabs(41, &[Panel::Sizes], Panel::Sizes));
    assert_eq!(ids_of(&root), vec![1, 40, 2, 41, 3, 4, 5]);
    match root.find(40) {
        Some(DockNode::Split { axis, .. }) => assert_eq!(*axis, Axis::Horizontal),
        _ => panic!("the new split exists"),
    }
}

use layer_ui::dock::group_edge;

#[test]
fn group_edges_follow_the_band_of_the_first_tab() {
    let bands = vec![
        band(10, Edge::Left, tabs(1, &[Panel::Brushes], Panel::Brushes)),
        band(11, Edge::Right, sample()),
    ];
    let floating = vec![tabs(20, &[Panel::Toolbar], Panel::Toolbar)];
    assert_eq!(group_edge(&bands, &floating, 1), Some(Edge::Left));
    assert_eq!(group_edge(&bands, &floating, 5), Some(Edge::Right));
    assert_eq!(group_edge(&bands, &floating, 20), None, "floating groups are on no edge");
    assert_eq!(group_edge(&bands, &floating, 3), None, "splits are not tab groups");
    assert_eq!(group_edge(&bands, &floating, 99), None);
}

fn styled(id: u32, panels: &[Panel], style: u8) -> DockNode<u8, u32> {
    DockNode::Tabs { id, panels: panels.to_vec(), active: panels[0], tab_style: style }
}

#[test]
fn tab_styles_are_written_to_one_group_and_read_back() {
    let tree = DockNode::Split {
        id: 1,
        axis: Axis::Horizontal,
        fraction: 50,
        first: Box::new(styled(2, &[Panel::Layers], 0)),
        second: Box::new(styled(3, &[Panel::Color, Panel::Stats], 0)),
    };
    let mut roots = vec![tree, styled(4, &[Panel::Navigator], 0)];
    assert_eq!(group_tab_style(&roots, 3), Ok(&0));
    assert_eq!(set_tab_style(&mut roots, 3, 7), Ok(()));
    assert_eq!(group_tab_style(&roots, 3), Ok(&7));
    assert_eq!(group_tab_style(&roots, 2), Ok(&0));
    assert_eq!(set_tab_style(&mut roots, 4, 9), Ok(()));
    assert_eq!(group_tab_style(&roots, 4), Ok(&9));
    assert_eq!(set_tab_style(&mut roots, 1, 5), Err(TabError::UnknownGroup));
    assert_eq!(set_tab_style(&mut roots, 99, 5), Err(TabError::UnknownGroup));
    assert_eq!(group_tab_style(&roots, 1), Err(TabError::UnknownGroup));
    assert_eq!(group_panels(&roots, 3).unwrap(), &vec![Panel::Color, Panel::Stats]);
    assert_eq!(active_panel(&roots, Panel::Stats), Some(Panel::Color));
}
