use layer_ui::catalog::WorkspacePreset;
use layer_ui::command::CommandId;
use layer_ui::dock::{DockBand, DockNode};
use layer_ui::docking::DockLayout;
use layer_ui::panel::{Axis, Edge, Panel};
use layer_ui::platform::Platform;
use layer_ui::presets::{editor_docking, paint_docking, platform_docking, preset_layout, EditorSizes, PlainSizes, PresetLayout, PresetSizes};
use layer_ui::toolbar::ToolbarControl;

type Preset = PresetLayout<u8, u32, u32, u32>;

fn sizes() -> PresetSizes<u8, u32, u32, u32> {
    PresetSizes {
        tab_style: 0,
        toolbar_extent: 56,
        ribbon_extent: 56,
        primary_extent: 288,
        icon_extent: 48,
        navigator_share: 30,
        secondary_share: 50,
        expanded_width: 280,
    }
}

fn build(preset: WorkspacePreset, header_tools: bool) -> Preset {
    preset_layout(preset, header_tools, &sizes()).expect("a shipped arrangement")
}

fn docked(bands: &[DockBand<u8, u32, u32>]) -> Vec<Panel> {
    bands.iter().flat_map(|b| b.root.panels()).collect()
}

fn controls(layout: &Preset, panel: Panel) -> Vec<ToolbarControl> {
    layout.toolbars.tiles(panel).unwrap().iter().map(|t| t.control).collect()
}

fn ids(layout: &Preset, panel: Panel) -> Vec<u32> {
    layout.toolbars.tiles(panel).unwrap().iter().map(|t| t.id).collect()
}

#[test]
fn sketch_has_only_two_medium_toolbars_with_essential_drawers() {
    let layout = build(WorkspacePreset::Painter, false);
    assert_eq!(layout.bands.iter().map(|b| b.edge).collect::<Vec<_>>(), [Edge::Left, Edge::Top]);
    assert!(layout.collapsed.is_empty());
    for panel in Panel::ALL {
        assert_eq!(docked(&layout.bands).contains(&panel), matches!(panel, Panel::Toolbar | Panel::Commands));
    }
    assert!(layout.medium_tiles && layout.hide_toolbar_tabs);
    for panel in [Panel::Brushes, Panel::Sizes, Panel::Layers] {
        let drawer = ToolbarControl::Panel { panel };
        assert!(controls(&layout, Panel::Toolbar).contains(&drawer) || controls(&layout, Panel::Commands).contains(&drawer));
    }
}

#[test]
fn sketch_without_header_tools_keeps_them_docked() {
    let layout = build(WorkspacePreset::Painter, false);
    let panels = docked(&layout.bands);
    assert!(panels.contains(&Panel::Toolbar));
    assert!(panels.contains(&Panel::Commands));
    assert!(layout.canvas_info);
}

#[test]
fn sketch_tiles_are_numbered_from_one_tools_first() {
    let layout = build(WorkspacePreset::Painter, false);
    assert_eq!(ids(&layout, Panel::Toolbar), (1..=9).collect::<Vec<u32>>());
    assert_eq!(ids(&layout, Panel::Commands), (10..=17).collect::<Vec<u32>>());
    assert_eq!(layout.toolbars.next_tile_id(), 18);
    assert_eq!(controls(&layout, Panel::Commands)[0], ToolbarControl::Command { command: CommandId::Undo });
    assert_eq!((layout.bands[1].id, layout.bands[1].root.id(), layout.next_id), (3, 4, 5));
}

#[test]
fn sketch_with_header_tools_docks_nothing_and_hides_canvas_info() {
    let layout = build(WorkspacePreset::Painter, true);
    assert!(layout.bands.is_empty());
    assert!(!layout.canvas_info);
    assert_eq!(layout.next_id, 19);
    assert_eq!(ids(&layout, Panel::Toolbar).len(), 9);
}

#[test]
fn photo_keeps_primary_panels_at_the_right_with_a_collapsed_icon_column() {
    let layout = build(WorkspacePreset::Photographer, false);
    assert_eq!(layout.bands.iter().map(|b| (b.id, b.edge, b.extent)).collect::<Vec<_>>(),
        [(1, Edge::Left, 56), (3, Edge::Right, 288), (7, Edge::Right, 48)]);
    match &layout.bands[2].root {
        DockNode::Split { id, axis, fraction, first, second } => {
            assert_eq!((*id, *axis, *fraction), (8, Axis::Vertical, 50));
            assert_eq!(first.panels(), vec![Panel::Properties, Panel::Adjustments]);
            assert_eq!(second.panels(), vec![Panel::Color, Panel::ToolSettings]);
        }
        DockNode::Tabs { .. } => panic!("the icon column stacks two groups"),
    }
    assert_eq!(layout.collapsed.iter().map(|c| (c.root, c.expanded_width)).collect::<Vec<_>>(), [(8, 280)]);
    assert_eq!(layout.next_id, 11);
    assert!(!layout.medium_tiles && layout.canvas_info);
    assert_eq!(ids(&layout, Panel::Toolbar), (1..=15).collect::<Vec<u32>>());
    assert_eq!(ids(&layout, Panel::Commands), (16..=27).collect::<Vec<u32>>());
    assert_eq!(controls(&layout, Panel::Commands)[11], ToolbarControl::Command { command: CommandId::FlipHorizontal });
}

#[test]
fn paint_restores_its_original_default() {
    assert!(preset_layout(WorkspacePreset::Illustrator, false, &sizes()).is_none());
    let editor = EditorSizes {
        tab_style: 0u8,
        tile_extent: 48u32,
        brushes_extent: 232,
        layers_extent: 288,
        brushes_share: 46u32,
        settings_share: 36,
        upper_share: 55,
        navigator_share: 45,
    };
    let plain = PlainSizes { tab_style: 0u8, column_extent: 232u32, tile_extent: 42, brushes_share: 68u32 };
    for platform in [Platform::Gtk, Platform::Web, Platform::Android, Platform::Windows, Platform::Mac, Platform::Ios] {
        let paint: DockLayout<u8, u32, u32, (), u32> = paint_docking(platform, &editor, &plain, 48, 282);
        let hosted: DockLayout<u8, u32, u32, (), u32> = platform_docking(platform, &editor, &plain);
        assert_eq!(paint.collapsed.iter().map(|c| (c.root, c.expanded_width)).collect::<Vec<_>>(), [(12, 282)]);
        assert_eq!(paint.bands.iter().map(|b| (b.id, b.edge, b.extent)).collect::<Vec<_>>(),
            [(1, Edge::Left, 48), (3, Edge::Left, 232), (11, Edge::Right, 48), (17, Edge::Top, 48)]);
        assert_eq!(
            paint.bands.iter().map(|b| format!("{:?}", b.root)).collect::<Vec<_>>(),
            hosted.bands.iter().map(|b| format!("{:?}", b.root)).collect::<Vec<_>>()
        );
        assert_eq!(paint.next_id, 19);
    }
    let generic: DockLayout<u8, u32, u32, (), u32> = paint_docking(Platform::Generic, &editor, &plain, 48, 282);
    assert!(generic.collapsed.is_empty());
    assert_eq!(generic.bands.iter().map(|b| (b.id, b.extent)).collect::<Vec<_>>(), [(3, 232), (7, 232), (1, 42)]);
}

#[test]
fn editor_docking_places_every_content_group() {
    let sizes = EditorSizes {
        tab_style: 0u8,
        tile_extent: 48u32,
        brushes_extent: 232,
        layers_extent: 288,
        brushes_share: 46u32,
        settings_share: 36,
        upper_share: 55,
        navigator_share: 45,
    };
    let layout: DockLayout<u8, u32, u32, (), u32> = editor_docking(&sizes);
    assert_eq!(layout.bands.iter().map(|b| (b.id, b.edge, b.root.id())).collect::<Vec<_>>(),
        [(1, Edge::Left, 2), (3, Edge::Left, 4), (11, Edge::Right, 12), (17, Edge::Top, 18)]);
    assert_eq!(layout.bands[1].root.panels(), vec![Panel::Brushes, Panel::ToolSettings, Panel::Sizes, Panel::Color]);
    assert_eq!(layout.bands[2].root.panels(), vec![Panel::Navigator, Panel::Stats, Panel::Properties, Panel::Adjustments, Panel::Layers]);
    assert!(layout.floating.is_empty() && layout.collapsed.is_empty());
    assert_eq!(layout.next_id, 19);
}
