use layer_ui::dock::DockNode;
use layer_ui::docking::DockLayout;
use layer_ui::presets::{editor_docking, platform_docking, EditorSizes, PlainSizes};
use layer_ui::workspace::validate_docking;
use layer_ui::command::CommandId;
use layer_ui::command::CommandId::{
    Airbrush, AutoSelect, Blend, Brush, ClearLayer, Decoration, Eraser, Eyedropper, Figure, Fill,
    FillSelection, FlipHorizontal, Gradient, Hand, Lasso, Liquify, Move, NewDocument, OpenDocument,
    Pen, Pencil, Redo, Ruler, SaveDocument, ScaleRotate, Undo,
};
use layer_ui::platform::Platform;
use layer_ui::panel::Panel;
use layer_ui::toolbar::{
    TileDrop, Toolbar, ToolbarControl, ToolbarError, ToolbarRegistry, ToolbarTile, INITIAL_TILE_ID,
};

const TOOL: ToolbarControl = ToolbarControl::Color;
const DIVIDER: ToolbarControl = ToolbarControl::Divider;

fn add(registry: &mut ToolbarRegistry, number: u32, controls: &[ToolbarControl]) -> Panel {
    let panel = Panel::CustomToolbar(number);
    registry.add_toolbar(panel).unwrap();
    if !controls.is_empty() {
        registry.insert_tools(panel, None, controls).unwrap();
    }
    panel
}

fn snapshot(registry: &ToolbarRegistry) -> (Vec<(Panel, Vec<ToolbarTile>)>, u32) {
    (
        registry.toolbars().iter().map(|t| (t.panel, t.tiles.clone())).collect(),
        registry.next_tile_id(),
    )
}

#[test]
fn toolbar_group_moves_preserve_ids_and_only_add_needed_separators() {
    for cross_toolbar in [false, true] {
        for destination_controls in [
            &[TOOL, TOOL, DIVIDER, TOOL][..],
            &[TOOL, TOOL, DIVIDER, DIVIDER, TOOL],
            &[TOOL, TOOL, DIVIDER],
        ] {
            let mut layout = ToolbarRegistry::new();
            let destination = add(&mut layout, 10, destination_controls);
            let source = if cross_toolbar { add(&mut layout, 11, &[TOOL]) } else { destination };
            let tile = layout.tiles(source).unwrap()[0];
            let divider = layout.tiles(destination).unwrap()[2].id;
            let next_id = layout.next_tile_id();
            let need_separator = destination_controls.get(3) == Some(&TOOL);
            layout
                .move_tile(source, tile.id, TileDrop::TileGroup { panel: destination, divider })
                .unwrap();
            let tiles = layout.tiles(destination).unwrap();
            let index = tiles.iter().position(|t| t.id == tile.id).unwrap();
            assert_eq!(tiles[index], tile);
            assert_eq!(tiles[index - 1].id, divider);
            assert!(tiles.get(index + 1).is_none_or(|t| t.control == DIVIDER));
            assert_eq!(layout.next_tile_id(), next_id + u32::from(need_separator));
            if cross_toolbar {
                assert!(layout.tiles(source).unwrap().is_empty());
            }
            let before = snapshot(&layout);
            layout
                .move_tile(destination, tile.id, TileDrop::TileGroup { panel: destination, divider })
                .unwrap();
            assert_eq!(snapshot(&layout), before, "an already separate neighboring tool is a no-op");
        }
    }
}

#[test]
fn toolbar_group_moves_fail_atomically_and_do_not_isolate_separators() {
    let mut layout = ToolbarRegistry::new();
    let panel = add(&mut layout, 10, &[TOOL, TOOL, DIVIDER, TOOL]);
    let tiles = layout.tiles(panel).unwrap().to_vec();
    let tile = tiles[0].id;
    let divider = tiles[2].id;
    for (source, target) in [(tile, tile), (divider, divider), (tile, u32::MAX)] {
        let before = snapshot(&layout);
        assert!(layout
            .move_tile(panel, source, TileDrop::TileGroup { panel, divider: target })
            .is_err());
        assert_eq!(snapshot(&layout), before);
    }
    let saved: Vec<Toolbar> = layout.toolbars().to_vec();
    let mut layout = ToolbarRegistry::from_parts(saved, u32::MAX).unwrap();
    let before = snapshot(&layout);
    assert!(layout
        .move_tile(panel, tile, TileDrop::TileGroup { panel, divider })
        .is_err());
    assert_eq!(snapshot(&layout), before, "ID exhaustion cannot remove the source tool");
}

#[test]
fn group_move_errors_name_the_reason() {
    let mut layout = ToolbarRegistry::new();
    let panel = add(&mut layout, 10, &[TOOL, TOOL, DIVIDER, TOOL]);
    let tiles = layout.tiles(panel).unwrap().to_vec();
    let (tile, divider) = (tiles[0].id, tiles[2].id);
    assert_eq!(
        layout.move_tile(panel, tile, TileDrop::TileGroup { panel, divider: tile }),
        Err(ToolbarError::MissingSeparator)
    );
    assert_eq!(
        layout.move_tile(panel, divider, TileDrop::TileGroup { panel, divider }),
        Err(ToolbarError::SeparatorCannotGroup)
    );
    assert_eq!(
        layout.move_tile(panel, 999, TileDrop::TileGroup { panel, divider }),
        Err(ToolbarError::MissingDraggedTool)
    );
    assert_eq!(layout.move_tile(panel, tile, TileDrop::Elsewhere), Err(ToolbarError::NotToolbar));
    assert_eq!(
        layout.move_tile(panel, tile, TileDrop::Tile { panel: Panel::Layers, before: None }),
        Err(ToolbarError::NotToolbar)
    );
    assert_eq!(
        layout.move_tile(panel, tile, TileDrop::Tile { panel, before: Some(999) }),
        Err(ToolbarError::MissingTarget)
    );
    assert_eq!(
        layout.move_tile(Panel::CustomToolbar(77), tile, TileDrop::Elsewhere),
        Err(ToolbarError::UnknownPanel)
    );
    assert_eq!(ToolbarError::IdsExhausted.message(), "Toolbar tile ID space exhausted");
}

#[test]
fn tile_moves_reorder_and_cross_toolbars_keeping_identity() {
    let mut layout = ToolbarRegistry::new();
    let a = add(&mut layout, 10, &[TOOL, ToolbarControl::Opacity, DIVIDER]);
    let b = add(&mut layout, 11, &[ToolbarControl::Command { command: CommandId::Undo }]);
    let ids: Vec<u32> = layout.tiles(a).unwrap().iter().map(|t| t.id).collect();
    assert_eq!(ids, vec![INITIAL_TILE_ID, INITIAL_TILE_ID + 1, INITIAL_TILE_ID + 2]);
    // Moving a tile before itself changes nothing.
    let before = snapshot(&layout);
    layout.move_tile(a, ids[1], TileDrop::Tile { panel: a, before: Some(ids[1]) }).unwrap();
    assert_eq!(snapshot(&layout), before);
    // Reorder to the end, then across toolbars.
    layout.move_tile(a, ids[0], TileDrop::Tile { panel: a, before: None }).unwrap();
    let order: Vec<u32> = layout.tiles(a).unwrap().iter().map(|t| t.id).collect();
    assert_eq!(order, vec![ids[1], ids[2], ids[0]]);
    let undo = layout.tiles(b).unwrap()[0].id;
    layout.move_tile(a, ids[1], TileDrop::Tile { panel: b, before: Some(undo) }).unwrap();
    let moved: Vec<u32> = layout.tiles(b).unwrap().iter().map(|t| t.id).collect();
    assert_eq!(moved, vec![ids[1], undo]);
    assert_eq!(layout.tiles(b).unwrap()[0].control, ToolbarControl::Opacity);
    assert_eq!(layout.next_tile_id(), INITIAL_TILE_ID + 4);
}

#[test]
fn insert_and_remove_tools() {
    let mut layout = ToolbarRegistry::new();
    let panel = add(&mut layout, 10, &[]);
    assert_eq!(layout.insert_tools(panel, None, &[]), Err(ToolbarError::NoControls));
    assert_eq!(
        layout.insert_tools(Panel::CustomToolbar(3), None, &[TOOL]),
        Err(ToolbarError::UnknownPanel)
    );
    assert_eq!(layout.insert_tools(panel, Some(5), &[TOOL]), Err(ToolbarError::MissingTarget));
    layout.insert_tools(panel, None, &[TOOL, DIVIDER]).unwrap();
    let first = layout.tiles(panel).unwrap()[0].id;
    layout.insert_tools(panel, Some(first), &[ToolbarControl::Opacity]).unwrap();
    let controls: Vec<ToolbarControl> = layout.tiles(panel).unwrap().iter().map(|t| t.control).collect();
    assert_eq!(controls, vec![ToolbarControl::Opacity, TOOL, DIVIDER]);
    assert_eq!(layout.remove_tool(panel, 12345), Err(ToolbarError::MissingTool));
    assert_eq!(layout.remove_tool(Panel::CustomToolbar(4), first), Err(ToolbarError::UnknownPanel));
    layout.remove_tool(panel, first).unwrap();
    let controls: Vec<ToolbarControl> = layout.tiles(panel).unwrap().iter().map(|t| t.control).collect();
    assert_eq!(controls, vec![ToolbarControl::Opacity, DIVIDER]);
}

#[test]
fn registries_refuse_broken_saved_toolbars() {
    let mut layout = ToolbarRegistry::new();
    assert_eq!(layout.add_toolbar(Panel::Layers), Err(ToolbarError::NotToolbar));
    layout.add_toolbar(Panel::Toolbar).unwrap();
    assert_eq!(layout.add_toolbar(Panel::Toolbar), Err(ToolbarError::DuplicateToolbar));
    let tile = |id| ToolbarTile { id, control: TOOL };
    let bar = |panel, ids: &[u32]| Toolbar { panel, tiles: ids.iter().map(|i| tile(*i)).collect() };
    assert!(ToolbarRegistry::from_parts(vec![bar(Panel::Toolbar, &[1, 2])], 3).is_ok());
    assert_eq!(
        ToolbarRegistry::from_parts(vec![bar(Panel::Color, &[1])], 3).err(),
        Some(ToolbarError::NotToolbar)
    );
    assert_eq!(
        ToolbarRegistry::from_parts(vec![bar(Panel::Toolbar, &[1]), bar(Panel::Toolbar, &[2])], 3).err(),
        Some(ToolbarError::DuplicateToolbar)
    );
    assert_eq!(
        ToolbarRegistry::from_parts(vec![bar(Panel::Toolbar, &[1]), bar(Panel::Commands, &[1])], 3).err(),
        Some(ToolbarError::InvalidTileIdentity)
    );
    assert_eq!(
        ToolbarRegistry::from_parts(vec![bar(Panel::Toolbar, &[0])], 3).err(),
        Some(ToolbarError::InvalidTileIdentity)
    );
    assert_eq!(
        ToolbarRegistry::from_parts(vec![bar(Panel::Toolbar, &[1, 5])], 5).err(),
        Some(ToolbarError::InvalidAllocator)
    );
    assert_eq!(
        ToolbarRegistry::from_parts(vec![], 0).err(),
        Some(ToolbarError::InvalidAllocator)
    );
}

#[test]
fn editor_default_has_complete_tools_and_independent_command_ribbon() {
    for platform in [Platform::Windows, Platform::Android, Platform::Web] {
        assert!(Panel::Commands.available_on(platform));
    }
    let registry = ToolbarRegistry::editor_default();
    let commands = |panel| {
        registry
            .tiles(panel)
            .unwrap()
            .iter()
            .filter_map(|t| if let ToolbarControl::Command { command } = t.control { Some(command) } else { None })
            .collect::<Vec<_>>()
    };
    assert_eq!(
        commands(Panel::Toolbar),
        [Pen, Pencil, Brush, Eraser, Airbrush, Decoration, Blend, Liquify, Lasso, AutoSelect, Fill, Gradient, Move, Figure, Ruler, Hand, Eyedropper]
    );
    assert_eq!(
        commands(Panel::Commands),
        [NewDocument, OpenDocument, SaveDocument, Undo, Redo, ClearLayer, FillSelection, ScaleRotate, FlipHorizontal]
    );
    let tools = registry.tiles(Panel::Toolbar).unwrap();
    assert_eq!(tools[8].control, ToolbarControl::Divider);
    assert_eq!(tools[13].control, ToolbarControl::Divider);
    assert_eq!(tools.last().unwrap().control, ToolbarControl::Color);
    assert_eq!(Panel::ToolSettings.label(), "Tool");
    let sizes = EditorSizes {
        tab_style: 0u8,
        tile_extent: 48u32,
        brushes_extent: 232,
        layers_extent: 288,
        brushes_share: 46u32,
        settings_share: 36,
        upper_share: 55,
        navigator_share: 45,
    };
    let layout: DockLayout<u8, u32, u32, (i32, i32), u32> = editor_docking(&sizes);
    let plain = PlainSizes { tab_style: 0u8, column_extent: 232u32, tile_extent: 42, brushes_share: 68u32 };
    for platform in [Platform::Windows, Platform::Android, Platform::Web] {
        let hosted: DockLayout<u8, u32, u32, (i32, i32), u32> = platform_docking(platform, &sizes, &plain);
        assert_eq!(format!("{hosted:?}"), format!("{layout:?}"));
    }
    validate_docking(&layout.bands, &layout.floating, &layout.collapsed, &layout.fit_tab_groups,
        &|r: &u32| *r > 0 && *r < 100, &|x: &u32| *x > 0, &|_: &(i32, i32)| true, &|w: &u32| *w > 0).unwrap();
    let settings_group = layout.bands.iter().find_map(|b| b.root.group_for(Panel::ToolSettings)).unwrap().0;
    let Some(DockNode::Tabs { panels, active, .. }) = layout.bands.iter().find_map(|b| b.root.find(settings_group)) else {
        panic!("Tool tab group");
    };
    assert_eq!(panels, &[Panel::ToolSettings, Panel::Sizes]);
    assert_eq!(*active, Panel::ToolSettings);
}

#[test]
fn editor_default_tiles_are_numbered_tools_first() {
    let registry = ToolbarRegistry::editor_default();
    let ids = |panel| registry.tiles(panel).unwrap().iter().map(|t| t.id).collect::<Vec<_>>();
    assert_eq!(ids(Panel::Toolbar), (1..=20).collect::<Vec<u32>>());
    assert_eq!(ids(Panel::Commands), (21..=32).collect::<Vec<u32>>());
    assert_eq!(registry.next_tile_id(), 33);
    assert_eq!(registry.toolbars().len(), 2);
    assert!(registry.tiles(Panel::CustomToolbar(1)).is_none());
}
