use layer_ui::catalog::{tool_set, ToolSetAction};
use layer_ui::catalog::{
    base_icons, catalog_icons,
    edit_menu, file_menu, menus, panel_choices, view_menu, LayerCanvasTool, UiChange,
    WorkspacePreset, REGION_ALL, REGION_LAYOUT,
};
use layer_ui::command::CommandId;
use layer_ui::panel::{Panel, PanelKind};

#[test]
fn preset_title_bar_controls_follow_the_host_platform() {
    assert_eq!(WorkspacePreset::Illustrator.name(), "Paint");
    assert_eq!(WorkspacePreset::Painter.name(), "Sketch");
    assert_eq!(WorkspacePreset::Photographer.name(), "Photo");
    assert_eq!(WorkspacePreset::ALL.len(), 3);
}

#[test]
fn preset_working_states() {
    assert_eq!(WorkspacePreset::Photographer.working_state().canvas_tool, Some(LayerCanvasTool::Move));
    assert!(WorkspacePreset::Photographer.working_state().brush_default_preset);
    assert!(WorkspacePreset::Painter.working_state().brush_default_preset);
    assert_eq!(WorkspacePreset::Painter.working_state().canvas_tool, None);
    assert!(!WorkspacePreset::Illustrator.working_state().brush_default_preset);
}

#[test]
fn window_menu_lists_every_panel() {
    let choices = panel_choices();
    assert_eq!(choices.len(), Panel::ALL.len());
    assert_eq!(choices[0].id, Panel::Toolbar);
    assert_eq!(choices[0].label, "Tools");
    assert_eq!(choices[0].kind, PanelKind::Tiles);
    assert_eq!(choices[6].label, "Layers");
    assert_eq!(choices[6].kind, PanelKind::Content);
}

#[test]
fn menus_group_related_commands() {
    let edit = edit_menu();
    assert_eq!(edit.label, "Edit");
    assert_eq!(edit.sections[0], vec![CommandId::Undo, CommandId::Redo]);
    assert_eq!(view_menu().sections.len(), 8);
    assert_eq!(file_menu().sections[2].last(), Some(&CommandId::CloseDocument));
    let all = menus();
    let labels: Vec<&str> = all.iter().map(|m| m.label).collect();
    assert_eq!(labels, vec!["Edit", "View", "Window"]);
    assert!(all[2].sections.is_empty());
}

#[test]
fn ui_changes_start_empty() {
    let change = UiChange::default();
    assert_eq!((change.revision, change.regions, change.canvas_wake), (0, 0, false));
    assert_eq!(REGION_ALL & REGION_LAYOUT, REGION_LAYOUT);
}

#[test]
fn icon_catalogue_is_sorted_and_unique() {
    let icons = catalog_icons(&vec!["zz-effect", "brush", "aa-cursor", "brush"]);
    assert!(icons.windows(2).all(|w| w[0] < w[1]));
    assert_eq!(icons.first(), Some(&"aa-cursor"));
    assert_eq!(icons.last(), Some(&"zz-effect"));
    assert!(icons.contains(&"brush-size") && icons.contains(&"search"));
    let mut expected: Vec<&str> = base_icons();
    expected.extend(["zz-effect", "aa-cursor"]);
    expected.sort();
    expected.dedup();
    assert_eq!(icons, expected);
}

#[test]
fn built_in_labels_stay_distinct_ignoring_case() {
    let labels: Vec<String> = Panel::ALL.iter().map(|p| p.label().to_lowercase()).collect();
    for (i, a) in labels.iter().enumerate() {
        for b in &labels[i + 1..] {
            assert_ne!(a, b);
        }
    }
}

#[test]
fn panel_and_command_icons_are_catalogued() {
    let catalogue = catalog_icons(&vec![]);
    let mut content = Vec::new();
    for p in Panel::ALL {
        assert!(catalogue.contains(&p.icon()), "{p:?}");
        if p.kind() == PanelKind::Tiles {
            assert_eq!(p.icon(), "menu");
        } else {
            assert_ne!(p.icon(), "menu");
            assert!(!content.contains(&p.icon()), "{p:?}");
            content.push(p.icon());
        }
    }
    assert_eq!(Panel::CustomToolbar(3).icon(), "menu");
    for c in CommandId::ALL {
        let icon = c.icon().unwrap();
        assert!(catalogue.contains(&icon), "{c:?}");
    }
}

#[test]
fn tool_set_offers_move_and_transform() {
    for transform in [false, true] {
        let set = tool_set(transform);
        assert_eq!(set.iter().map(|e| (e.label, e.icon, e.selected)).collect::<Vec<_>>(),
            [("Move", "move", !transform), ("Transform", "transform", transform)]);
        assert_eq!(set[0].action, ToolSetAction::LayerTool { tool: LayerCanvasTool::Move });
        assert_eq!(set[1].action, ToolSetAction::Invoke { command: CommandId::ScaleRotate });
    }
}
