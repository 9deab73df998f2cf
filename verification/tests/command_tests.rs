use layer_ui::catalog::catalog_icons;
use layer_ui::command::{ApplicationLink, CommandId, ZenIcon};
use layer_ui::platform::{HostFeatures, Platform};

const ALL_PLATFORMS: [Platform; 7] = [
    Platform::Gtk,
    Platform::Web,
    Platform::Android,
    Platform::Ios,
    Platform::Mac,
    Platform::Windows,
    Platform::Generic,
];

fn host(native_windows: bool, color_management: bool) -> HostFeatures {
    HostFeatures { native_windows, color_management }
}

#[test]
fn every_command_has_a_packaged_icon_and_distinct_editing_semantics() {
    let icons = catalog_icons(&vec![]);
    for command in CommandId::ALL {
        let icon = command.icon().expect("toolbar commands need meaningful icons");
        assert!(icons.contains(&icon), "{command:?}: {icon} missing from catalog");
    }
    // These actions previously shared misleading glyphs in both hosts.
    for commands in [
        &[CommandId::ClearLayer, CommandId::Eraser, CommandId::DeleteLayer][..],
        &[
            CommandId::Lasso,
            CommandId::SelectAll,
            CommandId::Deselect,
            CommandId::InvertSelection,
        ],
        &[CommandId::FitCanvas, CommandId::ScaleRotate],
        &[CommandId::Fill, CommandId::FillSelection],
        &[CommandId::Undo, CommandId::CancelTransform],
    ] {
        let icons: std::collections::BTreeSet<_> = commands.iter().map(|c| c.icon()).collect();
        assert_eq!(icons.len(), commands.len(), "different operations need distinct symbols");
    }
}

#[test]
fn command_catalogue_sizes_and_order() {
    assert_eq!(CommandId::ALL.len(), 100);
    assert_eq!(CommandId::ALL[0], CommandId::DrawingBrush);
    assert_eq!(CommandId::TOOLS.len(), 25);
    assert_eq!(CommandId::LAYERS.len(), 4);
    let distinct: std::collections::BTreeSet<_> =
        CommandId::ALL.iter().map(|c| format!("{c:?}")).collect();
    assert_eq!(distinct.len(), 100);
}

#[test]
fn command_icons_and_labels() {
    assert_eq!(CommandId::DrawingBrush.icon(), Some("drawing-tools"));
    assert_eq!(CommandId::SaveDocumentAs.icon(), Some("save-as"));
    assert_eq!(CommandId::Ruler.icon(), Some("ruler"));
    assert_eq!(CommandId::ShowRulers.icon(), Some("ruler"));
    assert_eq!(CommandId::Drawings.icon(), Some("new-window"));
    assert_eq!(CommandId::ZenMode.icon(), Some(ZenIcon::LookingUp.icon()));
    assert_eq!(CommandId::DrawingBrush.label(), "Brush");
    assert_eq!(CommandId::Brush.label(), "Paint Brush");
    assert_eq!(CommandId::SoftProofSetup.label(), "Proof\u{2026}");
    assert_eq!(CommandId::SaveDocument.label(), "Save");
    assert_eq!(CommandId::Website.label(), ApplicationLink::Website.label());
    assert_eq!(CommandId::SourceCode.label(), ApplicationLink::SourceCode.label());
}

#[test]
fn toggles_are_the_retained_on_off_commands() {
    for command in [
        CommandId::ZenMode,
        CommandId::Fullscreen,
        CommandId::SoftProof,
        CommandId::GamutWarning,
        CommandId::PreviewSdr,
        CommandId::ShowRulers,
        CommandId::SelectionAdd,
    ] {
        assert!(command.is_toggle(), "{command:?}");
    }
    for command in [CommandId::Undo, CommandId::Brush, CommandId::SoftProofSetup, CommandId::Settings] {
        assert!(!command.is_toggle(), "{command:?}");
    }
}

#[test]
fn availability_follows_the_host() {
    let full = host(true, true);
    for platform in ALL_PLATFORMS {
        assert!(CommandId::DrawingBrush.available_on(platform, full));
        assert!(CommandId::Sculpt.available_on(platform, full));
        assert!(CommandId::Undo.available_on(platform, host(false, false)));
    }
    assert!(CommandId::Select.available_on(Platform::Gtk, full));
    assert!(CommandId::Select.available_on(Platform::Android, full));
    assert!(!CommandId::Select.available_on(Platform::Mac, full));
    assert!(!CommandId::Drawings.available_on(Platform::Generic, full));
    assert!(CommandId::Fullscreen.available_on(Platform::Mac, full));
    assert!(!CommandId::Fullscreen.available_on(Platform::Ios, full));
    assert!(CommandId::NewWindow.available_on(Platform::Gtk, host(true, false)));
    assert!(!CommandId::NewWindow.available_on(Platform::Gtk, host(false, true)));
    assert!(CommandId::PreviewSdr.available_on(Platform::Web, host(false, true)));
    assert!(!CommandId::PreviewSdr.available_on(Platform::Web, host(true, false)));
    assert!(!CommandId::ExportDocument.available_on(Platform::Generic, full));
}
