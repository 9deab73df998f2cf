use layer_ui::panel::{
    Axis, DockItem, Edge, FloatingToolbarLayout, Panel, PanelIdentityError, PanelKind, ResizeEdge,
    TILE_SIZE_UNITS,
};
use layer_ui::platform::Platform;

const PLATFORMS: [Platform; 7] = [
    Platform::Gtk,
    Platform::Web,
    Platform::Android,
    Platform::Ios,
    Platform::Mac,
    Platform::Windows,
    Platform::Generic,
];

#[test]
fn saved_identities_keep_their_original_names() {
    let expected = [
        "toolbar",
        "commands",
        "brushes",
        "tool_settings",
        "color",
        "sizes",
        "layers",
        "adjustments",
        "properties",
        "stats",
        "navigator",
    ];
    for (panel, name) in Panel::ALL.into_iter().zip(expected) {
        assert_eq!(panel.identity(), name);
        assert_eq!(Panel::try_from_identity(name), Ok(panel));
    }
    assert_eq!(Panel::CustomToolbar(7).identity(), "toolbar:7");
    assert_eq!(Panel::CustomToolbar(4294967295).identity(), "toolbar:4294967295");
}

#[test]
fn custom_toolbar_identities_round_trip() {
    for id in [1u32, 9, 10, 123, 65536, u32::MAX] {
        let text = Panel::CustomToolbar(id).identity();
        assert_eq!(Panel::try_from_identity(&text), Ok(Panel::CustomToolbar(id)));
    }
}

#[test]
fn malformed_identities_are_refused() {
    for text in ["", "toolbar:", "toolbar:0", "toolbar:x", "toolbar:4294967296", "Toolbar", "panel"] {
        assert_eq!(Panel::try_from_identity(text), Err(PanelIdentityError::Unknown), "{text}");
    }
    for text in ["toolbar:07", "toolbar:+7", "toolbar:007"] {
        assert_eq!(
            Panel::try_from_identity(text),
            Err(PanelIdentityError::InvalidToolbar),
            "{text}"
        );
    }
    assert_eq!(PanelIdentityError::Unknown.message(), "Unknown panel identity");
    assert_eq!(PanelIdentityError::InvalidToolbar.message(), "Invalid toolbar identity");
}

#[test]
fn panel_labels_icons_and_kinds() {
    let labels = [
        "Tools", "Commands", "Tool Set", "Tool", "Color", "Brush size", "Layers", "Filters",
        "Properties", "Diagnostics", "Navigator",
    ];
    let icons = [
        "menu", "menu", "brush", "settings", "color", "size", "layers", "adjustments",
        "properties", "stats", "navigator",
    ];
    for ((panel, label), icon) in Panel::ALL.into_iter().zip(labels).zip(icons) {
        assert_eq!(panel.label(), label);
        assert_eq!(panel.icon(), icon);
    }
    assert_eq!(Panel::CustomToolbar(3).label(), "Toolbar");
    assert_eq!(Panel::CustomToolbar(3).icon(), "menu");
    for panel in [Panel::Toolbar, Panel::Commands, Panel::CustomToolbar(2)] {
        assert_eq!(panel.kind(), PanelKind::Tiles);
    }
    for panel in &Panel::ALL[2..] {
        assert_eq!(panel.kind(), PanelKind::Content);
    }
}

#[test]
fn default_widths_follow_the_panel_family() {
    assert_eq!(Panel::Brushes.default_width(), 242);
    assert_eq!(Panel::Sizes.default_width(), 242);
    assert_eq!(Panel::Layers.default_width(), 254);
    assert_eq!(Panel::Navigator.default_width(), 254);
    assert_eq!(Panel::Toolbar.default_width(), TILE_SIZE_UNITS);
    assert_eq!(Panel::CustomToolbar(5).default_width(), 36);
}

#[test]
fn every_panel_is_available_on_every_host() {
    for platform in PLATFORMS {
        for panel in Panel::ALL {
            assert!(panel.available_on(platform));
        }
        assert!(Panel::CustomToolbar(1).available_on(platform));
    }
}

#[test]
fn edges_cursors_and_floating_layouts() {
    assert_eq!(Edge::Top.axis(), Axis::Vertical);
    assert_eq!(Edge::Bottom.axis(), Axis::Vertical);
    assert_eq!(Edge::Left.axis(), Axis::Horizontal);
    assert_eq!(Edge::Right.axis(), Axis::Horizontal);
    assert_eq!(ResizeEdge::Left.cursor(), "ew-resize");
    assert_eq!(ResizeEdge::Bottom.cursor(), "ns-resize");
    assert_eq!(ResizeEdge::TopLeft.cursor(), "nwse-resize");
    assert_eq!(ResizeEdge::BottomLeft.cursor(), "nesw-resize");
    let start = FloatingToolbarLayout::default();
    assert_eq!(start, FloatingToolbarLayout::Compact);
    assert_eq!(start.next(), FloatingToolbarLayout::Vertical);
    assert_eq!(start.next().next(), FloatingToolbarLayout::Horizontal);
    for layout in [
        FloatingToolbarLayout::Compact,
        FloatingToolbarLayout::Vertical,
        FloatingToolbarLayout::Horizontal,
    ] {
        assert_eq!(layout.next().next().next(), layout);
    }
    let item = DockItem::Tile { panel: Panel::Toolbar, tile: 3 };
    assert_eq!(item, DockItem::Tile { panel: Panel::Toolbar, tile: 3 });
}

#[test]
fn shown_panels_return_to_their_family_edge() {
    assert_eq!(Panel::Color.default_edge(), Edge::Left);
    assert_eq!(Panel::Sizes.default_edge(), Edge::Left);
    assert_eq!(Panel::Layers.default_edge(), Edge::Right);
    assert_eq!(Panel::Navigator.default_edge(), Edge::Right);
    assert_eq!(Panel::Toolbar.default_edge(), Edge::Top);
    assert_eq!(Panel::CustomToolbar(3).default_edge(), Edge::Top);
}
