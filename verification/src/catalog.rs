//! What hosts show before any document exists: workspace presets, the panel
//! and menu catalogues, and the small records exchanged with every host.
use vstd::prelude::*;
use crate::command::{spec_zen_icon, CommandId, ZenIcon};
use crate::text::{sorted_unique_texts, strictly_sorted, texts};
use crate::panel::{spec_icon, spec_kind, spec_label, Panel, PanelKind};

verus! {

/// A shipped workspace arrangement.
#[derive(Clone, Copy, Debug, PartialEq, Eq, Structural)]
pub enum WorkspacePreset {
    Painter,
    Illustrator,
    Photographer,
}

pub open spec fn spec_preset_name(p: WorkspacePreset) -> Seq<char> {
    match p {
        WorkspacePreset::Painter => "Sketch"@,
        WorkspacePreset::Illustrator => "Paint"@,
        WorkspacePreset::Photographer => "Photo"@,
    }
}

/// The canvas tool of the layer tools.
#[derive(Clone, Copy, Debug, PartialEq, Eq, Structural)]
pub enum LayerCanvasTool {
    Transform,
    Move,
}

/// The editable tool state a workspace starts with, on top of the host's
/// defaults: whether the brush starts on its default preset, and the canvas
/// tool chosen (`None` keeps the host's).
#[derive(Clone, Copy, Debug, PartialEq, Eq, Structural)]
pub struct WorkspaceWorkingState {
    pub brush_default_preset: bool,
    pub canvas_tool: Option<LayerCanvasTool>,
}

impl WorkspacePreset {
    pub const ALL: [WorkspacePreset; 3] = [
        WorkspacePreset::Painter,
        WorkspacePreset::Illustrator,
        WorkspacePreset::Photographer,
    ];

    pub fn name(self) -> (n: &'static str)
        ensures
            n@ == spec_preset_name(self),
    {
        match self {
            WorkspacePreset::Painter => "Sketch",
            WorkspacePreset::Illustrator => "Paint",
            WorkspacePreset::Photographer => "Photo",
        }
    }

    /// Initial tools belong to the editable workspace, never the saved
    /// layout: every preset but the illustrator's starts the brush on its
    /// default preset, and the photographer's starts on the move tool.
    pub fn working_state(self) -> (s: WorkspaceWorkingState)
        ensures
            s.brush_default_preset == (self != WorkspacePreset::Illustrator),
            s.canvas_tool == (if self == WorkspacePreset::Photographer { Some(LayerCanvasTool::Move) } else { None }),
    {
        let mut state = WorkspaceWorkingState { brush_default_preset: false, canvas_tool: None };
        if self != WorkspacePreset::Illustrator {
            state.brush_default_preset = true;
        }
        if self == WorkspacePreset::Photographer {
            state.canvas_tool = Some(LayerCanvasTool::Move);
        }
        state
    }
}

/// A brush offered in the brush catalogue.
#[derive(Clone, Copy, Debug)]
pub struct BrushChoice {
    pub id: u32,
    pub label: &'static str,
    pub category: &'static str,
    pub icon: &'static str,
}

/// A group of brushes under one label and icon.
#[derive(Clone, Debug)]
pub struct BrushCategory {
    pub label: &'static str,
    pub icon: &'static str,
    pub brushes: Vec<BrushChoice>,
}

/// A panel offered in the Window menu.
#[derive(Clone, Copy, Debug)]
pub struct PanelChoice {
    pub id: Panel,
    pub label: &'static str,
    pub kind: PanelKind,
}

/// The Window menu's panels: every built-in panel in menu order, with its
/// label and kind.
pub fn panel_choices() -> (r: Vec<PanelChoice>)
    ensures
        r@.len() == Panel::ALL@.len(),
        forall|i: int| 0 <= i < r@.len() ==> (#[trigger] r@[i]).id == Panel::ALL@[i]
            && r@[i].label@ == spec_label(Panel::ALL@[i]) && r@[i].kind == spec_kind(Panel::ALL@[i]),
{
    let all = Panel::ALL;
    let mut r: Vec<PanelChoice> = Vec::new();
    let mut i: usize = 0;
    while i < all.len()
        invariant
            all@ == Panel::ALL@,
            i <= all@.len(),
            r@.len() == i,
            forall|j: int| 0 <= j < i ==> (#[trigger] r@[j]).id == all@[j]
                && r@[j].label@ == spec_label(all@[j]) && r@[j].kind == spec_kind(all@[j]),
        decreases all@.len() - i,
    {
        let id = all[i];
        r.push(PanelChoice { id, label: id.label(), kind: id.kind() });
        i = i + 1;
    }
    r
}

/// A menu of the application menu bar: its label and its sections of
/// related commands. No section means the live workspace menu.
#[derive(Clone, Debug)]
pub struct MenuSpec {
    pub label: &'static str,
    pub sections: Vec<Vec<CommandId>>,
}

/// The Edit menu.
pub fn edit_menu() -> (m: MenuSpec)
    ensures
        m.label@ == "Edit"@,
        m.sections@.len() == 6,
        m.sections@[0]@ == seq![CommandId::Undo, CommandId::Redo],
        m.sections@[1]@ == seq![CommandId::PasteImage],
        m.sections@[2]@ == seq![CommandId::RasterizeSource, CommandId::ClearLayer, CommandId::FillSelection],
        m.sections@[3]@ == seq![CommandId::ScaleRotate],
        m.sections@[4]@ == seq![CommandId::AssignProfile, CommandId::ConvertColorSpace, CommandId::ChangeBitDepth],
        m.sections@[5]@ == seq![CommandId::Settings],
{
    MenuSpec {
        label: "Edit",
        sections: vec![
            vec![CommandId::Undo, CommandId::Redo],
            vec![CommandId::PasteImage],
            vec![CommandId::RasterizeSource, CommandId::ClearLayer, CommandId::FillSelection],
            vec![CommandId::ScaleRotate],
            vec![CommandId::AssignProfile, CommandId::ConvertColorSpace, CommandId::ChangeBitDepth],
            vec![CommandId::Settings],
        ],
    }
}

/// The View menu.
pub fn view_menu() -> (m: MenuSpec)
    ensures
        m.label@ == "View"@,
        m.sections@.len() == 8,
        m.sections@[0]@ == seq![CommandId::Histogram],
        m.sections@[1]@ == seq![CommandId::SoftProofSetup, CommandId::SoftProof, CommandId::GamutWarning,
            CommandId::SdrRendition, CommandId::PreviewSdr],
        m.sections@[2]@ == seq![CommandId::ZoomIn, CommandId::ZoomOut, CommandId::FitCanvas],
        m.sections@[3]@ == seq![CommandId::RotateLeft, CommandId::RotateRight],
        m.sections@[4]@ == seq![CommandId::FlipHorizontal, CommandId::FlipVertical],
        m.sections@[5]@ == seq![CommandId::ShowRulers, CommandId::SnapRulers],
        m.sections@[6]@ == seq![CommandId::ZenMode, CommandId::Fullscreen],
        m.sections@[7]@ == seq![CommandId::ResetLayout],
{
    MenuSpec {
        label: "View",
        sections: vec![
            vec![CommandId::Histogram],
            vec![CommandId::SoftProofSetup, CommandId::SoftProof, CommandId::GamutWarning, CommandId::SdrRendition, CommandId::PreviewSdr],
            vec![CommandId::ZoomIn, CommandId::ZoomOut, CommandId::FitCanvas],
            vec![CommandId::RotateLeft, CommandId::RotateRight],
            vec![CommandId::FlipHorizontal, CommandId::FlipVertical],
            vec![CommandId::ShowRulers, CommandId::SnapRulers],
            vec![CommandId::ZenMode, CommandId::Fullscreen],
            vec![CommandId::ResetLayout],
        ],
    }
}

/// The File menu.
pub fn file_menu() -> (m: MenuSpec)
    ensures
        m.label@ == "File"@,
        m.sections@.len() == 3,
        m.sections@[0]@ == seq![CommandId::NewDocument, CommandId::OpenDocument, CommandId::ImportImage, CommandId::NewWindow],
        m.sections@[1]@ == seq![CommandId::SaveDocument, CommandId::SaveDocumentAs, CommandId::ExportDocument],
        m.sections@[2]@ == seq![CommandId::DocumentProperties, CommandId::RepairSourceProfile, CommandId::Drawings, CommandId::CloseDocument],
{
    MenuSpec {
        label: "File",
        sections: vec![
            vec![CommandId::NewDocument, CommandId::OpenDocument, CommandId::ImportImage, CommandId::NewWindow],
            vec![CommandId::SaveDocument, CommandId::SaveDocumentAs, CommandId::ExportDocument],
            vec![CommandId::DocumentProperties, CommandId::RepairSourceProfile, CommandId::Drawings, CommandId::CloseDocument],
        ],
    }
}

/// The label of the live workspace menu.
pub open spec fn workspace_menu_label() -> Seq<char> {
    "Window"@
}

/// The menus of hosts awaiting the expanded application menu: Edit, View and
/// the live workspace menu.
pub fn menus() -> (r: Vec<MenuSpec>)
    ensures
        r@.len() == 3,
        r@[0].label@ == "Edit"@,
        r@[1].label@ == "View"@,
        r@[2].label@ == workspace_menu_label() && r@[2].sections@.len() == 0,
{
    vec![edit_menu(), view_menu(), MenuSpec { label: "Window", sections: Vec::new() }]
}

/// The state of a command for a host's button, menu item or shortcut row;
/// `B` is the host's key binding.
#[derive(Clone, Debug)]
pub struct CommandState<B> {
    pub id: CommandId,
    /// A native checkable menu item only for retained on/off commands.
    pub checkable: bool,
    pub icon: Option<&'static str>,
    pub label: &'static str,
    pub enabled: bool,
    pub selected: bool,
    pub shortcut: String,
    pub tooltip: String,
    pub bindings: Vec<B>,
}

/// An open document as a host's tab strip shows it.
#[derive(Clone, Debug)]
pub struct DocumentTab {
    pub id: String,
    pub title: String,
    pub active: bool,
    pub width: u32,
    pub height: u32,
}

/// The phase of a pointer contact.
#[derive(Clone, Copy, Debug, PartialEq, Eq, Structural)]
pub enum ContactPhase {
    Down,
    Move,
    Up,
    Cancel,
}

/// Regions of host state that a change touches; hosts refresh only these.
pub const REGION_LAYOUT: u32 = 1;
pub const REGION_BRUSH: u32 = 2;
pub const REGION_DOCUMENT: u32 = 4;
pub const REGION_COMMANDS: u32 = 8;
pub const REGION_SETTINGS: u32 = 16;
pub const REGION_CAMERA: u32 = 32;
pub const REGION_HOST: u32 = 64;
pub const REGION_CUSTOMIZATION: u32 = 128;
pub const REGION_ALL: u32 = 255;

/// What a request changed: the state revision after it, the regions to
/// refresh, and whether the canvas needs a display callback.
#[derive(Clone, Copy, Debug, PartialEq, Eq, Structural)]
pub struct UiChange {
    pub revision: u64,
    pub regions: u32,
    pub canvas_wake: bool,
}

impl Default for UiChange {
    fn default() -> (c: UiChange)
        ensures
            c.revision == 0,
            c.regions == 0,
            !c.canvas_wake,
    {
        UiChange { revision: 0, regions: 0, canvas_wake: false }
    }
}

/// The icons every host ships for the catalogue's own controls, in the
/// order they are listed.
pub open spec fn spec_base_icons() -> Seq<Seq<char>> {
    seq![
        "brush-size"@, "paint-flow"@, "hardness"@, "brush-spacing"@, "angle"@, "rotation-variation"@,
        "paint-load"@, "water"@, "dilution"@, "edge-strength"@, "edge-width"@, "wet-bleed"@,
        "dry-bleed"@, "strength"@, "close-gap"@, "expand"@, "edge-smooth"@, "feather"@,
        "width"@, "height"@, "position-x"@, "position-y"@, "new-document"@, "open-document"@,
        "save-document"@, "export-document"@, "save-as"@, "close-document"@, "clear"@, "transform"@,
        "close"@, "select-all"@, "deselect"@, "invert-selection"@, "fill-selection"@, "lasso-fill"@,
        "add-layer"@, "toolbar"@, "new-toolbar"@, "reset-layout"@, "new-window"@, "website"@,
        "source-code"@, "adjustments"@, "properties"@, "stats"@, "brush"@, "drawing-tools"@,
        "paper"@, "sculpt"@, "paint"@, "watercolor"@, "oil-paint"@, "marker"@,
        "pastel"@, "spray"@, "gradient-transparent"@, "gradient-radial"@, "gradient-radial-transparent"@, "rectangle-fill"@,
        "rectangle-both"@, "ellipse-fill"@, "ellipse-both"@, "reset"@, "chevron-double-left"@, "chevron-double-right"@,
        "pen"@, "pencil"@, "airbrush"@, "decoration"@, "blend"@, "liquify"@,
        "eraser"@, "lasso"@, "select"@, "rectangle-select"@, "ellipse-select"@, "polygon-select"@,
        "color-select"@, "selection-new"@, "selection-add"@, "selection-subtract"@, "selection-intersect"@, "move"@,
        "alpha-lock"@, "clip"@, "reference"@, "selection-checked"@, "selection-empty"@, "eye"@,
        "eye-hidden"@, "lock"@, "folder"@, "folder-open"@, "link"@, "mask"@,
        "image"@, "more"@, "delete"@, "animation"@, "undo"@, "redo"@,
        "plus"@, "minus"@, "up"@, "down"@, "color"@, "swap"@,
        "color-swap"@, "color-circle"@, "color-square"@, "color-triangle"@, "opacity"@, "grip"@,
        "pin"@, "check"@, "fit"@, "navigator"@, "hand"@, "eyedropper"@,
        "gradient"@, "figure"@, "ruler"@, "ruler-parallel"@, "ruler-radial"@, "ruler-snap"@,
        "line"@, "rectangle"@, "ellipse"@, "auto-select"@, "fill"@, "rotate-left"@,
        "rotate-right"@, "flip-horizontal"@, "fullscreen-enter"@, "fullscreen-exit"@, "flip-vertical"@, spec_zen_icon(ZenIcon::LookingUp),
        spec_zen_icon(ZenIcon::FacingForward), spec_zen_icon(ZenIcon::Bathing), spec_zen_icon(ZenIcon::Sleeping), "settings"@, "menu"@, "size"@,
        "layers"@, "appearance"@, "keyboard"@, "info"@, "search"@,
    ]
}

/// The icons every host ships for the catalogue's own controls.
pub fn base_icons() -> (v: Vec<&'static str>)
    ensures
        texts(v@) == spec_base_icons(),
{
    let v = vec![
        "brush-size", "paint-flow", "hardness", "brush-spacing", "angle", "rotation-variation",
        "paint-load", "water", "dilution", "edge-strength", "edge-width", "wet-bleed",
        "dry-bleed", "strength", "close-gap", "expand", "edge-smooth", "feather",
        "width", "height", "position-x", "position-y", "new-document", "open-document",
        "save-document", "export-document", "save-as", "close-document", "clear", "transform",
        "close", "select-all", "deselect", "invert-selection", "fill-selection", "lasso-fill",
        "add-layer", "toolbar", "new-toolbar", "reset-layout", "new-window", "website",
        "source-code", "adjustments", "properties", "stats", "brush", "drawing-tools",
        "paper", "sculpt", "paint", "watercolor", "oil-paint", "marker",
        "pastel", "spray", "gradient-transparent", "gradient-radial", "gradient-radial-transparent", "rectangle-fill",
        "rectangle-both", "ellipse-fill", "ellipse-both", "reset", "chevron-double-left", "chevron-double-right",
        "pen", "pencil", "airbrush", "decoration", "blend", "liquify",
        "eraser", "lasso", "select", "rectangle-select", "ellipse-select", "polygon-select",
        "color-select", "selection-new", "selection-add", "selection-subtract", "selection-intersect", "move",
        "alpha-lock", "clip", "reference", "selection-checked", "selection-empty", "eye",
        "eye-hidden", "lock", "folder", "folder-open", "link", "mask",
        "image", "more", "delete", "animation", "undo", "redo",
        "plus", "minus", "up", "down", "color", "swap",
        "color-swap", "color-circle", "color-square", "color-triangle", "opacity", "grip",
        "pin", "check", "fit", "navigator", "hand", "eyedropper",
        "gradient", "figure", "ruler", "ruler-parallel", "ruler-radial", "ruler-snap",
        "line", "rectangle", "ellipse", "auto-select", "fill", "rotate-left",
        "rotate-right", "flip-horizontal", "fullscreen-enter", "fullscreen-exit", "flip-vertical", ZenIcon::LookingUp.icon(),
        ZenIcon::FacingForward.icon(), ZenIcon::Bathing.icon(), ZenIcon::Sleeping.icon(), "settings", "menu", "size",
        "layers", "appearance", "keyboard", "info", "search",
    ];
    assert(texts(v@) =~= spec_base_icons());
    v
}

/// The icon catalogue: the base icons together with `extra` (the cursor and
/// effect icons of the host's engine), each once, in text order.
pub fn catalog_icons(extra: &Vec<&'static str>) -> (r: Vec<&'static str>)
    ensures
        strictly_sorted(r@),
        forall|a: int| 0 <= a < r@.len() ==> (spec_base_icons() + texts(extra@)).contains(#[trigger] r@[a]@),
        forall|t: Seq<char>| (spec_base_icons() + texts(extra@)).contains(t) ==> #[trigger] texts(r@).contains(t),
{
    let mut all = base_icons();
    let ghost base = all@;
    let mut i: usize = 0;
    while i < extra.len()
        invariant
            i <= extra@.len(),
            texts(base) == spec_base_icons(),
            all@ == base + extra@.subrange(0, i as int),
        decreases extra@.len() - i,
    {
        all.push(extra[i]);
        i = i + 1;
        assert(all@ =~= base + extra@.subrange(0, i as int));
    }
    assert(extra@.subrange(0, extra@.len() as int) =~= extra@);
    assert(texts(all@) =~= spec_base_icons() + texts(extra@));
    let r = sorted_unique_texts(&all);
    assert forall|t: Seq<char>| (spec_base_icons() + texts(extra@)).contains(t) implies #[trigger] texts(r@).contains(t) by {
        let c = choose|c: int| 0 <= c < texts(all@).len() && texts(all@)[c] == t;
        assert(texts(r@).contains(all@[c]@));
    }
    r
}

/// Toolbars show the menu icon; the built-in content panels each have an
/// icon of their own, never the menu icon; and every panel's icon is among
/// the base icons, so every icon catalogue lists it.
pub proof fn lemma_panel_icons(p: Panel, q: Panel)
    ensures
        spec_kind(p) == PanelKind::Tiles ==> spec_icon(p) == "menu"@,
        spec_kind(p) == PanelKind::Content ==> spec_icon(p) != "menu"@,
        spec_kind(p) == PanelKind::Content && spec_kind(q) == PanelKind::Content && p != q
            ==> spec_icon(p) != spec_icon(q),
        spec_base_icons().contains(spec_icon(p)),
{
    reveal_strlit("menu");
    reveal_strlit("brush");
    reveal_strlit("settings");
    reveal_strlit("color");
    reveal_strlit("size");
    reveal_strlit("layers");
    reveal_strlit("adjustments");
    reveal_strlit("properties");
    reveal_strlit("stats");
    reveal_strlit("navigator");
    let a = spec_icon(p);
    let b = spec_icon(q);
    if a == b {
        assert(a.len() == b.len());
        assert(a[0] == b[0]);
    }
    if a == "menu"@ {
        assert(a.len() == 4);
        assert(a[0] == 'm');
    }
    match p {
        Panel::Toolbar | Panel::Commands | Panel::CustomToolbar(_) => {
            assert(spec_base_icons()[142] == "menu"@);
        },
        Panel::Brushes => {
            assert(spec_base_icons()[46] == "brush"@);
        },
        Panel::ToolSettings => {
            assert(spec_base_icons()[141] == "settings"@);
        },
        Panel::Color => {
            assert(spec_base_icons()[106] == "color"@);
        },
        Panel::Sizes => {
            assert(spec_base_icons()[143] == "size"@);
        },
        Panel::Layers => {
            assert(spec_base_icons()[144] == "layers"@);
        },
        Panel::Adjustments => {
            assert(spec_base_icons()[43] == "adjustments"@);
        },
        Panel::Properties => {
            assert(spec_base_icons()[44] == "properties"@);
        },
        Panel::Stats => {
            assert(spec_base_icons()[45] == "stats"@);
        },
        Panel::Navigator => {
            assert(spec_base_icons()[117] == "navigator"@);
        },
    }
}

/// Every command has a packaged icon that the base icons, and so every
/// icon catalogue, list.
pub proof fn lemma_command_icon_listed(c: CommandId)
    ensures
        spec_base_icons().contains(crate::command::spec_icon(c)),
{
    match c {
        CommandId::DrawingBrush => {
            assert(spec_base_icons()[47] == "drawing-tools"@);
        },
        CommandId::Sculpt => {
            assert(spec_base_icons()[49] == "sculpt"@);
        },
        CommandId::SdrRendition | CommandId::PreviewSdr | CommandId::SoftProofSetup | CommandId::SoftProof | CommandId::GamutWarning => {
            assert(spec_base_icons()[96] == "image"@);
        },
        CommandId::Histogram => {
            assert(spec_base_icons()[45] == "stats"@);
        },
        CommandId::ImportImage | CommandId::PasteImage | CommandId::RasterizeSource => {
            assert(spec_base_icons()[96] == "image"@);
        },
        CommandId::AssignProfile | CommandId::ConvertColorSpace | CommandId::ChangeBitDepth | CommandId::DocumentProperties | CommandId::RepairSourceProfile => {
            assert(spec_base_icons()[147] == "info"@);
        },
        CommandId::NewDocument => {
            assert(spec_base_icons()[22] == "new-document"@);
        },
        CommandId::OpenDocument => {
            assert(spec_base_icons()[23] == "open-document"@);
        },
        CommandId::SaveDocument => {
            assert(spec_base_icons()[24] == "save-document"@);
        },
        CommandId::SaveDocumentAs => {
            assert(spec_base_icons()[26] == "save-as"@);
        },
        CommandId::ExportDocument => {
            assert(spec_base_icons()[25] == "export-document"@);
        },
        CommandId::CloseDocument => {
            assert(spec_base_icons()[27] == "close-document"@);
        },
        CommandId::Pen => {
            assert(spec_base_icons()[66] == "pen"@);
        },
        CommandId::Pencil => {
            assert(spec_base_icons()[67] == "pencil"@);
        },
        CommandId::Brush => {
            assert(spec_base_icons()[46] == "brush"@);
        },
        CommandId::Eraser => {
            assert(spec_base_icons()[72] == "eraser"@);
        },
        CommandId::Airbrush => {
            assert(spec_base_icons()[68] == "airbrush"@);
        },
        CommandId::Decoration => {
            assert(spec_base_icons()[69] == "decoration"@);
        },
        CommandId::Blend => {
            assert(spec_base_icons()[70] == "blend"@);
        },
        CommandId::Liquify => {
            assert(spec_base_icons()[71] == "liquify"@);
        },
        CommandId::Lasso => {
            assert(spec_base_icons()[73] == "lasso"@);
        },
        CommandId::Select => {
            assert(spec_base_icons()[74] == "select"@);
        },
        CommandId::RectangleSelect => {
            assert(spec_base_icons()[75] == "rectangle-select"@);
        },
        CommandId::EllipseSelect => {
            assert(spec_base_icons()[76] == "ellipse-select"@);
        },
        CommandId::PolygonSelect => {
            assert(spec_base_icons()[77] == "polygon-select"@);
        },
        CommandId::ColorSelect => {
            assert(spec_base_icons()[78] == "color-select"@);
        },
        CommandId::SelectionNew => {
            assert(spec_base_icons()[79] == "selection-new"@);
        },
        CommandId::SelectionAdd => {
            assert(spec_base_icons()[80] == "selection-add"@);
        },
        CommandId::SelectionSubtract => {
            assert(spec_base_icons()[81] == "selection-subtract"@);
        },
        CommandId::SelectionIntersect => {
            assert(spec_base_icons()[82] == "selection-intersect"@);
        },
        CommandId::SelectionAntialias => {
            assert(spec_base_icons()[74] == "select"@);
        },
        CommandId::SelectionConstrainAngles => {
            assert(spec_base_icons()[122] == "ruler"@);
        },
        CommandId::SelectionFixedRatio => {
            assert(spec_base_icons()[75] == "rectangle-select"@);
        },
        CommandId::SelectionFixedSize => {
            assert(spec_base_icons()[75] == "rectangle-select"@);
        },
        CommandId::SelectionFromCenter => {
            assert(spec_base_icons()[74] == "select"@);
        },
        CommandId::CompleteSelection => {
            assert(spec_base_icons()[87] == "selection-checked"@);
        },
        CommandId::CancelSelection => {
            assert(spec_base_icons()[32] == "deselect"@);
        },
        CommandId::SelectionVisible => {
            assert(spec_base_icons()[89] == "eye"@);
        },
        CommandId::SelectionEditing => {
            assert(spec_base_icons()[144] == "layers"@);
        },
        CommandId::SelectionReference => {
            assert(spec_base_icons()[86] == "reference"@);
        },
        CommandId::Move => {
            assert(spec_base_icons()[83] == "move"@);
        },
        CommandId::ScaleRotate => {
            assert(spec_base_icons()[29] == "transform"@);
        },
        CommandId::ApplyTransform => {
            assert(spec_base_icons()[115] == "check"@);
        },
        CommandId::CancelTransform => {
            assert(spec_base_icons()[30] == "close"@);
        },
        CommandId::TransformAspect => {
            assert(spec_base_icons()[94] == "link"@);
        },
        CommandId::PlacementOriginalSize => {
            assert(spec_base_icons()[29] == "transform"@);
        },
        CommandId::Hand => {
            assert(spec_base_icons()[118] == "hand"@);
        },
        CommandId::Eyedropper => {
            assert(spec_base_icons()[119] == "eyedropper"@);
        },
        CommandId::Gradient => {
            assert(spec_base_icons()[120] == "gradient"@);
        },
        CommandId::Figure => {
            assert(spec_base_icons()[121] == "figure"@);
        },
        CommandId::Ruler | CommandId::ShowRulers => {
            assert(spec_base_icons()[122] == "ruler"@);
        },
        CommandId::SnapRulers => {
            assert(spec_base_icons()[125] == "ruler-snap"@);
        },
        CommandId::DeleteRuler => {
            assert(spec_base_icons()[98] == "delete"@);
        },
        CommandId::AutoSelect => {
            assert(spec_base_icons()[129] == "auto-select"@);
        },
        CommandId::Fill => {
            assert(spec_base_icons()[130] == "fill"@);
        },
        CommandId::Undo | CommandId::UndoWorkspace => {
            assert(spec_base_icons()[100] == "undo"@);
        },
        CommandId::Redo | CommandId::RedoWorkspace => {
            assert(spec_base_icons()[101] == "redo"@);
        },
        CommandId::ClearLayer => {
            assert(spec_base_icons()[28] == "clear"@);
        },
        CommandId::FillSelection => {
            assert(spec_base_icons()[34] == "fill-selection"@);
        },
        CommandId::SelectAll => {
            assert(spec_base_icons()[31] == "select-all"@);
        },
        CommandId::Deselect => {
            assert(spec_base_icons()[32] == "deselect"@);
        },
        CommandId::InvertSelection => {
            assert(spec_base_icons()[33] == "invert-selection"@);
        },
        CommandId::NewToolbar => {
            assert(spec_base_icons()[38] == "new-toolbar"@);
        },
        CommandId::ManageToolbars | CommandId::CustomizeWorkspaceUi => {
            assert(spec_base_icons()[37] == "toolbar"@);
        },
        CommandId::FitCanvas => {
            assert(spec_base_icons()[116] == "fit"@);
        },
        CommandId::ZoomIn => {
            assert(spec_base_icons()[102] == "plus"@);
        },
        CommandId::ZoomOut => {
            assert(spec_base_icons()[103] == "minus"@);
        },
        CommandId::RotateLeft => {
            assert(spec_base_icons()[131] == "rotate-left"@);
        },
        CommandId::RotateRight => {
            assert(spec_base_icons()[132] == "rotate-right"@);
        },
        CommandId::FlipHorizontal => {
            assert(spec_base_icons()[133] == "flip-horizontal"@);
        },
        CommandId::FlipVertical => {
            assert(spec_base_icons()[136] == "flip-vertical"@);
        },
        CommandId::ZenMode => {
            assert(spec_base_icons()[137] == spec_zen_icon(ZenIcon::LookingUp));
        },
        CommandId::Fullscreen => {
            assert(spec_base_icons()[134] == "fullscreen-enter"@);
        },
        CommandId::Settings => {
            assert(spec_base_icons()[141] == "settings"@);
        },
        CommandId::ToggleTheme => {
            assert(spec_base_icons()[145] == "appearance"@);
        },
        CommandId::AddLayer => {
            assert(spec_base_icons()[36] == "add-layer"@);
        },
        CommandId::DeleteLayer => {
            assert(spec_base_icons()[98] == "delete"@);
        },
        CommandId::RaiseLayer => {
            assert(spec_base_icons()[104] == "up"@);
        },
        CommandId::LowerLayer => {
            assert(spec_base_icons()[105] == "down"@);
        },
        CommandId::ResetLayout => {
            assert(spec_base_icons()[39] == "reset-layout"@);
        },
        CommandId::NewWindow | CommandId::Drawings => {
            assert(spec_base_icons()[40] == "new-window"@);
        },
        CommandId::KeyboardShortcuts => {
            assert(spec_base_icons()[146] == "keyboard"@);
        },
        CommandId::About => {
            assert(spec_base_icons()[147] == "info"@);
        },
        CommandId::Website => {
            assert(spec_base_icons()[41] == "website"@);
        },
        CommandId::SourceCode => {
            assert(spec_base_icons()[42] == "source-code"@);
        },
    }
}

/// What choosing an entry of the layer tool set does: run a command, or
/// switch the layer canvas tool.
#[derive(Clone, Copy, Debug, PartialEq, Eq, Structural)]
pub enum ToolSetAction {
    Invoke { command: CommandId },
    LayerTool { tool: LayerCanvasTool },
}

/// One entry of the layer tool set: its label, icon, whether it is the
/// current choice, and what choosing it does.
#[derive(Clone, Copy, Debug)]
pub struct ToolSetEntry {
    pub label: &'static str,
    pub icon: &'static str,
    pub selected: bool,
    pub action: ToolSetAction,
}

/// The layer tool set: Move, which switches the canvas tool to moving, and
/// Transform, which runs Scale & Rotate; `transform` selects the second.
pub fn tool_set(transform: bool) -> (r: Vec<ToolSetEntry>)
    ensures
        r@.len() == 2,
        r@[0].label@ == "Move"@ && r@[0].icon@ == "move"@ && r@[0].selected == !transform
            && r@[0].action == (ToolSetAction::LayerTool { tool: LayerCanvasTool::Move }),
        r@[1].label@ == "Transform"@ && r@[1].icon@ == "transform"@ && r@[1].selected == transform
            && r@[1].action == (ToolSetAction::Invoke { command: CommandId::ScaleRotate }),
{
    vec![
        ToolSetEntry { label: "Move", icon: "move", selected: !transform, action: ToolSetAction::LayerTool { tool: LayerCanvasTool::Move } },
        ToolSetEntry { label: "Transform", icon: "transform", selected: transform, action: ToolSetAction::Invoke { command: CommandId::ScaleRotate } },
    ]
}

} // verus!
