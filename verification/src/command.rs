//! Commands offered by toolbars, menus and shortcuts: their labels, icons,
//! toggle behavior and the hosts that provide them.
use vstd::prelude::*;
use crate::platform::{HostFeatures, Platform};

verus! {

/// A command that buttons, menus, shortcuts and accessibility all invoke.
#[derive(Clone, Copy, Debug, PartialEq, Eq, Structural)]
pub enum CommandId {
    DrawingBrush,
    Sculpt,
    SdrRendition,
    PreviewSdr,
    SoftProofSetup,
    SoftProof,
    GamutWarning,
    Histogram,
    ImportImage,
    PasteImage,
    DocumentProperties,
    AssignProfile,
    ConvertColorSpace,
    ChangeBitDepth,
    RepairSourceProfile,
    RasterizeSource,
    NewDocument,
    OpenDocument,
    SaveDocument,
    SaveDocumentAs,
    ExportDocument,
    CloseDocument,
    Pen,
    Pencil,
    Brush,
    Eraser,
    Airbrush,
    Decoration,
    Blend,
    Liquify,
    Lasso,
    Select,
    RectangleSelect,
    EllipseSelect,
    PolygonSelect,
    ColorSelect,
    SelectionNew,
    SelectionAdd,
    SelectionSubtract,
    SelectionIntersect,
    SelectionAntialias,
    SelectionConstrainAngles,
    SelectionFixedRatio,
    SelectionFixedSize,
    SelectionFromCenter,
    CompleteSelection,
    CancelSelection,
    SelectionVisible,
    SelectionEditing,
    SelectionReference,
    Move,
    ScaleRotate,
    ApplyTransform,
    CancelTransform,
    TransformAspect,
    PlacementOriginalSize,
    Hand,
    Eyedropper,
    Gradient,
    Figure,
    Ruler,
    ShowRulers,
    SnapRulers,
    DeleteRuler,
    AutoSelect,
    Fill,
    Undo,
    Redo,
    ClearLayer,
    FillSelection,
    SelectAll,
    Deselect,
    InvertSelection,
    UndoWorkspace,
    RedoWorkspace,
    NewToolbar,
    ManageToolbars,
    CustomizeWorkspaceUi,
    FitCanvas,
    ZoomIn,
    ZoomOut,
    RotateLeft,
    RotateRight,
    FlipHorizontal,
    FlipVertical,
    Settings,
    ToggleTheme,
    AddLayer,
    DeleteLayer,
    RaiseLayer,
    LowerLayer,
    ResetLayout,
    ZenMode,
    Fullscreen,
    NewWindow,
    KeyboardShortcuts,
    About,
    Website,
    SourceCode,
    Drawings,
}

/// The four states of the zen-mode figure shown in the header.
#[derive(Clone, Copy, Debug, PartialEq, Eq, Structural)]
pub enum ZenIcon {
    LookingUp,
    FacingForward,
    Bathing,
    Sleeping,
}

pub open spec fn spec_zen_icon(z: ZenIcon) -> Seq<char> {
    match z {
        ZenIcon::LookingUp => "zen-looking-up"@,
        ZenIcon::FacingForward => "zen-facing-forward"@,
        ZenIcon::Bathing => "zen-bathing"@,
        ZenIcon::Sleeping => "zen-sleeping"@,
    }
}

impl ZenIcon {
    pub fn icon(self) -> (s: &'static str)
        ensures
            s@ == spec_zen_icon(self),
    {
        match self {
            ZenIcon::LookingUp => "zen-looking-up",
            ZenIcon::FacingForward => "zen-facing-forward",
            ZenIcon::Bathing => "zen-bathing",
            ZenIcon::Sleeping => "zen-sleeping",
        }
    }
}

/// External pages the application links to.
#[derive(Clone, Copy, Debug, PartialEq, Eq, Structural)]
pub enum ApplicationLink {
    Website,
    SourceCode,
}

pub open spec fn spec_link_label(l: ApplicationLink) -> Seq<char> {
    match l {
        ApplicationLink::Website => "Website"@,
        ApplicationLink::SourceCode => "Source Code"@,
    }
}

impl ApplicationLink {
    pub fn label(self) -> (s: &'static str)
        ensures
            s@ == spec_link_label(self),
    {
        match self {
            ApplicationLink::Website => "Website",
            ApplicationLink::SourceCode => "Source Code",
        }
    }
}

/// Selection tools and their options, provided by hosts with a selection UI.
pub open spec fn selection_command(c: CommandId) -> bool {
    c is Select || c is RectangleSelect || c is EllipseSelect || c is PolygonSelect || c is ColorSelect || c is SelectionNew || c is SelectionAdd || c is SelectionSubtract || c is SelectionIntersect || c is SelectionAntialias || c is SelectionConstrainAngles || c is SelectionFixedRatio || c is SelectionFixedSize || c is SelectionFromCenter || c is CompleteSelection || c is CancelSelection || c is SelectionVisible || c is SelectionEditing || c is SelectionReference
}

/// Document, proof and link commands, provided by every native or web host
/// but not by the generic host.
pub open spec fn document_host_command(c: CommandId) -> bool {
    c is Drawings || c is SoftProofSetup || c is SoftProof || c is GamutWarning || c is Histogram || c is ImportImage || c is PasteImage || c is AssignProfile || c is ConvertColorSpace || c is ChangeBitDepth || c is DocumentProperties || c is RasterizeSource || c is RepairSourceProfile || c is CustomizeWorkspaceUi || c is NewDocument || c is OpenDocument || c is SaveDocument || c is SaveDocumentAs || c is CloseDocument || c is ExportDocument || c is Website || c is SourceCode
}

pub open spec fn spec_available_on(c: CommandId, platform: Platform, host: HostFeatures) -> bool {
    if selection_command(c) {
        platform is Gtk || platform is Web || platform is Android
    } else if c is DrawingBrush || c is Sculpt {
        true
    } else if c is SdrRendition || c is PreviewSdr {
        host.color_management
    } else if document_host_command(c) {
        !(platform is Generic)
    } else if c is Fullscreen {
        platform is Gtk || platform is Web || platform is Mac || platform is Windows
    } else if c is NewWindow {
        host.native_windows
    } else {
        true
    }
}

/// Retained on/off commands, presented as checkable menu items.
pub open spec fn spec_is_toggle(c: CommandId) -> bool {
    c is SelectionNew || c is SelectionAdd || c is SelectionSubtract || c is SelectionIntersect || c is SelectionAntialias || c is SelectionConstrainAngles || c is SelectionFixedRatio || c is SelectionFixedSize || c is SelectionFromCenter || c is SelectionVisible || c is SelectionEditing || c is SelectionReference || c is ZenMode || c is Fullscreen || c is ToggleTheme || c is FlipHorizontal || c is FlipVertical || c is ShowRulers || c is SnapRulers || c is TransformAspect || c is PreviewSdr || c is SoftProof || c is GamutWarning
}

pub open spec fn spec_icon(c: CommandId) -> Seq<char> {
    match c {
        CommandId::DrawingBrush => "drawing-tools"@,
        CommandId::Sculpt => "sculpt"@,
        CommandId::SdrRendition | CommandId::PreviewSdr | CommandId::SoftProofSetup | CommandId::SoftProof | CommandId::GamutWarning => "image"@,
        CommandId::Histogram => "stats"@,
        CommandId::ImportImage | CommandId::PasteImage | CommandId::RasterizeSource => "image"@,
        CommandId::AssignProfile | CommandId::ConvertColorSpace | CommandId::ChangeBitDepth | CommandId::DocumentProperties | CommandId::RepairSourceProfile => "info"@,
        CommandId::NewDocument => "new-document"@,
        CommandId::OpenDocument => "open-document"@,
        CommandId::SaveDocument => "save-document"@,
        CommandId::SaveDocumentAs => "save-as"@,
        CommandId::ExportDocument => "export-document"@,
        CommandId::CloseDocument => "close-document"@,
        CommandId::Pen => "pen"@,
        CommandId::Pencil => "pencil"@,
        CommandId::Brush => "brush"@,
        CommandId::Eraser => "eraser"@,
        CommandId::Airbrush => "airbrush"@,
        CommandId::Decoration => "decoration"@,
        CommandId::Blend => "blend"@,
        CommandId::Liquify => "liquify"@,
        CommandId::Lasso => "lasso"@,
        CommandId::Select => "select"@,
        CommandId::RectangleSelect => "rectangle-select"@,
        CommandId::EllipseSelect => "ellipse-select"@,
        CommandId::PolygonSelect => "polygon-select"@,
        CommandId::ColorSelect => "color-select"@,
        CommandId::SelectionNew => "selection-new"@,
        CommandId::SelectionAdd => "selection-add"@,
        CommandId::SelectionSubtract => "selection-subtract"@,
        CommandId::SelectionIntersect => "selection-intersect"@,
        CommandId::SelectionAntialias => "select"@,
        CommandId::SelectionConstrainAngles => "ruler"@,
        CommandId::SelectionFixedRatio => "rectangle-select"@,
        CommandId::SelectionFixedSize => "rectangle-select"@,
        CommandId::SelectionFromCenter => "select"@,
        CommandId::CompleteSelection => "selection-checked"@,
        CommandId::CancelSelection => "deselect"@,
        CommandId::SelectionVisible => "eye"@,
        CommandId::SelectionEditing => "layers"@,
        CommandId::SelectionReference => "reference"@,
        CommandId::Move => "move"@,
        CommandId::ScaleRotate => "transform"@,
        CommandId::ApplyTransform => "check"@,
        CommandId::CancelTransform => "close"@,
        CommandId::TransformAspect => "link"@,
        CommandId::PlacementOriginalSize => "transform"@,
        CommandId::Hand => "hand"@,
        CommandId::Eyedropper => "eyedropper"@,
        CommandId::Gradient => "gradient"@,
        CommandId::Figure => "figure"@,
        CommandId::Ruler | CommandId::ShowRulers => "ruler"@,
        CommandId::SnapRulers => "ruler-snap"@,
        CommandId::DeleteRuler => "delete"@,
        CommandId::AutoSelect => "auto-select"@,
        CommandId::Fill => "fill"@,
        CommandId::Undo | CommandId::UndoWorkspace => "undo"@,
        CommandId::Redo | CommandId::RedoWorkspace => "redo"@,
        CommandId::ClearLayer => "clear"@,
        CommandId::FillSelection => "fill-selection"@,
        CommandId::SelectAll => "select-all"@,
        CommandId::Deselect => "deselect"@,
        CommandId::InvertSelection => "invert-selection"@,
        CommandId::NewToolbar => "new-toolbar"@,
        CommandId::ManageToolbars | CommandId::CustomizeWorkspaceUi => "toolbar"@,
        CommandId::FitCanvas => "fit"@,
        CommandId::ZoomIn => "plus"@,
        CommandId::ZoomOut => "minus"@,
        CommandId::RotateLeft => "rotate-left"@,
        CommandId::RotateRight => "rotate-right"@,
        CommandId::FlipHorizontal => "flip-horizontal"@,
        CommandId::FlipVertical => "flip-vertical"@,
        CommandId::ZenMode => spec_zen_icon(ZenIcon::LookingUp),
        CommandId::Fullscreen => "fullscreen-enter"@,
        CommandId::Settings => "settings"@,
        CommandId::ToggleTheme => "appearance"@,
        CommandId::AddLayer => "add-layer"@,
        CommandId::DeleteLayer => "delete"@,
        CommandId::RaiseLayer => "up"@,
        CommandId::LowerLayer => "down"@,
        CommandId::ResetLayout => "reset-layout"@,
        CommandId::NewWindow | CommandId::Drawings => "new-window"@,
        CommandId::KeyboardShortcuts => "keyboard"@,
        CommandId::About => "info"@,
        CommandId::Website => "website"@,
        CommandId::SourceCode => "source-code"@,
    }
}

pub open spec fn spec_label(c: CommandId) -> Seq<char> {
    match c {
        CommandId::DrawingBrush => "Brush"@,
        CommandId::Sculpt => "Sculpt"@,
        CommandId::SdrRendition => "Proof SDR"@,
        CommandId::PreviewSdr => "Preview SDR"@,
        CommandId::SoftProofSetup => "Proof…"@,
        CommandId::SoftProof => "Proof Colors"@,
        CommandId::GamutWarning => "Gamut Warning"@,
        CommandId::Histogram => "Histogram…"@,
        CommandId::ImportImage => "Import Image as Layer…"@,
        CommandId::PasteImage => "Paste Image as Layer"@,
        CommandId::DocumentProperties => "Document Properties…"@,
        CommandId::AssignProfile => "Assign Profile…"@,
        CommandId::ConvertColorSpace => "Convert Color Space…"@,
        CommandId::ChangeBitDepth => "Change Bit Depth…"@,
        CommandId::RepairSourceProfile => "Repair Source Profile…"@,
        CommandId::RasterizeSource => "Rasterize Source…"@,
        CommandId::NewDocument => "New…"@,
        CommandId::OpenDocument => "Open…"@,
        CommandId::SaveDocument => "Save"@,
        CommandId::SaveDocumentAs => "Save As…"@,
        CommandId::ExportDocument => "Export…"@,
        CommandId::CloseDocument => "Close"@,
        CommandId::Pen => "Pen"@,
        CommandId::Pencil => "Pencil"@,
        CommandId::Brush => "Paint Brush"@,
        CommandId::Eraser => "Eraser"@,
        CommandId::Airbrush => "Airbrush"@,
        CommandId::Decoration => "Decoration"@,
        CommandId::Blend => "Blend"@,
        CommandId::Liquify => "Liquify"@,
        CommandId::Lasso => "Lasso selection"@,
        CommandId::Select => "Select"@,
        CommandId::RectangleSelect => "Rectangle select"@,
        CommandId::EllipseSelect => "Ellipse select"@,
        CommandId::PolygonSelect => "Polygonal lasso"@,
        CommandId::ColorSelect => "Select by color"@,
        CommandId::SelectionNew => "New selection"@,
        CommandId::SelectionAdd => "Add to selection"@,
        CommandId::SelectionSubtract => "Subtract from selection"@,
        CommandId::SelectionIntersect => "Intersect with selection"@,
        CommandId::SelectionAntialias => "Anti-aliasing"@,
        CommandId::SelectionConstrainAngles => "Constrain edges to 45°"@,
        CommandId::SelectionFixedRatio => "Fixed aspect ratio"@,
        CommandId::SelectionFixedSize => "Fixed size"@,
        CommandId::SelectionFromCenter => "Draw from center"@,
        CommandId::CompleteSelection => "Finish selection"@,
        CommandId::CancelSelection => "Cancel selection"@,
        CommandId::SelectionVisible => "Sample visible artwork"@,
        CommandId::SelectionEditing => "Sample editing layer"@,
        CommandId::SelectionReference => "Sample reference layers"@,
        CommandId::Move => "Operation"@,
        CommandId::ScaleRotate => "Scale / rotate"@,
        CommandId::ApplyTransform => "Apply transform"@,
        CommandId::CancelTransform => "Cancel transform"@,
        CommandId::TransformAspect => "Keep proportions"@,
        CommandId::PlacementOriginalSize => "Original Size (100%)"@,
        CommandId::Hand => "Hand"@,
        CommandId::Eyedropper => "Eyedropper"@,
        CommandId::Gradient => "Gradient"@,
        CommandId::Figure => "Figure"@,
        CommandId::Ruler => "Ruler"@,
        CommandId::ShowRulers => "Show rulers"@,
        CommandId::SnapRulers => "Snap to rulers"@,
        CommandId::DeleteRuler => "Delete ruler"@,
        CommandId::AutoSelect => "Auto select"@,
        CommandId::Fill => "Fill"@,
        CommandId::Undo => "Undo"@,
        CommandId::Redo => "Redo"@,
        CommandId::ClearLayer => "Clear layer"@,
        CommandId::FillSelection => "Fill selection"@,
        CommandId::SelectAll => "Select all pixels"@,
        CommandId::Deselect => "Deselect pixels"@,
        CommandId::InvertSelection => "Invert selection"@,
        CommandId::UndoWorkspace => "Undo Layout Change"@,
        CommandId::RedoWorkspace => "Redo Layout Change"@,
        CommandId::NewToolbar => "New Toolbar…"@,
        CommandId::ManageToolbars => "Manage Toolbars…"@,
        CommandId::CustomizeWorkspaceUi => "Customize Title Bar…"@,
        CommandId::FitCanvas => "Fit canvas"@,
        CommandId::ZoomIn => "Zoom in"@,
        CommandId::ZoomOut => "Zoom out"@,
        CommandId::RotateLeft => "Rotate view 90° left"@,
        CommandId::RotateRight => "Rotate view 90° right"@,
        CommandId::FlipHorizontal => "Flip view horizontally"@,
        CommandId::FlipVertical => "Flip view vertically"@,
        CommandId::Settings => "Preferences"@,
        CommandId::ToggleTheme => "Dark Mode"@,
        CommandId::AddLayer => "New layer"@,
        CommandId::DeleteLayer => "Delete layer"@,
        CommandId::RaiseLayer => "Raise layer"@,
        CommandId::LowerLayer => "Lower layer"@,
        CommandId::ResetLayout => "Reset layout"@,
        CommandId::ZenMode => "Zen mode"@,
        CommandId::Fullscreen => "Full screen"@,
        CommandId::NewWindow => "New Window"@,
        CommandId::Drawings => "Drawings…"@,
        CommandId::KeyboardShortcuts => "Keyboard Shortcuts"@,
        CommandId::About => "About Capy Canvas"@,
        CommandId::Website => spec_link_label(ApplicationLink::Website),
        CommandId::SourceCode => spec_link_label(ApplicationLink::SourceCode),
    }
}

impl CommandId {
    /// Every command, in catalog order.
    pub const ALL: [CommandId; 100] = [
        CommandId::DrawingBrush,
        CommandId::Sculpt,
        CommandId::SdrRendition,
        CommandId::PreviewSdr,
        CommandId::SoftProofSetup,
        CommandId::SoftProof,
        CommandId::GamutWarning,
        CommandId::Histogram,
        CommandId::ImportImage,
        CommandId::PasteImage,
        CommandId::DocumentProperties,
        CommandId::AssignProfile,
        CommandId::ConvertColorSpace,
        CommandId::ChangeBitDepth,
        CommandId::RepairSourceProfile,
        CommandId::RasterizeSource,
        CommandId::NewDocument,
        CommandId::OpenDocument,
        CommandId::SaveDocument,
        CommandId::SaveDocumentAs,
        CommandId::ExportDocument,
        CommandId::CloseDocument,
        CommandId::Pen,
        CommandId::Pencil,
        CommandId::Brush,
        CommandId::Eraser,
        CommandId::Airbrush,
        CommandId::Decoration,
        CommandId::Blend,
        CommandId::Liquify,
        CommandId::Lasso,
        CommandId::Select,
        CommandId::RectangleSelect,
        CommandId::EllipseSelect,
        CommandId::PolygonSelect,
        CommandId::ColorSelect,
        CommandId::SelectionNew,
        CommandId::SelectionAdd,
        CommandId::SelectionSubtract,
        CommandId::SelectionIntersect,
        CommandId::SelectionAntialias,
        CommandId::SelectionConstrainAngles,
        CommandId::SelectionFixedRatio,
        CommandId::SelectionFixedSize,
        CommandId::SelectionFromCenter,
        CommandId::CompleteSelection,
        CommandId::CancelSelection,
        CommandId::SelectionVisible,
        CommandId::SelectionEditing,
        CommandId::SelectionReference,
        CommandId::Move,
        CommandId::ScaleRotate,
        CommandId::ApplyTransform,
        CommandId::CancelTransform,
        CommandId::TransformAspect,
        CommandId::PlacementOriginalSize,
        CommandId::Hand,
        CommandId::Eyedropper,
        CommandId::Gradient,
        CommandId::Figure,
        CommandId::Ruler,
        CommandId::ShowRulers,
        CommandId::SnapRulers,
        CommandId::DeleteRuler,
        CommandId::AutoSelect,
        CommandId::Fill,
        CommandId::Undo,
        CommandId::Redo,
        CommandId::ClearLayer,
        CommandId::FillSelection,
        CommandId::SelectAll,
        CommandId::Deselect,
        CommandId::InvertSelection,
        CommandId::UndoWorkspace,
        CommandId::RedoWorkspace,
        CommandId::NewToolbar,
        CommandId::ManageToolbars,
        CommandId::CustomizeWorkspaceUi,
        CommandId::FitCanvas,
        CommandId::ZoomIn,
        CommandId::ZoomOut,
        CommandId::RotateLeft,
        CommandId::RotateRight,
        CommandId::FlipHorizontal,
        CommandId::FlipVertical,
        CommandId::ToggleTheme,
        CommandId::Settings,
        CommandId::AddLayer,
        CommandId::DeleteLayer,
        CommandId::RaiseLayer,
        CommandId::LowerLayer,
        CommandId::ResetLayout,
        CommandId::ZenMode,
        CommandId::Fullscreen,
        CommandId::NewWindow,
        CommandId::KeyboardShortcuts,
        CommandId::About,
        CommandId::Website,
        CommandId::SourceCode,
        CommandId::Drawings,
    ];
    /// Primary drawing tools for hosts with a compact tool chooser.
    pub const TOOLS: [CommandId; 25] = [
        CommandId::DrawingBrush,
        CommandId::Sculpt,
        CommandId::Pen,
        CommandId::Pencil,
        CommandId::Brush,
        CommandId::Eraser,
        CommandId::Airbrush,
        CommandId::Decoration,
        CommandId::Blend,
        CommandId::Liquify,
        CommandId::Lasso,
        CommandId::Select,
        CommandId::RectangleSelect,
        CommandId::EllipseSelect,
        CommandId::PolygonSelect,
        CommandId::ColorSelect,
        CommandId::Move,
        CommandId::ScaleRotate,
        CommandId::Hand,
        CommandId::Eyedropper,
        CommandId::Gradient,
        CommandId::Figure,
        CommandId::Ruler,
        CommandId::AutoSelect,
        CommandId::Fill,
    ];
    /// Commands of the layer list.
    pub const LAYERS: [CommandId; 4] = [
        CommandId::AddLayer,
        CommandId::DeleteLayer,
        CommandId::RaiseLayer,
        CommandId::LowerLayer,
    ];

    /// Whether the host provides this command. `host` carries the host's
    /// window and color-management capabilities.
    pub fn available_on(self, platform: Platform, host: HostFeatures) -> (r: bool)
        ensures
            r == spec_available_on(self, platform, host),
    {
        match self {
            CommandId::Select | CommandId::RectangleSelect | CommandId::EllipseSelect | CommandId::PolygonSelect | CommandId::ColorSelect | CommandId::SelectionNew | CommandId::SelectionAdd | CommandId::SelectionSubtract | CommandId::SelectionIntersect | CommandId::SelectionAntialias | CommandId::SelectionConstrainAngles | CommandId::SelectionFixedRatio | CommandId::SelectionFixedSize | CommandId::SelectionFromCenter | CommandId::CompleteSelection | CommandId::CancelSelection | CommandId::SelectionVisible | CommandId::SelectionEditing | CommandId::SelectionReference => {
                platform == Platform::Gtk || platform == Platform::Web || platform == Platform::Android
            },
            CommandId::DrawingBrush | CommandId::Sculpt => true,
            CommandId::SdrRendition | CommandId::PreviewSdr => host.color_management,
            CommandId::Drawings | CommandId::SoftProofSetup | CommandId::SoftProof | CommandId::GamutWarning | CommandId::Histogram | CommandId::ImportImage | CommandId::PasteImage | CommandId::AssignProfile | CommandId::ConvertColorSpace | CommandId::ChangeBitDepth | CommandId::DocumentProperties | CommandId::RasterizeSource | CommandId::RepairSourceProfile | CommandId::CustomizeWorkspaceUi | CommandId::NewDocument | CommandId::OpenDocument | CommandId::SaveDocument | CommandId::SaveDocumentAs | CommandId::CloseDocument | CommandId::ExportDocument | CommandId::Website | CommandId::SourceCode => {
                platform == Platform::Gtk || platform == Platform::Web || platform == Platform::Android
                    || platform == Platform::Mac || platform == Platform::Ios
                    || platform == Platform::Windows
            },
            CommandId::Fullscreen => {
                platform == Platform::Gtk || platform == Platform::Web || platform == Platform::Mac
                    || platform == Platform::Windows
            },
            CommandId::NewWindow => host.native_windows,
            _ => true,
        }
    }

    /// Retained on/off commands can be presented as checkable menu items.
    pub fn is_toggle(self) -> (r: bool)
        ensures
            r == spec_is_toggle(self),
    {
        match self {
            CommandId::SelectionNew | CommandId::SelectionAdd | CommandId::SelectionSubtract | CommandId::SelectionIntersect | CommandId::SelectionAntialias | CommandId::SelectionConstrainAngles | CommandId::SelectionFixedRatio | CommandId::SelectionFixedSize | CommandId::SelectionFromCenter | CommandId::SelectionVisible | CommandId::SelectionEditing | CommandId::SelectionReference | CommandId::ZenMode | CommandId::Fullscreen | CommandId::ToggleTheme | CommandId::FlipHorizontal | CommandId::FlipVertical | CommandId::ShowRulers | CommandId::SnapRulers | CommandId::TransformAspect | CommandId::PreviewSdr | CommandId::SoftProof | CommandId::GamutWarning => true,
            _ => false,
        }
    }

    /// The symbolic icon. Every command has one.
    pub fn icon(self) -> (r: Option<&'static str>)
        ensures
            r matches Some(s) && s@ == spec_icon(self),
    {
        Some(match self {
            CommandId::DrawingBrush => "drawing-tools",
            CommandId::Sculpt => "sculpt",
            CommandId::SdrRendition | CommandId::PreviewSdr | CommandId::SoftProofSetup | CommandId::SoftProof | CommandId::GamutWarning => "image",
            CommandId::Histogram => "stats",
            CommandId::ImportImage | CommandId::PasteImage | CommandId::RasterizeSource => "image",
            CommandId::AssignProfile | CommandId::ConvertColorSpace | CommandId::ChangeBitDepth | CommandId::DocumentProperties | CommandId::RepairSourceProfile => "info",
            CommandId::NewDocument => "new-document",
            CommandId::OpenDocument => "open-document",
            CommandId::SaveDocument => "save-document",
            CommandId::SaveDocumentAs => "save-as",
            CommandId::ExportDocument => "export-document",
            CommandId::CloseDocument => "close-document",
            CommandId::Pen => "pen",
            CommandId::Pencil => "pencil",
            CommandId::Brush => "brush",
            CommandId::Eraser => "eraser",
            CommandId::Airbrush => "airbrush",
            CommandId::Decoration => "decoration",
            CommandId::Blend => "blend",
            CommandId::Liquify => "liquify",
            CommandId::Lasso => "lasso",
            CommandId::Select => "select",
            CommandId::RectangleSelect => "rectangle-select",
            CommandId::EllipseSelect => "ellipse-select",
            CommandId::PolygonSelect => "polygon-select",
            CommandId::ColorSelect => "color-select",
            CommandId::SelectionNew => "selection-new",
            CommandId::SelectionAdd => "selection-add",
            CommandId::SelectionSubtract => "selection-subtract",
            CommandId::SelectionIntersect => "selection-intersect",
            CommandId::SelectionAntialias => "select",
            CommandId::SelectionConstrainAngles => "ruler",
            CommandId::SelectionFixedRatio => "rectangle-select",
            CommandId::SelectionFixedSize => "rectangle-select",
            CommandId::SelectionFromCenter => "select",
            CommandId::CompleteSelection => "selection-checked",
            CommandId::CancelSelection => "deselect",
            CommandId::SelectionVisible => "eye",
            CommandId::SelectionEditing => "layers",
            CommandId::SelectionReference => "reference",
            CommandId::Move => "move",
            CommandId::ScaleRotate => "transform",
            CommandId::ApplyTransform => "check",
            CommandId::CancelTransform => "close",
            CommandId::TransformAspect => "link",
            CommandId::PlacementOriginalSize => "transform",
            CommandId::Hand => "hand",
            CommandId::Eyedropper => "eyedropper",
            CommandId::Gradient => "gradient",
            CommandId::Figure => "figure",
            CommandId::Ruler | CommandId::ShowRulers => "ruler",
            CommandId::SnapRulers => "ruler-snap",
            CommandId::DeleteRuler => "delete",
            CommandId::AutoSelect => "auto-select",
            CommandId::Fill => "fill",
            CommandId::Undo | CommandId::UndoWorkspace => "undo",
            CommandId::Redo | CommandId::RedoWorkspace => "redo",
            CommandId::ClearLayer => "clear",
            CommandId::FillSelection => "fill-selection",
            CommandId::SelectAll => "select-all",
            CommandId::Deselect => "deselect",
            CommandId::InvertSelection => "invert-selection",
            CommandId::NewToolbar => "new-toolbar",
            CommandId::ManageToolbars | CommandId::CustomizeWorkspaceUi => "toolbar",
            CommandId::FitCanvas => "fit",
            CommandId::ZoomIn => "plus",
            CommandId::ZoomOut => "minus",
            CommandId::RotateLeft => "rotate-left",
            CommandId::RotateRight => "rotate-right",
            CommandId::FlipHorizontal => "flip-horizontal",
            CommandId::FlipVertical => "flip-vertical",
            CommandId::ZenMode => ZenIcon::LookingUp.icon(),
            CommandId::Fullscreen => "fullscreen-enter",
            CommandId::Settings => "settings",
            CommandId::ToggleTheme => "appearance",
            CommandId::AddLayer => "add-layer",
            CommandId::DeleteLayer => "delete",
            CommandId::RaiseLayer => "up",
            CommandId::LowerLayer => "down",
            CommandId::ResetLayout => "reset-layout",
            CommandId::NewWindow | CommandId::Drawings => "new-window",
            CommandId::KeyboardShortcuts => "keyboard",
            CommandId::About => "info",
            CommandId::Website => "website",
            CommandId::SourceCode => "source-code",
        })
    }

    pub fn label(self) -> (s: &'static str)
        ensures
            s@ == spec_label(self),
    {
        match self {
            CommandId::DrawingBrush => "Brush",
            CommandId::Sculpt => "Sculpt",
            CommandId::SdrRendition => "Proof SDR",
            CommandId::PreviewSdr => "Preview SDR",
            CommandId::SoftProofSetup => "Proof…",
            CommandId::SoftProof => "Proof Colors",
            CommandId::GamutWarning => "Gamut Warning",
            CommandId::Histogram => "Histogram…",
            CommandId::ImportImage => "Import Image as Layer…",
            CommandId::PasteImage => "Paste Image as Layer",
            CommandId::DocumentProperties => "Document Properties…",
            CommandId::AssignProfile => "Assign Profile…",
            CommandId::ConvertColorSpace => "Convert Color Space…",
            CommandId::ChangeBitDepth => "Change Bit Depth…",
            CommandId::RepairSourceProfile => "Repair Source Profile…",
            CommandId::RasterizeSource => "Rasterize Source…",
            CommandId::NewDocument => "New…",
            CommandId::OpenDocument => "Open…",
            CommandId::SaveDocument => "Save",
            CommandId::SaveDocumentAs => "Save As…",
            CommandId::ExportDocument => "Export…",
            CommandId::CloseDocument => "Close",
            CommandId::Pen => "Pen",
            CommandId::Pencil => "Pencil",
            CommandId::Brush => "Paint Brush",
            CommandId::Eraser => "Eraser",
            CommandId::Airbrush => "Airbrush",
            CommandId::Decoration => "Decoration",
            CommandId::Blend => "Blend",
            CommandId::Liquify => "Liquify",
            CommandId::Lasso => "Lasso selection",
            CommandId::Select => "Select",
            CommandId::RectangleSelect => "Rectangle select",
            CommandId::EllipseSelect => "Ellipse select",
            CommandId::PolygonSelect => "Polygonal lasso",
            CommandId::ColorSelect => "Select by color",
            CommandId::SelectionNew => "New selection",
            CommandId::SelectionAdd => "Add to selection",
            CommandId::SelectionSubtract => "Subtract from selection",
            CommandId::SelectionIntersect => "Intersect with selection",
            CommandId::SelectionAntialias => "Anti-aliasing",
            CommandId::SelectionConstrainAngles => "Constrain edges to 45°",
            CommandId::SelectionFixedRatio => "Fixed aspect ratio",
            CommandId::SelectionFixedSize => "Fixed size",
            CommandId::SelectionFromCenter => "Draw from center",
            CommandId::CompleteSelection => "Finish selection",
            CommandId::CancelSelection => "Cancel selection",
            CommandId::SelectionVisible => "Sample visible artwork",
            CommandId::SelectionEditing => "Sample editing layer",
            CommandId::SelectionReference => "Sample reference layers",
            CommandId::Move => "Operation",
            CommandId::ScaleRotate => "Scale / rotate",
            CommandId::ApplyTransform => "Apply transform",
            CommandId::CancelTransform => "Cancel transform",
            CommandId::TransformAspect => "Keep proportions",
            CommandId::PlacementOriginalSize => "Original Size (100%)",
            CommandId::Hand => "Hand",
            CommandId::Eyedropper => "Eyedropper",
            CommandId::Gradient => "Gradient",
            CommandId::Figure => "Figure",
            CommandId::Ruler => "Ruler",
            CommandId::ShowRulers => "Show rulers",
            CommandId::SnapRulers => "Snap to rulers",
            CommandId::DeleteRuler => "Delete ruler",
            CommandId::AutoSelect => "Auto select",
            CommandId::Fill => "Fill",
            CommandId::Undo => "Undo",
            CommandId::Redo => "Redo",
            CommandId::ClearLayer => "Clear layer",
            CommandId::FillSelection => "Fill selection",
            CommandId::SelectAll => "Select all pixels",
            CommandId::Deselect => "Deselect pixels",
            CommandId::InvertSelection => "Invert selection",
            CommandId::UndoWorkspace => "Undo Layout Change",
            CommandId::RedoWorkspace => "Redo Layout Change",
            CommandId::NewToolbar => "New Toolbar…",
            CommandId::ManageToolbars => "Manage Toolbars…",
            CommandId::CustomizeWorkspaceUi => "Customize Title Bar…",
            CommandId::FitCanvas => "Fit canvas",
            CommandId::ZoomIn => "Zoom in",
            CommandId::ZoomOut => "Zoom out",
            CommandId::RotateLeft => "Rotate view 90° left",
            CommandId::RotateRight => "Rotate view 90° right",
            CommandId::FlipHorizontal => "Flip view horizontally",
            CommandId::FlipVertical => "Flip view vertically",
            CommandId::Settings => "Preferences",
            CommandId::ToggleTheme => "Dark Mode",
            CommandId::AddLayer => "New layer",
            CommandId::DeleteLayer => "Delete layer",
            CommandId::RaiseLayer => "Raise layer",
            CommandId::LowerLayer => "Lower layer",
            CommandId::ResetLayout => "Reset layout",
            CommandId::ZenMode => "Zen mode",
            CommandId::Fullscreen => "Full screen",
            CommandId::NewWindow => "New Window",
            CommandId::Drawings => "Drawings…",
            CommandId::KeyboardShortcuts => "Keyboard Shortcuts",
            CommandId::About => "About Capy Canvas",
            CommandId::Website => ApplicationLink::Website.label(),
            CommandId::SourceCode => ApplicationLink::SourceCode.label(),
        }
    }
}

} // verus!
