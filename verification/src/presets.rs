//! The shipped arrangements of Sketch and Photo (their toolbars, their dock
//! trees with every identity, and the columns that start collapsed), the
//! editor's default docking, the plain default docking and Paint's docking.
//! Sizes (extents, split shares, expanded widths) are measured by the host
//! and handed in; the arrangement itself is fixed here.
use vstd::prelude::*;
use crate::catalog::WorkspacePreset;
use crate::command::CommandId;
use crate::dock::{band_shapes, shape_id, BandShape, DockBand, DockNode, DockShape};
use crate::docking::{check_floating_shapes, columns_ok, layout_check, layout_trees, DockLayout, LayoutShape};
use crate::dock::{check_shape, MAX_DOCK_DEPTH};
use crate::workspace::{check_bands, check_fit_groups};
use crate::panel::{Axis, Edge, Panel};
use crate::platform::Platform;
use crate::toolbar::{editor_commands, fresh_tiles, ToolbarControl, ToolbarRegistry, ToolbarTile};
use crate::workspace::CollapsedColumn;

verus! {

/// What the host measures for a shipped arrangement.
#[derive(Clone, Copy, Debug)]
pub struct PresetSizes<S, R, X, W> {
    /// The default tab style of a new group.
    pub tab_style: S,
    /// The tools strip's band: one tile of the preset's tile size across.
    pub toolbar_extent: X,
    /// Sketch's commands ribbon: one medium tile high.
    pub ribbon_extent: X,
    /// Photo's outer column, as wide as Layers.
    pub primary_extent: X,
    /// Photo's icon column, one tile across.
    pub icon_extent: X,
    /// Navigator's share of Photo's outer column.
    pub navigator_share: R,
    /// The upper group's share of Photo's icon column.
    pub secondary_share: R,
    /// The width Photo's icon column opens to.
    pub expanded_width: W,
}

/// A shipped arrangement: its bands, the columns that start collapsed, the
/// next node identity, its two toolbars, whether their tiles are medium
/// (else small), whether the toolbars hide their tab, and whether the canvas
/// information strip shows.
pub struct PresetLayout<S, R, X, W> {
    pub bands: Vec<DockBand<S, R, X>>,
    pub collapsed: Vec<CollapsedColumn<W>>,
    pub next_id: u32,
    pub toolbars: ToolbarRegistry,
    pub medium_tiles: bool,
    pub hide_toolbar_tabs: bool,
    pub canvas_info: bool,
}

/// The mathematical form of a shipped arrangement.
pub struct PresetShape<S, R, X, W> {
    pub bands: Seq<BandShape<S, R, X>>,
    pub collapsed: Seq<CollapsedColumn<W>>,
    pub next_id: u32,
    pub toolbars: Map<Panel, Seq<ToolbarTile>>,
    pub next_tile_id: u32,
    pub medium_tiles: bool,
    pub hide_toolbar_tabs: bool,
    pub canvas_info: bool,
}

impl<S, R, X, W> View for PresetLayout<S, R, X, W> {
    type V = PresetShape<S, R, X, W>;

    open spec fn view(&self) -> PresetShape<S, R, X, W> {
        PresetShape {
            bands: band_shapes(self.bands@),
            collapsed: self.collapsed@,
            next_id: self.next_id,
            toolbars: self.toolbars@,
            next_tile_id: self.toolbars.allocator(),
            medium_tiles: self.medium_tiles,
            hide_toolbar_tabs: self.hide_toolbar_tabs,
            canvas_info: self.canvas_info,
        }
    }
}

pub open spec fn command_tile(c: CommandId) -> ToolbarControl {
    ToolbarControl::Command { command: c }
}

/// The tools strip of a preset: Sketch keeps the painting essentials with
/// the brush size drawer; Photo adds selection, transform and navigation.
pub open spec fn preset_tools(preset: WorkspacePreset) -> Seq<ToolbarControl> {
    if preset == WorkspacePreset::Painter {
        seq![
            command_tile(CommandId::Brush),
            command_tile(CommandId::Eraser),
            command_tile(CommandId::Blend),
            command_tile(CommandId::Fill),
            ToolbarControl::Divider,
            command_tile(CommandId::Eyedropper),
            ToolbarControl::Color,
            ToolbarControl::Panel { panel: Panel::Sizes },
            ToolbarControl::Opacity,
        ]
    } else {
        seq![
            command_tile(CommandId::Move),
            command_tile(CommandId::Lasso),
            command_tile(CommandId::AutoSelect),
            command_tile(CommandId::ScaleRotate),
            ToolbarControl::Divider,
            command_tile(CommandId::Brush),
            command_tile(CommandId::Eraser),
            command_tile(CommandId::Blend),
            command_tile(CommandId::Liquify),
            command_tile(CommandId::Fill),
            command_tile(CommandId::Gradient),
            ToolbarControl::Divider,
            command_tile(CommandId::Eyedropper),
            ToolbarControl::Color,
            command_tile(CommandId::Hand),
        ]
    }
}

/// The commands ribbon of a preset: Sketch's history, selection and drawer
/// shortcuts; Photo keeps the editor's default ribbon.
pub open spec fn preset_commands(preset: WorkspacePreset) -> Seq<ToolbarControl> {
    if preset == WorkspacePreset::Painter {
        seq![
            command_tile(CommandId::Undo),
            command_tile(CommandId::Redo),
            ToolbarControl::Divider,
            command_tile(CommandId::Lasso),
            command_tile(CommandId::ScaleRotate),
            ToolbarControl::Divider,
            ToolbarControl::Panel { panel: Panel::Brushes },
            ToolbarControl::Panel { panel: Panel::Layers },
        ]
    } else {
        editor_commands()
    }
}

pub open spec fn tabs_shape<S, R>(id: u32, panels: Seq<Panel>, style: S) -> DockShape<S, R> {
    DockShape::Tabs { id, panels, active: panels[0], tab_style: style }
}

pub open spec fn stack_shape<S, R>(id: u32, fraction: R, first: DockShape<S, R>, second: DockShape<S, R>) -> DockShape<S, R> {
    DockShape::Split { id, axis: Axis::Vertical, fraction, first: Box::new(first), second: Box::new(second) }
}

/// The bands of a preset. Both start with the tools strip on the left;
/// Sketch adds its commands ribbon on top (none at all when its tools live
/// in the window header); Photo adds, on the right, an outer column of
/// Navigator over Layers and an inner icon column of Properties and
/// Adjustments over Color and Tool settings.
pub open spec fn preset_bands<S, R, X, W>(preset: WorkspacePreset, header_tools: bool, sizes: PresetSizes<S, R, X, W>) -> Seq<BandShape<S, R, X>> {
    let st = sizes.tab_style;
    let tools = BandShape { id: 1, edge: Edge::Left, extent: sizes.toolbar_extent, root: tabs_shape(2, seq![Panel::Toolbar], st) };
    if preset == WorkspacePreset::Painter {
        if header_tools {
            Seq::empty()
        } else {
            seq![tools, BandShape { id: 3, edge: Edge::Top, extent: sizes.ribbon_extent, root: tabs_shape(4, seq![Panel::Commands], st) }]
        }
    } else {
        seq![
            tools,
            BandShape {
                id: 3,
                edge: Edge::Right,
                extent: sizes.primary_extent,
                root: stack_shape(4, sizes.navigator_share, tabs_shape(5, seq![Panel::Navigator], st), tabs_shape(6, seq![Panel::Layers], st)),
            },
            BandShape {
                id: 7,
                edge: Edge::Right,
                extent: sizes.icon_extent,
                root: stack_shape(
                    8,
                    sizes.secondary_share,
                    tabs_shape(9, seq![Panel::Properties, Panel::Adjustments], st),
                    tabs_shape(10, seq![Panel::Color, Panel::ToolSettings], st),
                ),
            },
        ]
    }
}

/// The base arrangement of Sketch or Photo, which a platform may then extend
/// with its own toolbars and tools (`None` for Paint, which keeps the
/// platform's own toolbars and whose docking `paint_docking` builds). The toolbars'
/// tiles are numbered from 1, tools first; Sketch uses medium tiles and
/// Photo small ones; both toolbars hide their tab. Photo's icon column
/// starts collapsed. Sketch with its tools in the header docks nothing,
/// hides the canvas information strip and keeps the editor default's next
/// identity.
pub open spec fn spec_preset_layout<S, R, X, W>(preset: WorkspacePreset, header_tools: bool, sizes: PresetSizes<S, R, X, W>) -> Option<PresetShape<S, R, X, W>> {
    if preset == WorkspacePreset::Illustrator {
        None
    } else {
        let tools = preset_tools(preset);
        let commands = preset_commands(preset);
        let painter = preset == WorkspacePreset::Painter;
        Some(PresetShape {
            bands: preset_bands(preset, header_tools, sizes),
            collapsed: if painter { Seq::empty() } else { seq![CollapsedColumn { root: 8, expanded_width: sizes.expanded_width }] },
            next_id: if painter { if header_tools { 19 } else { 5 } } else { 11 },
            toolbars: Map::<Panel, Seq<ToolbarTile>>::empty()
                .insert(Panel::Toolbar, fresh_tiles(1, tools))
                .insert(Panel::Commands, fresh_tiles((1 + tools.len()) as u32, commands)),
            next_tile_id: (1 + tools.len() + commands.len()) as u32,
            medium_tiles: painter,
            hide_toolbar_tabs: true,
            canvas_info: !(painter && header_tools),
        })
    }
}

fn command_controls(preset: WorkspacePreset) -> (r: (Vec<ToolbarControl>, Vec<ToolbarControl>))
    requires
        preset != WorkspacePreset::Illustrator,
    ensures
        r.0@ == preset_tools(preset),
        r.1@ == preset_commands(preset),
{
    let c = |command: CommandId| -> (t: ToolbarControl)
        ensures
            t == command_tile(command),
    {
        ToolbarControl::Command { command }
    };
    if preset == WorkspacePreset::Painter {
        let tools = vec![
            c(CommandId::Brush),
            c(CommandId::Eraser),
            c(CommandId::Blend),
            c(CommandId::Fill),
            ToolbarControl::Divider,
            c(CommandId::Eyedropper),
            ToolbarControl::Color,
            ToolbarControl::Panel { panel: Panel::Sizes },
            ToolbarControl::Opacity,
        ];
        let commands = vec![
            c(CommandId::Undo),
            c(CommandId::Redo),
            ToolbarControl::Divider,
            c(CommandId::Lasso),
            c(CommandId::ScaleRotate),
            ToolbarControl::Divider,
            ToolbarControl::Panel { panel: Panel::Brushes },
            ToolbarControl::Panel { panel: Panel::Layers },
        ];
        assert(tools@ =~= preset_tools(preset));
        assert(commands@ =~= preset_commands(preset));
        (tools, commands)
    } else {
        let tools = vec![
            c(CommandId::Move),
            c(CommandId::Lasso),
            c(CommandId::AutoSelect),
            c(CommandId::ScaleRotate),
            ToolbarControl::Divider,
            c(CommandId::Brush),
            c(CommandId::Eraser),
            c(CommandId::Blend),
            c(CommandId::Liquify),
            c(CommandId::Fill),
            c(CommandId::Gradient),
            ToolbarControl::Divider,
            c(CommandId::Eyedropper),
            ToolbarControl::Color,
            c(CommandId::Hand),
        ];
        let commands = vec![
            c(CommandId::NewDocument),
            c(CommandId::OpenDocument),
            c(CommandId::SaveDocument),
            ToolbarControl::Divider,
            c(CommandId::Undo),
            c(CommandId::Redo),
            ToolbarControl::Divider,
            c(CommandId::ClearLayer),
            c(CommandId::FillSelection),
            c(CommandId::ScaleRotate),
            ToolbarControl::Divider,
            c(CommandId::FlipHorizontal),
        ];
        assert(tools@ =~= preset_tools(preset));
        assert(commands@ =~= preset_commands(preset));
        (tools, commands)
    }
}

fn tabs<S, R>(id: u32, panels: Vec<Panel>, style: S) -> (r: DockNode<S, R>)
    requires
        panels@.len() > 0,
    ensures
        r@ == tabs_shape::<S, R>(id, panels@, style),
{
    let active = panels[0];
    DockNode::Tabs { id, panels, active, tab_style: style }
}

fn stack<S, R>(id: u32, fraction: R, first: DockNode<S, R>, second: DockNode<S, R>) -> (r: DockNode<S, R>)
    ensures
        r@ == stack_shape(id, fraction, first@, second@),
{
    DockNode::Split { id, axis: Axis::Vertical, fraction, first: Box::new(first), second: Box::new(second) }
}

/// Builds the arrangement of `preset` (see `spec_preset_layout`): `None`
/// for Paint.
pub fn preset_layout<S: Copy, R: Copy, X: Copy, W: Copy>(preset: WorkspacePreset, header_tools: bool, sizes: &PresetSizes<S, R, X, W>) -> (r: Option<PresetLayout<S, R, X, W>>)
    ensures
        match spec_preset_layout(preset, header_tools, *sizes) {
            None => r is None,
            Some(shape) => r matches Some(l) && l@ == shape,
        },
{
    if preset == WorkspacePreset::Illustrator {
        return None;
    }
    let (tools, commands) = command_controls(preset);
    let toolbars = ToolbarRegistry::numbered(tools.as_slice(), commands.as_slice());
    let painter = preset == WorkspacePreset::Painter;
    let st = sizes.tab_style;
    let ghost expected = spec_preset_layout(preset, header_tools, *sizes)->Some_0;
    let mut bands: Vec<DockBand<S, R, X>> = Vec::new();
    let mut collapsed: Vec<CollapsedColumn<W>> = Vec::new();
    let next_id: u32;
    if painter && header_tools {
        next_id = 19;
        assert(band_shapes(bands@) =~= expected.bands);
    } else {
        let toolbar = vec![Panel::Toolbar];
        assert(toolbar@ =~= seq![Panel::Toolbar]);
        bands.push(DockBand { id: 1, edge: Edge::Left, extent: sizes.toolbar_extent, root: tabs(2, toolbar, st) });
        if painter {
            let ribbon = vec![Panel::Commands];
            assert(ribbon@ =~= seq![Panel::Commands]);
            bands.push(DockBand { id: 3, edge: Edge::Top, extent: sizes.ribbon_extent, root: tabs(4, ribbon, st) });
            next_id = 5;
        } else {
            let navigator = vec![Panel::Navigator];
            let layers = vec![Panel::Layers];
            let properties = vec![Panel::Properties, Panel::Adjustments];
            let color = vec![Panel::Color, Panel::ToolSettings];
            assert(navigator@ =~= seq![Panel::Navigator]);
            assert(layers@ =~= seq![Panel::Layers]);
            assert(properties@ =~= seq![Panel::Properties, Panel::Adjustments]);
            assert(color@ =~= seq![Panel::Color, Panel::ToolSettings]);
            bands.push(DockBand {
                id: 3,
                edge: Edge::Right,
                extent: sizes.primary_extent,
                root: stack(4, sizes.navigator_share, tabs(5, navigator, st), tabs(6, layers, st)),
            });
            bands.push(DockBand {
                id: 7,
                edge: Edge::Right,
                extent: sizes.icon_extent,
                root: stack(8, sizes.secondary_share, tabs(9, properties, st), tabs(10, color, st)),
            });
            collapsed.push(CollapsedColumn { root: 8, expanded_width: sizes.expanded_width });
            next_id = 11;
        }
        assert(band_shapes(bands@) =~= expected.bands);
    }
    let l = PresetLayout {
        bands,
        collapsed,
        next_id,
        toolbars,
        medium_tiles: painter,
        hide_toolbar_tabs: true,
        canvas_info: !(painter && header_tools),
    };
    assert(l@.collapsed =~= expected.collapsed);
    Some(l)
}

/// What the host measures for the editor's default docking.
#[derive(Clone, Copy, Debug)]
pub struct EditorSizes<S, R, X> {
    /// The default tab style of a new group.
    pub tab_style: S,
    /// The tools strip and the commands ribbon: one tile across.
    pub tile_extent: X,
    /// The brush column, as wide as Brushes.
    pub brushes_extent: X,
    /// The right column, as wide as Layers.
    pub layers_extent: X,
    /// Brushes' share of the brush column.
    pub brushes_share: R,
    /// Tool settings' share of what Brushes leaves.
    pub settings_share: R,
    /// The upper stack's share of the right column.
    pub upper_share: R,
    /// Navigator's share of the upper stack.
    pub navigator_share: R,
}

/// The editor's default docking: the tools strip and the brush column on
/// the left (Brushes over Tool settings and Brush size, then Color), the
/// right column (Navigator and Stats over Properties and Adjustments, then
/// Layers), and the commands ribbon on top between the side columns. Nothing
/// floats or is collapsed, and the next identity is 19.
pub open spec fn spec_editor_docking<S, R, X, G, W>(sizes: EditorSizes<S, R, X>) -> LayoutShape<S, R, X, G, W> {
    let st = sizes.tab_style;
    LayoutShape {
        bands: seq![
            BandShape { id: 1, edge: Edge::Left, extent: sizes.tile_extent, root: tabs_shape(2, seq![Panel::Toolbar], st) },
            BandShape {
                id: 3,
                edge: Edge::Left,
                extent: sizes.brushes_extent,
                root: stack_shape(4, sizes.brushes_share, tabs_shape(6, seq![Panel::Brushes], st),
                    stack_shape(5, sizes.settings_share, tabs_shape(7, seq![Panel::ToolSettings, Panel::Sizes], st),
                        tabs_shape(10, seq![Panel::Color], st))),
            },
            BandShape {
                id: 11,
                edge: Edge::Right,
                extent: sizes.layers_extent,
                root: stack_shape(12, sizes.upper_share,
                    stack_shape(13, sizes.navigator_share, tabs_shape(14, seq![Panel::Navigator, Panel::Stats], st),
                        tabs_shape(15, seq![Panel::Properties, Panel::Adjustments], st)),
                    tabs_shape(16, seq![Panel::Layers], st)),
            },
            BandShape { id: 17, edge: Edge::Top, extent: sizes.tile_extent, root: tabs_shape(18, seq![Panel::Commands], st) },
        ],
        floating: Seq::empty(),
        collapsed: Seq::empty(),
        fit_tab_groups: Seq::empty(),
        next_id: 19,
    }
}

/// Builds the editor's default docking (see `spec_editor_docking`).
pub fn editor_docking<S: Copy, R: Copy, X: Copy, G, W>(sizes: &EditorSizes<S, R, X>) -> (r: DockLayout<S, R, X, G, W>)
    ensures
        r@ == spec_editor_docking::<S, R, X, G, W>(*sizes),
{
    let st = sizes.tab_style;
    let toolbar = vec![Panel::Toolbar];
    let brushes = vec![Panel::Brushes];
    let settings = vec![Panel::ToolSettings, Panel::Sizes];
    let color = vec![Panel::Color];
    let navigator = vec![Panel::Navigator, Panel::Stats];
    let properties = vec![Panel::Properties, Panel::Adjustments];
    let layers = vec![Panel::Layers];
    let ribbon = vec![Panel::Commands];
    assert(toolbar@ =~= seq![Panel::Toolbar]);
    assert(brushes@ =~= seq![Panel::Brushes]);
    assert(settings@ =~= seq![Panel::ToolSettings, Panel::Sizes]);
    assert(color@ =~= seq![Panel::Color]);
    assert(navigator@ =~= seq![Panel::Navigator, Panel::Stats]);
    assert(properties@ =~= seq![Panel::Properties, Panel::Adjustments]);
    assert(layers@ =~= seq![Panel::Layers]);
    assert(ribbon@ =~= seq![Panel::Commands]);
    let mut bands: Vec<DockBand<S, R, X>> = Vec::new();
    bands.push(DockBand { id: 1, edge: Edge::Left, extent: sizes.tile_extent, root: tabs(2, toolbar, st) });
    bands.push(DockBand {
        id: 3,
        edge: Edge::Left,
        extent: sizes.brushes_extent,
        root: stack(4, sizes.brushes_share, tabs(6, brushes, st), stack(5, sizes.settings_share, tabs(7, settings, st), tabs(10, color, st))),
    });
    bands.push(DockBand {
        id: 11,
        edge: Edge::Right,
        extent: sizes.layers_extent,
        root: stack(12, sizes.upper_share, stack(13, sizes.navigator_share, tabs(14, navigator, st), tabs(15, properties, st)), tabs(16, layers, st)),
    });
    bands.push(DockBand { id: 17, edge: Edge::Top, extent: sizes.tile_extent, root: tabs(18, ribbon, st) });
    let r = DockLayout { bands, floating: Vec::new(), collapsed: Vec::new(), fit_tab_groups: Vec::new(), next_id: 19 };
    assert(r@.bands =~= spec_editor_docking::<S, R, X, G, W>(*sizes).bands);
    assert(r@.floating =~= Seq::<(DockShape<S, R>, G)>::empty());
    assert(r@.collapsed =~= Seq::<CollapsedColumn<W>>::empty());
    assert(r@.fit_tab_groups =~= Seq::<u32>::empty());
    r
}

/// What the host measures for the plain default docking.
#[derive(Clone, Copy, Debug)]
pub struct PlainSizes<S, R, X> {
    /// The default tab style of a new group.
    pub tab_style: S,
    /// Each side column's extent.
    pub column_extent: X,
    /// The tools strip on top: one tile high.
    pub tile_extent: X,
    /// Brushes' share of the left column.
    pub brushes_share: R,
}

/// The plain default docking, for hosts without an editor arrangement:
/// Brushes over Brush size on the left, Layers, Adjustments and Properties
/// as tabs on the right, and the tools strip on top. Nothing floats or is
/// collapsed, and the next identity is 9.
pub open spec fn spec_plain_docking<S, R, X, G, W>(sizes: PlainSizes<S, R, X>) -> LayoutShape<S, R, X, G, W> {
    let st = sizes.tab_style;
    LayoutShape {
        bands: seq![
            BandShape {
                id: 3,
                edge: Edge::Left,
                extent: sizes.column_extent,
                root: stack_shape(4, sizes.brushes_share, tabs_shape(5, seq![Panel::Brushes], st), tabs_shape(6, seq![Panel::Sizes], st)),
            },
            BandShape {
                id: 7,
                edge: Edge::Right,
                extent: sizes.column_extent,
                root: tabs_shape(8, seq![Panel::Layers, Panel::Adjustments, Panel::Properties], st),
            },
            BandShape { id: 1, edge: Edge::Top, extent: sizes.tile_extent, root: tabs_shape(2, seq![Panel::Toolbar], st) },
        ],
        floating: Seq::empty(),
        collapsed: Seq::empty(),
        fit_tab_groups: Seq::empty(),
        next_id: 9,
    }
}

/// Builds the plain default docking (see `spec_plain_docking`).
pub fn plain_docking<S: Copy, R: Copy, X: Copy, G, W>(sizes: &PlainSizes<S, R, X>) -> (r: DockLayout<S, R, X, G, W>)
    ensures
        r@ == spec_plain_docking::<S, R, X, G, W>(*sizes),
{
    let st = sizes.tab_style;
    let brushes = vec![Panel::Brushes];
    let brush_size = vec![Panel::Sizes];
    let document = vec![Panel::Layers, Panel::Adjustments, Panel::Properties];
    let toolbar = vec![Panel::Toolbar];
    assert(brushes@ =~= seq![Panel::Brushes]);
    assert(brush_size@ =~= seq![Panel::Sizes]);
    assert(document@ =~= seq![Panel::Layers, Panel::Adjustments, Panel::Properties]);
    assert(toolbar@ =~= seq![Panel::Toolbar]);
    let mut bands: Vec<DockBand<S, R, X>> = Vec::new();
    bands.push(DockBand {
        id: 3,
        edge: Edge::Left,
        extent: sizes.column_extent,
        root: stack(4, sizes.brushes_share, tabs(5, brushes, st), tabs(6, brush_size, st)),
    });
    bands.push(DockBand { id: 7, edge: Edge::Right, extent: sizes.column_extent, root: tabs(8, document, st) });
    bands.push(DockBand { id: 1, edge: Edge::Top, extent: sizes.tile_extent, root: tabs(2, toolbar, st) });
    let r = DockLayout { bands, floating: Vec::new(), collapsed: Vec::new(), fit_tab_groups: Vec::new(), next_id: 9 };
    assert(r@.bands =~= spec_plain_docking::<S, R, X, G, W>(*sizes).bands);
    assert(r@.floating =~= Seq::<(DockShape<S, R>, G)>::empty());
    assert(r@.collapsed =~= Seq::<CollapsedColumn<W>>::empty());
    assert(r@.fit_tab_groups =~= Seq::<u32>::empty());
    r
}

/// The docking a platform starts from: the editor's default on every
/// platform but the generic one, which takes the plain default.
pub fn platform_docking<S: Copy, R: Copy, X: Copy, G, W>(platform: Platform, editor: &EditorSizes<S, R, X>, plain: &PlainSizes<S, R, X>) -> (r: DockLayout<S, R, X, G, W>)
    ensures
        r@ == if platform == Platform::Generic {
            spec_plain_docking::<S, R, X, G, W>(*plain)
        } else {
            spec_editor_docking::<S, R, X, G, W>(*editor)
        },
{
    if platform == Platform::Generic {
        plain_docking(plain)
    } else {
        editor_docking(editor)
    }
}

/// Paint's docking: the platform's docking (see `platform_docking`) with,
/// on every platform but the generic one, the right column collapsed: its
/// root is recorded with the width `open_width` it has open, and its band
/// narrows to `icon_extent`.
pub open spec fn spec_paint_docking<S, R, X, G, W>(platform: Platform, editor: EditorSizes<S, R, X>, plain: PlainSizes<S, R, X>,
    icon_extent: X, open_width: W) -> LayoutShape<S, R, X, G, W> {
    if platform == Platform::Generic {
        spec_plain_docking(plain)
    } else {
        let e = spec_editor_docking::<S, R, X, G, W>(editor);
        let right = e.bands[2];
        LayoutShape {
            bands: e.bands.update(2, BandShape { id: right.id, edge: right.edge, extent: icon_extent, root: right.root }),
            collapsed: seq![CollapsedColumn { root: 12, expanded_width: open_width }],
            ..e
        }
    }
}

/// Builds Paint's docking (see `spec_paint_docking`).
pub fn paint_docking<S: Copy, R: Copy, X: Copy, G, W: Copy>(platform: Platform, editor: &EditorSizes<S, R, X>, plain: &PlainSizes<S, R, X>,
    icon_extent: X, open_width: W) -> (r: DockLayout<S, R, X, G, W>)
    ensures
        r@ == spec_paint_docking::<S, R, X, G, W>(platform, *editor, *plain, icon_extent, open_width),
{
    if platform == Platform::Generic {
        return plain_docking(plain);
    }
    let mut layout: DockLayout<S, R, X, G, W> = editor_docking(editor);
    let ghost e = layout@;
    assert(band_shapes(layout.bands@).len() == 4);
    let right = layout.bands.remove(2);
    let DockBand { id, edge, extent: _, root } = right;
    layout.bands.insert(2, DockBand { id, edge, extent: icon_extent, root });
    layout.collapsed.push(CollapsedColumn { root: 12, expanded_width: open_width });
    assert(layout@.bands =~= e.bands.update(2, BandShape { id: e.bands[2].id, edge: e.bands[2].edge, extent: icon_extent, root: e.bands[2].root }));
    assert(layout@.collapsed =~= seq![CollapsedColumn { root: 12, expanded_width: open_width }]);
    layout
}

proof fn lemma_tabs_check<S, R>(id: u32, tabs: Seq<Panel>, st: S, ids: Seq<u32>, panels: Seq<Panel>, depth: int, ratio_ok: spec_fn(R) -> bool)
    requires
        0 <= depth <= MAX_DOCK_DEPTH,
        !ids.contains(id),
        tabs.len() > 0,
        forall|j: int, k: int| 0 <= j < k < tabs.len() ==> tabs[j] != tabs[k],
        forall|k: int| 0 <= k < tabs.len() ==> !panels.contains(#[trigger] tabs[k]),
    ensures
        check_shape(tabs_shape::<S, R>(id, tabs, st), ids, panels, depth, ratio_ok) == Ok::<(Seq<u32>, Seq<Panel>), crate::dock::DockError>((ids.push(id), panels + tabs)),
{
    assert(tabs.contains(tabs[0]));
    assert forall|k: int| 0 <= k < tabs.len() implies !(#[trigger] (panels + tabs.subrange(0, k)).contains(tabs[k])) by {
        let s = panels + tabs.subrange(0, k);
        if s.contains(tabs[k]) {
            let i = choose|i: int| 0 <= i < s.len() && s[i] == tabs[k];
            if i < panels.len() {
                assert(panels.contains(tabs[k]));
            } else {
                assert(tabs[i - panels.len()] == tabs[k]);
            }
        }
    }
}

/// The editor's default docking and the plain default docking, node by
/// node. The editor docks the tools strip (band 1, group 2) and the brush
/// column (band 3: Brushes over Tool settings with Brush size, then Color)
/// on the left, the right column (band 11: Navigator and Stats over
/// Properties and Adjustments, then Layers) on the right, and the commands
/// ribbon (band 17, group 18) on top; next identity 19. The plain docking
/// puts Brushes over Brush size on the left (band 3), Layers, Adjustments and
/// Properties as tabs on the right (band 7) and the tools strip on top
/// (band 1); next identity 9. Each tab group shows its first tab, and
/// nothing floats, is collapsed or sizes its tabs.
pub proof fn lemma_default_dockings<S, R, X, G, W>(sizes: EditorSizes<S, R, X>, plain: PlainSizes<S, R, X>)
    ensures
        ({
            let e = spec_editor_docking::<S, R, X, G, W>(sizes);
            let st = sizes.tab_style;
            &&& e.bands == seq![
                (BandShape::<S, R, X> { id: 1, edge: Edge::Left, extent: sizes.tile_extent, root: DockShape::<S, R>::Tabs { id: 2, panels: seq![Panel::Toolbar], active: Panel::Toolbar, tab_style: st } }),
                (BandShape::<S, R, X> { id: 3, edge: Edge::Left, extent: sizes.brushes_extent, root: DockShape::<S, R>::Split { id: 4, axis: Axis::Vertical, fraction: sizes.brushes_share, first: Box::new(DockShape::<S, R>::Tabs { id: 6, panels: seq![Panel::Brushes], active: Panel::Brushes, tab_style: st }), second: Box::new(DockShape::<S, R>::Split { id: 5, axis: Axis::Vertical, fraction: sizes.settings_share, first: Box::new(DockShape::<S, R>::Tabs { id: 7, panels: seq![Panel::ToolSettings, Panel::Sizes], active: Panel::ToolSettings, tab_style: st }), second: Box::new(DockShape::<S, R>::Tabs { id: 10, panels: seq![Panel::Color], active: Panel::Color, tab_style: st }) }) } }),
                (BandShape::<S, R, X> { id: 11, edge: Edge::Right, extent: sizes.layers_extent, root: DockShape::<S, R>::Split { id: 12, axis: Axis::Vertical, fraction: sizes.upper_share, first: Box::new(DockShape::<S, R>::Split { id: 13, axis: Axis::Vertical, fraction: sizes.navigator_share, first: Box::new(DockShape::<S, R>::Tabs { id: 14, panels: seq![Panel::Navigator, Panel::Stats], active: Panel::Navigator, tab_style: st }), second: Box::new(DockShape::<S, R>::Tabs { id: 15, panels: seq![Panel::Properties, Panel::Adjustments], active: Panel::Properties, tab_style: st }) }), second: Box::new(DockShape::<S, R>::Tabs { id: 16, panels: seq![Panel::Layers], active: Panel::Layers, tab_style: st }) } }),
                (BandShape::<S, R, X> { id: 17, edge: Edge::Top, extent: sizes.tile_extent, root: DockShape::<S, R>::Tabs { id: 18, panels: seq![Panel::Commands], active: Panel::Commands, tab_style: st } }),
            ]
            &&& e.floating.len() == 0 && e.collapsed.len() == 0 && e.fit_tab_groups.len() == 0
            &&& e.next_id == 19
        }),
        ({
            let d = spec_plain_docking::<S, R, X, G, W>(plain);
            let pt = plain.tab_style;
            &&& d.bands == seq![
                (BandShape::<S, R, X> { id: 3, edge: Edge::Left, extent: plain.column_extent, root: DockShape::<S, R>::Split { id: 4, axis: Axis::Vertical, fraction: plain.brushes_share, first: Box::new(DockShape::<S, R>::Tabs { id: 5, panels: seq![Panel::Brushes], active: Panel::Brushes, tab_style: pt }), second: Box::new(DockShape::<S, R>::Tabs { id: 6, panels: seq![Panel::Sizes], active: Panel::Sizes, tab_style: pt }) } }),
                (BandShape::<S, R, X> { id: 7, edge: Edge::Right, extent: plain.column_extent, root: DockShape::<S, R>::Tabs { id: 8, panels: seq![Panel::Layers, Panel::Adjustments, Panel::Properties], active: Panel::Layers, tab_style: pt } }),
                (BandShape::<S, R, X> { id: 1, edge: Edge::Top, extent: plain.tile_extent, root: DockShape::<S, R>::Tabs { id: 2, panels: seq![Panel::Toolbar], active: Panel::Toolbar, tab_style: pt } }),
            ]
            &&& d.floating.len() == 0 && d.collapsed.len() == 0 && d.fit_tab_groups.len() == 0
            &&& d.next_id == 9
        }),
{
    let st = sizes.tab_style;
    let pt = plain.tab_style;
    assert(seq![Panel::Toolbar][0] == Panel::Toolbar);
    assert(seq![Panel::Brushes][0] == Panel::Brushes);
    assert(seq![Panel::ToolSettings, Panel::Sizes][0] == Panel::ToolSettings);
    assert(seq![Panel::Color][0] == Panel::Color);
    assert(seq![Panel::Navigator, Panel::Stats][0] == Panel::Navigator);
    assert(seq![Panel::Properties, Panel::Adjustments][0] == Panel::Properties);
    assert(seq![Panel::Layers][0] == Panel::Layers);
    assert(seq![Panel::Commands][0] == Panel::Commands);
    assert(seq![Panel::Sizes][0] == Panel::Sizes);
    assert(seq![Panel::Layers, Panel::Adjustments, Panel::Properties][0] == Panel::Layers);
    assert(spec_editor_docking::<S, R, X, G, W>(sizes).bands =~= seq![
                (BandShape::<S, R, X> { id: 1, edge: Edge::Left, extent: sizes.tile_extent, root: DockShape::<S, R>::Tabs { id: 2, panels: seq![Panel::Toolbar], active: Panel::Toolbar, tab_style: st } }),
                (BandShape::<S, R, X> { id: 3, edge: Edge::Left, extent: sizes.brushes_extent, root: DockShape::<S, R>::Split { id: 4, axis: Axis::Vertical, fraction: sizes.brushes_share, first: Box::new(DockShape::<S, R>::Tabs { id: 6, panels: seq![Panel::Brushes], active: Panel::Brushes, tab_style: st }), second: Box::new(DockShape::<S, R>::Split { id: 5, axis: Axis::Vertical, fraction: sizes.settings_share, first: Box::new(DockShape::<S, R>::Tabs { id: 7, panels: seq![Panel::ToolSettings, Panel::Sizes], active: Panel::ToolSettings, tab_style: st }), second: Box::new(DockShape::<S, R>::Tabs { id: 10, panels: seq![Panel::Color], active: Panel::Color, tab_style: st }) }) } }),
                (BandShape::<S, R, X> { id: 11, edge: Edge::Right, extent: sizes.layers_extent, root: DockShape::<S, R>::Split { id: 12, axis: Axis::Vertical, fraction: sizes.upper_share, first: Box::new(DockShape::<S, R>::Split { id: 13, axis: Axis::Vertical, fraction: sizes.navigator_share, first: Box::new(DockShape::<S, R>::Tabs { id: 14, panels: seq![Panel::Navigator, Panel::Stats], active: Panel::Navigator, tab_style: st }), second: Box::new(DockShape::<S, R>::Tabs { id: 15, panels: seq![Panel::Properties, Panel::Adjustments], active: Panel::Properties, tab_style: st }) }), second: Box::new(DockShape::<S, R>::Tabs { id: 16, panels: seq![Panel::Layers], active: Panel::Layers, tab_style: st }) } }),
                (BandShape::<S, R, X> { id: 17, edge: Edge::Top, extent: sizes.tile_extent, root: DockShape::<S, R>::Tabs { id: 18, panels: seq![Panel::Commands], active: Panel::Commands, tab_style: st } }),
            ]);
    assert(spec_plain_docking::<S, R, X, G, W>(plain).bands =~= seq![
                (BandShape::<S, R, X> { id: 3, edge: Edge::Left, extent: plain.column_extent, root: DockShape::<S, R>::Split { id: 4, axis: Axis::Vertical, fraction: plain.brushes_share, first: Box::new(DockShape::<S, R>::Tabs { id: 5, panels: seq![Panel::Brushes], active: Panel::Brushes, tab_style: pt }), second: Box::new(DockShape::<S, R>::Tabs { id: 6, panels: seq![Panel::Sizes], active: Panel::Sizes, tab_style: pt }) } }),
                (BandShape::<S, R, X> { id: 7, edge: Edge::Right, extent: plain.column_extent, root: DockShape::<S, R>::Tabs { id: 8, panels: seq![Panel::Layers, Panel::Adjustments, Panel::Properties], active: Panel::Layers, tab_style: pt } }),
                (BandShape::<S, R, X> { id: 1, edge: Edge::Top, extent: plain.tile_extent, root: DockShape::<S, R>::Tabs { id: 2, panels: seq![Panel::Toolbar], active: Panel::Toolbar, tab_style: pt } }),
            ]);
}

/// Paint's docking is the plain default docking on the generic platform.
/// Everywhere else it is the editor's default docking with the right column
/// (band 11, rooted at split 12) collapsed: that band narrows to
/// `icon_extent`, split 12 is recorded as the one collapsed column with its
/// open width, and every other band, and the next identity, stay the
/// editor's.
pub proof fn lemma_paint_docking<S, R, X, G, W>(platform: Platform, editor: EditorSizes<S, R, X>, plain: PlainSizes<S, R, X>,
    icon_extent: X, open_width: W)
    ensures
        platform == Platform::Generic ==> spec_paint_docking::<S, R, X, G, W>(platform, editor, plain, icon_extent, open_width)
            == spec_plain_docking::<S, R, X, G, W>(plain),
        platform != Platform::Generic ==> ({
            let p = spec_paint_docking::<S, R, X, G, W>(platform, editor, plain, icon_extent, open_width);
            let e = spec_editor_docking::<S, R, X, G, W>(editor);
            &&& p.bands.len() == e.bands.len()
            &&& p.bands[2].id == 11 && p.bands[2].edge == Edge::Right && p.bands[2].extent == icon_extent
            &&& p.bands[2].root == e.bands[2].root && shape_id(p.bands[2].root) == 12
            &&& forall|i: int| 0 <= i < p.bands.len() && i != 2 ==> #[trigger] p.bands[i] == e.bands[i]
            &&& p.collapsed == seq![(CollapsedColumn { root: 12, expanded_width: open_width })]
            &&& p.floating == e.floating && p.fit_tab_groups == e.fit_tab_groups && p.next_id == e.next_id
        }),
{
}

/// The editor's default docking is a valid workspace whenever the host
/// accepts its split shares and band extents.
pub proof fn lemma_editor_docking_valid<S, R, X, G, W>(
    sizes: EditorSizes<S, R, X>, ratio_ok: spec_fn(R) -> bool, extent_ok: spec_fn(X) -> bool,
    geometry_ok: spec_fn(G) -> bool, width_ok: spec_fn(W) -> bool,
)
    requires
        ratio_ok(sizes.brushes_share),
        ratio_ok(sizes.settings_share),
        ratio_ok(sizes.upper_share),
        ratio_ok(sizes.navigator_share),
        extent_ok(sizes.tile_extent),
        extent_ok(sizes.brushes_extent),
        extent_ok(sizes.layers_extent),
    ensures
        layout_check(spec_editor_docking::<S, R, X, G, W>(sizes), ratio_ok, extent_ok, geometry_ok, width_ok) is Ok,
{
    let l = spec_editor_docking::<S, R, X, G, W>(sizes);
    let st = sizes.tab_style;
    let b = l.bands;
    let e = Seq::<u32>::empty();
    let ep = Seq::<Panel>::empty();
    // The tools strip.
    lemma_tabs_check::<S, R>(2, seq![Panel::Toolbar], st, seq![1u32], ep, 0, ratio_ok);
    assert(e.push(1) =~= seq![1u32]);
    assert(seq![1u32].push(2) =~= seq![1u32, 2]);
    assert(ep + seq![Panel::Toolbar] =~= seq![Panel::Toolbar]);
    let i1 = seq![1u32, 2];
    let p1 = seq![Panel::Toolbar];
    assert(check_shape(b[0].root, e.push(1), ep, 0, ratio_ok) == Ok::<(Seq<u32>, Seq<Panel>), crate::dock::DockError>((i1, p1)));
    // The brush column.
    let t6 = seq![Panel::Brushes];
    let t7 = seq![Panel::ToolSettings, Panel::Sizes];
    let t10 = seq![Panel::Color];
    lemma_tabs_check::<S, R>(6, t6, st, seq![1u32, 2, 3, 4], p1, 1, ratio_ok);
    assert(p1 + t6 =~= seq![Panel::Toolbar, Panel::Brushes]);
    lemma_tabs_check::<S, R>(7, t7, st, seq![1u32, 2, 3, 4, 6, 5], seq![Panel::Toolbar, Panel::Brushes], 2, ratio_ok);
    assert(seq![Panel::Toolbar, Panel::Brushes] + t7 =~= seq![Panel::Toolbar, Panel::Brushes, Panel::ToolSettings, Panel::Sizes]);
    lemma_tabs_check::<S, R>(10, t10, st, seq![1u32, 2, 3, 4, 6, 5, 7], seq![Panel::Toolbar, Panel::Brushes, Panel::ToolSettings, Panel::Sizes], 2, ratio_ok);
    let p2 = seq![Panel::Toolbar, Panel::Brushes, Panel::ToolSettings, Panel::Sizes, Panel::Color];
    assert(seq![Panel::Toolbar, Panel::Brushes, Panel::ToolSettings, Panel::Sizes] + t10 =~= p2);
    let i2 = seq![1u32, 2, 3, 4, 6, 5, 7, 10];
    assert(seq![1u32, 2].push(3) =~= seq![1u32, 2, 3]);
    assert(seq![1u32, 2, 3].push(4) =~= seq![1u32, 2, 3, 4]);
    assert(seq![1u32, 2, 3, 4].push(6) =~= seq![1u32, 2, 3, 4, 6]);
    assert(seq![1u32, 2, 3, 4, 6].push(5) =~= seq![1u32, 2, 3, 4, 6, 5]);
    assert(seq![1u32, 2, 3, 4, 6, 5].push(7) =~= seq![1u32, 2, 3, 4, 6, 5, 7]);
    assert(seq![1u32, 2, 3, 4, 6, 5, 7].push(10) =~= i2);
    let inner5 = stack_shape::<S, R>(5, sizes.settings_share, tabs_shape(7, t7, st), tabs_shape(10, t10, st));
    assert(check_shape(inner5, seq![1u32, 2, 3, 4, 6], seq![Panel::Toolbar, Panel::Brushes], 1, ratio_ok)
        == Ok::<(Seq<u32>, Seq<Panel>), crate::dock::DockError>((i2, p2)));
    assert(check_shape(b[1].root, i1.push(3), p1, 0, ratio_ok) == Ok::<(Seq<u32>, Seq<Panel>), crate::dock::DockError>((i2, p2)));
    // The right column.
    let t14 = seq![Panel::Navigator, Panel::Stats];
    let t15 = seq![Panel::Properties, Panel::Adjustments];
    let t16 = seq![Panel::Layers];
    let i3a = seq![1u32, 2, 3, 4, 6, 5, 7, 10, 11, 12, 13];
    assert(i2.push(11) =~= seq![1u32, 2, 3, 4, 6, 5, 7, 10, 11]);
    assert(seq![1u32, 2, 3, 4, 6, 5, 7, 10, 11].push(12) =~= seq![1u32, 2, 3, 4, 6, 5, 7, 10, 11, 12]);
    assert(seq![1u32, 2, 3, 4, 6, 5, 7, 10, 11, 12].push(13) =~= i3a);
    lemma_tabs_check::<S, R>(14, t14, st, i3a, p2, 2, ratio_ok);
    let p3a = seq![Panel::Toolbar, Panel::Brushes, Panel::ToolSettings, Panel::Sizes, Panel::Color, Panel::Navigator, Panel::Stats];
    assert(p2 + t14 =~= p3a);
    let i3b = seq![1u32, 2, 3, 4, 6, 5, 7, 10, 11, 12, 13, 14];
    assert(i3a.push(14) =~= i3b);
    lemma_tabs_check::<S, R>(15, t15, st, i3b, p3a, 2, ratio_ok);
    let p3b = seq![Panel::Toolbar, Panel::Brushes, Panel::ToolSettings, Panel::Sizes, Panel::Color, Panel::Navigator, Panel::Stats,
        Panel::Properties, Panel::Adjustments];
    assert(p3a + t15 =~= p3b);
    let i3c = seq![1u32, 2, 3, 4, 6, 5, 7, 10, 11, 12, 13, 14, 15];
    assert(i3b.push(15) =~= i3c);
    lemma_tabs_check::<S, R>(16, t16, st, i3c, p3b, 1, ratio_ok);
    let p3 = seq![Panel::Toolbar, Panel::Brushes, Panel::ToolSettings, Panel::Sizes, Panel::Color, Panel::Navigator, Panel::Stats,
        Panel::Properties, Panel::Adjustments, Panel::Layers];
    assert(p3b + t16 =~= p3);
    let i3 = seq![1u32, 2, 3, 4, 6, 5, 7, 10, 11, 12, 13, 14, 15, 16];
    assert(i3c.push(16) =~= i3);
    let inner13 = stack_shape::<S, R>(13, sizes.navigator_share, tabs_shape(14, t14, st), tabs_shape(15, t15, st));
    assert(check_shape(inner13, seq![1u32, 2, 3, 4, 6, 5, 7, 10, 11, 12], p2, 1, ratio_ok)
        == Ok::<(Seq<u32>, Seq<Panel>), crate::dock::DockError>((i3c, p3b)));
    assert(check_shape(b[2].root, i2.push(11), p2, 0, ratio_ok) == Ok::<(Seq<u32>, Seq<Panel>), crate::dock::DockError>((i3, p3)));
    // The commands ribbon.
    let i4 = seq![1u32, 2, 3, 4, 6, 5, 7, 10, 11, 12, 13, 14, 15, 16, 17, 18];
    assert(i3.push(17) =~= seq![1u32, 2, 3, 4, 6, 5, 7, 10, 11, 12, 13, 14, 15, 16, 17]);
    lemma_tabs_check::<S, R>(18, seq![Panel::Commands], st, i3.push(17), p3, 0, ratio_ok);
    assert(i3.push(17).push(18) =~= i4);
    let p4 = p3 + seq![Panel::Commands];
    // The bands in order.
    let rest3 = b.drop_first().drop_first().drop_first();
    assert(rest3.len() == 1 && rest3[0] == b[3]);
    assert(rest3.drop_first() =~= Seq::<BandShape<S, R, X>>::empty());
    assert(!i3.contains(17));
    assert(check_shape(b[3].root, i3.push(17), p3, 0, ratio_ok) == Ok::<(Seq<u32>, Seq<Panel>), crate::dock::DockError>((i4, p4)));
    assert(check_bands(rest3.drop_first(), i4, p4, extent_ok, ratio_ok)
        == Ok::<(Seq<u32>, Seq<Panel>), crate::workspace::LayoutError>((i4, p4)));
    assert(!i3.contains(rest3[0].id) && extent_ok(rest3[0].extent));
    assert(check_bands(rest3, i3, p3, extent_ok, ratio_ok)
        == Ok::<(Seq<u32>, Seq<Panel>), crate::workspace::LayoutError>((i4, p4)));
    assert(check_bands(b.drop_first().drop_first(), i2, p2, extent_ok, ratio_ok)
        == Ok::<(Seq<u32>, Seq<Panel>), crate::workspace::LayoutError>((i4, p4)));
    assert(check_bands(b.drop_first(), i1, p1, extent_ok, ratio_ok)
        == Ok::<(Seq<u32>, Seq<Panel>), crate::workspace::LayoutError>((i4, p4)));
    assert(check_bands(b, e, ep, extent_ok, ratio_ok) == Ok::<(Seq<u32>, Seq<Panel>), crate::workspace::LayoutError>((i4, p4)));
    assert(check_floating_shapes(l.floating, i4, p4, geometry_ok, ratio_ok) == Ok::<(Seq<u32>, Seq<Panel>), crate::workspace::LayoutError>((i4, p4)));
    assert(columns_ok(b, l.collapsed, width_ok));
    assert(check_fit_groups(layout_trees(b, l.floating), l.fit_tab_groups, 0) == Ok::<(), crate::workspace::LayoutError>(()));
    assert(!(exists|k: int| 0 <= k < i4.len() && i4[k] >= 19));
}

/// The shipped docking of Sketch and Photo, node by node. Both dock the tools
/// strip alone on the left (band 1, group 2). Sketch adds the commands ribbon
/// on top (band 3, group 4) and starts its node identities at 5; with its
/// tools in the header it docks nothing, keeps identity 19 and hides the
/// canvas information strip. Photo docks, on the right, an outer column of
/// Navigator over Layers (band 3, split 4, groups 5 and 6) and an inner icon
/// column of Properties and Adjustments over Color and Tool settings (band 7,
/// split 8, groups 9 and 10), starts that icon column collapsed and its node
/// identities at 11. Each tab group shows its first tab; Sketch uses medium
/// tiles and Photo small ones; both hide their toolbars' tabs. Paint has no
/// such arrangement.
pub proof fn lemma_preset_docking<S, R, X, W>(header_tools: bool, sizes: PresetSizes<S, R, X, W>)
    ensures
        spec_preset_layout(WorkspacePreset::Illustrator, header_tools, sizes) is None,
        ({
            let sk = spec_preset_layout(WorkspacePreset::Painter, header_tools, sizes)->Some_0;
            let st = sizes.tab_style;
            &&& spec_preset_layout(WorkspacePreset::Painter, header_tools, sizes) is Some
            &&& header_tools ==> sk.bands == Seq::<BandShape<S, R, X>>::empty() && sk.next_id == 19 && !sk.canvas_info
            &&& !header_tools ==> sk.next_id == 5 && sk.canvas_info && sk.bands == seq![
                (BandShape::<S, R, X> { id: 1, edge: Edge::Left, extent: sizes.toolbar_extent,
                    root: DockShape::Tabs { id: 2, panels: seq![Panel::Toolbar], active: Panel::Toolbar, tab_style: st } }),
                (BandShape::<S, R, X> { id: 3, edge: Edge::Top, extent: sizes.ribbon_extent,
                    root: DockShape::Tabs { id: 4, panels: seq![Panel::Commands], active: Panel::Commands, tab_style: st } }),
            ]
            &&& sk.collapsed == Seq::<CollapsedColumn<W>>::empty()
            &&& sk.medium_tiles && sk.hide_toolbar_tabs
        }),
        ({
            let ph = spec_preset_layout(WorkspacePreset::Photographer, header_tools, sizes)->Some_0;
            let st = sizes.tab_style;
            &&& spec_preset_layout(WorkspacePreset::Photographer, header_tools, sizes) is Some
            &&& ph.bands == seq![
                (BandShape::<S, R, X> { id: 1, edge: Edge::Left, extent: sizes.toolbar_extent,
                    root: DockShape::Tabs { id: 2, panels: seq![Panel::Toolbar], active: Panel::Toolbar, tab_style: st } }),
                (BandShape::<S, R, X> { id: 3, edge: Edge::Right, extent: sizes.primary_extent,
                    root: DockShape::Split { id: 4, axis: Axis::Vertical, fraction: sizes.navigator_share,
                        first: Box::new(DockShape::Tabs { id: 5, panels: seq![Panel::Navigator], active: Panel::Navigator, tab_style: st }),
                        second: Box::new(DockShape::Tabs { id: 6, panels: seq![Panel::Layers], active: Panel::Layers, tab_style: st }) } }),
                (BandShape::<S, R, X> { id: 7, edge: Edge::Right, extent: sizes.icon_extent,
                    root: DockShape::Split { id: 8, axis: Axis::Vertical, fraction: sizes.secondary_share,
                        first: Box::new(DockShape::Tabs { id: 9, panels: seq![Panel::Properties, Panel::Adjustments], active: Panel::Properties, tab_style: st }),
                        second: Box::new(DockShape::Tabs { id: 10, panels: seq![Panel::Color, Panel::ToolSettings], active: Panel::Color, tab_style: st }) } }),
            ]
            &&& ph.collapsed == seq![(CollapsedColumn { root: 8, expanded_width: sizes.expanded_width })]
            &&& ph.next_id == 11
            &&& !ph.medium_tiles && ph.hide_toolbar_tabs && ph.canvas_info
        }),
{
    let st = sizes.tab_style;
    assert(seq![Panel::Toolbar][0] == Panel::Toolbar);
    assert(seq![Panel::Commands][0] == Panel::Commands);
    assert(seq![Panel::Navigator][0] == Panel::Navigator);
    assert(seq![Panel::Layers][0] == Panel::Layers);
    assert(seq![Panel::Properties, Panel::Adjustments][0] == Panel::Properties);
    assert(seq![Panel::Color, Panel::ToolSettings][0] == Panel::Color);
    let sk = spec_preset_layout(WorkspacePreset::Painter, header_tools, sizes)->Some_0;
    if !header_tools {
        assert(sk.bands =~= seq![
            (BandShape::<S, R, X> { id: 1, edge: Edge::Left, extent: sizes.toolbar_extent,
                root: DockShape::Tabs { id: 2, panels: seq![Panel::Toolbar], active: Panel::Toolbar, tab_style: st } }),
            (BandShape::<S, R, X> { id: 3, edge: Edge::Top, extent: sizes.ribbon_extent,
                root: DockShape::Tabs { id: 4, panels: seq![Panel::Commands], active: Panel::Commands, tab_style: st } }),
        ]);
    }
    let ph = spec_preset_layout(WorkspacePreset::Photographer, header_tools, sizes)->Some_0;
    assert(ph.bands =~= seq![
        (BandShape::<S, R, X> { id: 1, edge: Edge::Left, extent: sizes.toolbar_extent,
            root: DockShape::Tabs { id: 2, panels: seq![Panel::Toolbar], active: Panel::Toolbar, tab_style: st } }),
        (BandShape::<S, R, X> { id: 3, edge: Edge::Right, extent: sizes.primary_extent,
            root: DockShape::Split { id: 4, axis: Axis::Vertical, fraction: sizes.navigator_share,
                first: Box::new(DockShape::Tabs { id: 5, panels: seq![Panel::Navigator], active: Panel::Navigator, tab_style: st }),
                second: Box::new(DockShape::Tabs { id: 6, panels: seq![Panel::Layers], active: Panel::Layers, tab_style: st }) } }),
        (BandShape::<S, R, X> { id: 7, edge: Edge::Right, extent: sizes.icon_extent,
            root: DockShape::Split { id: 8, axis: Axis::Vertical, fraction: sizes.secondary_share,
                first: Box::new(DockShape::Tabs { id: 9, panels: seq![Panel::Properties, Panel::Adjustments], active: Panel::Properties, tab_style: st }),
                second: Box::new(DockShape::Tabs { id: 10, panels: seq![Panel::Color, Panel::ToolSettings], active: Panel::Color, tab_style: st }) } }),
    ]);
    assert(ph.collapsed =~= seq![(CollapsedColumn { root: 8, expanded_width: sizes.expanded_width })]);
}


/// The toolbars each preset ships, tile by tile: Sketch's tools strip (the
/// painting essentials, the brush size drawer and opacity) and its short
/// commands ribbon, and Photo's tools strip (selection, transform, painting,
/// Gradient and navigation) with the editor's commands ribbon; tiles are
/// numbered from 1, the tools first, and the allocator continues after them.
pub proof fn lemma_preset_toolbars<S, R, X, W>(header_tools: bool, sizes: PresetSizes<S, R, X, W>)
    ensures
        spec_preset_layout(WorkspacePreset::Painter, header_tools, sizes)->Some_0.toolbars[Panel::Toolbar] == seq![
            ToolbarTile { id: 1, control: ToolbarControl::Command { command: CommandId::Brush } },
            ToolbarTile { id: 2, control: ToolbarControl::Command { command: CommandId::Eraser } },
            ToolbarTile { id: 3, control: ToolbarControl::Command { command: CommandId::Blend } },
            ToolbarTile { id: 4, control: ToolbarControl::Command { command: CommandId::Fill } },
            ToolbarTile { id: 5, control: ToolbarControl::Divider },
            ToolbarTile { id: 6, control: ToolbarControl::Command { command: CommandId::Eyedropper } },
            ToolbarTile { id: 7, control: ToolbarControl::Color },
            ToolbarTile { id: 8, control: ToolbarControl::Panel { panel: Panel::Sizes } },
            ToolbarTile { id: 9, control: ToolbarControl::Opacity },
        ],
        spec_preset_layout(WorkspacePreset::Painter, header_tools, sizes)->Some_0.toolbars[Panel::Commands] == seq![
            ToolbarTile { id: 10, control: ToolbarControl::Command { command: CommandId::Undo } },
            ToolbarTile { id: 11, control: ToolbarControl::Command { command: CommandId::Redo } },
            ToolbarTile { id: 12, control: ToolbarControl::Divider },
            ToolbarTile { id: 13, control: ToolbarControl::Command { command: CommandId::Lasso } },
            ToolbarTile { id: 14, control: ToolbarControl::Command { command: CommandId::ScaleRotate } },
            ToolbarTile { id: 15, control: ToolbarControl::Divider },
            ToolbarTile { id: 16, control: ToolbarControl::Panel { panel: Panel::Brushes } },
            ToolbarTile { id: 17, control: ToolbarControl::Panel { panel: Panel::Layers } },
        ],
        spec_preset_layout(WorkspacePreset::Painter, header_tools, sizes)->Some_0.next_tile_id == 18,
        spec_preset_layout(WorkspacePreset::Photographer, header_tools, sizes)->Some_0.toolbars[Panel::Toolbar] == seq![
            ToolbarTile { id: 1, control: ToolbarControl::Command { command: CommandId::Move } },
            ToolbarTile { id: 2, control: ToolbarControl::Command { command: CommandId::Lasso } },
            ToolbarTile { id: 3, control: ToolbarControl::Command { command: CommandId::AutoSelect } },
            ToolbarTile { id: 4, control: ToolbarControl::Command { command: CommandId::ScaleRotate } },
            ToolbarTile { id: 5, control: ToolbarControl::Divider },
            ToolbarTile { id: 6, control: ToolbarControl::Command { command: CommandId::Brush } },
            ToolbarTile { id: 7, control: ToolbarControl::Command { command: CommandId::Eraser } },
            ToolbarTile { id: 8, control: ToolbarControl::Command { command: CommandId::Blend } },
            ToolbarTile { id: 9, control: ToolbarControl::Command { command: CommandId::Liquify } },
            ToolbarTile { id: 10, control: ToolbarControl::Command { command: CommandId::Fill } },
            ToolbarTile { id: 11, control: ToolbarControl::Command { command: CommandId::Gradient } },
            ToolbarTile { id: 12, control: ToolbarControl::Divider },
            ToolbarTile { id: 13, control: ToolbarControl::Command { command: CommandId::Eyedropper } },
            ToolbarTile { id: 14, control: ToolbarControl::Color },
            ToolbarTile { id: 15, control: ToolbarControl::Command { command: CommandId::Hand } },
        ],
        spec_preset_layout(WorkspacePreset::Photographer, header_tools, sizes)->Some_0.toolbars[Panel::Commands] == seq![
            ToolbarTile { id: 16, control: ToolbarControl::Command { command: CommandId::NewDocument } },
            ToolbarTile { id: 17, control: ToolbarControl::Command { command: CommandId::OpenDocument } },
            ToolbarTile { id: 18, control: ToolbarControl::Command { command: CommandId::SaveDocument } },
            ToolbarTile { id: 19, control: ToolbarControl::Divider },
            ToolbarTile { id: 20, control: ToolbarControl::Command { command: CommandId::Undo } },
            ToolbarTile { id: 21, control: ToolbarControl::Command { command: CommandId::Redo } },
            ToolbarTile { id: 22, control: ToolbarControl::Divider },
            ToolbarTile { id: 23, control: ToolbarControl::Command { command: CommandId::ClearLayer } },
            ToolbarTile { id: 24, control: ToolbarControl::Command { command: CommandId::FillSelection } },
            ToolbarTile { id: 25, control: ToolbarControl::Command { command: CommandId::ScaleRotate } },
            ToolbarTile { id: 26, control: ToolbarControl::Divider },
            ToolbarTile { id: 27, control: ToolbarControl::Command { command: CommandId::FlipHorizontal } },
        ],
        spec_preset_layout(WorkspacePreset::Photographer, header_tools, sizes)->Some_0.next_tile_id == 28,
{
    let sk = spec_preset_layout(WorkspacePreset::Painter, header_tools, sizes)->Some_0;
    let ph = spec_preset_layout(WorkspacePreset::Photographer, header_tools, sizes)->Some_0;
    assert(sk.toolbars[Panel::Toolbar] =~= seq![
            ToolbarTile { id: 1, control: ToolbarControl::Command { command: CommandId::Brush } },
            ToolbarTile { id: 2, control: ToolbarControl::Command { command: CommandId::Eraser } },
            ToolbarTile { id: 3, control: ToolbarControl::Command { command: CommandId::Blend } },
            ToolbarTile { id: 4, control: ToolbarControl::Command { command: CommandId::Fill } },
            ToolbarTile { id: 5, control: ToolbarControl::Divider },
            ToolbarTile { id: 6, control: ToolbarControl::Command { command: CommandId::Eyedropper } },
            ToolbarTile { id: 7, control: ToolbarControl::Color },
            ToolbarTile { id: 8, control: ToolbarControl::Panel { panel: Panel::Sizes } },
            ToolbarTile { id: 9, control: ToolbarControl::Opacity },
    ]);
    assert(sk.toolbars[Panel::Commands] =~= seq![
            ToolbarTile { id: 10, control: ToolbarControl::Command { command: CommandId::Undo } },
            ToolbarTile { id: 11, control: ToolbarControl::Command { command: CommandId::Redo } },
            ToolbarTile { id: 12, control: ToolbarControl::Divider },
            ToolbarTile { id: 13, control: ToolbarControl::Command { command: CommandId::Lasso } },
            ToolbarTile { id: 14, control: ToolbarControl::Command { command: CommandId::ScaleRotate } },
            ToolbarTile { id: 15, control: ToolbarControl::Divider },
            ToolbarTile { id: 16, control: ToolbarControl::Panel { panel: Panel::Brushes } },
            ToolbarTile { id: 17, control: ToolbarControl::Panel { panel: Panel::Layers } },
    ]);
    assert(ph.toolbars[Panel::Toolbar] =~= seq![
            ToolbarTile { id: 1, control: ToolbarControl::Command { command: CommandId::Move } },
            ToolbarTile { id: 2, control: ToolbarControl::Command { command: CommandId::Lasso } },
            ToolbarTile { id: 3, control: ToolbarControl::Command { command: CommandId::AutoSelect } },
            ToolbarTile { id: 4, control: ToolbarControl::Command { command: CommandId::ScaleRotate } },
            ToolbarTile { id: 5, control: ToolbarControl::Divider },
            ToolbarTile { id: 6, control: ToolbarControl::Command { command: CommandId::Brush } },
            ToolbarTile { id: 7, control: ToolbarControl::Command { command: CommandId::Eraser } },
            ToolbarTile { id: 8, control: ToolbarControl::Command { command: CommandId::Blend } },
            ToolbarTile { id: 9, control: ToolbarControl::Command { command: CommandId::Liquify } },
            ToolbarTile { id: 10, control: ToolbarControl::Command { command: CommandId::Fill } },
            ToolbarTile { id: 11, control: ToolbarControl::Command { command: CommandId::Gradient } },
            ToolbarTile { id: 12, control: ToolbarControl::Divider },
            ToolbarTile { id: 13, control: ToolbarControl::Command { command: CommandId::Eyedropper } },
            ToolbarTile { id: 14, control: ToolbarControl::Color },
            ToolbarTile { id: 15, control: ToolbarControl::Command { command: CommandId::Hand } },
    ]);
    assert(ph.toolbars[Panel::Commands] =~= seq![
            ToolbarTile { id: 16, control: ToolbarControl::Command { command: CommandId::NewDocument } },
            ToolbarTile { id: 17, control: ToolbarControl::Command { command: CommandId::OpenDocument } },
            ToolbarTile { id: 18, control: ToolbarControl::Command { command: CommandId::SaveDocument } },
            ToolbarTile { id: 19, control: ToolbarControl::Divider },
            ToolbarTile { id: 20, control: ToolbarControl::Command { command: CommandId::Undo } },
            ToolbarTile { id: 21, control: ToolbarControl::Command { command: CommandId::Redo } },
            ToolbarTile { id: 22, control: ToolbarControl::Divider },
            ToolbarTile { id: 23, control: ToolbarControl::Command { command: CommandId::ClearLayer } },
            ToolbarTile { id: 24, control: ToolbarControl::Command { command: CommandId::FillSelection } },
            ToolbarTile { id: 25, control: ToolbarControl::Command { command: CommandId::ScaleRotate } },
            ToolbarTile { id: 26, control: ToolbarControl::Divider },
            ToolbarTile { id: 27, control: ToolbarControl::Command { command: CommandId::FlipHorizontal } },
    ]);
}

} // verus!
