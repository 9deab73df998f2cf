//! Panel identities and their saved text form, dock edges and axes, and the
//! small presentation rules attached to them.
use vstd::prelude::*;
use vstd::string::*;
use crate::platform::Platform;
use crate::text::{decimal, decimal_string, lemma_decimal, parse_u32, parse_u32_from, same_text, starts_with_text};

verus! {

/// A dockable panel. Built-in panels are unique; custom toolbars carry the
/// workspace identity they were allocated with.
#[derive(Clone, Copy, Debug, PartialEq, Eq, Structural)]
pub enum Panel {
    Toolbar,
    Commands,
    Brushes,
    ToolSettings,
    Color,
    Sizes,
    Layers,
    Adjustments,
    Properties,
    Stats,
    Navigator,
    CustomToolbar(u32),
}

/// Whether a panel shows content or a strip of tool tiles.
#[derive(Clone, Copy, Debug, PartialEq, Eq, Structural)]
pub enum PanelKind {
    Content,
    Tiles,
}

/// Why a saved panel identity was refused.
#[derive(Clone, Copy, Debug, PartialEq, Eq, Structural)]
pub enum PanelIdentityError {
    /// Neither a built-in name nor `toolbar:` followed by a positive number.
    Unknown,
    /// A positive toolbar number written in a non-canonical way.
    InvalidToolbar,
}

impl PanelIdentityError {
    pub fn message(self) -> (m: &'static str)
        ensures
            m@ == match self {
                PanelIdentityError::Unknown => "Unknown panel identity"@,
                PanelIdentityError::InvalidToolbar => "Invalid toolbar identity"@,
            },
    {
        match self {
            PanelIdentityError::Unknown => "Unknown panel identity",
            PanelIdentityError::InvalidToolbar => "Invalid toolbar identity",
        }
    }
}

/// The prefix of a custom toolbar's saved identity.
pub open spec fn toolbar_prefix() -> Seq<char> {
    "toolbar:"@
}

/// The saved text form of a panel, kept stable across releases.
pub open spec fn identity_text(p: Panel) -> Seq<char> {
    match p {
        Panel::Toolbar => "toolbar"@,
        Panel::Commands => "commands"@,
        Panel::Brushes => "brushes"@,
        Panel::ToolSettings => "tool_settings"@,
        Panel::Color => "color"@,
        Panel::Sizes => "sizes"@,
        Panel::Layers => "layers"@,
        Panel::Adjustments => "adjustments"@,
        Panel::Properties => "properties"@,
        Panel::Stats => "stats"@,
        Panel::Navigator => "navigator"@,
        Panel::CustomToolbar(id) => toolbar_prefix() + decimal(id as nat),
    }
}

/// The panel named by a saved identity, or why it was refused.
pub open spec fn parse_identity(s: Seq<char>) -> Result<Panel, PanelIdentityError> {
    if s == "toolbar"@ {
        Ok(Panel::Toolbar)
    } else if s == "commands"@ {
        Ok(Panel::Commands)
    } else if s == "brushes"@ {
        Ok(Panel::Brushes)
    } else if s == "tool_settings"@ {
        Ok(Panel::ToolSettings)
    } else if s == "color"@ {
        Ok(Panel::Color)
    } else if s == "sizes"@ {
        Ok(Panel::Sizes)
    } else if s == "layers"@ {
        Ok(Panel::Layers)
    } else if s == "adjustments"@ {
        Ok(Panel::Adjustments)
    } else if s == "properties"@ {
        Ok(Panel::Properties)
    } else if s == "stats"@ {
        Ok(Panel::Stats)
    } else if s == "navigator"@ {
        Ok(Panel::Navigator)
    } else {
        let n = toolbar_prefix().len();
        if n <= s.len() && s.subrange(0, n as int) == toolbar_prefix() {
            match parse_u32(s.subrange(n as int, s.len() as int)) {
                Some(id) => if id > 0 {
                    if s == identity_text(Panel::CustomToolbar(id)) {
                        Ok(Panel::CustomToolbar(id))
                    } else {
                        Err(PanelIdentityError::InvalidToolbar)
                    }
                } else {
                    Err(PanelIdentityError::Unknown)
                },
                None => Err(PanelIdentityError::Unknown),
            }
        } else {
            Err(PanelIdentityError::Unknown)
        }
    }
}

/// Panels that some hosts provide only once their native projection exists.
pub open spec fn host_projected(p: Panel) -> bool {
    p is ToolSettings || p is Color || p is Navigator || p is Commands
}

pub open spec fn spec_available_on(p: Panel, platform: Platform) -> bool {
    !host_projected(p) || platform is Windows || platform is Android || platform is Web
        || platform is Ios || platform is Mac || platform is Gtk || platform is Generic
}

pub open spec fn spec_kind(p: Panel) -> PanelKind {
    if p is Toolbar || p is Commands || p is CustomToolbar {
        PanelKind::Tiles
    } else {
        PanelKind::Content
    }
}

pub open spec fn spec_label(p: Panel) -> Seq<char> {
    match p {
        Panel::Toolbar => "Tools"@,
        Panel::Commands => "Commands"@,
        Panel::Brushes => "Tool Set"@,
        Panel::ToolSettings => "Tool"@,
        Panel::Color => "Color"@,
        Panel::Sizes => "Brush size"@,
        Panel::Layers => "Layers"@,
        Panel::Adjustments => "Filters"@,
        Panel::Properties => "Properties"@,
        Panel::Stats => "Diagnostics"@,
        Panel::Navigator => "Navigator"@,
        Panel::CustomToolbar(_) => "Toolbar"@,
    }
}

pub open spec fn spec_icon(p: Panel) -> Seq<char> {
    match p {
        Panel::Toolbar | Panel::Commands | Panel::CustomToolbar(_) => "menu"@,
        Panel::Brushes => "brush"@,
        Panel::ToolSettings => "settings"@,
        Panel::Color => "color"@,
        Panel::Sizes => "size"@,
        Panel::Layers => "layers"@,
        Panel::Adjustments => "adjustments"@,
        Panel::Properties => "properties"@,
        Panel::Stats => "stats"@,
        Panel::Navigator => "navigator"@,
    }
}

/// Logical width of one standard toolbar tile.
pub const TILE_SIZE_UNITS: u16 = 36;

pub open spec fn spec_default_width(p: Panel) -> u16 {
    match p {
        Panel::Brushes | Panel::ToolSettings | Panel::Color | Panel::Sizes => 242,
        Panel::Layers | Panel::Adjustments | Panel::Properties | Panel::Stats
        | Panel::Navigator => 254,
        Panel::Toolbar | Panel::Commands | Panel::CustomToolbar(_) => TILE_SIZE_UNITS,
    }
}

impl Panel {
    /// Every built-in panel, in menu order.
    pub const ALL: [Panel; 11] = [
        Panel::Toolbar,
        Panel::Commands,
        Panel::Brushes,
        Panel::ToolSettings,
        Panel::Color,
        Panel::Sizes,
        Panel::Layers,
        Panel::Adjustments,
        Panel::Properties,
        Panel::Stats,
        Panel::Navigator,
    ];

    /// The saved text form (`toolbar`, `layers`, `toolbar:7`, ...).
    pub fn identity(self) -> (s: String)
        ensures
            s@ == identity_text(self),
    {
        match self {
            Panel::Toolbar => String::from_str("toolbar"),
            Panel::Commands => String::from_str("commands"),
            Panel::Brushes => String::from_str("brushes"),
            Panel::ToolSettings => String::from_str("tool_settings"),
            Panel::Color => String::from_str("color"),
            Panel::Sizes => String::from_str("sizes"),
            Panel::Layers => String::from_str("layers"),
            Panel::Adjustments => String::from_str("adjustments"),
            Panel::Properties => String::from_str("properties"),
            Panel::Stats => String::from_str("stats"),
            Panel::Navigator => String::from_str("navigator"),
            Panel::CustomToolbar(id) => {
                let mut s = String::from_str("toolbar:");
                let digits = decimal_string(id);
                s.append(digits.as_str());
                s
            },
        }
    }

    /// Reads a saved identity. Only the canonical text of a panel is accepted.
    pub fn try_from_identity(value: &str) -> (r: Result<Panel, PanelIdentityError>)
        ensures
            r == parse_identity(value@),
    {
        if same_text(value, "toolbar") {
            Ok(Panel::Toolbar)
        } else if same_text(value, "commands") {
            Ok(Panel::Commands)
        } else if same_text(value, "brushes") {
            Ok(Panel::Brushes)
        } else if same_text(value, "tool_settings") {
            Ok(Panel::ToolSettings)
        } else if same_text(value, "color") {
            Ok(Panel::Color)
        } else if same_text(value, "sizes") {
            Ok(Panel::Sizes)
        } else if same_text(value, "layers") {
            Ok(Panel::Layers)
        } else if same_text(value, "adjustments") {
            Ok(Panel::Adjustments)
        } else if same_text(value, "properties") {
            Ok(Panel::Properties)
        } else if same_text(value, "stats") {
            Ok(Panel::Stats)
        } else if same_text(value, "navigator") {
            Ok(Panel::Navigator)
        } else {
            proof {
                reveal_strlit("toolbar:");
            }
            if !starts_with_text(value, "toolbar:") {
                return Err(PanelIdentityError::Unknown);
            }
            match parse_u32_from(value, 8) {
                Some(id) => {
                    if id == 0 {
                        return Err(PanelIdentityError::Unknown);
                    }
                    let canonical = Panel::CustomToolbar(id).identity();
                    if same_text(value, canonical.as_str()) {
                        Ok(Panel::CustomToolbar(id))
                    } else {
                        Err(PanelIdentityError::InvalidToolbar)
                    }
                },
                None => Err(PanelIdentityError::Unknown),
            }
        }
    }

    /// Keeps saved identities available while hosts add native projections.
    pub fn available_on(self, platform: Platform) -> (r: bool)
        ensures
            r == spec_available_on(self, platform),
    {
        let projected = match self {
            Panel::ToolSettings | Panel::Color | Panel::Navigator | Panel::Commands => true,
            _ => false,
        };
        if projected && platform == Platform::Windows {
            return true;
        }
        if projected && (platform == Platform::Android || platform == Platform::Web) {
            return true;
        }
        if projected && (platform == Platform::Ios || platform == Platform::Mac) {
            return true;
        }
        !projected || platform == Platform::Gtk || platform == Platform::Generic
    }

    pub fn kind(self) -> (k: PanelKind)
        ensures
            k == spec_kind(self),
    {
        match self {
            Panel::Toolbar | Panel::Commands | Panel::CustomToolbar(_) => PanelKind::Tiles,
            _ => PanelKind::Content,
        }
    }

    pub fn label(self) -> (s: &'static str)
        ensures
            s@ == spec_label(self),
    {
        match self {
            Panel::Toolbar => "Tools",
            Panel::Commands => "Commands",
            Panel::Brushes => "Tool Set",
            Panel::ToolSettings => "Tool",
            Panel::Color => "Color",
            Panel::Sizes => "Brush size",
            Panel::Layers => "Layers",
            Panel::Adjustments => "Filters",
            Panel::Properties => "Properties",
            Panel::Stats => "Diagnostics",
            Panel::Navigator => "Navigator",
            Panel::CustomToolbar(_) => "Toolbar",
        }
    }

    pub fn icon(self) -> (s: &'static str)
        ensures
            s@ == spec_icon(self),
    {
        match self {
            Panel::Toolbar | Panel::Commands | Panel::CustomToolbar(_) => "menu",
            Panel::Brushes => "brush",
            Panel::ToolSettings => "settings",
            Panel::Color => "color",
            Panel::Sizes => "size",
            Panel::Layers => "layers",
            Panel::Adjustments => "adjustments",
            Panel::Properties => "properties",
            Panel::Stats => "stats",
            Panel::Navigator => "navigator",
        }
    }

    /// Normal starting column width in logical units, excluding its divider.
    pub fn default_width(self) -> (w: u16)
        ensures
            w == spec_default_width(self),
    {
        match self {
            Panel::Brushes | Panel::ToolSettings | Panel::Color | Panel::Sizes => 242,
            Panel::Layers | Panel::Adjustments | Panel::Properties | Panel::Stats
            | Panel::Navigator => 254,
            Panel::Toolbar | Panel::Commands | Panel::CustomToolbar(_) => TILE_SIZE_UNITS,
        }
    }
}

/// A saved identity reads back as the panel that wrote it. Toolbar number 0
/// is never allocated and is the one identity that does not read back.
pub proof fn lemma_identity_round_trip(p: Panel)
    requires
        p != Panel::CustomToolbar(0),
    ensures
        parse_identity(identity_text(p)) == Ok::<Panel, PanelIdentityError>(p),
{
    reveal_strlit("toolbar");
    reveal_strlit("commands");
    reveal_strlit("brushes");
    reveal_strlit("tool_settings");
    reveal_strlit("color");
    reveal_strlit("sizes");
    reveal_strlit("layers");
    reveal_strlit("adjustments");
    reveal_strlit("properties");
    reveal_strlit("stats");
    reveal_strlit("navigator");
    reveal_strlit("toolbar:");
    if let Panel::CustomToolbar(id) = p {
        let s = identity_text(p);
        let d = decimal(id as nat);
        lemma_decimal(id as nat);
        assert(s.len() == 8 + d.len());
        assert(s[7] == ':');
        assert(s[0] == 't' && s[1] == 'o' && s[4] == 'b');
        assert(s != "toolbar"@);
        assert(s != "commands"@);
        assert(s != "brushes"@);
        assert(s != "tool_settings"@);
        assert(s != "color"@);
        assert(s != "sizes"@);
        assert(s != "layers"@);
        assert(s != "adjustments"@);
        assert(s != "properties"@);
        assert(s != "stats"@);
        assert(s != "navigator"@);
        assert(s.subrange(0, 8) =~= toolbar_prefix());
        assert(s.subrange(8, s.len() as int) =~= d);
        assert(parse_u32(d) == Some(id));
        assert(toolbar_prefix().len() == 8);
        assert(parse_identity(s) == Ok::<Panel, PanelIdentityError>(p));
    } else {
        match p {
            Panel::Toolbar => {
            },
            Panel::Commands => {
                assert("commands"@ != "toolbar"@) by { assert("commands"@.len() != "toolbar"@.len() || "commands"@[0] != "toolbar"@[0] || "commands"@[1] != "toolbar"@[1] || "commands"@[4] != "toolbar"@[4]); }
            },
            Panel::Brushes => {
                assert("brushes"@ != "toolbar"@) by { assert("brushes"@.len() != "toolbar"@.len() || "brushes"@[0] != "toolbar"@[0] || "brushes"@[1] != "toolbar"@[1] || "brushes"@[4] != "toolbar"@[4]); }
                assert("brushes"@ != "commands"@) by { assert("brushes"@.len() != "commands"@.len() || "brushes"@[0] != "commands"@[0] || "brushes"@[1] != "commands"@[1] || "brushes"@[4] != "commands"@[4]); }
            },
            Panel::ToolSettings => {
                assert("tool_settings"@ != "toolbar"@) by { assert("tool_settings"@.len() != "toolbar"@.len() || "tool_settings"@[0] != "toolbar"@[0] || "tool_settings"@[1] != "toolbar"@[1] || "tool_settings"@[4] != "toolbar"@[4]); }
                assert("tool_settings"@ != "commands"@) by { assert("tool_settings"@.len() != "commands"@.len() || "tool_settings"@[0] != "commands"@[0] || "tool_settings"@[1] != "commands"@[1] || "tool_settings"@[4] != "commands"@[4]); }
                assert("tool_settings"@ != "brushes"@) by { assert("tool_settings"@.len() != "brushes"@.len() || "tool_settings"@[0] != "brushes"@[0] || "tool_settings"@[1] != "brushes"@[1] || "tool_settings"@[4] != "brushes"@[4]); }
            },
            Panel::Color => {
                assert("color"@ != "toolbar"@) by { assert("color"@.len() != "toolbar"@.len() || "color"@[0] != "toolbar"@[0] || "color"@[1] != "toolbar"@[1] || "color"@[4] != "toolbar"@[4]); }
                assert("color"@ != "commands"@) by { assert("color"@.len() != "commands"@.len() || "color"@[0] != "commands"@[0] || "color"@[1] != "commands"@[1] || "color"@[4] != "commands"@[4]); }
                assert("color"@ != "brushes"@) by { assert("color"@.len() != "brushes"@.len() || "color"@[0] != "brushes"@[0] || "color"@[1] != "brushes"@[1] || "color"@[4] != "brushes"@[4]); }
                assert("color"@ != "tool_settings"@) by { assert("color"@.len() != "tool_settings"@.len() || "color"@[0] != "tool_settings"@[0] || "color"@[1] != "tool_settings"@[1] || "color"@[4] != "tool_settings"@[4]); }
            },
            Panel::Sizes => {
                assert("sizes"@ != "toolbar"@) by { assert("sizes"@.len() != "toolbar"@.len() || "sizes"@[0] != "toolbar"@[0] || "sizes"@[1] != "toolbar"@[1] || "sizes"@[4] != "toolbar"@[4]); }
                assert("sizes"@ != "commands"@) by { assert("sizes"@.len() != "commands"@.len() || "sizes"@[0] != "commands"@[0] || "sizes"@[1] != "commands"@[1] || "sizes"@[4] != "commands"@[4]); }
                assert("sizes"@ != "brushes"@) by { assert("sizes"@.len() != "brushes"@.len() || "sizes"@[0] != "brushes"@[0] || "sizes"@[1] != "brushes"@[1] || "sizes"@[4] != "brushes"@[4]); }
                assert("sizes"@ != "tool_settings"@) by { assert("sizes"@.len() != "tool_settings"@.len() || "sizes"@[0] != "tool_settings"@[0] || "sizes"@[1] != "tool_settings"@[1] || "sizes"@[4] != "tool_settings"@[4]); }
                assert("sizes"@ != "color"@) by { assert("sizes"@.len() != "color"@.len() || "sizes"@[0] != "color"@[0] || "sizes"@[1] != "color"@[1] || "sizes"@[4] != "color"@[4]); }
            },
            Panel::Layers => {
                assert("layers"@ != "toolbar"@) by { assert("layers"@.len() != "toolbar"@.len() || "layers"@[0] != "toolbar"@[0] || "layers"@[1] != "toolbar"@[1] || "layers"@[4] != "toolbar"@[4]); }
                assert("layers"@ != "commands"@) by { assert("layers"@.len() != "commands"@.len() || "layers"@[0] != "commands"@[0] || "layers"@[1] != "commands"@[1] || "layers"@[4] != "commands"@[4]); }
                assert("layers"@ != "brushes"@) by { assert("layers"@.len() != "brushes"@.len() || "layers"@[0] != "brushes"@[0] || "layers"@[1] != "brushes"@[1] || "layers"@[4] != "brushes"@[4]); }
                assert("layers"@ != "tool_settings"@) by { assert("layers"@.len() != "tool_settings"@.len() || "layers"@[0] != "tool_settings"@[0] || "layers"@[1] != "tool_settings"@[1] || "layers"@[4] != "tool_settings"@[4]); }
                assert("layers"@ != "color"@) by { assert("layers"@.len() != "color"@.len() || "layers"@[0] != "color"@[0] || "layers"@[1] != "color"@[1] || "layers"@[4] != "color"@[4]); }
                assert("layers"@ != "sizes"@) by { assert("layers"@.len() != "sizes"@.len() || "layers"@[0] != "sizes"@[0] || "layers"@[1] != "sizes"@[1] || "layers"@[4] != "sizes"@[4]); }
            },
            Panel::Adjustments => {
                assert("adjustments"@ != "toolbar"@) by { assert("adjustments"@.len() != "toolbar"@.len() || "adjustments"@[0] != "toolbar"@[0] || "adjustments"@[1] != "toolbar"@[1] || "adjustments"@[4] != "toolbar"@[4]); }
                assert("adjustments"@ != "commands"@) by { assert("adjustments"@.len() != "commands"@.len() || "adjustments"@[0] != "commands"@[0] || "adjustments"@[1] != "commands"@[1] || "adjustments"@[4] != "commands"@[4]); }
                assert("adjustments"@ != "brushes"@) by { assert("adjustments"@.len() != "brushes"@.len() || "adjustments"@[0] != "brushes"@[0] || "adjustments"@[1] != "brushes"@[1] || "adjustments"@[4] != "brushes"@[4]); }
                assert("adjustments"@ != "tool_settings"@) by { assert("adjustments"@.len() != "tool_settings"@.len() || "adjustments"@[0] != "tool_settings"@[0] || "adjustments"@[1] != "tool_settings"@[1] || "adjustments"@[4] != "tool_settings"@[4]); }
                assert("adjustments"@ != "color"@) by { assert("adjustments"@.len() != "color"@.len() || "adjustments"@[0] != "color"@[0] || "adjustments"@[1] != "color"@[1] || "adjustments"@[4] != "color"@[4]); }
                assert("adjustments"@ != "sizes"@) by { assert("adjustments"@.len() != "sizes"@.len() || "adjustments"@[0] != "sizes"@[0] || "adjustments"@[1] != "sizes"@[1] || "adjustments"@[4] != "sizes"@[4]); }
                assert("adjustments"@ != "layers"@) by { assert("adjustments"@.len() != "layers"@.len() || "adjustments"@[0] != "layers"@[0] || "adjustments"@[1] != "layers"@[1] || "adjustments"@[4] != "layers"@[4]); }
            },
            Panel::Properties => {
                assert("properties"@ != "toolbar"@) by { assert("properties"@.len() != "toolbar"@.len() || "properties"@[0] != "toolbar"@[0] || "properties"@[1] != "toolbar"@[1] || "properties"@[4] != "toolbar"@[4]); }
                assert("properties"@ != "commands"@) by { assert("properties"@.len() != "commands"@.len() || "properties"@[0] != "commands"@[0] || "properties"@[1] != "commands"@[1] || "properties"@[4] != "commands"@[4]); }
                assert("properties"@ != "brushes"@) by { assert("properties"@.len() != "brushes"@.len() || "properties"@[0] != "brushes"@[0] || "properties"@[1] != "brushes"@[1] || "properties"@[4] != "brushes"@[4]); }
                assert("properties"@ != "tool_settings"@) by { assert("properties"@.len() != "tool_settings"@.len() || "properties"@[0] != "tool_settings"@[0] || "properties"@[1] != "tool_settings"@[1] || "properties"@[4] != "tool_settings"@[4]); }
                assert("properties"@ != "color"@) by { assert("properties"@.len() != "color"@.len() || "properties"@[0] != "color"@[0] || "properties"@[1] != "color"@[1] || "properties"@[4] != "color"@[4]); }
                assert("properties"@ != "sizes"@) by { assert("properties"@.len() != "sizes"@.len() || "properties"@[0] != "sizes"@[0] || "properties"@[1] != "sizes"@[1] || "properties"@[4] != "sizes"@[4]); }
                assert("properties"@ != "layers"@) by { assert("properties"@.len() != "layers"@.len() || "properties"@[0] != "layers"@[0] || "properties"@[1] != "layers"@[1] || "properties"@[4] != "layers"@[4]); }
                assert("properties"@ != "adjustments"@) by { assert("properties"@.len() != "adjustments"@.len() || "properties"@[0] != "adjustments"@[0] || "properties"@[1] != "adjustments"@[1] || "properties"@[4] != "adjustments"@[4]); }
            },
            Panel::Stats => {
                assert("stats"@ != "toolbar"@) by { assert("stats"@.len() != "toolbar"@.len() || "stats"@[0] != "toolbar"@[0] || "stats"@[1] != "toolbar"@[1] || "stats"@[4] != "toolbar"@[4]); }
                assert("stats"@ != "commands"@) by { assert("stats"@.len() != "commands"@.len() || "stats"@[0] != "commands"@[0] || "stats"@[1] != "commands"@[1] || "stats"@[4] != "commands"@[4]); }
                assert("stats"@ != "brushes"@) by { assert("stats"@.len() != "brushes"@.len() || "stats"@[0] != "brushes"@[0] || "stats"@[1] != "brushes"@[1] || "stats"@[4] != "brushes"@[4]); }
                assert("stats"@ != "tool_settings"@) by { assert("stats"@.len() != "tool_settings"@.len() || "stats"@[0] != "tool_settings"@[0] || "stats"@[1] != "tool_settings"@[1] || "stats"@[4] != "tool_settings"@[4]); }
                assert("stats"@ != "color"@) by { assert("stats"@.len() != "color"@.len() || "stats"@[0] != "color"@[0] || "stats"@[1] != "color"@[1] || "stats"@[4] != "color"@[4]); }
                assert("stats"@ != "sizes"@) by { assert("stats"@.len() != "sizes"@.len() || "stats"@[0] != "sizes"@[0] || "stats"@[1] != "sizes"@[1] || "stats"@[4] != "sizes"@[4]); }
                assert("stats"@ != "layers"@) by { assert("stats"@.len() != "layers"@.len() || "stats"@[0] != "layers"@[0] || "stats"@[1] != "layers"@[1] || "stats"@[4] != "layers"@[4]); }
                assert("stats"@ != "adjustments"@) by { assert("stats"@.len() != "adjustments"@.len() || "stats"@[0] != "adjustments"@[0] || "stats"@[1] != "adjustments"@[1] || "stats"@[4] != "adjustments"@[4]); }
                assert("stats"@ != "properties"@) by { assert("stats"@.len() != "properties"@.len() || "stats"@[0] != "properties"@[0] || "stats"@[1] != "properties"@[1] || "stats"@[4] != "properties"@[4]); }
            },
            Panel::Navigator => {
                assert("navigator"@ != "toolbar"@) by { assert("navigator"@.len() != "toolbar"@.len() || "navigator"@[0] != "toolbar"@[0] || "navigator"@[1] != "toolbar"@[1] || "navigator"@[4] != "toolbar"@[4]); }
                assert("navigator"@ != "commands"@) by { assert("navigator"@.len() != "commands"@.len() || "navigator"@[0] != "commands"@[0] || "navigator"@[1] != "commands"@[1] || "navigator"@[4] != "commands"@[4]); }
                assert("navigator"@ != "brushes"@) by { assert("navigator"@.len() != "brushes"@.len() || "navigator"@[0] != "brushes"@[0] || "navigator"@[1] != "brushes"@[1] || "navigator"@[4] != "brushes"@[4]); }
                assert("navigator"@ != "tool_settings"@) by { assert("navigator"@.len() != "tool_settings"@.len() || "navigator"@[0] != "tool_settings"@[0] || "navigator"@[1] != "tool_settings"@[1] || "navigator"@[4] != "tool_settings"@[4]); }
                assert("navigator"@ != "color"@) by { assert("navigator"@.len() != "color"@.len() || "navigator"@[0] != "color"@[0] || "navigator"@[1] != "color"@[1] || "navigator"@[4] != "color"@[4]); }
                assert("navigator"@ != "sizes"@) by { assert("navigator"@.len() != "sizes"@.len() || "navigator"@[0] != "sizes"@[0] || "navigator"@[1] != "sizes"@[1] || "navigator"@[4] != "sizes"@[4]); }
                assert("navigator"@ != "layers"@) by { assert("navigator"@.len() != "layers"@.len() || "navigator"@[0] != "layers"@[0] || "navigator"@[1] != "layers"@[1] || "navigator"@[4] != "layers"@[4]); }
                assert("navigator"@ != "adjustments"@) by { assert("navigator"@.len() != "adjustments"@.len() || "navigator"@[0] != "adjustments"@[0] || "navigator"@[1] != "adjustments"@[1] || "navigator"@[4] != "adjustments"@[4]); }
                assert("navigator"@ != "properties"@) by { assert("navigator"@.len() != "properties"@.len() || "navigator"@[0] != "properties"@[0] || "navigator"@[1] != "properties"@[1] || "navigator"@[4] != "properties"@[4]); }
                assert("navigator"@ != "stats"@) by { assert("navigator"@.len() != "stats"@.len() || "navigator"@[0] != "stats"@[0] || "navigator"@[1] != "stats"@[1] || "navigator"@[4] != "stats"@[4]); }
            },
            _ => {},
        }
    }
}

/// Only canonical text is accepted: whatever reads as a panel is exactly the
/// text that panel writes.
pub proof fn lemma_identity_canonical(s: Seq<char>)
    requires
        parse_identity(s) is Ok,
    ensures
        identity_text(parse_identity(s)->Ok_0) == s,
{
}

#[derive(Clone, Copy, Debug, PartialEq, Eq, Structural)]
pub enum Axis {
    Horizontal,
    Vertical,
}

#[derive(Clone, Copy, Debug, PartialEq, Eq, Structural)]
pub enum Edge {
    Top,
    Bottom,
    Left,
    Right,
}

pub open spec fn spec_axis(e: Edge) -> Axis {
    match e {
        Edge::Top | Edge::Bottom => Axis::Vertical,
        Edge::Left | Edge::Right => Axis::Horizontal,
    }
}

impl Edge {
    /// Top and bottom bands stack vertically; side bands sit horizontally.
    pub fn axis(self) -> (a: Axis)
        ensures
            a == spec_axis(self),
    {
        match self {
            Edge::Top | Edge::Bottom => Axis::Vertical,
            Edge::Left | Edge::Right => Axis::Horizontal,
        }
    }
}

/// The edge or corner of a floating group that a resize handle drags.
#[derive(Clone, Copy, Debug, PartialEq, Eq, Structural)]
pub enum ResizeEdge {
    Left,
    Right,
    Top,
    Bottom,
    TopLeft,
    TopRight,
    BottomLeft,
    BottomRight,
}

pub open spec fn spec_cursor(e: ResizeEdge) -> Seq<char> {
    match e {
        ResizeEdge::Left | ResizeEdge::Right => "ew-resize"@,
        ResizeEdge::Top | ResizeEdge::Bottom => "ns-resize"@,
        ResizeEdge::TopLeft | ResizeEdge::BottomRight => "nwse-resize"@,
        ResizeEdge::TopRight | ResizeEdge::BottomLeft => "nesw-resize"@,
    }
}

impl ResizeEdge {
    /// The pointer cursor name shown over the handle.
    pub fn cursor(self) -> (s: &'static str)
        ensures
            s@ == spec_cursor(self),
    {
        match self {
            ResizeEdge::Left | ResizeEdge::Right => "ew-resize",
            ResizeEdge::Top | ResizeEdge::Bottom => "ns-resize",
            ResizeEdge::TopLeft | ResizeEdge::BottomRight => "nwse-resize",
            ResizeEdge::TopRight | ResizeEdge::BottomLeft => "nesw-resize",
        }
    }
}

/// Default-size cycle and flow direction of a standalone floating toolbar.
#[derive(Clone, Copy, Debug, PartialEq, Eq, Structural)]
pub enum FloatingToolbarLayout {
    Compact,
    Vertical,
    Horizontal,
}

pub open spec fn spec_next_layout(l: FloatingToolbarLayout) -> FloatingToolbarLayout {
    match l {
        FloatingToolbarLayout::Compact => FloatingToolbarLayout::Vertical,
        FloatingToolbarLayout::Vertical => FloatingToolbarLayout::Horizontal,
        FloatingToolbarLayout::Horizontal => FloatingToolbarLayout::Compact,
    }
}

impl FloatingToolbarLayout {
    /// The layout a double-click on the handle switches to.
    pub fn next(self) -> (n: Self)
        ensures
            n == spec_next_layout(self),
    {
        match self {
            FloatingToolbarLayout::Compact => FloatingToolbarLayout::Vertical,
            FloatingToolbarLayout::Vertical => FloatingToolbarLayout::Horizontal,
            FloatingToolbarLayout::Horizontal => FloatingToolbarLayout::Compact,
        }
    }
}

impl Default for FloatingToolbarLayout {
    fn default() -> (l: Self)
        ensures
            l == FloatingToolbarLayout::Compact,
    {
        FloatingToolbarLayout::Compact
    }
}

/// Three double-clicks bring a floating toolbar back to the layout it had,
/// visiting each of the three layouts once on the way.
pub proof fn lemma_layout_cycle(l: FloatingToolbarLayout)
    ensures
        spec_next_layout(spec_next_layout(spec_next_layout(l))) == l,
        spec_next_layout(l) != l,
        spec_next_layout(spec_next_layout(l)) != l,
{
}

/// Something a pointer can pick up and drop elsewhere in the workspace.
#[derive(Clone, Copy, Debug, PartialEq, Eq, Structural)]
pub enum DockItem {
    Panel { panel: Panel },
    Group { group: u32 },
    Column { column: u32 },
    Tile { panel: Panel, tile: u32 },
}

/// The edge a hidden panel docks to when it is shown again.
pub open spec fn spec_default_edge(p: Panel) -> Edge {
    match p {
        Panel::Brushes | Panel::ToolSettings | Panel::Color | Panel::Sizes => Edge::Left,
        Panel::Layers | Panel::Adjustments | Panel::Properties | Panel::Stats | Panel::Navigator => Edge::Right,
        _ => Edge::Top,
    }
}

/// Where a shown panel docks: the document panels (Layers, Adjustments,
/// Properties, Stats, Navigator) on the right, the tool panels (Brushes,
/// Tool settings, Color, Brush size) on the left, toolbars on top.
pub proof fn lemma_default_edges()
    ensures
        spec_default_edge(Panel::Layers) == Edge::Right,
        spec_default_edge(Panel::Adjustments) == Edge::Right,
        spec_default_edge(Panel::Properties) == Edge::Right,
        spec_default_edge(Panel::Stats) == Edge::Right,
        spec_default_edge(Panel::Navigator) == Edge::Right,
        spec_default_edge(Panel::Brushes) == Edge::Left,
        spec_default_edge(Panel::ToolSettings) == Edge::Left,
        spec_default_edge(Panel::Color) == Edge::Left,
        spec_default_edge(Panel::Sizes) == Edge::Left,
        spec_default_edge(Panel::Toolbar) == Edge::Top,
        spec_default_edge(Panel::Commands) == Edge::Top,
        forall|id: u32| spec_default_edge(Panel::CustomToolbar(id)) == Edge::Top,
{
}

impl Panel {
    /// The edge a hidden panel docks to when it is shown again: tool panels
    /// on the left, document panels on the right, toolbars at the top.
    pub fn default_edge(self) -> (e: Edge)
        ensures
            e == spec_default_edge(self),
            e == (if self is Layers || self is Adjustments || self is Properties || self is Stats || self is Navigator {
                Edge::Right
            } else if self is Brushes || self is ToolSettings || self is Color || self is Sizes {
                Edge::Left
            } else {
                Edge::Top
            }),
    {
        proof {
            lemma_default_edges();
        }
        match self {
            Panel::Brushes | Panel::ToolSettings | Panel::Color | Panel::Sizes => Edge::Left,
            Panel::Layers | Panel::Adjustments | Panel::Properties | Panel::Stats | Panel::Navigator => Edge::Right,
            _ => Edge::Top,
        }
    }
}

/// A character with an ASCII capital letter taken to its small letter.
pub open spec fn ascii_lower(c: char) -> char {
    if 'A' <= c && c <= 'Z' {
        ((c as u32) + 32) as char
    } else {
        c
    }
}

/// A text with its ASCII capitals taken to small letters.
pub open spec fn lower_text(s: Seq<char>) -> Seq<char> {
    s.map_values(|c: char| ascii_lower(c))
}

/// Built-in panel labels never coincide when letter case is ignored, so
/// toolbar names taken from them stay unique under a case-blind comparison.
pub proof fn lemma_labels_distinct_ignoring_case(a: Panel, b: Panel)
    requires
        !(a is CustomToolbar),
        !(b is CustomToolbar),
        a != b,
    ensures
        lower_text(spec_label(a)) != lower_text(spec_label(b)),
{
    reveal_strlit("Tools");
    reveal_strlit("Commands");
    reveal_strlit("Tool Set");
    reveal_strlit("Tool");
    reveal_strlit("Color");
    reveal_strlit("Brush size");
    reveal_strlit("Layers");
    reveal_strlit("Filters");
    reveal_strlit("Properties");
    reveal_strlit("Diagnostics");
    reveal_strlit("Navigator");
    let la = lower_text(spec_label(a));
    let lb = lower_text(spec_label(b));
    if la == lb {
        assert(la.len() == spec_label(a).len());
        assert(lb.len() == spec_label(b).len());
        assert(la[0] == ascii_lower(spec_label(a)[0]));
        assert(lb[0] == ascii_lower(spec_label(b)[0]));
    }
}

} // verus!
