//! Toolbar contents: the tiles of every toolbar, their stable identities and
//! the editing moves (insert, remove, reorder, move between toolbars, split a
//! tool into its own group at a separator).
use vstd::prelude::*;
use crate::command::CommandId;
use crate::panel::{spec_kind, Panel, PanelKind};

verus! {

/// What a toolbar tile shows.
#[derive(Clone, Copy, Debug, PartialEq, Eq, Structural)]
pub enum ToolbarControl {
    Command { command: CommandId },
    Brush { id: u32 },
    Size { pixels: u16 },
    Color,
    Opacity,
    BrushSizeSlider,
    BrushOpacitySlider,
    ToolOptions,
    Panel { panel: Panel },
    Divider,
}

/// One tile with its identity, stable across moves and edits.
#[derive(Clone, Copy, Debug, PartialEq, Eq, Structural)]
pub struct ToolbarTile {
    pub id: u32,
    pub control: ToolbarControl,
}

/// The tiles of one toolbar panel, in display order.
#[derive(Clone, Debug)]
pub struct Toolbar {
    pub panel: Panel,
    pub tiles: Vec<ToolbarTile>,
}

/// Why a toolbar edit was refused. Refused edits change nothing.
#[derive(Clone, Copy, Debug, PartialEq, Eq, Structural)]
pub enum ToolbarError {
    NoControls,
    TooManyTools,
    UnknownPanel,
    NotToolbar,
    MissingTarget,
    MissingTool,
    MissingDraggedTool,
    IdsExhausted,
    SeparatorCannotGroup,
    MissingSeparator,
    DuplicateToolbar,
    InvalidTileIdentity,
    InvalidAllocator,
}

impl ToolbarError {
    pub fn message(self) -> (m: &'static str)
        ensures
            m@ == spec_error_message(self),
    {
        match self {
            ToolbarError::NoControls => "Select at least one tool",
            ToolbarError::TooManyTools => "Too many tools",
            ToolbarError::UnknownPanel => "Unknown panel",
            ToolbarError::NotToolbar => "Drop tools inside a toolbar",
            ToolbarError::MissingTarget => "The target tool no longer exists",
            ToolbarError::MissingTool => "The tool no longer exists",
            ToolbarError::MissingDraggedTool => "The dragged tool no longer exists",
            ToolbarError::IdsExhausted => "Toolbar tile ID space exhausted",
            ToolbarError::SeparatorCannotGroup => "A separator cannot form a tool group",
            ToolbarError::MissingSeparator => "The target separator no longer exists",
            ToolbarError::DuplicateToolbar => "Duplicate panel configuration",
            ToolbarError::InvalidTileIdentity => "Duplicate or invalid toolbar tile identity",
            ToolbarError::InvalidAllocator => "Invalid toolbar tile ID allocator",
        }
    }
}

pub open spec fn spec_error_message(e: ToolbarError) -> Seq<char> {
    match e {
        ToolbarError::NoControls => "Select at least one tool"@,
        ToolbarError::TooManyTools => "Too many tools"@,
        ToolbarError::UnknownPanel => "Unknown panel"@,
        ToolbarError::NotToolbar => "Drop tools inside a toolbar"@,
        ToolbarError::MissingTarget => "The target tool no longer exists"@,
        ToolbarError::MissingTool => "The tool no longer exists"@,
        ToolbarError::MissingDraggedTool => "The dragged tool no longer exists"@,
        ToolbarError::IdsExhausted => "Toolbar tile ID space exhausted"@,
        ToolbarError::SeparatorCannotGroup => "A separator cannot form a tool group"@,
        ToolbarError::MissingSeparator => "The target separator no longer exists"@,
        ToolbarError::DuplicateToolbar => "Duplicate panel configuration"@,
        ToolbarError::InvalidTileIdentity => "Duplicate or invalid toolbar tile identity"@,
        ToolbarError::InvalidAllocator => "Invalid toolbar tile ID allocator"@,
    }
}

/// Where a dragged tile is dropped.
#[derive(Clone, Copy, Debug, PartialEq, Eq, Structural)]
pub enum TileDrop {
    /// Before the tile `before`, or appended when absent.
    Tile { panel: Panel, before: Option<u32> },
    /// As its own group right after the separator tile `divider`.
    TileGroup { panel: Panel, divider: u32 },
    /// Anywhere outside a toolbar strip.
    Elsewhere,
}

pub open spec fn is_divider(t: ToolbarTile) -> bool {
    t.control is Divider
}

/// Whether some tile of `s` has identity `id`.
pub open spec fn has_tile(s: Seq<ToolbarTile>, id: u32) -> bool {
    exists|i: int| 0 <= i < s.len() && s[i].id == id
}

/// The position of the tile `id` in `s` (identities are unique in a toolbar).
pub open spec fn tile_pos(s: Seq<ToolbarTile>, id: u32) -> int {
    choose|i: int| 0 <= i < s.len() && s[i].id == id
}

/// Identities are distinct within one sequence of tiles.
pub open spec fn distinct_ids(s: Seq<ToolbarTile>) -> bool {
    forall|i: int, j: int| 0 <= i < s.len() && 0 <= j < s.len() && i != j ==> s[i].id != s[j].id
}

/// Tiles freshly allocated for `controls`, numbered from `first`.
pub open spec fn fresh_tiles(first: u32, controls: Seq<ToolbarControl>) -> Seq<ToolbarTile> {
    Seq::new(controls.len(), |i: int| ToolbarTile { id: (first + i) as u32, control: controls[i] })
}

/// Tile identities are positive, below the allocator and never repeated,
/// within a toolbar or across toolbars; only toolbar panels hold tiles.
pub open spec fn tiles_wf(m: Map<Panel, Seq<ToolbarTile>>, next: u32) -> bool {
    &&& next > 0
    &&& forall|p: Panel| #[trigger] m.dom().contains(p) ==> spec_kind(p) == PanelKind::Tiles
    &&& forall|p: Panel, i: int|
        #![trigger m[p][i]]
        m.dom().contains(p) && 0 <= i < m[p].len() ==> 0 < m[p][i].id && m[p][i].id < next
    &&& forall|p: Panel, i: int, q: Panel, j: int|
        #![trigger m[p][i], m[q][j]]
        m.dom().contains(p) && m.dom().contains(q) && 0 <= i < m[p].len() && 0 <= j < m[q].len()
            && (p != q || i != j) ==> m[p][i].id != m[q][j].id
}

/// The panels of `s` are distinct.
pub open spec fn distinct_panels(s: Seq<Toolbar>) -> bool {
    forall|i: int, j: int| 0 <= i < s.len() && 0 <= j < s.len() && i != j ==> s[i].panel != s[j].panel
}

pub open spec fn holds_panel(s: Seq<Toolbar>, p: Panel) -> bool {
    exists|k: int| 0 <= k < s.len() && s[k].panel == p
}

/// The tiles of each toolbar in `s`, by panel.
pub open spec fn toolbar_map(s: Seq<Toolbar>) -> Map<Panel, Seq<ToolbarTile>> {
    Map::new(
        |p: Panel| holds_panel(s, p),
        |p: Panel| s[choose|k: int| 0 <= k < s.len() && s[k].panel == p].tiles@,
    )
}

proof fn lemma_map_at(s: Seq<Toolbar>, k: int)
    requires
        distinct_panels(s),
        0 <= k < s.len(),
    ensures
        toolbar_map(s).dom().contains(s[k].panel),
        toolbar_map(s)[s[k].panel] == s[k].tiles@,
{
    let p = s[k].panel;
    assert(holds_panel(s, p));
    let c = choose|j: int| 0 <= j < s.len() && s[j].panel == p;
    assert(c == k);
}

proof fn lemma_map_update(s: Seq<Toolbar>, k: int, t: Toolbar)
    requires
        distinct_panels(s),
        0 <= k < s.len(),
        t.panel == s[k].panel,
    ensures
        distinct_panels(s.update(k, t)),
        toolbar_map(s.update(k, t)) == toolbar_map(s).insert(t.panel, t.tiles@),
{
    let s2 = s.update(k, t);
    assert(distinct_panels(s2)) by {
        assert forall|i: int, j: int| 0 <= i < s2.len() && 0 <= j < s2.len() && i != j implies s2[i].panel != s2[j].panel by {
            assert(s[i].panel != s[j].panel);
        }
    }
    let m = toolbar_map(s);
    let m2 = toolbar_map(s2);
    assert forall|p: Panel| #[trigger] m2.dom().contains(p) == m.insert(t.panel, t.tiles@).dom().contains(p) by {
        if holds_panel(s, p) {
            let j = choose|j: int| 0 <= j < s.len() && s[j].panel == p;
            assert(s2[j].panel == p);
        }
        if holds_panel(s2, p) {
            let j = choose|j: int| 0 <= j < s2.len() && s2[j].panel == p;
            assert(s[j].panel == p);
        }
    }
    assert forall|p: Panel| m2.dom().contains(p) implies #[trigger] m2[p] == m.insert(t.panel, t.tiles@)[p] by {
        let j = choose|j: int| 0 <= j < s2.len() && s2[j].panel == p;
        lemma_map_at(s2, j);
        if p != t.panel {
            lemma_map_at(s, j);
        }
    }
    assert(m2 =~= m.insert(t.panel, t.tiles@));
}

proof fn lemma_map_push(s: Seq<Toolbar>, t: Toolbar)
    requires
        distinct_panels(s),
        !holds_panel(s, t.panel),
    ensures
        distinct_panels(s.push(t)),
        toolbar_map(s.push(t)) == toolbar_map(s).insert(t.panel, t.tiles@),
{
    let s2 = s.push(t);
    assert(distinct_panels(s2)) by {
        assert forall|i: int, j: int| 0 <= i < s2.len() && 0 <= j < s2.len() && i != j implies s2[i].panel != s2[j].panel by {
            if i < s.len() && j < s.len() {
                assert(s[i].panel != s[j].panel);
            } else if i < s.len() {
                assert(s2[i] == s[i]);
            } else {
                assert(s2[j] == s[j]);
            }
        }
    }
    let m = toolbar_map(s);
    let m2 = toolbar_map(s2);
    assert forall|p: Panel| #[trigger] m2.dom().contains(p) == m.insert(t.panel, t.tiles@).dom().contains(p) by {
        if holds_panel(s, p) {
            let j = choose|j: int| 0 <= j < s.len() && s[j].panel == p;
            assert(s2[j].panel == p);
        }
        if p == t.panel {
            assert(s2[s.len() as int].panel == p);
        }
        if holds_panel(s2, p) && p != t.panel {
            let j = choose|j: int| 0 <= j < s2.len() && s2[j].panel == p;
            assert(s[j].panel == p);
        }
    }
    assert forall|p: Panel| m2.dom().contains(p) implies #[trigger] m2[p] == m.insert(t.panel, t.tiles@)[p] by {
        let j = choose|j: int| 0 <= j < s2.len() && s2[j].panel == p;
        lemma_map_at(s2, j);
        if p != t.panel {
            lemma_map_at(s, j);
        }
    }
    assert(m2 =~= m.insert(t.panel, t.tiles@));
}

proof fn lemma_map_remove(s: Seq<Toolbar>, k: int)
    requires
        distinct_panels(s),
        0 <= k < s.len(),
    ensures
        distinct_panels(s.remove(k)),
        toolbar_map(s.remove(k)) == toolbar_map(s).remove(s[k].panel),
{
    let s2 = s.remove(k);
    let gone = s[k].panel;
    assert(distinct_panels(s2)) by {
        assert forall|i: int, j: int| 0 <= i < s2.len() && 0 <= j < s2.len() && i != j implies s2[i].panel != s2[j].panel by {
            let a = if i < k { i } else { i + 1 };
            let b = if j < k { j } else { j + 1 };
            assert(s2[i] == s[a] && s2[j] == s[b]);
        }
    }
    let m = toolbar_map(s);
    let m2 = toolbar_map(s2);
    assert forall|p: Panel| #[trigger] m2.dom().contains(p) == m.remove(gone).dom().contains(p) by {
        if holds_panel(s2, p) {
            let j = choose|j: int| 0 <= j < s2.len() && s2[j].panel == p;
            let a = if j < k { j } else { j + 1 };
            assert(s2[j] == s[a]);
            assert(s[a].panel == p);
        }
        if holds_panel(s, p) && p != gone {
            let j = choose|j: int| 0 <= j < s.len() && s[j].panel == p;
            assert(j != k);
            let b = if j < k { j } else { j - 1 };
            assert(s2[b] == s[j]);
        }
    }
    assert forall|p: Panel| m2.dom().contains(p) implies #[trigger] m2[p] == m.remove(gone)[p] by {
        let j = choose|j: int| 0 <= j < s2.len() && s2[j].panel == p;
        let a = if j < k { j } else { j + 1 };
        assert(s2[j] == s[a]);
        lemma_map_at(s2, j);
        lemma_map_at(s, a);
    }
    assert(m2 =~= m.remove(gone));
}

proof fn lemma_tile_pos(s: Seq<ToolbarTile>, i: int)
    requires
        distinct_ids(s),
        0 <= i < s.len(),
    ensures
        has_tile(s, s[i].id),
        tile_pos(s, s[i].id) == i,
{
    let id = s[i].id;
    assert(has_tile(s, id));
    let c = choose|j: int| 0 <= j < s.len() && s[j].id == id;
    assert(c == i);
}


/// The first position of tile `id` in `tiles`.
fn find_tile(tiles: &[ToolbarTile], id: u32) -> (r: Option<usize>)
    ensures
        r matches Some(i) ==> i < tiles@.len() && tiles@[i as int].id == id
            && forall|j: int| 0 <= j < i ==> tiles@[j].id != id,
        r is None <==> !has_tile(tiles@, id),
{
    let mut i: usize = 0;
    while i < tiles.len()
        invariant
            i <= tiles@.len(),
            forall|j: int| 0 <= j < i ==> tiles@[j].id != id,
        decreases tiles@.len() - i,
    {
        if tiles[i].id == id {
            return Some(i);
        }
        i = i + 1;
    }
    None
}

fn copy_tiles(tiles: &[ToolbarTile]) -> (out: Vec<ToolbarTile>)
    ensures
        out@ == tiles@,
{
    let mut out: Vec<ToolbarTile> = Vec::new();
    let mut i: usize = 0;
    while i < tiles.len()
        invariant
            i <= tiles@.len(),
            out@ =~= tiles@.subrange(0, i as int),
        decreases tiles@.len() - i,
    {
        out.push(tiles[i]);
        i = i + 1;
    }
    assert(out@ =~= tiles@);
    out
}

/// Every tile of `m`, by value.
pub open spec fn all_tiles(m: Map<Panel, Seq<ToolbarTile>>) -> Set<ToolbarTile> {
    Set::new(|t: ToolbarTile| exists|p: Panel, i: int|
        m.dom().contains(p) && 0 <= i < m[p].len() && #[trigger] m[p][i] == t)
}

proof fn lemma_distinct_in(m: Map<Panel, Seq<ToolbarTile>>, next: u32, p: Panel)
    requires
        tiles_wf(m, next),
        m.dom().contains(p),
    ensures
        distinct_ids(m[p]),
{
    assert forall|i: int, j: int| 0 <= i < m[p].len() && 0 <= j < m[p].len() && i != j implies m[p][i].id != m[p][j].id by {
        assert(m[p][i].id != m[p][j].id);
    }
}

proof fn lemma_remove_wf(m: Map<Panel, Seq<ToolbarTile>>, next: u32, p: Panel, i: int)
    requires
        tiles_wf(m, next),
        m.dom().contains(p),
        0 <= i < m[p].len(),
    ensures
        tiles_wf(m.insert(p, m[p].remove(i)), next),
        forall|q: Panel, j: int| #![trigger m.insert(p, m[p].remove(i))[q][j]]
            m.dom().contains(q) && 0 <= j < m.insert(p, m[p].remove(i))[q].len()
            ==> m.insert(p, m[p].remove(i))[q][j].id != m[p][i].id,
{
    let m2 = m.insert(p, m[p].remove(i));
    let src = |q: Panel, j: int| -> int { if q == p && j >= i { j + 1 } else { j } };
    assert forall|q: Panel, j: int| #![trigger m2[q][j]] m2.dom().contains(q) && 0 <= j < m2[q].len()
        implies m2[q][j] == m[q][src(q, j)] && 0 <= src(q, j) < m[q].len() by {
    }
    assert forall|q: Panel, j: int| #![trigger m2[q][j]] m2.dom().contains(q) && 0 <= j < m2[q].len()
        implies 0 < m2[q][j].id && m2[q][j].id < next by {
        assert(m[q][src(q, j)] == m2[q][j]);
    }
    assert forall|a: Panel, x: int, b: Panel, y: int| #![trigger m2[a][x], m2[b][y]]
        m2.dom().contains(a) && m2.dom().contains(b) && 0 <= x < m2[a].len() && 0 <= y < m2[b].len()
            && (a != b || x != y) implies m2[a][x].id != m2[b][y].id by {
        assert(m[a][src(a, x)] == m2[a][x]);
        assert(m[b][src(b, y)] == m2[b][y]);
    }
    assert forall|q: Panel, j: int| #![trigger m2[q][j]] m.dom().contains(q) && 0 <= j < m2[q].len()
        implies m2[q][j].id != m[p][i].id by {
        assert(m[q][src(q, j)] == m2[q][j]);
    }
    assert forall|q: Panel| #[trigger] m2.dom().contains(q) implies spec_kind(q) == PanelKind::Tiles by {
    }
}


/// The tiles of `s` with `added` placed at position `index`.
pub open spec fn splice_tiles(s: Seq<ToolbarTile>, index: int, added: Seq<ToolbarTile>) -> Seq<ToolbarTile> {
    s.subrange(0, index) + added + s.subrange(index, s.len() as int)
}

proof fn lemma_insert_wf(m: Map<Panel, Seq<ToolbarTile>>, next: u32, p: Panel, index: int, controls: Seq<ToolbarControl>)
    requires
        tiles_wf(m, next),
        m.dom().contains(p),
        0 <= index <= m[p].len(),
        next + controls.len() <= u32::MAX,
    ensures
        tiles_wf(m.insert(p, splice_tiles(m[p], index, fresh_tiles(next, controls))), (next + controls.len()) as u32),
{
    let added = fresh_tiles(next, controls);
    let k = controls.len() as int;
    let m2 = m.insert(p, splice_tiles(m[p], index, added));
    let top = (next + controls.len()) as u32;
    // Each tile of m2 is either an old tile (below next) or a fresh one (at or above next).
    assert forall|q: Panel, j: int| #![trigger m2[q][j]] m2.dom().contains(q) && 0 <= j < m2[q].len()
        implies 0 < m2[q][j].id && m2[q][j].id < top
            && ((q == p && index <= j < index + k) ==> m2[q][j].id == next + (j - index))
            && (!(q == p && index <= j < index + k) ==> m2[q][j].id < next) by {
        if q == p {
            if j < index {
                assert(m2[q][j] == m[p][j]);
            } else if j < index + k {
                assert(m2[q][j] == added[j - index]);
                assert(added[j - index].id == next + (j - index));
            } else {
                assert(m2[q][j] == m[p][j - k]);
            }
        } else {
            assert(m2[q][j] == m[q][j]);
        }
    }
    assert forall|a: Panel, x: int, b: Panel, y: int| #![trigger m2[a][x], m2[b][y]]
        m2.dom().contains(a) && m2.dom().contains(b) && 0 <= x < m2[a].len() && 0 <= y < m2[b].len()
            && (a != b || x != y) implies m2[a][x].id != m2[b][y].id by {
        let fa = a == p && index <= x < index + k;
        let fb = b == p && index <= y < index + k;
        if !fa && !fb {
            let xa = if a == p && x >= index + k { x - k } else { x };
            let yb = if b == p && y >= index + k { y - k } else { y };
            assert(m2[a][x] == m[a][xa]);
            assert(m2[b][y] == m[b][yb]);
        }
    }
    assert forall|q: Panel| #[trigger] m2.dom().contains(q) implies spec_kind(q) == PanelKind::Tiles by {
    }
}


proof fn lemma_insert_existing_wf(m: Map<Panel, Seq<ToolbarTile>>, next: u32, p: Panel, index: int, t: ToolbarTile)
    requires
        tiles_wf(m, next),
        m.dom().contains(p),
        0 <= index <= m[p].len(),
        0 < t.id < next,
        forall|q: Panel, j: int| #![trigger m[q][j]] m.dom().contains(q) && 0 <= j < m[q].len() ==> m[q][j].id != t.id,
    ensures
        tiles_wf(m.insert(p, splice_tiles(m[p], index, seq![t])), next),
{
    let m2 = m.insert(p, splice_tiles(m[p], index, seq![t]));
    let src = |q: Panel, j: int| -> int { if q == p && j > index { j - 1 } else { j } };
    assert forall|q: Panel, j: int| #![trigger m2[q][j]] m2.dom().contains(q) && 0 <= j < m2[q].len()
        implies 0 < m2[q][j].id && m2[q][j].id < next
            && ((q == p && j == index) ==> m2[q][j] == t)
            && (!(q == p && j == index) ==> m2[q][j] == m[q][src(q, j)] && 0 <= src(q, j) < m[q].len()) by {
        if q == p {
            if j < index {
                assert(m2[q][j] == m[p][j]);
            } else if j == index {
            } else {
                assert(m2[q][j] == m[p][j - 1]);
            }
        } else {
            assert(m2[q][j] == m[q][j]);
        }
    }
    assert forall|a: Panel, x: int, b: Panel, y: int| #![trigger m2[a][x], m2[b][y]]
        m2.dom().contains(a) && m2.dom().contains(b) && 0 <= x < m2[a].len() && 0 <= y < m2[b].len()
            && (a != b || x != y) implies m2[a][x].id != m2[b][y].id by {
        let fa = a == p && x == index;
        let fb = b == p && y == index;
        if !fa && !fb {
            assert(m2[a][x] == m[a][src(a, x)]);
            assert(m2[b][y] == m[b][src(b, y)]);
        } else if !fa {
            assert(m2[a][x] == m[a][src(a, x)]);
        } else if !fb {
            assert(m2[b][y] == m[b][src(b, y)]);
        }
    }
    assert forall|q: Panel| #[trigger] m2.dom().contains(q) implies spec_kind(q) == PanelKind::Tiles by {
    }
}

/// The registry after taking tile `tile` out of toolbar `panel`.
pub open spec fn without_tile(m: Map<Panel, Seq<ToolbarTile>>, panel: Panel, tile: u32) -> Map<Panel, Seq<ToolbarTile>> {
    m.insert(panel, m[panel].remove(tile_pos(m[panel], tile)))
}

/// The registry after moving tile `tile` of `panel` before tile `before` of
/// `dest` (or to its end).
pub open spec fn moved_tile(m: Map<Panel, Seq<ToolbarTile>>, panel: Panel, tile: u32, dest: Panel, before: Option<u32>) -> Map<Panel, Seq<ToolbarTile>> {
    let t = m[panel][tile_pos(m[panel], tile)];
    let m1 = without_tile(m, panel, tile);
    let d = m1[dest];
    let j = match before {
        Some(b) => tile_pos(d, b),
        None => d.len() as int,
    };
    m1.insert(dest, splice_tiles(d, j, seq![t]))
}

/// The drop on the separator at `index` of `tiles` is already satisfied:
/// the tool already stands alone right before or right after it.
pub open spec fn already_grouped(tiles: Seq<ToolbarTile>, index: int, id: u32) -> bool {
    ||| (index > 0 && tiles[index - 1].id == id && (index == 1 || is_divider(tiles[index - 2])))
    ||| (index + 1 < tiles.len() && tiles[index + 1].id == id
        && (index + 2 >= tiles.len() || is_divider(tiles[index + 2])))
}

/// A new separator is needed after the moved tool: the first tile that
/// follows the target separator (other than the moved tool) is not a separator.
pub open spec fn needs_separator(tiles: Seq<ToolbarTile>, index: int, same: bool, id: u32) -> bool {
    if index + 1 >= tiles.len() {
        false
    } else if same && tiles[index + 1].id == id {
        index + 2 < tiles.len() && !is_divider(tiles[index + 2])
    } else {
        !is_divider(tiles[index + 1])
    }
}

/// The registry after making tile `tile` of `panel` its own group right after
/// the separator `divider` of `dest`, with a fresh separator `sep` behind it
/// when `needs` holds.
pub open spec fn grouped_tile(m: Map<Panel, Seq<ToolbarTile>>, panel: Panel, tile: u32, dest: Panel, divider: u32, needs: bool, sep: u32) -> Map<Panel, Seq<ToolbarTile>> {
    let t = m[panel][tile_pos(m[panel], tile)];
    let m1 = without_tile(m, panel, tile);
    let d = m1[dest];
    let k = tile_pos(d, divider) + 1;
    let added = if needs { seq![t, ToolbarTile { id: sep, control: ToolbarControl::Divider }] } else { seq![t] };
    m1.insert(dest, splice_tiles(d, k, added))
}


/// What dropping a toolbar tile does, or why it is refused.
pub open spec fn group_outcome(m: Map<Panel, Seq<ToolbarTile>>, next: u32, panel: Panel, tile: u32, dest: Panel, divider: u32) -> Result<(Map<Panel, Seq<ToolbarTile>>, u32), ToolbarError> {
    let t = m[panel][tile_pos(m[panel], tile)];
    if is_divider(t) {
        Err(ToolbarError::SeparatorCannotGroup)
    } else if !m.dom().contains(dest) {
        Err(if spec_kind(dest) == PanelKind::Content { ToolbarError::MissingSeparator } else { ToolbarError::UnknownPanel })
    } else {
        let tiles = m[dest];
        if !(has_tile(tiles, divider) && is_divider(tiles[tile_pos(tiles, divider)])) {
            Err(ToolbarError::MissingSeparator)
        } else {
            let index = tile_pos(tiles, divider);
            if panel == dest && already_grouped(tiles, index, tile) {
                Ok((m, next))
            } else {
                let needs = needs_separator(tiles, index, panel == dest, tile);
                if needs && next == u32::MAX {
                    Err(ToolbarError::IdsExhausted)
                } else {
                    Ok((grouped_tile(m, panel, tile, dest, divider, needs, next),
                        if needs { (next + 1) as u32 } else { next }))
                }
            }
        }
    }
}

pub open spec fn move_outcome(m: Map<Panel, Seq<ToolbarTile>>, next: u32, panel: Panel, tile: u32, target: TileDrop) -> Result<(Map<Panel, Seq<ToolbarTile>>, u32), ToolbarError> {
    if !m.dom().contains(panel) {
        Err(if spec_kind(panel) == PanelKind::Content { ToolbarError::MissingDraggedTool } else { ToolbarError::UnknownPanel })
    } else if !has_tile(m[panel], tile) {
        Err(ToolbarError::MissingDraggedTool)
    } else {
        match target {
            TileDrop::TileGroup { panel: dest, divider } => group_outcome(m, next, panel, tile, dest, divider),
            TileDrop::Elsewhere => Err(ToolbarError::NotToolbar),
            TileDrop::Tile { panel: dest, before } => {
                if !m.dom().contains(dest) {
                    Err(if spec_kind(dest) == PanelKind::Content { ToolbarError::NotToolbar } else { ToolbarError::UnknownPanel })
                } else if before matches Some(b) && !has_tile(m[dest], b) {
                    Err(ToolbarError::MissingTarget)
                } else if panel == dest && before == Some(tile) {
                    Ok((m, next))
                } else {
                    Ok((moved_tile(m, panel, tile, dest, before), next))
                }
            },
        }
    }
}

proof fn lemma_all_tiles_member(m: Map<Panel, Seq<ToolbarTile>>, p: Panel, i: int)
    requires
        m.dom().contains(p),
        0 <= i < m[p].len(),
    ensures
        all_tiles(m).contains(m[p][i]),
{
    assert(m.dom().contains(p) && 0 <= i < m[p].len() && m[p][i] == m[p][i]);
}

/// Replacing the tiles of `p` by `s2`: a tile of the result was in `m` or is
/// a tile of `s2`.
proof fn lemma_replace_member(m: Map<Panel, Seq<ToolbarTile>>, p: Panel, s2: Seq<ToolbarTile>, x: ToolbarTile)
    requires
        all_tiles(m.insert(p, s2)).contains(x),
    ensures
        all_tiles(m).contains(x) || s2.contains(x),
{
    let m2 = m.insert(p, s2);
    let (q, j) = choose|q: Panel, j: int| m2.dom().contains(q) && 0 <= j < m2[q].len() && #[trigger] m2[q][j] == x;
    if q == p {
        assert(s2[j] == x);
    } else {
        lemma_all_tiles_member(m, q, j);
    }
}

/// What a tile of `splice_tiles(d, k, a)` is: a tile of `d` or of `a`; and
/// every tile of `d` and of `a` is kept.
proof fn lemma_splice_members(d: Seq<ToolbarTile>, k: int, a: Seq<ToolbarTile>)
    requires
        0 <= k <= d.len(),
    ensures
        forall|x: ToolbarTile| #[trigger] splice_tiles(d, k, a).contains(x) ==> d.contains(x) || a.contains(x),
        forall|j: int| 0 <= j < d.len() ==> splice_tiles(d, k, a).contains(#[trigger] d[j]),
        forall|j: int| 0 <= j < a.len() ==> splice_tiles(d, k, a).contains(#[trigger] a[j]),
{
    let r = splice_tiles(d, k, a);
    assert(r.len() == d.len() + a.len());
    assert forall|x: ToolbarTile| #[trigger] r.contains(x) implies d.contains(x) || a.contains(x) by {
        let j = choose|j: int| 0 <= j < r.len() && r[j] == x;
        if j < k {
            assert(d[j] == x);
        } else if j < k + a.len() {
            assert(a[j - k] == x);
        } else {
            assert(d[j - a.len()] == x);
        }
    }
    assert forall|j: int| 0 <= j < d.len() implies r.contains(#[trigger] d[j]) by {
        if j < k {
            assert(r[j] == d[j]);
        } else {
            assert(r[j + a.len()] == d[j]);
        }
    }
    assert forall|j: int| 0 <= j < a.len() implies r.contains(#[trigger] a[j]) by {
        assert(r[k + j] == a[j]);
    }
}

/// Taking tile `i` out of toolbar `panel` and splicing `added` (which starts
/// with that tile) into toolbar `dest` at `k`: every tile of the registry is
/// kept, and the only tiles it gains are those of `added`.
proof fn lemma_moved_tiles(m: Map<Panel, Seq<ToolbarTile>>, panel: Panel, i: int, dest: Panel, k: int, added: Seq<ToolbarTile>)
    requires
        m.dom().contains(panel),
        m.dom().contains(dest),
        0 <= i < m[panel].len(),
        added.len() >= 1,
        added[0] == m[panel][i],
        0 <= k <= m.insert(panel, m[panel].remove(i))[dest].len(),
    ensures
        ({
            let m1 = m.insert(panel, m[panel].remove(i));
            let m2 = m1.insert(dest, splice_tiles(m1[dest], k, added));
            &&& forall|x: ToolbarTile| all_tiles(m).contains(x) ==> #[trigger] all_tiles(m2).contains(x)
            &&& forall|x: ToolbarTile| #[trigger] all_tiles(m2).contains(x) ==> all_tiles(m).contains(x) || added.contains(x)
        }),
{
    let s = m[panel];
    let r = s.remove(i);
    let m1 = m.insert(panel, r);
    let d = m1[dest];
    let sp = splice_tiles(d, k, added);
    let m2 = m1.insert(dest, sp);
    lemma_splice_members(d, k, added);
    assert forall|x: ToolbarTile| all_tiles(m).contains(x) implies #[trigger] all_tiles(m2).contains(x) by {
        let (p, j) = choose|p: Panel, j: int| m.dom().contains(p) && 0 <= j < m[p].len() && #[trigger] m[p][j] == x;
        if p == panel && j == i {
            assert(sp.contains(added[0]));
            let q = choose|q: int| 0 <= q < sp.len() && sp[q] == x;
            lemma_all_tiles_member(m2, dest, q);
        } else {
            // x stays in m1 at panel p, at index jj
            let jj = if p == panel && j > i { j - 1 } else { j };
            assert(m1[p][jj] == x);
            if p == dest {
                assert(sp.contains(d[jj]));
                let q = choose|q: int| 0 <= q < sp.len() && sp[q] == x;
                lemma_all_tiles_member(m2, dest, q);
            } else {
                assert(m2[p][jj] == x);
                lemma_all_tiles_member(m2, p, jj);
            }
        }
    }
    assert forall|x: ToolbarTile| #[trigger] all_tiles(m2).contains(x) implies all_tiles(m).contains(x) || added.contains(x) by {
        lemma_replace_member(m1, dest, sp, x);
        if sp.contains(x) {
            if d.contains(x) {
                let q = choose|q: int| 0 <= q < d.len() && d[q] == x;
                lemma_all_tiles_member(m1, dest, q);
            }
        }
        if all_tiles(m1).contains(x) {
            lemma_replace_member(m, panel, r, x);
            if r.contains(x) {
                let q = choose|q: int| 0 <= q < r.len() && r[q] == x;
                let jj = if q < i { q } else { q + 1 };
                assert(s[jj] == x);
                lemma_all_tiles_member(m, panel, jj);
            }
        }
    }
}

/// A successful tile move keeps every tile of every toolbar, with its
/// identity and control; the only tile it may add is the fresh separator
/// that keeps a tool grouped, and then the allocator moves past it.
pub proof fn lemma_move_keeps_tiles(m: Map<Panel, Seq<ToolbarTile>>, next: u32, panel: Panel, tile: u32, target: TileDrop)
    requires
        tiles_wf(m, next),
    ensures
        move_outcome(m, next, panel, tile, target) matches Ok((m2, n2)) ==> {
            &&& forall|x: ToolbarTile| all_tiles(m).contains(x) ==> #[trigger] all_tiles(m2).contains(x)
            &&& forall|x: ToolbarTile| #[trigger] all_tiles(m2).contains(x) ==> all_tiles(m).contains(x)
                || (n2 == next + 1 && x == ToolbarTile { id: next, control: ToolbarControl::Divider })
        },
{
    if let Ok((m2, n2)) = move_outcome(m, next, panel, tile, target) {
        if m2 != m {
            let s = m[panel];
            let i = tile_pos(s, tile);
            let t = s[i];
            let m1 = without_tile(m, panel, tile);
            match target {
                TileDrop::Tile { panel: dest, before } => {
                    let d = m1[dest];
                    let k = match before {
                        Some(b) => tile_pos(d, b),
                        None => d.len() as int,
                    };
                    if let Some(b) = before {
                        if panel != dest {
                            assert(d == m[dest]);
                        }
                        // the target tile is still there after removing the dragged one
                        let jb = tile_pos(m[dest], b);
                        let jj = if dest == panel && jb > i { jb - 1 } else { jb };
                        if dest == panel {
                            assert(jb != i);
                        }
                        assert(d[jj].id == b);
                        assert(has_tile(d, b));
                    }
                    lemma_moved_tiles(m, panel, i, dest, k, seq![t]);
                    assert forall|x: ToolbarTile| #[trigger] all_tiles(m2).contains(x) implies all_tiles(m).contains(x)
                        || (n2 == next + 1 && x == ToolbarTile { id: next, control: ToolbarControl::Divider }) by {
                        if seq![t].contains(x) {
                            assert(x == t);
                            lemma_all_tiles_member(m, panel, i);
                        }
                    }
                },
                TileDrop::TileGroup { panel: dest, divider } => {
                    let tiles = m[dest];
                    let index = tile_pos(tiles, divider);
                    let needs = needs_separator(tiles, index, panel == dest, tile);
                    let sep = ToolbarTile { id: next, control: ToolbarControl::Divider };
                    let added = if needs { seq![t, sep] } else { seq![t] };
                    let d = m1[dest];
                    let jd = if dest == panel && index > i { index - 1 } else { index };
                    if dest == panel {
                        assert(index != i);
                    } else {
                        assert(d == m[dest]);
                    }
                    assert(d[jd].id == divider);
                    assert(has_tile(d, divider));
                    let k = tile_pos(d, divider) + 1;
                    lemma_moved_tiles(m, panel, i, dest, k, added);
                    assert forall|x: ToolbarTile| #[trigger] all_tiles(m2).contains(x) implies all_tiles(m).contains(x)
                        || (n2 == next + 1 && x == sep) by {
                        if added.contains(x) {
                            let q = choose|q: int| 0 <= q < added.len() && added[q] == x;
                            if q == 0 {
                                lemma_all_tiles_member(m, panel, i);
                            }
                        }
                    }
                },
                TileDrop::Elsewhere => {},
            }
        }
    }
}

/// `tiles` with `added` placed at `index`.
fn splice_vec(tiles: &[ToolbarTile], index: usize, added: &[ToolbarTile]) -> (out: Vec<ToolbarTile>)
    requires
        index <= tiles@.len(),
    ensures
        out@ == splice_tiles(tiles@, index as int, added@),
{
    let mut out: Vec<ToolbarTile> = Vec::new();
    let mut i: usize = 0;
    while i < index
        invariant
            index <= tiles@.len(),
            i <= index,
            out@ =~= tiles@.subrange(0, i as int),
        decreases index - i,
    {
        out.push(tiles[i]);
        i = i + 1;
    }
    let mut a: usize = 0;
    while a < added.len()
        invariant
            a <= added@.len(),
            index <= tiles@.len(),
            out@ =~= tiles@.subrange(0, index as int) + added@.subrange(0, a as int),
        decreases added@.len() - a,
    {
        out.push(added[a]);
        a = a + 1;
    }
    let mut j: usize = index;
    while j < tiles.len()
        invariant
            index <= j <= tiles@.len(),
            out@ =~= tiles@.subrange(0, index as int) + added@ + tiles@.subrange(index as int, j as int),
        decreases tiles@.len() - j,
    {
        out.push(tiles[j]);
        j = j + 1;
    }
    assert(out@ =~= splice_tiles(tiles@, index as int, added@));
    out
}


/// Tile identities of a list of toolbars are positive, below `next` and
/// never repeated.
pub open spec fn seq_ids_wf(s: Seq<Toolbar>, next: u32) -> bool {
    &&& seq_ids_unique(s)
    &&& seq_ids_below(s, next)
}

/// Every tile identity is below a positive allocator `next`.
pub open spec fn seq_ids_below(s: Seq<Toolbar>, next: u32) -> bool {
    &&& next > 0
    &&& forall|a: int, x: int|
        #![trigger s[a].tiles@[x]]
        0 <= a < s.len() && 0 <= x < s[a].tiles@.len() ==> s[a].tiles@[x].id < next
}

/// Tile identities are positive and never repeated.
pub open spec fn seq_ids_unique(s: Seq<Toolbar>) -> bool {
    &&& forall|a: int, x: int|
        #![trigger s[a].tiles@[x]]
        0 <= a < s.len() && 0 <= x < s[a].tiles@.len() ==> 0 < s[a].tiles@[x].id
    &&& forall|a: int, x: int, b: int, y: int|
        #![trigger s[a].tiles@[x], s[b].tiles@[y]]
        0 <= a < s.len() && 0 <= x < s[a].tiles@.len() && 0 <= b < s.len() && 0 <= y < s[b].tiles@.len()
            && (a != b || x != y) ==> s[a].tiles@[x].id != s[b].tiles@[y].id
}

pub open spec fn all_toolbar_panels(s: Seq<Toolbar>) -> bool {
    forall|k: int| 0 <= k < s.len() ==> spec_kind(#[trigger] s[k].panel) == PanelKind::Tiles
}

proof fn lemma_seq_wf(s: Seq<Toolbar>, next: u32)
    requires
        distinct_panels(s),
    ensures
        (seq_ids_wf(s, next) && all_toolbar_panels(s)) == tiles_wf(toolbar_map(s), next),
{
    let m = toolbar_map(s);
    assert forall|p: Panel| #[trigger] m.dom().contains(p) implies
        (exists|k: int| 0 <= k < s.len() && s[k].panel == p && m[p] == s[k].tiles@) by {
        let k = choose|k: int| 0 <= k < s.len() && s[k].panel == p;
        lemma_map_at(s, k);
    }
    if seq_ids_wf(s, next) && all_toolbar_panels(s) {
        assert forall|p: Panel| #[trigger] m.dom().contains(p) implies spec_kind(p) == PanelKind::Tiles by {
            let k = choose|k: int| 0 <= k < s.len() && s[k].panel == p;
        }
        assert forall|p: Panel, i: int| #![trigger m[p][i]] m.dom().contains(p) && 0 <= i < m[p].len()
            implies 0 < m[p][i].id && m[p][i].id < next by {
            let k = choose|k: int| 0 <= k < s.len() && s[k].panel == p;
            lemma_map_at(s, k);
            assert(m[p][i] == s[k].tiles@[i]);
        }
        assert forall|p: Panel, i: int, q: Panel, j: int| #![trigger m[p][i], m[q][j]]
            m.dom().contains(p) && m.dom().contains(q) && 0 <= i < m[p].len() && 0 <= j < m[q].len()
                && (p != q || i != j) implies m[p][i].id != m[q][j].id by {
            let a = choose|k: int| 0 <= k < s.len() && s[k].panel == p;
            let b = choose|k: int| 0 <= k < s.len() && s[k].panel == q;
            lemma_map_at(s, a);
            lemma_map_at(s, b);
            assert(m[p][i] == s[a].tiles@[i]);
            assert(m[q][j] == s[b].tiles@[j]);
        }
    }
    if tiles_wf(m, next) {
        assert forall|k: int| 0 <= k < s.len() implies spec_kind(#[trigger] s[k].panel) == PanelKind::Tiles by {
            lemma_map_at(s, k);
        }
        assert forall|a: int, x: int| #![trigger s[a].tiles@[x]]
            0 <= a < s.len() && 0 <= x < s[a].tiles@.len() implies 0 < s[a].tiles@[x].id && s[a].tiles@[x].id < next by {
            lemma_map_at(s, a);
            assert(m[s[a].panel][x] == s[a].tiles@[x]);
        }
        assert forall|a: int, x: int, b: int, y: int| #![trigger s[a].tiles@[x], s[b].tiles@[y]]
            0 <= a < s.len() && 0 <= x < s[a].tiles@.len() && 0 <= b < s.len() && 0 <= y < s[b].tiles@.len()
                && (a != b || x != y) implies s[a].tiles@[x].id != s[b].tiles@[y].id by {
            lemma_map_at(s, a);
            lemma_map_at(s, b);
            assert(m[s[a].panel][x] == s[a].tiles@[x]);
            assert(m[s[b].panel][y] == s[b].tiles@[y]);
            if a != b {
                assert(s[a].panel != s[b].panel);
            }
        }
    }
}

/// The editor's default tools strip: drawing tools, selection tools,
/// arrangement tools, each run closed by a separator, and the colour tile.
pub open spec fn editor_tools() -> Seq<ToolbarControl> {
    seq![
        ToolbarControl::Command { command: CommandId::Pen },
        ToolbarControl::Command { command: CommandId::Pencil },
        ToolbarControl::Command { command: CommandId::Brush },
        ToolbarControl::Command { command: CommandId::Eraser },
        ToolbarControl::Command { command: CommandId::Airbrush },
        ToolbarControl::Command { command: CommandId::Decoration },
        ToolbarControl::Command { command: CommandId::Blend },
        ToolbarControl::Command { command: CommandId::Liquify },
        ToolbarControl::Divider,
        ToolbarControl::Command { command: CommandId::Lasso },
        ToolbarControl::Command { command: CommandId::AutoSelect },
        ToolbarControl::Command { command: CommandId::Fill },
        ToolbarControl::Command { command: CommandId::Gradient },
        ToolbarControl::Divider,
        ToolbarControl::Command { command: CommandId::Move },
        ToolbarControl::Command { command: CommandId::Figure },
        ToolbarControl::Command { command: CommandId::Ruler },
        ToolbarControl::Command { command: CommandId::Hand },
        ToolbarControl::Command { command: CommandId::Eyedropper },
        ToolbarControl::Color,
    ]
}

/// The editor's default commands ribbon: document, history, editing and
/// view commands, separated.
pub open spec fn editor_commands() -> Seq<ToolbarControl> {
    seq![
        ToolbarControl::Command { command: CommandId::NewDocument },
        ToolbarControl::Command { command: CommandId::OpenDocument },
        ToolbarControl::Command { command: CommandId::SaveDocument },
        ToolbarControl::Divider,
        ToolbarControl::Command { command: CommandId::Undo },
        ToolbarControl::Command { command: CommandId::Redo },
        ToolbarControl::Divider,
        ToolbarControl::Command { command: CommandId::ClearLayer },
        ToolbarControl::Command { command: CommandId::FillSelection },
        ToolbarControl::Command { command: CommandId::ScaleRotate },
        ToolbarControl::Divider,
        ToolbarControl::Command { command: CommandId::FlipHorizontal },
    ]
}

fn editor_tool_controls() -> (r: Vec<ToolbarControl>)
    ensures
        r@ == editor_tools(),
{
    let r = vec![
        ToolbarControl::Command { command: CommandId::Pen },
        ToolbarControl::Command { command: CommandId::Pencil },
        ToolbarControl::Command { command: CommandId::Brush },
        ToolbarControl::Command { command: CommandId::Eraser },
        ToolbarControl::Command { command: CommandId::Airbrush },
        ToolbarControl::Command { command: CommandId::Decoration },
        ToolbarControl::Command { command: CommandId::Blend },
        ToolbarControl::Command { command: CommandId::Liquify },
        ToolbarControl::Divider,
        ToolbarControl::Command { command: CommandId::Lasso },
        ToolbarControl::Command { command: CommandId::AutoSelect },
        ToolbarControl::Command { command: CommandId::Fill },
        ToolbarControl::Command { command: CommandId::Gradient },
        ToolbarControl::Divider,
        ToolbarControl::Command { command: CommandId::Move },
        ToolbarControl::Command { command: CommandId::Figure },
        ToolbarControl::Command { command: CommandId::Ruler },
        ToolbarControl::Command { command: CommandId::Hand },
        ToolbarControl::Command { command: CommandId::Eyedropper },
        ToolbarControl::Color,
    ];
    assert(r@ =~= editor_tools());
    r
}

fn editor_command_controls() -> (r: Vec<ToolbarControl>)
    ensures
        r@ == editor_commands(),
{
    let r = vec![
        ToolbarControl::Command { command: CommandId::NewDocument },
        ToolbarControl::Command { command: CommandId::OpenDocument },
        ToolbarControl::Command { command: CommandId::SaveDocument },
        ToolbarControl::Divider,
        ToolbarControl::Command { command: CommandId::Undo },
        ToolbarControl::Command { command: CommandId::Redo },
        ToolbarControl::Divider,
        ToolbarControl::Command { command: CommandId::ClearLayer },
        ToolbarControl::Command { command: CommandId::FillSelection },
        ToolbarControl::Command { command: CommandId::ScaleRotate },
        ToolbarControl::Divider,
        ToolbarControl::Command { command: CommandId::FlipHorizontal },
    ];
    assert(r@ =~= editor_commands());
    r
}

/// Tiles `after` are tiles `prior` with fresh tiles for `controls` put in:
/// they carry the controls in order with identities counting up from
/// `first`, stand together right before tile `b` when `before` is `Some(b)`
/// and at the end otherwise, and the old tiles keep their order around them.
pub open spec fn tools_land(prior: Seq<ToolbarTile>, after: Seq<ToolbarTile>, before: Option<u32>, controls: Seq<ToolbarControl>, first: u32) -> bool {
    exists|i: int| #[trigger] tools_land_at(prior, after, before, controls, first, i)
}

/// `tools_land`, with the fresh tiles starting at position `i`.
pub open spec fn tools_land_at(prior: Seq<ToolbarTile>, after: Seq<ToolbarTile>, before: Option<u32>, controls: Seq<ToolbarControl>, first: u32, i: int) -> bool {
    &&& 0 <= i <= prior.len() && after.len() == prior.len() + controls.len()
    &&& forall|j: int| 0 <= j < controls.len() ==> #[trigger] after[i + j] == ToolbarTile { id: (first + j) as u32, control: controls[j] }
    &&& after.subrange(0, i) + after.subrange(i + controls.len(), after.len() as int) == prior
    &&& before matches Some(b) ==> i + controls.len() < after.len() && after[i + controls.len()].id == b
    &&& before is None ==> i == prior.len()
}

proof fn lemma_tools_land(tiles: Seq<ToolbarTile>, before: Option<u32>, controls: Seq<ToolbarControl>, first: u32)
    requires
        before matches Some(b) ==> has_tile(tiles, b),
    ensures
        tools_land(tiles, splice_tiles(tiles, match before {
            Some(b) => tile_pos(tiles, b),
            None => tiles.len() as int,
        }, fresh_tiles(first, controls)), before, controls, first),
{
    let i = match before {
        Some(b) => tile_pos(tiles, b),
        None => tiles.len() as int,
    };
    let added = fresh_tiles(first, controls);
    let new = splice_tiles(tiles, i, added);
    let n = controls.len() as int;
    if let Some(b) = before {
        assert(0 <= i < tiles.len() && tiles[i].id == b);
    }
    assert(0 <= i <= tiles.len());
    assert forall|j: int| 0 <= j < n implies #[trigger] new[i + j] == ToolbarTile { id: (first + j) as u32, control: controls[j] } by {
        assert(new[i + j] == added[j]);
    }
    assert(new.subrange(0, i) + new.subrange(i + n, new.len() as int) =~= tiles);
    if let Some(b) = before {
        assert(new[i + n] == tiles[i]);
    }
    assert(0 <= i <= tiles.len() && new.len() == tiles.len() + n
        && (forall|j: int| 0 <= j < n ==> #[trigger] new[i + j] == ToolbarTile { id: (first + j) as u32, control: controls[j] })
        && new.subrange(0, i) + new.subrange(i + n, new.len() as int) == tiles
        && (before matches Some(b) ==> i + n < new.len() && new[i + n].id == b)
        && (before is None ==> i == tiles.len()));
    assert(tools_land_at(tiles, new, before, controls, first, i));
}

/// Toolbars `m2` (allocator `next2`) are toolbars `m` (allocator `next`) once
/// tile `tile` of toolbar `panel` has become a group of its own right after
/// the separator `divider` of toolbar `dest`: the dragged tile (unchanged)
/// follows that separator and is followed by a separator or the end of the
/// toolbar; either nothing else was added and the allocator is unchanged, or
/// exactly one new separator with identity `next` follows the tile and the
/// allocator moved on by one. Taking the added tiles out again leaves the
/// destination's other tiles in their old order; a move between toolbars
/// takes the tile out of its source and touches no other toolbar.
pub open spec fn lands_in_group(m: Map<Panel, Seq<ToolbarTile>>, m2: Map<Panel, Seq<ToolbarTile>>, next: u32, next2: u32, panel: Panel, tile: u32, dest: Panel, divider: u32) -> bool {
    let d2 = m2[dest];
    &&& m2.dom() == m.dom()
    &&& forall|p: Panel| p != panel && p != dest && #[trigger] m.dom().contains(p) ==> m2[p] == m[p]
    &&& exists|i: int, k: int| #![trigger d2[i], m[panel][k]]
        0 <= k < m[panel].len() && m[panel][k].id == tile
        && 1 <= i < d2.len() && d2[i] == m[panel][k]
        && d2[i - 1].id == divider && is_divider(d2[i - 1])
        && (i + 1 == d2.len() || is_divider(d2[i + 1]))
        && (panel != dest ==> m2[panel] == m[panel].remove(k))
        && (if next2 == next {
            d2.remove(i) == (if panel == dest { m[panel].remove(k) } else { m[dest] })
        } else {
            &&& next2 == next + 1
            &&& i + 1 < d2.len()
            &&& d2[i + 1] == (ToolbarTile { id: next, control: ToolbarControl::Divider })
            &&& d2.remove(i + 1).remove(i) == (if panel == dest { m[panel].remove(k) } else { m[dest] })
        })
}

/// A tool dropped on a separator becomes a group of its own right after it
/// (see `lands_in_group`), unless it already stood alone beside that
/// separator in the same toolbar, in which case nothing changes.
#[verifier::rlimit(60)]
pub proof fn lemma_tile_lands_in_group(m: Map<Panel, Seq<ToolbarTile>>, next: u32, panel: Panel, tile: u32, dest: Panel, divider: u32)
    requires
        tiles_wf(m, next),
        move_outcome(m, next, panel, tile, TileDrop::TileGroup { panel: dest, divider }) is Ok,
    ensures
        ({
            let (m2, next2) = move_outcome(m, next, panel, tile, TileDrop::TileGroup { panel: dest, divider })->Ok_0;
            ||| (panel == dest && m2 == m && next2 == next
                && already_grouped(m[dest], tile_pos(m[dest], divider), tile))
            ||| lands_in_group(m, m2, next, next2, panel, tile, dest, divider)
        }),
{
    let (m2, next2) = move_outcome(m, next, panel, tile, TileDrop::TileGroup { panel: dest, divider })->Ok_0;
    let kk = tile_pos(m[panel], tile);
    let t = m[panel][kk];
    assert(0 <= kk < m[panel].len() && t.id == tile);
    let tiles = m[dest];
    let index = tile_pos(tiles, divider);
    assert(0 <= index < tiles.len() && tiles[index].id == divider && is_divider(tiles[index]));
    lemma_distinct_in(m, next, dest);
    if panel == dest && already_grouped(tiles, index, tile) {
        return;
    }
    let same = panel == dest;
    let needs = needs_separator(tiles, index, same, tile);
    let m1 = without_tile(m, panel, tile);
    let d = m1[dest];
    let pos = if same && kk < index { index - 1 } else { index };
    if same {
        assert(kk != index);
        assert(d == tiles.remove(kk));
        assert forall|a: int, b: int| 0 <= a < d.len() && 0 <= b < d.len() && a != b implies d[a].id != d[b].id by {
            let a2 = if a < kk { a } else { a + 1 };
            let b2 = if b < kk { b } else { b + 1 };
            assert(d[a] == tiles[a2]);
            assert(d[b] == tiles[b2]);
        }
    } else {
        assert(d == tiles);
    }
    assert(d[pos] == tiles[index]);
    lemma_tile_pos(d, pos);
    let kd = pos + 1;
    let added = if needs { seq![t, ToolbarTile { id: next, control: ToolbarControl::Divider }] } else { seq![t] };
    let d2 = splice_tiles(d, kd, added);
    assert(m2 == m1.insert(dest, d2));
    assert(m2[dest] == d2);
    assert(d2[kd - 1] == d[pos]);
    assert(d2[kd] == t);
    assert(m2.dom() =~= m.dom());
    if needs {
        assert(next2 == next + 1);
        assert(d2[kd + 1] == added[1]);
        assert(d2.remove(kd + 1).remove(kd) =~= d);
    } else {
        assert(next2 == next);
        assert(d2.remove(kd) =~= d);
        if kd + 1 < d2.len() {
            assert(d2[kd + 1] == d[kd]);
            if same {
                if kk == index + 1 {
                    assert(d[kd] == tiles[index + 2]);
                } else if kk > index + 1 {
                    assert(d[kd] == tiles[index + 1]);
                    assert(tiles[index + 1].id != tile);
                } else {
                    assert(d[kd] == tiles[index + 1]);
                    assert(tiles[index + 1].id != tile);
                }
            } else {
                assert(d[kd] == tiles[index + 1]);
            }
            assert(is_divider(d2[kd + 1]));
        }
    }
    assert(d2[kd] == m[panel][kk]);
}

/// Toolbars `m2` are toolbars `m` once tile `tile` of toolbar `panel` has
/// been moved to the end of toolbar `dest`, the other tiles keeping their
/// order, no other toolbar touched.
pub open spec fn lands_last(m: Map<Panel, Seq<ToolbarTile>>, m2: Map<Panel, Seq<ToolbarTile>>, panel: Panel, tile: u32, dest: Panel) -> bool {
    let d2 = m2[dest];
    &&& m2.dom() == m.dom()
    &&& forall|p: Panel| p != panel && p != dest && #[trigger] m.dom().contains(p) ==> m2[p] == m[p]
    &&& exists|k: int| #![trigger m[panel][k]]
        0 <= k < m[panel].len() && m[panel][k].id == tile
        && d2.len() > 0 && d2.last() == m[panel][k]
        && d2.drop_last() == (if panel == dest { m[panel].remove(k) } else { m[dest] })
        && (panel != dest ==> m2[panel] == m[panel].remove(k))
}

/// A tile dropped on a toolbar but on no tile lands at its end (see
/// `lands_last`).
pub proof fn lemma_tile_lands_last(m: Map<Panel, Seq<ToolbarTile>>, next: u32, panel: Panel, tile: u32, dest: Panel)
    requires
        move_outcome(m, next, panel, tile, TileDrop::Tile { panel: dest, before: None }) is Ok,
    ensures
        lands_last(m, move_outcome(m, next, panel, tile, TileDrop::Tile { panel: dest, before: None })->Ok_0.0, panel, tile, dest),
{
    let m2 = move_outcome(m, next, panel, tile, TileDrop::Tile { panel: dest, before: None })->Ok_0.0;
    let k = tile_pos(m[panel], tile);
    let t = m[panel][k];
    assert(0 <= k < m[panel].len() && t.id == tile);
    let m1 = without_tile(m, panel, tile);
    let d = m1[dest];
    let d2 = splice_tiles(d, d.len() as int, seq![t]);
    assert(m2 == m1.insert(dest, d2));
    assert(d2.last() == t);
    assert(d2.drop_last() =~= d);
    assert(m2.dom() =~= m.dom());
    assert(m[panel][k] == t);
}

/// Toolbars `m2` are toolbars `m` once tile `tile` of toolbar `panel` has
/// landed immediately before tile `b` of toolbar `dest`: `dest` holds the
/// dragged tile (unchanged) right before `b`, and taking it out again leaves
/// the destination's other tiles in their old order; a move between
/// toolbars takes the tile out of its source and touches no other toolbar.
pub open spec fn lands_before(m: Map<Panel, Seq<ToolbarTile>>, m2: Map<Panel, Seq<ToolbarTile>>, panel: Panel, tile: u32, dest: Panel, b: u32) -> bool {
    let d2 = m2[dest];
    &&& m2.dom() == m.dom()
    &&& forall|p: Panel| p != panel && p != dest && #[trigger] m.dom().contains(p) ==> m2[p] == m[p]
    &&& exists|i: int, k: int| #![trigger d2[i], m[panel][k]]
        0 <= k < m[panel].len() && m[panel][k].id == tile
        && 0 <= i && i + 1 < d2.len() && d2[i] == m[panel][k] && d2[i + 1].id == b
        && d2.remove(i) == (if panel == dest { m[panel].remove(k) } else { m[dest] })
        && (panel != dest ==> m2[panel] == m[panel].remove(k))
}

/// A tile dropped before another tile lands immediately before it (see
/// `lands_before`).
pub proof fn lemma_tile_lands_before(m: Map<Panel, Seq<ToolbarTile>>, next: u32, panel: Panel, tile: u32, dest: Panel, b: u32)
    requires
        b != tile,
        move_outcome(m, next, panel, tile, TileDrop::Tile { panel: dest, before: Some(b) }) is Ok,
    ensures
        lands_before(m, move_outcome(m, next, panel, tile, TileDrop::Tile { panel: dest, before: Some(b) })->Ok_0.0, panel, tile, dest, b),
{
    let m2 = move_outcome(m, next, panel, tile, TileDrop::Tile { panel: dest, before: Some(b) })->Ok_0.0;
    let k = tile_pos(m[panel], tile);
    let t = m[panel][k];
    assert(0 <= k < m[panel].len() && t.id == tile);
    let m1 = without_tile(m, panel, tile);
    let d = m1[dest];
    let q = choose|q: int| 0 <= q < m[dest].len() && m[dest][q].id == b;
    if panel == dest {
        assert(q != k);
        let q2 = if q < k { q } else { q - 1 };
        assert(d[q2].id == b);
    } else {
        assert(d[q].id == b);
    }
    assert(has_tile(d, b));
    let j = tile_pos(d, b);
    assert(0 <= j < d.len() && d[j].id == b);
    let d2 = splice_tiles(d, j, seq![t]);
    assert(m2 == m1.insert(dest, d2));
    assert(m2[dest] == d2);
    assert(d2[j] == t);
    assert(d2[j + 1] == d[j]);
    assert(d2.remove(j) =~= d);
    assert(m2.dom() =~= m.dom());
    assert(d2[j] == m[panel][k] && d2[j + 1].id == b);
}

/// The editor's default toolbars, tile by tile: the tools strip (drawing,
/// selection, arrangement and navigation tools, separated, then the colour
/// tile) numbered from 1, then the commands ribbon (document, history,
/// editing and view commands, separated).
pub proof fn lemma_editor_toolbars()
    ensures
        fresh_tiles(1, editor_tools()) == seq![
            ToolbarTile { id: 1, control: ToolbarControl::Command { command: CommandId::Pen } },
            ToolbarTile { id: 2, control: ToolbarControl::Command { command: CommandId::Pencil } },
            ToolbarTile { id: 3, control: ToolbarControl::Command { command: CommandId::Brush } },
            ToolbarTile { id: 4, control: ToolbarControl::Command { command: CommandId::Eraser } },
            ToolbarTile { id: 5, control: ToolbarControl::Command { command: CommandId::Airbrush } },
            ToolbarTile { id: 6, control: ToolbarControl::Command { command: CommandId::Decoration } },
            ToolbarTile { id: 7, control: ToolbarControl::Command { command: CommandId::Blend } },
            ToolbarTile { id: 8, control: ToolbarControl::Command { command: CommandId::Liquify } },
            ToolbarTile { id: 9, control: ToolbarControl::Divider },
            ToolbarTile { id: 10, control: ToolbarControl::Command { command: CommandId::Lasso } },
            ToolbarTile { id: 11, control: ToolbarControl::Command { command: CommandId::AutoSelect } },
            ToolbarTile { id: 12, control: ToolbarControl::Command { command: CommandId::Fill } },
            ToolbarTile { id: 13, control: ToolbarControl::Command { command: CommandId::Gradient } },
            ToolbarTile { id: 14, control: ToolbarControl::Divider },
            ToolbarTile { id: 15, control: ToolbarControl::Command { command: CommandId::Move } },
            ToolbarTile { id: 16, control: ToolbarControl::Command { command: CommandId::Figure } },
            ToolbarTile { id: 17, control: ToolbarControl::Command { command: CommandId::Ruler } },
            ToolbarTile { id: 18, control: ToolbarControl::Command { command: CommandId::Hand } },
            ToolbarTile { id: 19, control: ToolbarControl::Command { command: CommandId::Eyedropper } },
            ToolbarTile { id: 20, control: ToolbarControl::Color },
        ],
        fresh_tiles(21, editor_commands()) == seq![
            ToolbarTile { id: 21, control: ToolbarControl::Command { command: CommandId::NewDocument } },
            ToolbarTile { id: 22, control: ToolbarControl::Command { command: CommandId::OpenDocument } },
            ToolbarTile { id: 23, control: ToolbarControl::Command { command: CommandId::SaveDocument } },
            ToolbarTile { id: 24, control: ToolbarControl::Divider },
            ToolbarTile { id: 25, control: ToolbarControl::Command { command: CommandId::Undo } },
            ToolbarTile { id: 26, control: ToolbarControl::Command { command: CommandId::Redo } },
            ToolbarTile { id: 27, control: ToolbarControl::Divider },
            ToolbarTile { id: 28, control: ToolbarControl::Command { command: CommandId::ClearLayer } },
            ToolbarTile { id: 29, control: ToolbarControl::Command { command: CommandId::FillSelection } },
            ToolbarTile { id: 30, control: ToolbarControl::Command { command: CommandId::ScaleRotate } },
            ToolbarTile { id: 31, control: ToolbarControl::Divider },
            ToolbarTile { id: 32, control: ToolbarControl::Command { command: CommandId::FlipHorizontal } },
        ],
{
    assert(fresh_tiles(1, editor_tools()) =~= seq![
            ToolbarTile { id: 1, control: ToolbarControl::Command { command: CommandId::Pen } },
            ToolbarTile { id: 2, control: ToolbarControl::Command { command: CommandId::Pencil } },
            ToolbarTile { id: 3, control: ToolbarControl::Command { command: CommandId::Brush } },
            ToolbarTile { id: 4, control: ToolbarControl::Command { command: CommandId::Eraser } },
            ToolbarTile { id: 5, control: ToolbarControl::Command { command: CommandId::Airbrush } },
            ToolbarTile { id: 6, control: ToolbarControl::Command { command: CommandId::Decoration } },
            ToolbarTile { id: 7, control: ToolbarControl::Command { command: CommandId::Blend } },
            ToolbarTile { id: 8, control: ToolbarControl::Command { command: CommandId::Liquify } },
            ToolbarTile { id: 9, control: ToolbarControl::Divider },
            ToolbarTile { id: 10, control: ToolbarControl::Command { command: CommandId::Lasso } },
            ToolbarTile { id: 11, control: ToolbarControl::Command { command: CommandId::AutoSelect } },
            ToolbarTile { id: 12, control: ToolbarControl::Command { command: CommandId::Fill } },
            ToolbarTile { id: 13, control: ToolbarControl::Command { command: CommandId::Gradient } },
            ToolbarTile { id: 14, control: ToolbarControl::Divider },
            ToolbarTile { id: 15, control: ToolbarControl::Command { command: CommandId::Move } },
            ToolbarTile { id: 16, control: ToolbarControl::Command { command: CommandId::Figure } },
            ToolbarTile { id: 17, control: ToolbarControl::Command { command: CommandId::Ruler } },
            ToolbarTile { id: 18, control: ToolbarControl::Command { command: CommandId::Hand } },
            ToolbarTile { id: 19, control: ToolbarControl::Command { command: CommandId::Eyedropper } },
            ToolbarTile { id: 20, control: ToolbarControl::Color },
    ]);
    assert(fresh_tiles(21, editor_commands()) =~= seq![
            ToolbarTile { id: 21, control: ToolbarControl::Command { command: CommandId::NewDocument } },
            ToolbarTile { id: 22, control: ToolbarControl::Command { command: CommandId::OpenDocument } },
            ToolbarTile { id: 23, control: ToolbarControl::Command { command: CommandId::SaveDocument } },
            ToolbarTile { id: 24, control: ToolbarControl::Divider },
            ToolbarTile { id: 25, control: ToolbarControl::Command { command: CommandId::Undo } },
            ToolbarTile { id: 26, control: ToolbarControl::Command { command: CommandId::Redo } },
            ToolbarTile { id: 27, control: ToolbarControl::Divider },
            ToolbarTile { id: 28, control: ToolbarControl::Command { command: CommandId::ClearLayer } },
            ToolbarTile { id: 29, control: ToolbarControl::Command { command: CommandId::FillSelection } },
            ToolbarTile { id: 30, control: ToolbarControl::Command { command: CommandId::ScaleRotate } },
            ToolbarTile { id: 31, control: ToolbarControl::Divider },
            ToolbarTile { id: 32, control: ToolbarControl::Command { command: CommandId::FlipHorizontal } },
    ]);
}

/// The tiles of every toolbar panel together with the tile identity allocator.
pub struct ToolbarRegistry {
    toolbars: Vec<Toolbar>,
    next_tile_id: u32,
}

impl View for ToolbarRegistry {
    type V = Map<Panel, Seq<ToolbarTile>>;

    closed spec fn view(&self) -> Map<Panel, Seq<ToolbarTile>> {
        toolbar_map(self.toolbars@)
    }
}

/// The first tile identity handed out in a new workspace (one more than the
/// number of default toolbar controls).
pub const INITIAL_TILE_ID: u32 = 9;

impl ToolbarRegistry {
    #[verifier::type_invariant]
    spec fn inv(self) -> bool {
        &&& distinct_panels(self.toolbars@)
        &&& tiles_wf(toolbar_map(self.toolbars@), self.next_tile_id)
    }

    /// Builds a registry from saved toolbars, refusing any that breaks the
    /// identity rules. The checks run in order: every panel is a toolbar,
    /// no toolbar appears twice, tile identities are positive and unique,
    /// and the allocator is positive and above every tile identity.
    pub fn from_parts(toolbars: Vec<Toolbar>, next_tile_id: u32) -> (r: Result<Self, ToolbarError>)
        ensures
            !all_toolbar_panels(toolbars@) ==> r == Err::<Self, ToolbarError>(ToolbarError::NotToolbar),
            all_toolbar_panels(toolbars@) && !distinct_panels(toolbars@)
                ==> r == Err::<Self, ToolbarError>(ToolbarError::DuplicateToolbar),
            all_toolbar_panels(toolbars@) && distinct_panels(toolbars@)
                && !seq_ids_unique(toolbars@) ==> r == Err::<Self, ToolbarError>(ToolbarError::InvalidTileIdentity),
            all_toolbar_panels(toolbars@) && distinct_panels(toolbars@)
                && seq_ids_unique(toolbars@) && !seq_ids_below(toolbars@, next_tile_id)
                ==> r == Err::<Self, ToolbarError>(ToolbarError::InvalidAllocator),
            all_toolbar_panels(toolbars@) && distinct_panels(toolbars@) && seq_ids_wf(toolbars@, next_tile_id)
                ==> (r matches Ok(reg) && reg@ == toolbar_map(toolbars@) && reg.allocator() == next_tile_id),
    {
        let n = toolbars.len();
        let mut k: usize = 0;
        while k < n
            invariant
                n == toolbars@.len(),
                k <= n,
                forall|j: int| 0 <= j < k ==> spec_kind(#[trigger] toolbars@[j].panel) == PanelKind::Tiles,
            decreases n - k,
        {
            if toolbars[k].panel.kind() != PanelKind::Tiles {
                return Err(ToolbarError::NotToolbar);
            }
            k = k + 1;
        }
        let mut a: usize = 0;
        while a < n
            invariant
                n == toolbars@.len(),
                a <= n,
                all_toolbar_panels(toolbars@),
                forall|i: int, j: int| 0 <= i < a && 0 <= j < n && i != j ==> toolbars@[i].panel != toolbars@[j].panel,
            decreases n - a,
        {
            let mut b: usize = 0;
            while b < n
                invariant
                    n == toolbars@.len(),
                    a < n,
                    b <= n,
                    all_toolbar_panels(toolbars@),
                    forall|i: int, j: int| 0 <= i < a && 0 <= j < n && i != j ==> toolbars@[i].panel != toolbars@[j].panel,
                    forall|j: int| 0 <= j < b && a != j ==> toolbars@[a as int].panel != toolbars@[j].panel,
                decreases n - b,
            {
                if a != b && toolbars[a].panel == toolbars[b].panel {
                    return Err(ToolbarError::DuplicateToolbar);
                }
                b = b + 1;
            }
            a = a + 1;
        }
        // Every tile identity is positive and differs from every other tile's.
        let mut max_id: u32 = 0;
        let ghost mut wp: int = 0;
        let ghost mut wx: int = 0;
        let mut a: usize = 0;
        while a < n
            invariant
                n == toolbars@.len(),
                a <= n,
                all_toolbar_panels(toolbars@),
                distinct_panels(toolbars@),
                max_id > 0 ==> 0 <= wp < n && 0 <= wx < toolbars@[wp].tiles@.len() && toolbars@[wp].tiles@[wx].id == max_id,
                forall|p: int, x: int| #![trigger toolbars@[p].tiles@[x]]
                    0 <= p < a && 0 <= x < toolbars@[p].tiles@.len() ==> 0 < toolbars@[p].tiles@[x].id
                        && toolbars@[p].tiles@[x].id <= max_id,
                forall|p: int, x: int, q: int, y: int| #![trigger toolbars@[p].tiles@[x], toolbars@[q].tiles@[y]]
                    0 <= p < a && 0 <= x < toolbars@[p].tiles@.len() && 0 <= q < n && 0 <= y < toolbars@[q].tiles@.len()
                        && (p != q || x != y) ==> toolbars@[p].tiles@[x].id != toolbars@[q].tiles@[y].id,
            decreases n - a,
        {
            let la = toolbars[a].tiles.len();
            let mut x: usize = 0;
            while x < la
                invariant
                    n == toolbars@.len(),
                    a < n,
                    la == toolbars@[a as int].tiles@.len(),
                    x <= la,
                    all_toolbar_panels(toolbars@),
                    distinct_panels(toolbars@),
                    max_id > 0 ==> 0 <= wp < n && 0 <= wx < toolbars@[wp].tiles@.len() && toolbars@[wp].tiles@[wx].id == max_id,
                    forall|p: int, x2: int| #![trigger toolbars@[p].tiles@[x2]]
                        0 <= p < a && 0 <= x2 < toolbars@[p].tiles@.len() ==> 0 < toolbars@[p].tiles@[x2].id
                            && toolbars@[p].tiles@[x2].id <= max_id,
                    forall|x2: int| #![trigger toolbars@[a as int].tiles@[x2]]
                        0 <= x2 < x ==> 0 < toolbars@[a as int].tiles@[x2].id && toolbars@[a as int].tiles@[x2].id <= max_id,
                    forall|p: int, x2: int, q: int, y: int| #![trigger toolbars@[p].tiles@[x2], toolbars@[q].tiles@[y]]
                        0 <= p < a && 0 <= x2 < toolbars@[p].tiles@.len() && 0 <= q < n && 0 <= y < toolbars@[q].tiles@.len()
                            && (p != q || x2 != y) ==> toolbars@[p].tiles@[x2].id != toolbars@[q].tiles@[y].id,
                    forall|x2: int, q: int, y: int| #![trigger toolbars@[a as int].tiles@[x2], toolbars@[q].tiles@[y]]
                        0 <= x2 < x && 0 <= q < n && 0 <= y < toolbars@[q].tiles@.len()
                            && (a != q || x2 != y) ==> toolbars@[a as int].tiles@[x2].id != toolbars@[q].tiles@[y].id,
                decreases la - x,
            {
                let id = toolbars[a].tiles[x].id;
                if id == 0 {
                    return Err(ToolbarError::InvalidTileIdentity);
                }
                let mut b: usize = 0;
                while b < n
                    invariant
                        n == toolbars@.len(),
                        a < n,
                        all_toolbar_panels(toolbars@),
                        distinct_panels(toolbars@),
                        x < toolbars@[a as int].tiles@.len(),
                        id == toolbars@[a as int].tiles@[x as int].id,
                        b <= n,
                        forall|q: int, y: int| #![trigger toolbars@[q].tiles@[y]]
                            0 <= q < b && 0 <= y < toolbars@[q].tiles@.len() && (a != q || x != y)
                                ==> id != toolbars@[q].tiles@[y].id,
                    decreases n - b,
                {
                    let lb = toolbars[b].tiles.len();
                    let mut y: usize = 0;
                    while y < lb
                        invariant
                            n == toolbars@.len(),
                            a < n,
                            b < n,
                            all_toolbar_panels(toolbars@),
                            distinct_panels(toolbars@),
                            lb == toolbars@[b as int].tiles@.len(),
                            x < toolbars@[a as int].tiles@.len(),
                            id == toolbars@[a as int].tiles@[x as int].id,
                            y <= lb,
                            forall|q: int, y2: int| #![trigger toolbars@[q].tiles@[y2]]
                                0 <= q < b && 0 <= y2 < toolbars@[q].tiles@.len() && (a != q || x != y2)
                                    ==> id != toolbars@[q].tiles@[y2].id,
                            forall|y2: int| #![trigger toolbars@[b as int].tiles@[y2]]
                                0 <= y2 < y && (a != b || x != y2) ==> id != toolbars@[b as int].tiles@[y2].id,
                        decreases lb - y,
                    {
                        if (a != b || x != y) && toolbars[b].tiles[y].id == id {
                            return Err(ToolbarError::InvalidTileIdentity);
                        }
                        y = y + 1;
                    }
                    b = b + 1;
                }
                if id > max_id {
                    max_id = id;
                    proof {
                        wp = a as int;
                        wx = x as int;
                    }
                }
                x = x + 1;
            }
            a = a + 1;
        }
        assert(seq_ids_unique(toolbars@));
        if next_tile_id == 0 || next_tile_id <= max_id {
            proof {
                if next_tile_id > 0 {
                    // the tile holding `max_id` is not below the allocator
                    assert(toolbars@[wp].tiles@[wx].id == max_id);
                }
            }
            return Err(ToolbarError::InvalidAllocator);
        }
        proof {
            lemma_seq_wf(toolbars@, next_tile_id);
        }
        Ok(ToolbarRegistry { toolbars, next_tile_id })
    }

    /// The toolbars, each with its tiles, for saving.
    pub fn toolbars(&self) -> (r: &[Toolbar])
        ensures
            toolbar_map(r@) == self@,
            distinct_panels(r@),
    {
        proof {
            use_type_invariant(self);
        }
        self.toolbars.as_slice()
    }

    /// Deletes toolbar `panel` with all of its tiles.
    pub fn remove_toolbar(&mut self, panel: Panel) -> (r: Result<(), ToolbarError>)
        ensures
            old(self)@.dom().contains(panel) ==> r is Ok && final(self)@ == old(self)@.remove(panel),
            !old(self)@.dom().contains(panel) ==> r == Err::<(), ToolbarError>(ToolbarError::UnknownPanel)
                && final(self)@ == old(self)@,
            final(self).allocator() == old(self).allocator(),
            tiles_wf(final(self)@, final(self).allocator()),
    {
        proof {
            use_type_invariant(&*self);
        }
        let k = match self.find_toolbar(panel) {
            Some(k) => k,
            None => return Err(ToolbarError::UnknownPanel),
        };
        let mut toolbars: Vec<Toolbar> = Vec::new();
        std::mem::swap(&mut toolbars, &mut self.toolbars);
        let ghost before = toolbars@;
        let ghost m = toolbar_map(before);
        let next = self.next_tile_id;
        toolbars.remove(k);
        proof {
            lemma_map_remove(before, k as int);
            assert(toolbars@ =~= before.remove(k as int));
            let m2 = m.remove(panel);
            assert(tiles_wf(m2, next)) by {
                assert forall|p: Panel, i: int| #![trigger m2[p][i]] m2.dom().contains(p) && 0 <= i < m2[p].len()
                    implies 0 < m2[p][i].id && m2[p][i].id < next by {
                    assert(m2[p][i] == m[p][i]);
                }
                assert forall|p: Panel, i: int, q: Panel, j: int| #![trigger m2[p][i], m2[q][j]]
                    m2.dom().contains(p) && m2.dom().contains(q) && 0 <= i < m2[p].len() && 0 <= j < m2[q].len()
                        && (p != q || i != j) implies m2[p][i].id != m2[q][j].id by {
                    assert(m2[p][i] == m[p][i]);
                    assert(m2[q][j] == m[q][j]);
                }
            }
        }
        *self = ToolbarRegistry { toolbars, next_tile_id: next };
        proof {
            use_type_invariant(&*self);
        }
        Ok(())
    }

    /// The identity the next inserted tile receives.
    pub closed spec fn allocator(self) -> u32 {
        self.next_tile_id
    }

    /// An empty registry whose allocator starts at `INITIAL_TILE_ID`.
    pub fn new() -> (r: Self)
        ensures
            r@ == Map::<Panel, Seq<ToolbarTile>>::empty(),
            r.allocator() == INITIAL_TILE_ID,
    {
        let r = ToolbarRegistry { toolbars: Vec::new(), next_tile_id: INITIAL_TILE_ID };
        assert(toolbar_map(r.toolbars@) =~= Map::<Panel, Seq<ToolbarTile>>::empty());
        r
    }

    /// Two fresh toolbars, the tools strip and the commands ribbon, holding
    /// `tools` and `commands` with tile identities numbered from 1, the tools
    /// first; the allocator continues after the last tile.
    pub fn numbered(tools: &[ToolbarControl], commands: &[ToolbarControl]) -> (r: Self)
        requires
            1 + tools@.len() + commands@.len() <= u32::MAX,
        ensures
            r@ == Map::<Panel, Seq<ToolbarTile>>::empty()
                .insert(Panel::Toolbar, fresh_tiles(1, tools@))
                .insert(Panel::Commands, fresh_tiles((1 + tools@.len()) as u32, commands@)),
            r.allocator() == 1 + tools@.len() + commands@.len(),
    {
        let mut r = ToolbarRegistry { toolbars: Vec::new(), next_tile_id: 1 };
        assert(toolbar_map(r.toolbars@) =~= Map::<Panel, Seq<ToolbarTile>>::empty());
        let added = r.add_toolbar(Panel::Toolbar);
        assert(added is Ok);
        let added = r.add_toolbar(Panel::Commands);
        assert(added is Ok);
        let ghost e = Seq::<ToolbarTile>::empty();
        if tools.len() > 0 {
            let done = r.insert_tools(Panel::Toolbar, None, tools);
            assert(done is Ok);
            assert(splice_tiles(e, 0, fresh_tiles(1, tools@)) =~= fresh_tiles(1, tools@));
        } else {
            assert(fresh_tiles(1, tools@) =~= e);
        }
        if commands.len() > 0 {
            let done = r.insert_tools(Panel::Commands, None, commands);
            assert(done is Ok);
            assert(splice_tiles(e, 0, fresh_tiles((1 + tools@.len()) as u32, commands@))
                =~= fresh_tiles((1 + tools@.len()) as u32, commands@));
        } else {
            assert(fresh_tiles((1 + tools@.len()) as u32, commands@) =~= e);
        }
        assert(r@ =~= Map::<Panel, Seq<ToolbarTile>>::empty()
            .insert(Panel::Toolbar, fresh_tiles(1, tools@))
            .insert(Panel::Commands, fresh_tiles((1 + tools@.len()) as u32, commands@)));
        r
    }

    /// The editor's default toolbars: the tools strip and the commands
    /// ribbon, their tiles numbered from 1, the tools first.
    pub fn editor_default() -> (r: Self)
        ensures
            r@ == Map::<Panel, Seq<ToolbarTile>>::empty()
                .insert(Panel::Toolbar, fresh_tiles(1, editor_tools()))
                .insert(Panel::Commands, fresh_tiles(21, editor_commands())),
            r.allocator() == 33,
    {
        let tools = editor_tool_controls();
        let commands = editor_command_controls();
        ToolbarRegistry::numbered(tools.as_slice(), commands.as_slice())
    }

    pub fn next_tile_id(&self) -> (id: u32)
        ensures
            id == self.allocator(),
    {
        self.next_tile_id
    }

    fn find_toolbar(&self, panel: Panel) -> (r: Option<usize>)
        ensures
            r matches Some(k) ==> k < self.toolbars@.len() && self.toolbars@[k as int].panel == panel,
            r is None <==> !self@.dom().contains(panel),
            r is None ==> !holds_panel(self.toolbars@, panel),
    {
        let mut k: usize = 0;
        while k < self.toolbars.len()
            invariant
                k <= self.toolbars@.len(),
                forall|j: int| 0 <= j < k ==> self.toolbars@[j].panel != panel,
            decreases self.toolbars@.len() - k,
        {
            if self.toolbars[k].panel == panel {
                return Some(k);
            }
            k = k + 1;
        }
        None
    }

    /// The tiles of `panel`, when it is a registered toolbar.
    pub fn tiles(&self, panel: Panel) -> (r: Option<&[ToolbarTile]>)
        ensures
            r matches Some(t) ==> self@.dom().contains(panel) && t@ == self@[panel],
            r is None ==> !self@.dom().contains(panel),
    {
        proof {
            use_type_invariant(self);
        }
        match self.find_toolbar(panel) {
            Some(k) => {
                proof {
                    lemma_map_at(self.toolbars@, k as int);
                }
                Some(self.toolbars[k].tiles.as_slice())
            },
            None => None,
        }
    }

    /// Registers an empty toolbar for a toolbar panel.
    pub fn add_toolbar(&mut self, panel: Panel) -> (r: Result<(), ToolbarError>)
        ensures
            r is Err <==> (old(self)@.dom().contains(panel) || spec_kind(panel) != PanelKind::Tiles),
            r == Err::<(), ToolbarError>(ToolbarError::NotToolbar) <==> spec_kind(panel) != PanelKind::Tiles,
            r is Ok ==> final(self)@ == old(self)@.insert(panel, Seq::<ToolbarTile>::empty()),
            r is Err ==> final(self)@ == old(self)@,
            final(self).allocator() == old(self).allocator(),
            tiles_wf(final(self)@, final(self).allocator()),
    {
        proof {
            use_type_invariant(&*self);
        }
        if panel.kind() != PanelKind::Tiles {
            return Err(ToolbarError::NotToolbar);
        }
        if self.find_toolbar(panel).is_some() {
            return Err(ToolbarError::DuplicateToolbar);
        }
        let mut toolbars: Vec<Toolbar> = Vec::new();
        std::mem::swap(&mut toolbars, &mut self.toolbars);
        let ghost before = toolbars@;
        let t = Toolbar { panel, tiles: Vec::new() };
        toolbars.push(t);
        proof {
            lemma_map_push(before, t);
            let m = toolbar_map(toolbars@);
            assert(m == toolbar_map(before).insert(panel, Seq::<ToolbarTile>::empty()));
        }
        *self = ToolbarRegistry { toolbars, next_tile_id: self.next_tile_id };
        proof {
            use_type_invariant(&*self);
        }
        Ok(())
    }

    /// Replaces the tiles of toolbar `k`, keeping every other toolbar.
    fn replace_tiles(&mut self, k: usize, tiles: Vec<ToolbarTile>, next: u32)
        requires
            k < old(self).toolbars@.len(),
            tiles_wf(old(self)@.insert(old(self).toolbars@[k as int].panel, tiles@), next),
        ensures
            final(self)@ == old(self)@.insert(old(self).toolbars@[k as int].panel, tiles@),
            final(self).allocator() == next,
            final(self).toolbars@.len() == old(self).toolbars@.len(),
            forall|j: int| 0 <= j < final(self).toolbars@.len() ==> #[trigger] final(self).toolbars@[j].panel == old(self).toolbars@[j].panel,
    {
        proof {
            use_type_invariant(&*self);
        }
        let mut toolbars: Vec<Toolbar> = Vec::new();
        std::mem::swap(&mut toolbars, &mut self.toolbars);
        let ghost before = toolbars@;
        let panel = toolbars[k].panel;
        let t = Toolbar { panel, tiles };
        toolbars.set(k, t);
        proof {
            lemma_map_update(before, k as int, t);
        }
        *self = ToolbarRegistry { toolbars, next_tile_id: next };
    }


    /// Inserts freshly numbered tiles for `controls` before the tile `before`,
    /// or at the end of the toolbar.
    pub fn insert_tools(&mut self, panel: Panel, before: Option<u32>, controls: &[ToolbarControl]) -> (r: Result<(), ToolbarError>)
        ensures
            controls@.len() == 0 ==> r == Err::<(), ToolbarError>(ToolbarError::NoControls),
            controls@.len() > 0 && !old(self)@.dom().contains(panel)
                ==> r == Err::<(), ToolbarError>(ToolbarError::UnknownPanel),
            controls@.len() > 0 && old(self)@.dom().contains(panel)
                && (before matches Some(b) && !has_tile(old(self)@[panel], b))
                ==> r == Err::<(), ToolbarError>(ToolbarError::MissingTarget),
            controls@.len() > 0 && old(self)@.dom().contains(panel)
                && !(before matches Some(b) && !has_tile(old(self)@[panel], b))
                && old(self).allocator() + controls@.len() > u32::MAX
                ==> r == Err::<(), ToolbarError>(if controls@.len() > u32::MAX { ToolbarError::TooManyTools } else { ToolbarError::IdsExhausted }),
            controls@.len() > 0 && old(self)@.dom().contains(panel)
                && !(before matches Some(b) && !has_tile(old(self)@[panel], b))
                && old(self).allocator() + controls@.len() <= u32::MAX ==> {
                    let tiles = old(self)@[panel];
                    let index = match before {
                        Some(b) => tile_pos(tiles, b),
                        None => tiles.len() as int,
                    };
                    &&& r is Ok
                    &&& final(self)@ == old(self)@.insert(panel, splice_tiles(tiles, index, fresh_tiles(old(self).allocator(), controls@)))
                    &&& final(self).allocator() == old(self).allocator() + controls@.len()
                },
            r is Err ==> final(self)@ == old(self)@ && final(self).allocator() == old(self).allocator(),
            tiles_wf(final(self)@, final(self).allocator()),
            r is Ok ==> tools_land(old(self)@[panel], final(self)@[panel], before, controls@, old(self).allocator()),
    {
        proof {
            use_type_invariant(&*self);
            if self@.dom().contains(panel) && !(before matches Some(b) && !has_tile(self@[panel], b)) {
                lemma_tools_land(self@[panel], before, controls@, self.allocator());
            }
        }
        if controls.len() == 0 {
            return Err(ToolbarError::NoControls);
        }
        let k = match self.find_toolbar(panel) {
            Some(k) => k,
            None => return Err(ToolbarError::UnknownPanel),
        };
        let ghost m = self@;
        proof {
            lemma_map_at(self.toolbars@, k as int);
            lemma_distinct_in(m, self.next_tile_id, panel);
        }
        let index = match before {
            Some(b) => match find_tile(self.toolbars[k].tiles.as_slice(), b) {
                Some(i) => {
                    proof {
                        lemma_tile_pos(m[panel], i as int);
                    }
                    i
                },
                None => return Err(ToolbarError::MissingTarget),
            },
            None => self.toolbars[k].tiles.len(),
        };
        if controls.len() > 0xffff_ffff {
            return Err(ToolbarError::TooManyTools);
        }
        let count = controls.len() as u32;
        let end = match self.next_tile_id.checked_add(count) {
            Some(end) => end,
            None => return Err(ToolbarError::IdsExhausted),
        };
        let first = self.next_tile_id;
        let old_tiles = self.toolbars[k].tiles.as_slice();
        let mut tiles: Vec<ToolbarTile> = Vec::new();
        let mut i: usize = 0;
        while i < index
            invariant
                index <= old_tiles@.len(),
                i <= index,
                tiles@ =~= old_tiles@.subrange(0, i as int),
            decreases index - i,
        {
            tiles.push(old_tiles[i]);
            i = i + 1;
        }
        let mut c: usize = 0;
        while c < controls.len()
            invariant
                count == controls@.len(),
                first + count <= u32::MAX,
                c <= controls@.len(),
                index <= old_tiles@.len(),
                tiles@ =~= old_tiles@.subrange(0, index as int) + fresh_tiles(first, controls@).subrange(0, c as int),
            decreases controls@.len() - c,
        {
            tiles.push(ToolbarTile { id: first + c as u32, control: controls[c] });
            c = c + 1;
        }
        let mut j: usize = index;
        while j < old_tiles.len()
            invariant
                index <= j <= old_tiles@.len(),
                tiles@ =~= old_tiles@.subrange(0, index as int) + fresh_tiles(first, controls@) + old_tiles@.subrange(index as int, j as int),
            decreases old_tiles@.len() - j,
        {
            tiles.push(old_tiles[j]);
            j = j + 1;
        }
        proof {
            assert(tiles@ =~= splice_tiles(m[panel], index as int, fresh_tiles(first, controls@)));
            lemma_insert_wf(m, first, panel, index as int, controls@);
        }
        self.replace_tiles(k, tiles, end);
        Ok(())
    }


    /// Moves the tile `tile` of toolbar `panel` to the drop target.
    pub fn move_tile(&mut self, panel: Panel, tile: u32, target: TileDrop) -> (r: Result<(), ToolbarError>)
        ensures
            match move_outcome(old(self)@, old(self).allocator(), panel, tile, target) {
                Ok((m, next)) => r is Ok && final(self)@ == m && final(self).allocator() == next,
                Err(e) => r == Err::<(), ToolbarError>(e) && final(self)@ == old(self)@
                    && final(self).allocator() == old(self).allocator(),
            },
            tiles_wf(final(self)@, final(self).allocator()),
            r is Ok ==> (target matches TileDrop::Tile { panel: dest, before: Some(b) } ==>
                b != tile ==> lands_before(old(self)@, final(self)@, panel, tile, dest, b)),
            r is Ok ==> (target matches TileDrop::Tile { panel: dest, before: None } ==>
                lands_last(old(self)@, final(self)@, panel, tile, dest)),
            r is Ok ==> (target matches TileDrop::TileGroup { panel: dest, divider } ==> {
                ||| (panel == dest && final(self)@ == old(self)@ && final(self).allocator() == old(self).allocator()
                    && already_grouped(old(self)@[dest], tile_pos(old(self)@[dest], divider), tile))
                ||| lands_in_group(old(self)@, final(self)@, old(self).allocator(), final(self).allocator(),
                    panel, tile, dest, divider)
            }),
    {
        proof {
            use_type_invariant(&*self);
            if move_outcome(self@, self.allocator(), panel, tile, target) is Ok {
                match target {
                    TileDrop::Tile { panel: dest, before: Some(b) } => {
                        if b != tile {
                            lemma_tile_lands_before(self@, self.allocator(), panel, tile, dest, b);
                        }
                    },
                    TileDrop::Tile { panel: dest, before: None } => {
                        lemma_tile_lands_last(self@, self.allocator(), panel, tile, dest);
                    },
                    TileDrop::TileGroup { panel: dest, divider } => {
                        lemma_tile_lands_in_group(self@, self.allocator(), panel, tile, dest, divider);
                    },
                    _ => {},
                }
            }
        }
        proof {
            use_type_invariant(&*self);
        }
        let ghost m = self@;
        let k = match self.find_toolbar(panel) {
            Some(k) => k,
            None => {
                if panel.kind() == PanelKind::Content {
                    return Err(ToolbarError::MissingDraggedTool);
                }
                return Err(ToolbarError::UnknownPanel);
            },
        };
        proof {
            lemma_map_at(self.toolbars@, k as int);
            lemma_distinct_in(m, self.next_tile_id, panel);
        }
        let i = match find_tile(self.toolbars[k].tiles.as_slice(), tile) {
            Some(i) => i,
            None => return Err(ToolbarError::MissingDraggedTool),
        };
        proof {
            lemma_tile_pos(m[panel], i as int);
        }
        let source = self.toolbars[k].tiles[i];
        let (dest, before, divider) = match target {
            TileDrop::TileGroup { panel: dest, divider } => (dest, None, Some(divider)),
            TileDrop::Tile { panel: dest, before } => (dest, before, None),
            TileDrop::Elsewhere => return Err(ToolbarError::NotToolbar),
        };
        if let Some(divider) = divider {
            return self.move_tile_group(k, i, dest, divider);
        }
        let d = match self.find_toolbar(dest) {
            Some(d) => d,
            None => {
                if dest.kind() == PanelKind::Content {
                    return Err(ToolbarError::NotToolbar);
                }
                return Err(ToolbarError::UnknownPanel);
            },
        };
        proof {
            lemma_map_at(self.toolbars@, d as int);
            lemma_distinct_in(m, self.next_tile_id, dest);
        }
        if let Some(b) = before {
            if find_tile(self.toolbars[d].tiles.as_slice(), b).is_none() {
                return Err(ToolbarError::MissingTarget);
            }
        }
        if panel == dest && before == Some(tile) {
            return Ok(());
        }
        self.move_tile_to(k, i, d, before);
        proof {
            use_type_invariant(&*self);
        }
        Ok(())
    }

    /// Moves tile `i` of toolbar `k` before tile `before` of toolbar `d`
    /// (or to its end).
    #[verifier::rlimit(40)]
    fn move_tile_to(&mut self, k: usize, i: usize, d: usize, before: Option<u32>)
        requires
            k < old(self).toolbars@.len(),
            d < old(self).toolbars@.len(),
            i < old(self).toolbars@[k as int].tiles@.len(),
            before matches Some(b) ==> has_tile(old(self).toolbars@[d as int].tiles@, b)
                && (k == d ==> b != old(self).toolbars@[k as int].tiles@[i as int].id),
        ensures
            final(self)@ == moved_tile(old(self)@, old(self).toolbars@[k as int].panel,
                old(self).toolbars@[k as int].tiles@[i as int].id, old(self).toolbars@[d as int].panel, before),
            final(self).allocator() == old(self).allocator(),
    {
        proof {
            use_type_invariant(&*self);
        }
        let ghost m = self@;
        let panel = self.toolbars[k].panel;
        let dest = self.toolbars[d].panel;
        let source = self.toolbars[k].tiles[i];
        let ghost tile = source.id;
        proof {
            lemma_map_at(self.toolbars@, k as int);
            lemma_map_at(self.toolbars@, d as int);
            lemma_distinct_in(m, self.next_tile_id, panel);
            lemma_distinct_in(m, self.next_tile_id, dest);
            lemma_tile_pos(m[panel], i as int);
        }
        let next = self.next_tile_id;
        let mut rest = copy_tiles(self.toolbars[k].tiles.as_slice());
        rest.remove(i);
        proof {
            assert(rest@ =~= m[panel].remove(i as int));
            lemma_remove_wf(m, next, panel, i as int);
        }
        let ghost m1 = without_tile(m, panel, tile);
        if d == k {
            let j = match before {
                Some(b) => match find_tile(rest.as_slice(), b) {
                    Some(j) => j,
                    None => {
                        proof {
                            assert(has_tile(m[dest], b));
                            let q = choose|q: int| 0 <= q < m[dest].len() && m[dest][q].id == b;
                            assert(q != i);
                            let q2 = if q < i { q } else { q - 1 };
                            assert(rest@[q2].id == b);
                        }
                        rest.len()
                    },
                },
                None => rest.len(),
            };
            proof {
                lemma_distinct_in(m1, next, panel);
                if let Some(b) = before {
                    lemma_tile_pos(rest@, j as int);
                }
                lemma_insert_existing_wf(m1, next, panel, j as int, source);
            }
            let single = [source];
            let tiles = splice_vec(rest.as_slice(), j, &single);
            proof {
                assert(single@ =~= seq![source]);
            }
            self.replace_tiles(k, tiles, next);
        } else {
            self.replace_tiles(k, rest, next);
            proof {
                assert(self.toolbars@[d as int].panel == dest);
                lemma_map_at(self.toolbars@, d as int);
                assert(self@[dest] == m[dest]);
            }
            let len = self.toolbars[d].tiles.len();
            let j = match before {
                Some(b) => match find_tile(self.toolbars[d].tiles.as_slice(), b) {
                    Some(j) => j,
                    None => len,
                },
                None => len,
            };
            proof {
                lemma_distinct_in(m1, next, dest);
                if let Some(b) = before {
                    lemma_tile_pos(m1[dest], j as int);
                }
                lemma_insert_existing_wf(m1, next, dest, j as int, source);
            }
            let single = [source];
            let tiles = splice_vec(self.toolbars[d].tiles.as_slice(), j, &single);
            proof {
                assert(single@ =~= seq![source]);
            }
            self.replace_tiles(d, tiles, next);
        }
    }


    /// Makes tile `i` of toolbar `k` its own group right after the separator
    /// `divider` of toolbar `dest`.
    #[verifier::rlimit(80)]
    #[verifier::spinoff_prover]
    fn move_tile_group(&mut self, k: usize, i: usize, dest: Panel, divider: u32) -> (r: Result<(), ToolbarError>)
        requires
            k < old(self).toolbars@.len(),
            i < old(self).toolbars@[k as int].tiles@.len(),
        ensures
            ({
                let panel = old(self).toolbars@[k as int].panel;
                let tile = old(self).toolbars@[k as int].tiles@[i as int].id;
                match group_outcome(old(self)@, old(self).allocator(), panel, tile, dest, divider) {
                    Ok((m, next)) => r is Ok && final(self)@ == m && final(self).allocator() == next,
                    Err(e) => r == Err::<(), ToolbarError>(e) && final(self)@ == old(self)@
                        && final(self).allocator() == old(self).allocator(),
                }
            }),
            tiles_wf(final(self)@, final(self).allocator()),
    {
        proof {
            use_type_invariant(&*self);
        }
        let ghost m = self@;
        let panel = self.toolbars[k].panel;
        let source = self.toolbars[k].tiles[i];
        let next = self.next_tile_id;
        proof {
            lemma_map_at(self.toolbars@, k as int);
            lemma_distinct_in(m, next, panel);
            lemma_tile_pos(m[panel], i as int);
        }
        if source.control == ToolbarControl::Divider {
            return Err(ToolbarError::SeparatorCannotGroup);
        }
        let d = match self.find_toolbar(dest) {
            Some(d) => d,
            None => {
                if dest.kind() == PanelKind::Content {
                    return Err(ToolbarError::MissingSeparator);
                }
                return Err(ToolbarError::UnknownPanel);
            },
        };
        proof {
            lemma_map_at(self.toolbars@, d as int);
            lemma_distinct_in(m, next, dest);
        }
        let tiles = self.toolbars[d].tiles.as_slice();
        let index = match find_tile(tiles, divider) {
            Some(index) => index,
            None => return Err(ToolbarError::MissingSeparator),
        };
        proof {
            lemma_tile_pos(m[dest], index as int);
        }
        if tiles[index].control != ToolbarControl::Divider {
            return Err(ToolbarError::MissingSeparator);
        }
        let same = d == k;
        if same {
            let alone_before = index > 0 && tiles[index - 1].id == source.id
                && (index == 1 || tiles[index - 2].control == ToolbarControl::Divider);
            let alone_after = index + 1 < tiles.len() && tiles[index + 1].id == source.id
                && (index + 2 >= tiles.len() || tiles[index + 2].control == ToolbarControl::Divider);
            if alone_before || alone_after {
                return Ok(());
            }
        }
        let needs = if index + 1 >= tiles.len() {
            false
        } else if same && tiles[index + 1].id == source.id {
            index + 2 < tiles.len() && tiles[index + 2].control != ToolbarControl::Divider
        } else {
            tiles[index + 1].control != ToolbarControl::Divider
        };
        if needs && next == 0xffff_ffff {
            return Err(ToolbarError::IdsExhausted);
        }
        let ghost tile = source.id;
        let ghost before_m = self@;
        if same {
            self.regroup_within(k, i, divider, needs);
        } else {
            self.regroup_across(k, i, d, divider, needs);
        }
        proof {
            assert(self@ == grouped_tile(before_m, panel, tile, dest, divider, needs, next));
            use_type_invariant(&*self);
        }
        Ok(())
    }


    /// Moves tile `i` of toolbar `k` right after its separator `divider`,
    /// followed by a fresh separator when `needs` holds.
    #[verifier::rlimit(90)]
    #[verifier::spinoff_prover]
    fn regroup_within(&mut self, k: usize, i: usize, divider: u32, needs: bool)
        requires
            k < old(self).toolbars@.len(),
            i < old(self).toolbars@[k as int].tiles@.len(),
            has_tile(old(self).toolbars@[k as int].tiles@, divider),
            old(self).toolbars@[k as int].tiles@[i as int].id != divider,
            needs ==> old(self).allocator() < u32::MAX,
        ensures
            final(self)@ == grouped_tile(old(self)@, old(self).toolbars@[k as int].panel,
                old(self).toolbars@[k as int].tiles@[i as int].id, old(self).toolbars@[k as int].panel,
                divider, needs, old(self).allocator()),
            final(self).allocator() == if needs { (old(self).allocator() + 1) as u32 } else { old(self).allocator() },
    {
        proof {
            use_type_invariant(&*self);
        }
        let ghost m = self@;
        let panel = self.toolbars[k].panel;
        let source = self.toolbars[k].tiles[i];
        let next = self.next_tile_id;
        proof {
            lemma_map_at(self.toolbars@, k as int);
            lemma_distinct_in(m, next, panel);
            lemma_tile_pos(m[panel], i as int);
        }
        let top: u32 = if needs { next + 1 } else { next };
        let separator = ToolbarTile { id: next, control: ToolbarControl::Divider };
        let mut rest = copy_tiles(self.toolbars[k].tiles.as_slice());
        rest.remove(i);
        proof {
            assert(rest@ =~= m[panel].remove(i as int));
            lemma_remove_wf(m, next, panel, i as int);
        }
        let ghost m1 = without_tile(m, panel, source.id);
        let j = match find_tile(rest.as_slice(), divider) {
            Some(j) => j + 1,
            None => {
                proof {
                    let q = choose|q: int| 0 <= q < m[panel].len() && m[panel][q].id == divider;
                    assert(q != i);
                    let q2 = if q < i { q } else { q - 1 };
                    assert(rest@[q2].id == divider);
                }
                rest.len()
            },
        };
        proof {
            lemma_distinct_in(m1, next, panel);
            lemma_tile_pos(rest@, (j - 1) as int);
            lemma_insert_existing_wf(m1, next, panel, j as int, source);
        }
        let mut added: Vec<ToolbarTile> = Vec::new();
        added.push(source);
        if needs {
            added.push(separator);
        }
        let new_tiles = splice_vec(rest.as_slice(), j, added.as_slice());
        proof {
            if needs {
                assert(added@ =~= seq![source, separator]);
                let m2 = m1.insert(panel, splice_tiles(m1[panel], j as int, seq![source]));
                lemma_insert_wf(m2, next, panel, (j + 1) as int, seq![ToolbarControl::Divider]);
                assert(fresh_tiles(next, seq![ToolbarControl::Divider]) =~= seq![separator]);
                assert(splice_tiles(m2[panel], (j + 1) as int, seq![separator]) =~= new_tiles@);
                assert(m2.insert(panel, new_tiles@) =~= m1.insert(panel, new_tiles@));
            } else {
                assert(added@ =~= seq![source]);
            }
        }
        self.replace_tiles(k, new_tiles, top);
    }

    /// Moves tile `i` of toolbar `k` right after the separator `divider` of
    /// toolbar `d`, followed by a fresh separator when `needs` holds.
    #[verifier::rlimit(90)]
    #[verifier::spinoff_prover]
    fn regroup_across(&mut self, k: usize, i: usize, d: usize, divider: u32, needs: bool)
        requires
            k < old(self).toolbars@.len(),
            d < old(self).toolbars@.len(),
            k != d,
            i < old(self).toolbars@[k as int].tiles@.len(),
            has_tile(old(self).toolbars@[d as int].tiles@, divider),
            needs ==> old(self).allocator() < u32::MAX,
        ensures
            final(self)@ == grouped_tile(old(self)@, old(self).toolbars@[k as int].panel,
                old(self).toolbars@[k as int].tiles@[i as int].id, old(self).toolbars@[d as int].panel,
                divider, needs, old(self).allocator()),
            final(self).allocator() == if needs { (old(self).allocator() + 1) as u32 } else { old(self).allocator() },
    {
        proof {
            use_type_invariant(&*self);
        }
        let ghost m = self@;
        let panel = self.toolbars[k].panel;
        let dest = self.toolbars[d].panel;
        let source = self.toolbars[k].tiles[i];
        let next = self.next_tile_id;
        proof {
            lemma_map_at(self.toolbars@, k as int);
            lemma_map_at(self.toolbars@, d as int);
            lemma_distinct_in(m, next, panel);
            lemma_tile_pos(m[panel], i as int);
        }
        let top: u32 = if needs { next + 1 } else { next };
        let separator = ToolbarTile { id: next, control: ToolbarControl::Divider };
        let mut rest = copy_tiles(self.toolbars[k].tiles.as_slice());
        rest.remove(i);
        proof {
            assert(rest@ =~= m[panel].remove(i as int));
            lemma_remove_wf(m, next, panel, i as int);
        }
        let ghost m1 = without_tile(m, panel, source.id);
        self.replace_tiles(k, rest, next);
        proof {
            assert(self.toolbars@[d as int].panel == dest);
            lemma_map_at(self.toolbars@, d as int);
            assert(self@[dest] == m[dest]);
            assert(self@ == m1);
        }
        let len = self.toolbars[d].tiles.len();
        let j = match find_tile(self.toolbars[d].tiles.as_slice(), divider) {
            Some(j) => j + 1,
            None => len,
        };
        proof {
            lemma_distinct_in(m1, next, dest);
            lemma_tile_pos(m1[dest], (j - 1) as int);
            lemma_insert_existing_wf(m1, next, dest, j as int, source);
        }
        let mut added: Vec<ToolbarTile> = Vec::new();
        added.push(source);
        if needs {
            added.push(separator);
        }
        let new_tiles = splice_vec(self.toolbars[d].tiles.as_slice(), j, added.as_slice());
        proof {
            if needs {
                assert(added@ =~= seq![source, separator]);
                let m2 = m1.insert(dest, splice_tiles(m1[dest], j as int, seq![source]));
                lemma_insert_wf(m2, next, dest, (j + 1) as int, seq![ToolbarControl::Divider]);
                assert(fresh_tiles(next, seq![ToolbarControl::Divider]) =~= seq![separator]);
                assert(splice_tiles(m2[dest], (j + 1) as int, seq![separator]) =~= new_tiles@);
                assert(m2.insert(dest, new_tiles@) =~= m1.insert(dest, new_tiles@));
            } else {
                assert(added@ =~= seq![source]);
            }
        }
        self.replace_tiles(d, new_tiles, top);
    }

    /// Removes the tile `tile` from toolbar `panel`.
    pub fn remove_tool(&mut self, panel: Panel, tile: u32) -> (r: Result<(), ToolbarError>)
        ensures
            !old(self)@.dom().contains(panel) ==> r == Err::<(), ToolbarError>(ToolbarError::UnknownPanel),
            old(self)@.dom().contains(panel) && !has_tile(old(self)@[panel], tile)
                ==> r == Err::<(), ToolbarError>(ToolbarError::MissingTool),
            old(self)@.dom().contains(panel) && has_tile(old(self)@[panel], tile) ==> r is Ok
                && final(self)@ == old(self)@.insert(panel, old(self)@[panel].remove(tile_pos(old(self)@[panel], tile))),
            r is Err ==> final(self)@ == old(self)@,
            final(self).allocator() == old(self).allocator(),
            tiles_wf(final(self)@, final(self).allocator()),
    {
        proof {
            use_type_invariant(&*self);
        }
        let k = match self.find_toolbar(panel) {
            Some(k) => k,
            None => return Err(ToolbarError::UnknownPanel),
        };
        proof {
            lemma_map_at(self.toolbars@, k as int);
        }
        let i = match find_tile(self.toolbars[k].tiles.as_slice(), tile) {
            Some(i) => i,
            None => return Err(ToolbarError::MissingTool),
        };
        let ghost m = self@;
        proof {
            lemma_distinct_in(m, self.next_tile_id, panel);
            lemma_tile_pos(m[panel], i as int);
            lemma_remove_wf(m, self.next_tile_id, panel, i as int);
        }
        let mut tiles = copy_tiles(self.toolbars[k].tiles.as_slice());
        tiles.remove(i);
        assert(tiles@ =~= m[panel].remove(i as int));
        let next = self.next_tile_id;
        self.replace_tiles(k, tiles, next);
        proof {
            use_type_invariant(&*self);
        }
        Ok(())
    }
}

} // verus!
