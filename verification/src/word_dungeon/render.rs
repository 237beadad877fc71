//! The drawing logic that does not touch the graphics stack: superscript
//! numerals and the cells of a line.

use vstd::prelude::*;
use std::collections::HashMap;
use crate::text::{append_str, decimal, digit_char, push_char, usize_to_string};
use crate::word_dungeon::items::{get_item_char, item_symbol, Item};
use crate::equality_helpers::set_elements;
use crate::grid::Position;
use crate::word_dungeon::components::Component;
use crate::word_dungeon::dialogue::{component_of, depth_of, position_of, shown};
use crate::word_dungeon::entity::{has_kind, Entity};
use crate::word_dungeon::state::State;
pub use crate::grid::bresenham;

verus! {

/// What the side panel shows.
#[derive(PartialEq, Eq, Structural, Hash, Clone, Copy, Debug)]
pub enum Show {
    Nothing,
    Tiles,
    Items,
}

/// The superscript form of a decimal digit.
pub open spec fn superscript_char(c: char) -> char {
    if c == '0' { '⁰' }
    else if c == '1' { '¹' }
    else if c == '2' { '²' }
    else if c == '3' { '³' }
    else if c == '4' { '⁴' }
    else if c == '5' { '⁵' }
    else if c == '6' { '⁶' }
    else if c == '7' { '⁷' }
    else if c == '8' { '⁸' }
    else { '⁹' }
}

/// The superscript numeral of `n`.
pub open spec fn superscript(n: nat) -> Seq<char> {
    decimal(n).map_values(|c: char| superscript_char(c))
}

/// The superscript form of the digit `d`.
fn superscript_digit(d: usize) -> (c: char)
    requires
        d < 10,
    ensures
        c == superscript_char(digit_char(d as nat)),
{
    let digits: [char; 10] = ['⁰', '¹', '²', '³', '⁴', '⁵', '⁶', '⁷', '⁸', '⁹'];
    digits[d]
}

/// The numeral of `value` in superscript digits, as drawn next to a tile.
/// Values of ten digits or fewer are written.
pub fn superscript_v2_collect(value: usize) -> (s: String)
    requires
        value < 10_000_000_000,
    ensures
        s@ == superscript(value as nat),
{
    let mut rest = value;
    let mut low: Vec<char> = Vec::new();
    while rest >= 10
        invariant
            rest > 0 || value == 0,
            rest <= value,
            superscript(value as nat) == superscript(rest as nat) + low@,
        decreases rest,
    {
        let d = superscript_digit(rest % 10);
        proof {
            assert(decimal(rest as nat) == decimal((rest / 10) as nat).push(digit_char((rest % 10) as nat)));
            assert(superscript(rest as nat) =~= superscript((rest / 10) as nat).push(d));
            assert(superscript((rest / 10) as nat) + seq![d] + low@ =~= superscript((rest / 10) as nat) + (
            seq![d] + low@));
        }
        low.insert(0, d);
        rest = rest / 10;
    }
    let mut s = String::new();
    let top = superscript_digit(rest);
    push_char(&mut s, top);
    proof {
        assert(superscript(rest as nat) =~= seq![top]);
    }
    let mut i: usize = 0;
    while i < low.len()
        invariant
            i <= low@.len(),
            s@ == seq![top] + low@.take(i as int),
        decreases low@.len() - i,
    {
        push_char(&mut s, low[i]);
        assert(low@.take(i + 1) =~= low@.take(i as int).push(low@[i as int]));
        i = i + 1;
    }
    assert(low@.take(low@.len() as int) =~= low@);
    s
}

/// `n` spaces.
pub open spec fn spaces(n: nat) -> Seq<char> {
    Seq::new(n, |i: int| ' ')
}

/// `s` pushed right to `w` characters by spaces in front, as `{: >w}` writes it.
pub open spec fn pad_left(s: Seq<char>, w: nat) -> Seq<char> {
    if s.len() < w {
        spaces((w - s.len()) as nat) + s
    } else {
        s
    }
}

/// `s` filled to `w` characters by spaces behind, as `{: <w}` writes it.
pub open spec fn pad_right(s: Seq<char>, w: nat) -> Seq<char> {
    if s.len() < w {
        s + spaces((w - s.len()) as nat)
    } else {
        s
    }
}

/// A line of the statistics box: its label, then the number pushed right.
pub open spec fn stat_line(label: Seq<char>, n: nat) -> Seq<char> {
    label + pad_left(decimal(n), 13) + " ┃"@
}

/// The statistics box: the words, the gold (also shown as rack and discard)
/// and the floor.
pub open spec fn stats_lines(gold: nat, floor: nat) -> Seq<Seq<char>> {
    seq![
        "┏━━━━━━━━━━━━━━━━━━━━━━━━━━━┓"@,
        stat_line("┃ Words       "@, 5),
        stat_line("┃ Gold        "@, gold),
        stat_line("┃ Rack        "@, gold),
        stat_line("┃ Discard     "@, gold),
        stat_line("┃ Floor       "@, floor),
        "┗━━━━━━━━━━━━━━━━━━━━━━━━━━━┛"@,
    ]
}

/// How many times `c` occurs in `s`.
pub open spec fn count_of(s: Seq<char>, c: char) -> nat
    decreases s.len(),
{
    if s.len() == 0 {
        0
    } else {
        count_of(s.drop_last(), c) + if s.last() == c { 1nat } else { 0nat }
    }
}

/// The first letters of the tile rows, and the second.
pub open spec fn left_letters() -> Seq<char> {
    seq!['A', 'B', 'C', 'D', 'E', 'F', 'G', 'H', 'I', 'J', 'K', 'L', 'M']
}

pub open spec fn right_letters() -> Seq<char> {
    seq!['N', 'O', 'P', 'Q', 'R', 'S', 'T', 'U', 'V', 'W', 'X', 'Y', 'Z']
}

/// A tile's letter with its points in superscript brackets.
pub open spec fn tile_label(c: char, points: Map<u32, usize>) -> Seq<char> {
    seq![c, '⁽'] + superscript(points[c as u32] as nat) + seq!['⁾']
}

/// One tile's half of a row: its label, then how many of it are left.
pub open spec fn tile_cell(c: char, letters: Seq<char>, points: Map<u32, usize>) -> Seq<char> {
    pad_right(tile_label(c, points), 6) + "× "@ + pad_left(decimal(count_of(letters, c)), 3)
}

/// The `k`-th row of tiles.
pub open spec fn tile_row(k: int, letters: Seq<char>, points: Map<u32, usize>) -> Seq<char> {
    "┃ "@ + tile_cell(left_letters()[k], letters, points) + " ┃ "@ + tile_cell(right_letters()[k], letters, points)
        + " ┃"@
}

/// The first `k` rows of tiles, each followed by an empty row.
pub open spec fn tile_rows(k: nat, letters: Seq<char>, points: Map<u32, usize>) -> Seq<Seq<char>>
    decreases k,
{
    if k == 0 {
        seq![]
    } else {
        tile_rows((k - 1) as nat, letters, points) + seq![tile_row(k - 1, letters, points), "┃             ┃             ┃"@]
    }
}

/// The tiles box.
pub open spec fn tiles_lines(letters: Seq<char>, points: Map<u32, usize>) -> Seq<Seq<char>> {
    seq!["┏━━━━━━━━━━━━━┳━━━━━━━━━━━━━┓"@, "┃             ┃             ┃"@] + tile_rows(13, letters, points) + seq!["┗━━━━━━━━━━━━━┻━━━━━━━━━━━━━┛"@]
}

/// The symbols of `items`, each after a space.
pub open spec fn spaced_symbols(items: Seq<Item>) -> Seq<char>
    decreases items.len(),
{
    if items.len() == 0 {
        seq![]
    } else {
        spaced_symbols(items.drop_last()) + " "@ + item_symbol(items.last())@
    }
}

/// The items five to a line, each line led by a space.
pub open spec fn item_rows(items: Seq<Item>) -> Seq<Seq<char>>
    decreases items.len(),
{
    if items.len() == 0 {
        seq![]
    } else if items.len() <= 5 {
        seq![seq![' '] + spaced_symbols(items)]
    } else {
        seq![seq![' '] + spaced_symbols(items.take(5))] + item_rows(items.skip(5))
    }
}

/// The items box.
pub open spec fn items_lines(items: Seq<Item>) -> Seq<Seq<char>> {
    seq!["┏━━━━━ITEMS━━━━━┓"@] + item_rows(items) + seq!["┗━━━━━━━━━━━━━━━┛"@]
}

/// The side panel: nothing, or the statistics box followed by the tiles box
/// or the items box.
pub open spec fn panel(state: State) -> Seq<Seq<char>> {
    match state.show {
        Show::Nothing => seq![],
        Show::Tiles => stats_lines(state.gold as nat, state.floor as nat) + tiles_lines(
            state.available_letters@,
            state.tile_points@,
        ),
        Show::Items => stats_lines(state.gold as nat, state.floor as nat) + items_lines(state.items@),
    }
}

/// Every letter's points are known and short enough to write.
pub open spec fn tiles_priced(state: State) -> bool {
    forall|k: int|
        0 <= k < 13 ==> {
            &&& #[trigger] state.tile_points@.contains_key(left_letters()[k] as u32)
            &&& state.tile_points@[left_letters()[k] as u32] < 10_000_000_000
            &&& state.tile_points@.contains_key(right_letters()[k] as u32)
            &&& state.tile_points@[right_letters()[k] as u32] < 10_000_000_000
        }
}

/// `n` spaces.
fn spaces_text(n: usize) -> (s: String)
    ensures
        s@ == spaces(n as nat),
{
    let mut s = String::new();
    let mut i: usize = 0;
    while i < n
        invariant
            i <= n,
            s@ == spaces(i as nat),
        decreases n - i,
    {
        push_char(&mut s, ' ');
        assert(spaces((i + 1) as nat) =~= spaces(i as nat).push(' '));
        i = i + 1;
    }
    s
}

/// `s` pushed right to `w` characters.
fn padded_left(s: &str, w: usize) -> (r: String)
    ensures
        r@ == pad_left(s@, w as nat),
{
    let n = s.unicode_len();
    if n < w {
        let mut r = spaces_text(w - n);
        append_str(&mut r, s);
        r
    } else {
        String::from_str(s)
    }
}

/// `s` filled to `w` characters.
fn padded_right(s: &str, w: usize) -> (r: String)
    ensures
        r@ == pad_right(s@, w as nat),
{
    let n = s.unicode_len();
    let mut r = String::from_str(s);
    if n < w {
        let pad = spaces_text(w - n);
        append_str(&mut r, pad.as_str());
    }
    r
}

fn stat_text(label: &str, n: usize) -> (r: String)
    ensures
        r@ == stat_line(label@, n as nat),
{
    let mut r = String::from_str(label);
    let num = usize_to_string(n);
    let padded = padded_left(num.as_str(), 13);
    append_str(&mut r, padded.as_str());
    append_str(&mut r, " ┃");
    r
}

fn letter_count(letters: &Vec<char>, c: char) -> (n: usize)
    ensures
        n == count_of(letters@, c),
{
    let mut n: usize = 0;
    let mut i: usize = 0;
    while i < letters.len()
        invariant
            i <= letters@.len(),
            n == count_of(letters@.take(i as int), c),
            n <= i,
        decreases letters@.len() - i,
    {
        assert(letters@.take(i + 1).drop_last() =~= letters@.take(i as int));
        if letters[i] == c {
            n = n + 1;
        }
        i = i + 1;
    }
    assert(letters@.take(letters@.len() as int) =~= letters@);
    n
}

fn tile_cell_text(c: char, letters: &Vec<char>, points: &HashMap<u32, usize>) -> (r: String)
    requires
        points@.contains_key(c as u32),
        points@[c as u32] < 10_000_000_000,
    ensures
        r@ == tile_cell(c, letters@, points@),
{
    let p = *points.get(&(c as u32)).unwrap();
    let mut label = String::new();
    push_char(&mut label, c);
    push_char(&mut label, '⁽');
    let sup = superscript_v2_collect(p);
    append_str(&mut label, sup.as_str());
    push_char(&mut label, '⁾');
    assert(label@ =~= tile_label(c, points@));
    let mut r = padded_right(label.as_str(), 6);
    append_str(&mut r, "× ");
    let count = usize_to_string(letter_count(letters, c));
    let right = padded_left(count.as_str(), 3);
    append_str(&mut r, right.as_str());
    r
}

/// The side panel's lines, as `panel` gives them.
pub fn side_panel(state: &State) -> (lines: Vec<String>)
    requires
        state.show == Show::Tiles ==> tiles_priced(*state),
    ensures
        lines@.map_values(|s: String| s@) == panel(*state),
{
    let mut lines: Vec<String> = Vec::new();
    if state.show == Show::Nothing {
        assert(lines@.map_values(|s: String| s@) =~= panel(*state));
        return lines;
    }
    lines.push(String::from_str("┏━━━━━━━━━━━━━━━━━━━━━━━━━━━┓"));
    lines.push(stat_text("┃ Words       ", 5));
    lines.push(stat_text("┃ Gold        ", state.gold));
    lines.push(stat_text("┃ Rack        ", state.gold));
    lines.push(stat_text("┃ Discard     ", state.gold));
    lines.push(stat_text("┃ Floor       ", state.floor));
    lines.push(String::from_str("┗━━━━━━━━━━━━━━━━━━━━━━━━━━━┛"));
    assert(lines@.map_values(|s: String| s@) =~= stats_lines(state.gold as nat, state.floor as nat));
    if state.show == Show::Tiles {
        let lefts: [char; 13] = ['A', 'B', 'C', 'D', 'E', 'F', 'G', 'H', 'I', 'J', 'K', 'L', 'M'];
        let rights: [char; 13] = ['N', 'O', 'P', 'Q', 'R', 'S', 'T', 'U', 'V', 'W', 'X', 'Y', 'Z'];
        assert(lefts@ =~= left_letters());
        assert(rights@ =~= right_letters());
        let ghost head = stats_lines(state.gold as nat, state.floor as nat) + seq!["┏━━━━━━━━━━━━━┳━━━━━━━━━━━━━┓"@, "┃             ┃             ┃"@];
        lines.push(String::from_str("┏━━━━━━━━━━━━━┳━━━━━━━━━━━━━┓"));
        lines.push(String::from_str("┃             ┃             ┃"));
        assert(lines@.map_values(|s: String| s@) =~= head + tile_rows(0, state.available_letters@, state.tile_points@));
        let mut k: usize = 0;
        while k < 13
            invariant
                k <= 13,
                lefts@ == left_letters(),
                rights@ == right_letters(),
                state.show == Show::Tiles ==> tiles_priced(*state),
                state.show == Show::Tiles,
                lines@.map_values(|s: String| s@) == head + tile_rows(k as nat, state.available_letters@, state.tile_points@),
            decreases 13 - k,
        {
            let a = lefts[k];
            let b = rights[k];
            proof {
                assert(state.tile_points@.contains_key(left_letters()[k as int] as u32));
            }
            let mut row = String::from_str("┃ ");
            let left = tile_cell_text(a, &state.available_letters, &state.tile_points);
            append_str(&mut row, left.as_str());
            append_str(&mut row, " ┃ ");
            let right = tile_cell_text(b, &state.available_letters, &state.tile_points);
            append_str(&mut row, right.as_str());
            append_str(&mut row, " ┃");
            assert(row@ =~= tile_row(k as int, state.available_letters@, state.tile_points@));
            let ghost before = lines@.map_values(|s: String| s@);
            let ghost row_view = row@;
            lines.push(row);
            lines.push(String::from_str("┃             ┃             ┃"));
            proof {
                let blank = lines@.last()@;
                assert(lines@.map_values(|s: String| s@) =~= before.push(row_view).push(blank));
                assert(tile_rows((k + 1) as nat, state.available_letters@, state.tile_points@) == tile_rows(
                    k as nat,
                    state.available_letters@,
                    state.tile_points@,
                ) + seq![row_view, blank]);
                assert(before.push(row_view).push(blank) =~= head + tile_rows((k + 1) as nat, state.available_letters@, state.tile_points@));
            }
            k = k + 1;
        }
        let ghost before = lines@.map_values(|s: String| s@);
        lines.push(String::from_str("┗━━━━━━━━━━━━━┻━━━━━━━━━━━━━┛"));
        proof {
            let rows = tile_rows(13, state.available_letters@, state.tile_points@);
            let last = lines@.last()@;
            assert(lines@.map_values(|s: String| s@) =~= before.push(last));
            assert(tiles_lines(state.available_letters@, state.tile_points@) =~= seq![head[7], head[8]] + rows + seq![last]);
            assert(lines@.map_values(|s: String| s@) =~= panel(*state));
        }
    } else {
        let ghost head = stats_lines(state.gold as nat, state.floor as nat) + seq!["┏━━━━━ITEMS━━━━━┓"@];
        lines.push(String::from_str("┏━━━━━ITEMS━━━━━┓"));
        proof {
            assert(state.items@.skip(0) =~= state.items@);
            assert(lines@.map_values(|s: String| s@) =~= head);
        }
        let n = state.items.len();
        let mut j: usize = 0;
        while j < n
            invariant
                j <= n,
                n == state.items@.len(),
                lines@.map_values(|s: String| s@) + item_rows(state.items@.skip(j as int)) == head + item_rows(state.items@),
            decreases n - j,
        {
            let end = if n - j <= 5 { n } else { j + 5 };
            let ghost rest = state.items@.skip(j as int);
            let mut line = String::from_str(" ");
            proof {
                reveal_strlit(" ");
                assert(state.items@.subrange(j as int, j as int) =~= Seq::<Item>::empty());
            }
            let mut t: usize = j;
            while t < end
                invariant
                    j <= t <= end <= n,
                    n == state.items@.len(),
                    line@ == seq![' '] + spaced_symbols(state.items@.subrange(j as int, t as int)),
                decreases end - t,
            {
                let sym = get_item_char(&state.items[t]);
                append_str(&mut line, " ");
                append_str(&mut line, sym.as_str());
                assert(state.items@.subrange(j as int, t + 1).drop_last() =~= state.items@.subrange(j as int, t as int));
                t = t + 1;
            }
            proof {
                if n - j <= 5 {
                    assert(rest =~= state.items@.subrange(j as int, end as int));
                } else {
                    assert(rest.take(5) =~= state.items@.subrange(j as int, end as int));
                    assert(rest.skip(5) =~= state.items@.skip(end as int));
                }
                assert(state.items@.skip(end as int).len() == 0 ==> item_rows(state.items@.skip(end as int)) =~= seq![]);
            }
            lines.push(line);
            proof {
                let before = lines@.drop_last().map_values(|s: String| s@);
                assert(lines@.map_values(|s: String| s@) =~= before.push(line@));
                assert(item_rows(rest) =~= seq![line@] + item_rows(state.items@.skip(end as int)));
            }
            j = end;
        }
        let ghost before = lines@.map_values(|s: String| s@);
        lines.push(String::from_str("┗━━━━━━━━━━━━━━━┛"));
        proof {
            assert(state.items@.skip(n as int) =~= Seq::<Item>::empty());
            assert(item_rows(state.items@.skip(n as int)) =~= seq![]);
            assert(before =~= head + item_rows(state.items@));
            let last = lines@.last()@;
            assert(lines@.map_values(|s: String| s@) =~= before.push(last));
            assert(lines@.map_values(|s: String| s@) =~= panel(*state));
        }
    }
    lines
}

/// How far above its cell a glyph is drawn: not at all, or by a half, a
/// quarter or a third of a tile's height.
#[derive(PartialEq, Eq, Structural, Clone, Copy, Debug)]
pub enum Lift {
    Level,
    Half,
    Quarter,
    Third,
}

/// One glyph to draw: its text, its cell, its color, how far it is lifted,
/// the depth of its entity and whether it is centred in the cell.
pub struct Draw {
    pub text: String,
    pub position: Position,
    pub color: (u8, u8, u8, u8),
    pub lift: Lift,
    pub depth: isize,
    pub center: bool,
}

/// A glyph to draw, with its text as characters.
pub open spec fn draw_view(d: Draw) -> (Seq<char>, Position, (u8, u8, u8, u8), Lift, isize, bool) {
    (d.text@, d.position, d.color, d.lift, d.depth, d.center)
}

/// Whether the entity is hidden, where its component says.
pub open spec fn hidden_of(e: Entity) -> Option<bool> {
    match component_of(e, 7) {
        Component::Hidden(h) => h,
        _ => None,
    }
}

/// The entity's background glyph and color, where its component holds them.
pub open spec fn render_bg_of(e: Entity) -> Option<(String, (u8, u8, u8, u8))> {
    match component_of(e, 3) {
        Component::RenderBg(b) => b,
        _ => None,
    }
}

/// The entity's foreground glyph, color and centring, where its component
/// holds them.
pub open spec fn render_fg_of(e: Entity) -> Option<(String, (u8, u8, u8, u8), bool)> {
    match component_of(e, 2) {
        Component::RenderFg(f) => f,
        _ => None,
    }
}

/// How far the entity's foreground glyph is lifted: not at all for a
/// dialogue's character, by half a tile for a wall or a secret wall, by a
/// quarter for the player and by a third for anything else.
pub open spec fn lift_of(e: Entity) -> Lift {
    if has_kind(e.components@, 16) {
        Lift::Level
    } else if has_kind(e.components@, 8) || has_kind(e.components@, 17) {
        Lift::Half
    } else if has_kind(e.components@, 12) {
        Lift::Quarter
    } else {
        Lift::Third
    }
}

/// The entity is drawn unless the fog is on and it is hidden.
pub open spec fn is_drawn(state: State, e: Entity) -> bool {
    !(state.fog_enabled && has_kind(e.components@, 7) && hidden_of(e) == Some(true))
}

/// The glyphs of an entity: nothing where it is not drawn; else its
/// background glyph, where it has one, then its foreground glyph, where it
/// has one, both at its cell and depth.
pub open spec fn entity_draws(state: State, e: Entity) -> Seq<(Seq<char>, Position, (u8, u8, u8, u8), Lift, isize, bool)> {
    if !is_drawn(state, e) {
        seq![]
    } else {
        let pos = position_of(e)->0;
        let z = depth_of(e)->0;
        let bg = render_bg_of(e)->0;
        let fg = render_fg_of(e)->0;
        (if has_kind(e.components@, 3) {
            seq![(bg.0@, pos, bg.1, Lift::Level, z, false)]
        } else {
            seq![]
        }) + (if has_kind(e.components@, 2) {
            seq![(fg.0@, pos, fg.1, lift_of(e), z, fg.2)]
        } else {
            seq![]
        })
    }
}

/// The glyphs of the entities `ids`, in that order.
pub open spec fn draws_for(state: State, ids: Seq<usize>) -> Seq<(Seq<char>, Position, (u8, u8, u8, u8), Lift, isize, bool)>
    decreases ids.len(),
{
    if ids.len() == 0 {
        seq![]
    } else {
        draws_for(state, ids.drop_last()) + entity_draws(state, state.entities_map@[ids.last()])
    }
}

/// What drawing the entity reads is there: its cell and depth, whether it is
/// hidden where the fog is on, and the glyphs it is drawn with.
pub open spec fn drawable(state: State, e: Entity) -> bool {
    &&& e.wf()
    &&& has_kind(e.components@, 0)
    &&& position_of(e) is Some
    &&& has_kind(e.components@, 5)
    &&& depth_of(e) is Some
    &&& state.fog_enabled && has_kind(e.components@, 7) ==> hidden_of(e) is Some
    &&& is_drawn(state, e) && has_kind(e.components@, 3) ==> render_bg_of(e) is Some
    &&& is_drawn(state, e) && has_kind(e.components@, 2) ==> render_fg_of(e) is Some
}

/// Appends the glyphs of the entity `e`.
fn push_entity_draws(state: &State, e: &Entity, draws: &mut Vec<Draw>)
    requires
        drawable(*state, *e),
    ensures
        final(draws)@.map_values(|d: Draw| draw_view(d)) == old(draws)@.map_values(|d: Draw| draw_view(d)) + entity_draws(*state, *e),
{
    let ghost before = draws@.map_values(|d: Draw| draw_view(d));
    if state.fog_enabled && e.contains_component(&Component::Hidden(None)) {
        if let Some(Component::Hidden(Some(true))) = e.get_component(Component::Hidden(None)) {
            assert(draws@.map_values(|d: Draw| draw_view(d)) =~= before + entity_draws(*state, *e));
            return;
        }
    }
    let position = match e.get_component(Component::Position(None)) {
        Some(Component::Position(Some(p))) => *p,
        _ => Position { x: 0, y: 0 },
    };
    let depth = match e.get_component(Component::ZIndex(None)) {
        Some(Component::ZIndex(Some(z))) => *z,
        _ => 0,
    };
    if e.contains_component(&Component::RenderBg(None)) {
        if let Some(Component::RenderBg(Some((text, color)))) = e.get_component(Component::RenderBg(None)) {
            draws.push(Draw { text: text.clone(), position, color: *color, lift: Lift::Level, depth, center: false });
        }
    }
    let ghost mid2 = draws@.map_values(|d: Draw| draw_view(d));
    proof {
        let bg = render_bg_of(*e)->0;
        assert(mid2 =~= before + (if has_kind(e.components@, 3) {
            seq![(bg.0@, position, bg.1, Lift::Level, depth, false)]
        } else {
            seq![]
        }));
    }
    if e.contains_component(&Component::RenderFg(None)) {
        let lift = if e.contains_component(&Component::DialogueChar) {
            Lift::Level
        } else if e.contains_component(&Component::Wall) || e.contains_component(&Component::SecretWall(None)) {
            Lift::Half
        } else if e.contains_component(&Component::Player) {
            Lift::Quarter
        } else {
            Lift::Third
        };
        if let Some(Component::RenderFg(Some((text, color, center)))) = e.get_component(Component::RenderFg(None)) {
            draws.push(Draw { text: text.clone(), position, color: *color, lift, depth, center: *center });
        }
    }
    assert(draws@.map_values(|d: Draw| draw_view(d)) =~= before + entity_draws(*state, *e));
}

/// The glyphs of the entities indexed under the kinds of `components`: for
/// each, in the order that the set of entities yields them, its background
/// glyph and its foreground glyph (see `entity_draws`).
pub fn render(state: &State, components: &[Component]) -> (draws: Vec<Draw>)
    requires
        state.wf(),
        forall|id: usize| #[trigger] shown(*state, components@).contains(id) ==> state.entities_map@.contains_key(id)
            && drawable(*state, state.entities_map@[id]),
    ensures
        exists|ids: Seq<usize>|
            #![trigger draws_for(*state, ids)]
            ids.to_set() == shown(*state, components@) && ids.no_duplicates() && draws@.map_values(|d: Draw| draw_view(d))
                == draws_for(*state, ids),
{
    let ids = set_elements(state.get_entities(components));
    let mut draws: Vec<Draw> = Vec::new();
    let mut i: usize = 0;
    while i < ids.len()
        invariant
            i <= ids@.len(),
            ids@.to_set() == shown(*state, components@),
            forall|id: usize| #[trigger] shown(*state, components@).contains(id) ==> state.entities_map@.contains_key(id)
                && drawable(*state, state.entities_map@[id]),
            draws@.map_values(|d: Draw| draw_view(d)) == draws_for(*state, ids@.take(i as int)),
        decreases ids@.len() - i,
    {
        let id = ids[i];
        assert(ids@.to_set().contains(ids@[i as int]));
        let e = state.entities_map.get(&id).unwrap();
        push_entity_draws(state, e, &mut draws);
        assert(ids@.take(i + 1).drop_last() =~= ids@.take(i as int));
        i = i + 1;
    }
    assert(ids@.take(ids@.len() as int) =~= ids@);
    draws
}

/// The characters typed so far, each at its column of the row under the grid.
pub fn input_cells(state: &State) -> (cells: Vec<(char, Position)>)
    requires
        state.dialogue_input@.len() <= isize::MAX,
    ensures
        cells@.len() == state.dialogue_input@.len(),
        forall|i: int|
            0 <= i < cells@.len() ==> #[trigger] cells@[i] == (
                state.dialogue_input@[i],
                Position { x: i as isize, y: state.grid_size.height },
            ),
{
    let text = state.dialogue_input.as_str();
    let n = text.unicode_len();
    let mut cells: Vec<(char, Position)> = Vec::new();
    let mut i: usize = 0;
    while i < n
        invariant
            i <= n,
            n == state.dialogue_input@.len(),
            text@ == state.dialogue_input@,
            n <= isize::MAX,
            cells@.len() == i,
            forall|j: int|
                0 <= j < i ==> #[trigger] cells@[j] == (
                    state.dialogue_input@[j],
                    Position { x: j as isize, y: state.grid_size.height },
                ),
        decreases n - i,
    {
        let c = text.get_char(i);
        cells.push((c, Position { x: i as isize, y: state.grid_size.height }));
        i = i + 1;
    }
    cells
}

} // verus!
