//! Showing a dialogue: its text and its options laid out character by
//! character, each character an entity of its own.

use vstd::prelude::*;
use crate::equality_helpers::set_elements;
use crate::text::push_char;
use crate::word_dungeon::colors::WHITE;
use crate::word_dungeon::components::{kind, Component, DialogueLine, Position};
use crate::word_dungeon::entity::{has_kind, new_entity, Entity};
use crate::word_dungeon::equality::same_component;
use crate::word_dungeon::event::Event;
use crate::word_dungeon::state::{add_entity, entity_kinds, index_with, kinds_of, State};

verus! {

broadcast use vstd::std_specs::hash::group_hash_axioms;

/// A character to draw: its column and row from the dialogue's corner, the
/// character and its colour.
pub type Glyph = (isize, isize, char, (u8, u8, u8, u8));

/// The colour of a line: its one colour where it has one, white by default.
/// A line with both colours, or with a pair of no colours, has none.
pub open spec fn line_color(c: Option<(Option<(u8, u8, u8, u8)>, Option<(u8, u8, u8, u8)>)>) -> Option<(u8, u8, u8, u8)> {
    match c {
        None => Some(WHITE),
        Some((Some(a), None)) => Some(a),
        Some((None, Some(b))) => Some(b),
        _ => None,
    }
}

/// The glyphs of the characters `s` from column `x` and row `y`: a line break
/// starts the next row; with the column and row after them.
pub open spec fn text_glyphs(s: Seq<char>, color: (u8, u8, u8, u8), x: int, y: int) -> (Seq<(int, int, char, (u8, u8, u8, u8))>, int, int)
    decreases s.len(),
{
    if s.len() == 0 {
        (Seq::empty(), x, y)
    } else if s[0] == '\n' {
        text_glyphs(s.drop_first(), color, 0, y + 1)
    } else {
        let r = text_glyphs(s.drop_first(), color, x + 1, y);
        (seq![(x, y, s[0], color)] + r.0, r.1, r.2)
    }
}

/// The glyphs of the dialogue's lines, one after the other.
pub open spec fn lines_glyphs(lines: Seq<DialogueLine>, x: int, y: int) -> (Seq<(int, int, char, (u8, u8, u8, u8))>, int, int)
    decreases lines.len(),
{
    if lines.len() == 0 {
        (Seq::empty(), x, y)
    } else {
        let first = text_glyphs(lines[0].0@, line_color(lines[0].1).unwrap(), x, y);
        let rest = lines_glyphs(lines.drop_first(), first.1, first.2);
        (first.0 + rest.0, rest.1, rest.2)
    }
}

/// The glyphs of the options from the `i`-th on, on row `y` from column `x`:
/// each option's characters in white, a `/` between options; an empty
/// option is left out with its `/`.
pub open spec fn options_glyphs(options: Seq<Seq<char>>, i: int, x: int, y: int) -> Seq<(int, int, char, (u8, u8, u8, u8))>
    decreases options.len() - i,
{
    if i >= options.len() || i < 0 {
        Seq::empty()
    } else if options[i].len() == 0 {
        options_glyphs(options, i + 1, x, y)
    } else {
        let word = Seq::new(options[i].len(), |k: int| (x + k, y, options[i][k], WHITE));
        if i == options.len() - 1 {
            word
        } else {
            word + seq![(x + options[i].len(), y, '/', WHITE)] + options_glyphs(options, i + 1, x + options[i].len() + 1, y)
        }
    }
}

/// The glyphs of a whole dialogue: its lines from the corner, then its
/// options on the row after the last line.
pub open spec fn dialogue_glyphs(lines: Seq<DialogueLine>, options: Seq<Seq<char>>) -> Seq<(int, int, char, (u8, u8, u8, u8))> {
    let l = lines_glyphs(lines, 0, 0);
    l.0 + options_glyphs(options, 0, 0, l.2 + 1)
}


/// Glyph positions as numbers without bounds.
pub open spec fn glyph_ints(v: Seq<Glyph>) -> Seq<(int, int, char, (u8, u8, u8, u8))> {
    v.map_values(|g: Glyph| (g.0 as int, g.1 as int, g.2, g.3))
}

proof fn lemma_glyph_ints_push(v: Seq<Glyph>, g: Glyph)
    ensures
        glyph_ints(v.push(g)) == glyph_ints(v).push((g.0 as int, g.1 as int, g.2, g.3)),
{
    assert(glyph_ints(v.push(g)) =~= glyph_ints(v).push((g.0 as int, g.1 as int, g.2, g.3)));
}

/// Lays out the characters of `s` from column `x` and row `y`.
fn text_layout(out: &mut Vec<Glyph>, s: &str, color: (u8, u8, u8, u8), x: isize, y: isize) -> (r: (isize, isize))
    requires
        0 <= x,
        0 <= y,
        x + s@.len() <= isize::MAX,
        y + s@.len() <= isize::MAX,
    ensures
        glyph_ints(final(out)@) == glyph_ints(old(out)@) + text_glyphs(s@, color, x as int, y as int).0,
        r.0 == text_glyphs(s@, color, x as int, y as int).1,
        r.1 == text_glyphs(s@, color, x as int, y as int).2,
        0 <= r.0 <= x + s@.len(),
        y <= r.1 <= y + s@.len(),
{
    let ghost whole = text_glyphs(s@, color, x as int, y as int);
    let n = s.unicode_len();
    let mut i: usize = 0;
    let mut cx = x;
    let mut cy = y;
    assert(s@.skip(0) =~= s@);
    while i < n
        invariant
            i <= n,
            n == s@.len(),
            0 <= cx <= x + i,
            y <= cy <= y + i,
            x + s@.len() <= isize::MAX,
            y + s@.len() <= isize::MAX,
            glyph_ints(out@) + text_glyphs(s@.skip(i as int), color, cx as int, cy as int).0 == glyph_ints(old(out)@) + whole.0,
            text_glyphs(s@.skip(i as int), color, cx as int, cy as int).1 == whole.1,
            text_glyphs(s@.skip(i as int), color, cx as int, cy as int).2 == whole.2,
        decreases n - i,
    {
        let c = s.get_char(i);
        let ghost rest = s@.skip(i as int);
        proof {
            assert(rest[0] == c);
            assert(rest.drop_first() =~= s@.skip(i + 1));
        }
        if c == '\n' {
            cx = 0;
            cy = cy + 1;
        } else {
            let ghost before = out@;
            out.push((cx, cy, c, color));
            proof {
                lemma_glyph_ints_push(before, (cx, cy, c, color));
                let r = text_glyphs(s@.skip(i + 1), color, cx + 1, cy as int);
                assert(glyph_ints(out@) + r.0 =~= glyph_ints(before) + (seq![(cx as int, cy as int, c, color)] + r.0));
            }
            cx = cx + 1;
        }
        i = i + 1;
    }
    proof {
        assert(s@.skip(n as int).len() == 0);
        assert(glyph_ints(out@) =~= glyph_ints(old(out)@) + whole.0);
    }
    (cx, cy)
}

/// The number of characters of the lines.
pub open spec fn lines_chars(lines: Seq<DialogueLine>) -> nat
    decreases lines.len(),
{
    if lines.len() == 0 {
        0
    } else {
        lines[0].0@.len() + lines_chars(lines.drop_first())
    }
}

/// The number of characters of the options.
pub open spec fn options_chars(options: Seq<Seq<char>>) -> nat
    decreases options.len(),
{
    if options.len() == 0 {
        0
    } else {
        options[0].len() + options_chars(options.drop_first())
    }
}

/// The texts of the options.
pub open spec fn option_texts(options: Seq<(String, Event)>) -> Seq<Seq<char>> {
    options.map_values(|o: (String, Event)| o.0@)
}

/// Every line of the dialogue has a colour.
pub open spec fn lines_colored(lines: Seq<DialogueLine>) -> bool {
    forall|i: int| 0 <= i < lines.len() ==> (#[trigger] line_color(lines[i].1)).is_some()
}

/// A dialogue small enough to lay out within `isize`.
pub open spec fn dialogue_fits(lines: Seq<DialogueLine>, options: Seq<(String, Event)>) -> bool {
    lines_chars(lines) + options_chars(option_texts(options)) + options.len() + 2 <= 0x1000_0000
}

/// The lines of `lines` from the `i`-th on.
proof fn lemma_lines_skip(lines: Seq<DialogueLine>, i: int)
    requires
        0 <= i < lines.len(),
    ensures
        lines.skip(i).drop_first() == lines.skip(i + 1),
        lines.skip(i)[0] == lines[i],
        lines_chars(lines.skip(i)) == lines[i].0@.len() + lines_chars(lines.skip(i + 1)),
{
    assert(lines.skip(i).drop_first() =~= lines.skip(i + 1));
}

proof fn lemma_lines_chars_skip_le(lines: Seq<DialogueLine>, i: int)
    requires
        0 <= i <= lines.len(),
    ensures
        lines_chars(lines.skip(i)) <= lines_chars(lines),
    decreases i,
{
    if i > 0 {
        lemma_lines_chars_skip_le(lines, i - 1);
        lemma_lines_skip(lines, i - 1);
    } else {
        assert(lines.skip(0) =~= lines);
    }
}

/// Lays out the lines of a dialogue from the corner.
fn lines_layout(out: &mut Vec<Glyph>, lines: &Vec<DialogueLine>) -> (r: (isize, isize))
    requires
        old(out)@.len() == 0,
        lines_colored(lines@),
        lines_chars(lines@) <= 0x1000_0000,
    ensures
        glyph_ints(final(out)@) == lines_glyphs(lines@, 0, 0).0,
        r.0 == lines_glyphs(lines@, 0, 0).1,
        r.1 == lines_glyphs(lines@, 0, 0).2,
        0 <= r.1 <= lines_chars(lines@),
{
    let ghost whole = lines_glyphs(lines@, 0, 0);
    let mut x: isize = 0;
    let mut y: isize = 0;
    let mut i: usize = 0;
    assert(lines@.skip(0) =~= lines@);
    assert(glyph_ints(out@) =~= Seq::empty());
    while i < lines.len()
        invariant
            i <= lines@.len(),
            lines_colored(lines@),
            lines_chars(lines@) <= 0x1000_0000,
            0 <= x <= lines_chars(lines@) - lines_chars(lines@.skip(i as int)),
            0 <= y <= lines_chars(lines@) - lines_chars(lines@.skip(i as int)),
            glyph_ints(out@) + lines_glyphs(lines@.skip(i as int), x as int, y as int).0 == whole.0,
            lines_glyphs(lines@.skip(i as int), x as int, y as int).1 == whole.1,
            lines_glyphs(lines@.skip(i as int), x as int, y as int).2 == whole.2,
        decreases lines@.len() - i,
    {
        proof {
            lemma_lines_skip(lines@, i as int);
            lemma_lines_chars_skip_le(lines@, i + 1);
            assert(line_color(lines@[i as int].1).is_some());
        }
        let color = match &lines[i].1 {
            None => WHITE,
            Some((Some(a), None)) => *a,
            Some((None, Some(b))) => *b,
            Some((Some(a), Some(_))) => *a,
            Some((None, None)) => WHITE,
        };
        let ghost before = out@;
        let (nx, ny) = text_layout(out, lines[i].0.as_str(), color, x, y);
        proof {
            let first = text_glyphs(lines@[i as int].0@, color, x as int, y as int);
            let rest = lines_glyphs(lines@.skip(i + 1), first.1, first.2);
            assert(glyph_ints(out@) + rest.0 =~= glyph_ints(before) + (first.0 + rest.0));
        }
        x = nx;
        y = ny;
        i = i + 1;
    }
    proof {
        assert(lines@.skip(lines@.len() as int).len() == 0);
        assert(glyph_ints(out@) =~= whole.0);
    }
    (x, y)
}


proof fn lemma_options_chars_skip(options: Seq<Seq<char>>, i: int)
    requires
        0 <= i < options.len(),
    ensures
        options_chars(options.skip(i)) == options[i].len() + options_chars(options.skip(i + 1)),
{
    assert(options.skip(i).drop_first() =~= options.skip(i + 1));
}

proof fn lemma_options_chars_split(options: Seq<Seq<char>>, i: int)
    requires
        0 <= i <= options.len(),
    ensures
        options_chars(options.skip(i)) <= options_chars(options),
    decreases i,
{
    if i > 0 {
        lemma_options_chars_split(options, i - 1);
        lemma_options_chars_skip(options, i - 1);
    } else {
        assert(options.skip(0) =~= options);
    }
}

/// Lays out the options on row `y`, from the first column.
fn options_layout(out: &mut Vec<Glyph>, options: &Vec<(String, Event)>, y: isize)
    requires
        0 <= y <= 0x1000_0000,
        options_chars(option_texts(options@)) + options@.len() <= 0x1000_0000,
    ensures
        glyph_ints(final(out)@) == glyph_ints(old(out)@) + options_glyphs(option_texts(options@), 0, 0, y as int),
{
    let ghost texts = option_texts(options@);
    let ghost whole = options_glyphs(texts, 0, 0, y as int);
    let mut x: isize = 0;
    let mut i: usize = 0;
    assert(texts.skip(0) =~= texts);
    while i < options.len()
        invariant
            i <= options@.len(),
            texts == option_texts(options@),
            texts.len() == options@.len(),
            0 <= y <= 0x1000_0000,
            options_chars(texts) + options@.len() <= 0x1000_0000,
            0 <= x <= options_chars(texts) - options_chars(texts.skip(i as int)) + i,
            glyph_ints(out@) + options_glyphs(texts, i as int, x as int, y as int) == glyph_ints(old(out)@) + whole,
        decreases options@.len() - i,
    {
        let o = options[i].0.as_str();
        let n = o.unicode_len();
        proof {
            lemma_options_chars_skip(texts, i as int);
            lemma_options_chars_split(texts, i + 1);
            assert(texts[i as int] == o@);
        }
        if n > 0 {
            let ghost before = out@;
            let ghost word = Seq::new(o@.len(), |k: int| (x + k, y as int, o@[k], WHITE));
            let mut k: usize = 0;
            while k < n
                invariant
                    k <= n,
                    n == o@.len(),
                    0 <= x,
                    x + n <= 0x2000_0000,
                    glyph_ints(out@) == glyph_ints(before) + word.take(k as int),
                    word == Seq::new(o@.len(), |k: int| (x + k, y as int, o@[k], WHITE)),
                decreases n - k,
            {
                let c = o.get_char(k);
                let ghost b2 = out@;
                let g: Glyph = (x + k as isize, y, c, WHITE);
                out.push(g);
                proof {
                    lemma_glyph_ints_push(b2, g);
                    assert(word.take(k + 1) =~= word.take(k as int).push(word[k as int]));
                }
                k = k + 1;
            }
            assert(word.take(n as int) =~= word);
            let ghost after_word = out@;
            if i + 1 != options.len() {
                let g: Glyph = (x + n as isize, y, '/', WHITE);
                out.push(g);
                proof {
                    lemma_glyph_ints_push(after_word, g);
                    let rest = options_glyphs(texts, i + 1, x + n + 1, y as int);
                    assert(glyph_ints(out@) + rest =~= glyph_ints(before) + (word + seq![(x + n, y as int, '/', WHITE)] + rest));
                }
                x = x + n as isize + 1;
            } else {
                proof {
                    assert(options_glyphs(texts, i + 1, x + n as int, y as int) == Seq::<(int, int, char, (u8, u8, u8, u8))>::empty());
                    assert(glyph_ints(out@) + options_glyphs(texts, i + 1, x + n as int, y as int) =~= glyph_ints(before) + word);
                }
                x = x + n as isize;
            }
        }
        i = i + 1;
    }
    proof {
        assert(glyph_ints(out@) =~= glyph_ints(old(out)@) + whole);
    }
}

/// The glyphs of a dialogue: its lines from the corner, its options on the
/// row after.
pub fn layout_dialogue(lines: &Vec<DialogueLine>, options: &Vec<(String, Event)>) -> (glyphs: Vec<Glyph>)
    requires
        lines_colored(lines@),
        dialogue_fits(lines@, options@),
    ensures
        glyph_ints(glyphs@) == dialogue_glyphs(lines@, option_texts(options@)),
{
    let mut out: Vec<Glyph> = Vec::new();
    let (_, y) = lines_layout(&mut out, lines);
    options_layout(&mut out, options, y + 1);
    out
}


/// The kinds of a character of a dialogue: position, depth, look, and the
/// mark of a dialogue character.
pub open spec fn glyph_kinds() -> Set<usize> {
    set![0usize, 5usize, 1usize, 16usize]
}

/// `e` is the entity `id` that draws the glyph `g` of a dialogue at `pos`,
/// at depth `z`.
pub open spec fn glyph_entity(e: Entity, id: usize, pos: Position, z: isize, g: (int, int, char, (u8, u8, u8, u8))) -> bool {
    &&& e.id == id
    &&& e.wf()
    &&& e.components@.len() == 4
    &&& e.components@[0] == Component::Position(Some(Position { x: (pos.x + g.0) as isize, y: (pos.y + g.1) as isize }))
    &&& e.components@[1] == Component::ZIndex(Some(z))
    &&& e.components@[2] matches Component::Render(Some((s, col))) && s@ == seq![g.2] && col == g.3
    &&& e.components@[3] == Component::DialogueChar
}

/// The index after `n` characters with identifiers from `first` on are added.
pub open spec fn index_after_glyphs(
    m: Map<Seq<usize>, Set<usize>>,
    systems: Seq<Seq<usize>>,
    first: usize,
    n: nat,
) -> Map<Seq<usize>, Set<usize>>
    decreases n,
{
    if n == 0 {
        m
    } else {
        index_with(index_after_glyphs(m, systems, first, (n - 1) as nat), glyph_kinds(), systems, (first + n - 1) as usize)
    }
}

/// Every glyph can be placed at `pos` without leaving the `isize` range.
pub open spec fn glyphs_fit(glyphs: Seq<(int, int, char, (u8, u8, u8, u8))>, pos: Position) -> bool {
    forall|k: int| 0 <= k < glyphs.len() ==> isize::MIN <= pos.x + (#[trigger] glyphs[k]).0 <= isize::MAX
        && isize::MIN <= pos.y + glyphs[k].1 <= isize::MAX
}

/// The entities `first`, `first + 1`, ... of `entities` draw the first `n`
/// glyphs, in order.
pub open spec fn glyphs_spawned(
    entities: Map<usize, Entity>,
    first: usize,
    n: int,
    glyphs: Seq<(int, int, char, (u8, u8, u8, u8))>,
    pos: Position,
    z: isize,
) -> bool {
    forall|j: int| 0 <= j < n ==> {
        &&& #[trigger] entities.contains_key((first + j) as usize)
        &&& glyph_entity(entities[(first + j) as usize], (first + j) as usize, pos, z, glyphs[j])
    }
}

/// Adds one entity per glyph, each with the next identifier.
fn spawn_glyphs(state: &mut State, glyphs: &Vec<Glyph>, pos: Position, z: isize)
    requires
        old(state).wf(),
        old(state).entity_id_counter + glyphs@.len() <= usize::MAX,
        glyphs_fit(glyph_ints(glyphs@), pos),
    ensures
        final(state).wf(),
        final(state).entity_id_counter == old(state).entity_id_counter + glyphs@.len(),
        glyphs_spawned(final(state).entities_map@, old(state).entity_id_counter, glyphs@.len() as int, glyph_ints(glyphs@), pos, z),
        forall|id: usize| !(old(state).entity_id_counter <= id < old(state).entity_id_counter + glyphs@.len()) ==> (
        #[trigger] final(state).entities_map@.contains_key(id)) == old(state).entities_map@.contains_key(id)
            && (old(state).entities_map@.contains_key(id) ==> final(state).entities_map@[id] == old(state).entities_map@[id]),
        final(state).index() == index_after_glyphs(old(state).index(), old(state).systems(), old(state).entity_id_counter, glyphs@.len()),
        final(state).events == old(state).events,
        final(state).system_components == old(state).system_components,
{
    let ghost c0 = state.entity_id_counter;
    let ghost m0 = state.index();
    let ghost e0 = state.entities_map@;
    let mut k: usize = 0;
    while k < glyphs.len()
        invariant
            k <= glyphs@.len(),
            state.wf(),
            c0 == old(state).entity_id_counter,
            state.entity_id_counter == c0 + k,
            c0 + glyphs@.len() <= usize::MAX,
            glyphs_fit(glyph_ints(glyphs@), pos),
            glyphs_spawned(state.entities_map@, c0, k as int, glyph_ints(glyphs@), pos, z),
            forall|id: usize| !(c0 <= id < c0 + k) ==> (#[trigger] state.entities_map@.contains_key(id)) == e0.contains_key(id)
                && (e0.contains_key(id) ==> state.entities_map@[id] == e0[id]),
            state.index() == index_after_glyphs(m0, old(state).systems(), c0 as usize, k as nat),
            state.events == old(state).events,
            state.system_components == old(state).system_components,
        decreases glyphs@.len() - k,
    {
        let g = glyphs[k];
        let mut text = String::new();
        push_char(&mut text, g.2);
        assert(glyph_ints(glyphs@)[k as int] == (g.0 as int, g.1 as int, g.2, g.3));
        let p = Position { x: pos.x + g.0, y: pos.y + g.1 };
        let e = new_entity(
            &mut state.entity_id_counter,
            vec![Component::Position(Some(p)), Component::ZIndex(Some(z)), Component::Render(Some((text, g.3))), Component::DialogueChar],
        );
        proof {
            assert(entity_kinds(e) =~= glyph_kinds()) by {
                assert(kind(e.components@[0]) == 0);
                assert(kind(e.components@[1]) == 5);
                assert(kind(e.components@[2]) == 1);
                assert(kind(e.components@[3]) == 16);
                assert forall|u: usize| entity_kinds(e).contains(u) == glyph_kinds().contains(u) by {
                    if u == 0 { assert(kind(e.components@[0]) == u); }
                    if u == 5 { assert(kind(e.components@[1]) == u); }
                    if u == 1 { assert(kind(e.components@[2]) == u); }
                    if u == 16 { assert(kind(e.components@[3]) == u); }
                }
            }
            assert(glyph_entity(e, (c0 + k) as usize, pos, z, glyph_ints(glyphs@)[k as int]));
        }
        let ghost before = state.entities_map@;
        add_entity(e, state);
        proof {
            let after = state.entities_map@;
            assert(after == before.insert((c0 + k) as usize, e));
            assert forall|j: int| 0 <= j < k + 1 implies {
                &&& #[trigger] after.contains_key((c0 + j) as usize)
                &&& glyph_entity(after[(c0 + j) as usize], (c0 + j) as usize, pos, z, glyph_ints(glyphs@)[j])
            } by {
                if j < k {
                    assert(before.contains_key((c0 + j) as usize));
                    assert(glyph_entity(before[(c0 + j) as usize], (c0 + j) as usize, pos, z, glyph_ints(glyphs@)[j]));
                    assert((c0 + j) as usize != (c0 + k) as usize);
                }
            }
            assert(glyphs_spawned(after, c0, k + 1, glyph_ints(glyphs@), pos, z));
        }
        k = k + 1;
    }
}

/// The entity's component of kind `k`: the last one of that kind.
pub open spec fn component_of(e: Entity, k: nat) -> Component {
    e.components@[e.component_index@[k as usize] as int]
}

/// The entity's depth, where its depth component holds one.
pub open spec fn depth_of(e: Entity) -> Option<isize> {
    match component_of(e, 5) {
        Component::ZIndex(z) => z,
        _ => None,
    }
}

/// Whether the entity's dialogue was shown, where its component says.
pub open spec fn activated_of(e: Entity) -> Option<bool> {
    match component_of(e, 27) {
        Component::Activated(a) => a,
        _ => None,
    }
}

/// The entity's dialogue, where its component holds one.
pub open spec fn dialogue_of(e: Entity) -> Option<(Vec<DialogueLine>, Vec<(String, Event)>)> {
    match component_of(e, 28) {
        Component::Dialogue(d) => d,
        _ => None,
    }
}

/// The entity's position, where its component holds one.
pub open spec fn position_of(e: Entity) -> Option<Position> {
    match component_of(e, 0) {
        Component::Position(p) => p,
        _ => None,
    }
}

/// The entities indexed under the kinds of `components`.
pub open spec fn shown(state: State, components: Seq<Component>) -> Set<usize> {
    if state.index().contains_key(kinds_of(components)) {
        state.index()[kinds_of(components)]
    } else {
        Set::empty()
    }
}

/// Every entity of `ids` was issued before the counter, exists, and has a
/// depth.
pub open spec fn have_depths(state: State, ids: Set<usize>) -> bool {
    forall|id: usize| #[trigger] ids.contains(id) ==> {
        &&& id < state.entity_id_counter
        &&& state.entities_map@.contains_key(id)
        &&& state.entities_map@[id].wf()
        &&& has_kind(state.entities_map@[id].components@, 5)
        &&& depth_of(state.entities_map@[id]) is Some
    }
}

/// `id` is one of the entities of `ids` with the least depth.
pub open spec fn frontmost(state: State, ids: Set<usize>, id: usize) -> bool {
    &&& ids.contains(id)
    &&& forall|o: usize| #[trigger] ids.contains(o) ==> depth_of(state.entities_map@[id])->0 <= depth_of(
        state.entities_map@[o],
    )->0
}

/// The characters of the entity's dialogue.
pub open spec fn glyphs_of(e: Entity) -> Seq<(int, int, char, (u8, u8, u8, u8))> {
    let d = dialogue_of(e)->0;
    dialogue_glyphs(d.0@, option_texts(d.1@))
}

/// The entity can be shown: it says whether it was, and where it was not,
/// it has a dialogue with a colour for each line, and a position from which
/// each character of that dialogue lies within range, with identifiers left
/// for them after `counter`.
pub open spec fn can_show(e: Entity, counter: usize) -> bool {
    &&& has_kind(e.components@, 27)
    &&& activated_of(e) is Some
    &&& activated_of(e) != Some(true) ==> {
        &&& has_kind(e.components@, 28)
        &&& dialogue_of(e) is Some
        &&& has_kind(e.components@, 0)
        &&& position_of(e) is Some
        &&& lines_colored((dialogue_of(e)->0).0@)
        &&& dialogue_fits((dialogue_of(e)->0).0@, (dialogue_of(e)->0).1@)
        &&& counter + glyphs_of(e).len() <= usize::MAX
        &&& glyphs_fit(glyphs_of(e), position_of(e)->0)
    }
}

/// What showing the dialogue of entity `id` makes of `s0`: nothing where it
/// was shown before; else one entity per character of its dialogue, with
/// the next identifiers, at its depth and from its position, and the entity
/// marked as shown, which is recorded as a change.
pub open spec fn shows(s0: State, s1: State, id: usize) -> bool {
    let e = s0.entities_map@[id];
    if activated_of(e) == Some(true) {
        s1 == s0
    } else {
        let glyphs = glyphs_of(e);
        let c0 = s0.entity_id_counter;
        let n = glyphs.len();
        let e1 = s1.entities_map@[id];
        &&& s1.wf()
        &&& s1.entity_id_counter == c0 + n
        &&& glyphs_spawned(s1.entities_map@, c0, n as int, glyphs, position_of(e)->0, depth_of(e)->0)
        &&& s1.entities_map@.contains_key(id)
        &&& e1.wf()
        &&& e1.id == e.id
        &&& e1.component_index == e.component_index
        &&& e1.components@ == e.components@.update(
            e.component_index@[27usize] as int,
            Component::Activated(Some(true)),
        )
        &&& forall|o: usize|
            o != id && !(c0 <= o < c0 + n) ==> (#[trigger] s1.entities_map@.contains_key(o))
                == s0.entities_map@.contains_key(o) && (s0.entities_map@.contains_key(o)
                ==> s1.entities_map@[o] == s0.entities_map@[o])
        &&& s1.index() == index_after_glyphs(s0.index(), s0.systems(), c0, n)
        &&& s1.events@.len() == s0.events@.len() + 1
        &&& s1.events@.drop_last() == s0.events@
        &&& s1.events@.last() matches Event::ComponentChanged(c) && same_component(
            c,
            Component::Activated(Some(true)),
        )
        &&& s1.system_components == s0.system_components
    }
}

/// The entity in front among those indexed under the kinds of
/// `components`, with its depth: of several, the one that the set of
/// entities yields first.
pub(crate) fn front_of(state: &State, components: &[Component]) -> (r: Option<(usize, isize)>)
    requires
        state.wf(),
        have_depths(*state, shown(*state, components@)),
    ensures
        r is None <==> shown(*state, components@).is_empty(),
        r matches Some((id, z)) ==> frontmost(*state, shown(*state, components@), id) && depth_of(
            state.entities_map@[id],
        ) == Some(z),
{
    let ghost ids_set = shown(*state, components@);
    let ids = set_elements(state.get_entities(components));
    let mut best: Option<(usize, isize)> = None;
    let mut i: usize = 0;
    while i < ids.len()
        invariant
            i <= ids@.len(),
            ids@.to_set() == ids_set,
            have_depths(*state, ids_set),
            ids_set == shown(*state, components@),
            best is None <==> i == 0,
            best matches Some((b, z)) ==> {
                &&& ids_set.contains(b)
                &&& depth_of(state.entities_map@[b]) == Some(z)
                &&& forall|j: int| 0 <= j < i ==> z <= depth_of(state.entities_map@[#[trigger] ids@[j]])->0
            },
        decreases ids@.len() - i,
    {
        let id = ids[i];
        assert(ids@.to_set().contains(ids@[i as int]));
        let e = state.entities_map.get(&id).unwrap();
        let z = match e.get_component(Component::ZIndex(None)) {
            Some(Component::ZIndex(Some(z))) => *z,
            _ => 0,
        };
        match best {
            Some((_, bz)) => {
                if z < bz {
                    best = Some((id, z));
                }
            },
            None => {
                best = Some((id, z));
            },
        }
        i = i + 1;
    }
    let (id, z) = match best {
        None => {
            proof {
                assert(ids@.len() == 0);
                assert(ids_set =~= Set::empty());
            }
            return None;
        },
        Some(b) => b,
    };
    proof {
        assert forall|o: usize| #[trigger] ids_set.contains(o) implies z <= depth_of(state.entities_map@[o])->0 by {
            assert(ids@.to_set().contains(o));
            let j = ids@.index_of(o);
            assert(ids@[j] == o);
        }
        assert(ids_set.contains(id));
    }
    Some((id, z))
}

/// Shows the dialogue of the entity in front among those indexed under the
/// kinds of `components`, once: its characters become entities of their own,
/// and the entity is marked as shown. Of several entities in front, the one
/// that the set of entities yields first is taken.
pub fn dialogue(state: &mut State, components: &[Component])
    requires
        old(state).wf(),
        have_depths(*old(state), shown(*old(state), components@)),
        forall|id: usize|
            frontmost(*old(state), shown(*old(state), components@), id) ==> can_show(
                #[trigger] old(state).entities_map@[id],
                old(state).entity_id_counter,
            ),
    ensures
        shown(*old(state), components@).is_empty() ==> *final(state) == *old(state),
        !shown(*old(state), components@).is_empty() ==> exists|id: usize|
            #[trigger] frontmost(*old(state), shown(*old(state), components@), id) && shows(
                *old(state),
                *final(state),
                id,
            ),
{
    let ghost ids_set = shown(*old(state), components@);
    let ghost s0 = *state;
    let (id, z) = match front_of(state, components) {
        None => {
            return;
        },
        Some(b) => b,
    };
    proof {
        assert(frontmost(*state, ids_set, id));
        assert(can_show(state.entities_map@[id], state.entity_id_counter));
    }
    let e = state.entities_map.get(&id).unwrap();
    match e.get_component(Component::Activated(None)) {
        Some(Component::Activated(Some(true))) => {
            assert(shows(s0, *state, id));
            return;
        },
        _ => {},
    }
    let pos = match e.get_component(Component::Position(None)) {
        Some(Component::Position(Some(p))) => *p,
        _ => Position::zero(),
    };
    let glyphs = match e.get_component(Component::Dialogue(None)) {
        Some(Component::Dialogue(Some((lines, options)))) => layout_dialogue(lines, options),
        _ => Vec::new(),
    };
    proof {
        assert(glyph_ints(glyphs@) == glyphs_of(state.entities_map@[id]));
    }
    let ghost e0 = state.entities_map@[id];
    assert(ids_set.contains(id) && id < state.entity_id_counter);
    spawn_glyphs(state, &glyphs, pos, z);
    assert(state.entities_map@.contains_key(id));
    assert(kind(Component::Activated(Some(true))) == 27);
    assert(state.entities_map@[id] == e0);
    let ghost s1 = *state;
    state.set_component(id, Component::Activated(Some(true)));
    proof {
        assert(!same_component(component_of(e0, 27), Component::Activated(Some(true))));
        assert forall|o: usize|
            o != id && !(s0.entity_id_counter <= o < s0.entity_id_counter + glyphs@.len()) implies (
            #[trigger] state.entities_map@.contains_key(o)) == s0.entities_map@.contains_key(o) && (
            s0.entities_map@.contains_key(o) ==> state.entities_map@[o] == s0.entities_map@[o]) by {
            assert(s1.entities_map@.contains_key(o) == s0.entities_map@.contains_key(o));
            assert(state.entities_map@.remove(id).contains_key(o) == s1.entities_map@.remove(id).contains_key(o));
            if s0.entities_map@.contains_key(o) {
                assert(state.entities_map@.remove(id)[o] == s1.entities_map@.remove(id)[o]);
            }
        }
        assert(glyphs_spawned(state.entities_map@, s0.entity_id_counter, glyphs@.len() as int, glyphs_of(e0), pos, z)) by {
            assert forall|j: int| 0 <= j < glyphs@.len() implies {
                &&& #[trigger] state.entities_map@.contains_key((s0.entity_id_counter + j) as usize)
                &&& glyph_entity(state.entities_map@[(s0.entity_id_counter + j) as usize], (s0.entity_id_counter + j) as usize, pos, z, glyphs_of(e0)[j])
            } by {
                let o = (s0.entity_id_counter + j) as usize;
                assert(s1.entities_map@.contains_key(o));
                assert(o != id);
                assert(state.entities_map@.remove(id).contains_key(o));
                assert(state.entities_map@.remove(id)[o] == s1.entities_map@.remove(id)[o]);
            }
        }
        assert(shows(s0, *state, id));
    }
}

} // verus!
