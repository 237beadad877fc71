//! The letter tiles of the bag and their points.

use std::collections::HashMap;
use vstd::prelude::*;

verus! {

broadcast use vstd::std_specs::hash::group_hash_axioms;

/// Each letter of the bag with the number of its tiles (a space is a blank).
pub open spec fn tile_counts() -> Seq<(char, usize)> {
    seq![
        (' ', 2usize),
        ('E', 12usize),
        ('A', 9usize),
        ('I', 9usize),
        ('O', 8usize),
        ('N', 6usize),
        ('R', 6usize),
        ('T', 6usize),
        ('L', 4usize),
        ('S', 4usize),
        ('U', 4usize),
        ('D', 4usize),
        ('G', 3usize),
        ('B', 2usize),
        ('C', 2usize),
        ('M', 2usize),
        ('P', 2usize),
        ('F', 2usize),
        ('H', 2usize),
        ('V', 2usize),
        ('W', 2usize),
        ('Y', 2usize),
        ('K', 1usize),
        ('J', 1usize),
        ('X', 1usize),
        ('Q', 1usize),
        ('Z', 1usize)
    ]
}

/// The tiles for the letters and counts of `counts`, letter by letter.
pub open spec fn tiles_of(counts: Seq<(char, usize)>) -> Seq<char>
    decreases counts.len(),
{
    if counts.len() == 0 {
        Seq::empty()
    } else {
        tiles_of(counts.drop_last()) + Seq::new(counts.last().1 as nat, |i: int| counts.last().0)
    }
}

/// The total of the counts of `counts`.
pub open spec fn count_total(counts: Seq<(char, usize)>) -> nat
    decreases counts.len(),
{
    if counts.len() == 0 {
        0
    } else {
        count_total(counts.drop_last()) + counts.last().1 as nat
    }
}

proof fn lemma_tiles_len(counts: Seq<(char, usize)>)
    ensures
        tiles_of(counts).len() == count_total(counts),
    decreases counts.len(),
{
    if counts.len() > 0 {
        lemma_tiles_len(counts.drop_last());
    }
}

/// The bag holds a hundred tiles.
pub proof fn lemma_hundred_tiles()
    ensures
        tiles_of(tile_counts()).len() == 100,
{
    lemma_tiles_len(tile_counts());
    let c = tile_counts();
    assert(c.take(0).len() == 0);
    assert(count_total(c.take(0)) == 0);
    assert(count_total(c.take(1)) == 2) by { assert(c.take(1).drop_last() =~= c.take(0)); }
    assert(count_total(c.take(2)) == 14) by { assert(c.take(2).drop_last() =~= c.take(1)); }
    assert(count_total(c.take(3)) == 23) by { assert(c.take(3).drop_last() =~= c.take(2)); }
    assert(count_total(c.take(4)) == 32) by { assert(c.take(4).drop_last() =~= c.take(3)); }
    assert(count_total(c.take(5)) == 40) by { assert(c.take(5).drop_last() =~= c.take(4)); }
    assert(count_total(c.take(6)) == 46) by { assert(c.take(6).drop_last() =~= c.take(5)); }
    assert(count_total(c.take(7)) == 52) by { assert(c.take(7).drop_last() =~= c.take(6)); }
    assert(count_total(c.take(8)) == 58) by { assert(c.take(8).drop_last() =~= c.take(7)); }
    assert(count_total(c.take(9)) == 62) by { assert(c.take(9).drop_last() =~= c.take(8)); }
    assert(count_total(c.take(10)) == 66) by { assert(c.take(10).drop_last() =~= c.take(9)); }
    assert(count_total(c.take(11)) == 70) by { assert(c.take(11).drop_last() =~= c.take(10)); }
    assert(count_total(c.take(12)) == 74) by { assert(c.take(12).drop_last() =~= c.take(11)); }
    assert(count_total(c.take(13)) == 77) by { assert(c.take(13).drop_last() =~= c.take(12)); }
    assert(count_total(c.take(14)) == 79) by { assert(c.take(14).drop_last() =~= c.take(13)); }
    assert(count_total(c.take(15)) == 81) by { assert(c.take(15).drop_last() =~= c.take(14)); }
    assert(count_total(c.take(16)) == 83) by { assert(c.take(16).drop_last() =~= c.take(15)); }
    assert(count_total(c.take(17)) == 85) by { assert(c.take(17).drop_last() =~= c.take(16)); }
    assert(count_total(c.take(18)) == 87) by { assert(c.take(18).drop_last() =~= c.take(17)); }
    assert(count_total(c.take(19)) == 89) by { assert(c.take(19).drop_last() =~= c.take(18)); }
    assert(count_total(c.take(20)) == 91) by { assert(c.take(20).drop_last() =~= c.take(19)); }
    assert(count_total(c.take(21)) == 93) by { assert(c.take(21).drop_last() =~= c.take(20)); }
    assert(count_total(c.take(22)) == 95) by { assert(c.take(22).drop_last() =~= c.take(21)); }
    assert(count_total(c.take(23)) == 96) by { assert(c.take(23).drop_last() =~= c.take(22)); }
    assert(count_total(c.take(24)) == 97) by { assert(c.take(24).drop_last() =~= c.take(23)); }
    assert(count_total(c.take(25)) == 98) by { assert(c.take(25).drop_last() =~= c.take(24)); }
    assert(count_total(c.take(26)) == 99) by { assert(c.take(26).drop_last() =~= c.take(25)); }
    assert(count_total(c.take(27)) == 100) by { assert(c.take(27).drop_last() =~= c.take(26)); }
    assert(c.take(27) =~= c);
}

/// The tiles of a fresh bag, letter by letter: two blanks, twelve E, nine A,
/// and so on down to one Q and one Z.
pub fn get_starting_tiles() -> (tiles: Vec<char>)
    ensures
        tiles@ == tiles_of(tile_counts()),
        tiles@.len() == 100,
{
    let counts: [(char, usize); 27] = [
        (' ', 2),
        ('E', 12),
        ('A', 9),
        ('I', 9),
        ('O', 8),
        ('N', 6),
        ('R', 6),
        ('T', 6),
        ('L', 4),
        ('S', 4),
        ('U', 4),
        ('D', 4),
        ('G', 3),
        ('B', 2),
        ('C', 2),
        ('M', 2),
        ('P', 2),
        ('F', 2),
        ('H', 2),
        ('V', 2),
        ('W', 2),
        ('Y', 2),
        ('K', 1),
        ('J', 1),
        ('X', 1),
        ('Q', 1),
        ('Z', 1)
    ];
    assert(counts@ =~= tile_counts());
    let mut tiles: Vec<char> = Vec::new();
    let mut i: usize = 0;
    while i < 27
        invariant
            i <= 27,
            counts@ == tile_counts(),
            tiles@ == tiles_of(tile_counts().take(i as int)),
        decreases 27 - i,
    {
        let (letter, n) = counts[i];
        let ghost before = tiles@;
        let mut k: usize = 0;
        while k < n
            invariant
                k <= n,
                tiles@ == before + Seq::new(k as nat, |j: int| letter),
            decreases n - k,
        {
            tiles.push(letter);
            assert(tiles@ =~= before + Seq::new((k + 1) as nat, |j: int| letter));
            k = k + 1;
        }
        assert(tile_counts().take(i + 1).drop_last() =~= tile_counts().take(i as int));
        i = i + 1;
    }
    assert(tile_counts().take(27) =~= tile_counts());
    proof {
        lemma_hundred_tiles();
    }
    tiles
}

/// The points of each letter, keyed by the letter's code point.
pub open spec fn tile_points() -> Map<u32, usize> {
    map![
        ' ' as u32 => 0usize,
        'E' as u32 => 1usize,
        'A' as u32 => 1usize,
        'I' as u32 => 1usize,
        'O' as u32 => 1usize,
        'N' as u32 => 1usize,
        'R' as u32 => 1usize,
        'T' as u32 => 1usize,
        'L' as u32 => 1usize,
        'S' as u32 => 1usize,
        'U' as u32 => 1usize,
        'D' as u32 => 2usize,
        'G' as u32 => 2usize,
        'B' as u32 => 3usize,
        'C' as u32 => 3usize,
        'M' as u32 => 3usize,
        'P' as u32 => 3usize,
        'F' as u32 => 4usize,
        'H' as u32 => 4usize,
        'V' as u32 => 4usize,
        'W' as u32 => 4usize,
        'Y' as u32 => 4usize,
        'K' as u32 => 5usize,
        'J' as u32 => 8usize,
        'X' as u32 => 8usize,
        'Q' as u32 => 10usize,
        'Z' as u32 => 10usize
    ]
}

/// The points of each letter, keyed by the letter's code point: one for the
/// common letters up to ten for Q and Z, nothing for a blank.
pub fn get_starting_tile_points() -> (points: HashMap<u32, usize>)
    ensures
        points@ == tile_points(),
{
    let mut points: HashMap<u32, usize> = HashMap::new();
    points.insert(' ' as u32, 0);
    points.insert('E' as u32, 1);
    points.insert('A' as u32, 1);
    points.insert('I' as u32, 1);
    points.insert('O' as u32, 1);
    points.insert('N' as u32, 1);
    points.insert('R' as u32, 1);
    points.insert('T' as u32, 1);
    points.insert('L' as u32, 1);
    points.insert('S' as u32, 1);
    points.insert('U' as u32, 1);
    points.insert('D' as u32, 2);
    points.insert('G' as u32, 2);
    points.insert('B' as u32, 3);
    points.insert('C' as u32, 3);
    points.insert('M' as u32, 3);
    points.insert('P' as u32, 3);
    points.insert('F' as u32, 4);
    points.insert('H' as u32, 4);
    points.insert('V' as u32, 4);
    points.insert('W' as u32, 4);
    points.insert('Y' as u32, 4);
    points.insert('K' as u32, 5);
    points.insert('J' as u32, 8);
    points.insert('X' as u32, 8);
    points.insert('Q' as u32, 10);
    points.insert('Z' as u32, 10);
    assert(points@ =~= tile_points());
    points
}

} // verus!
