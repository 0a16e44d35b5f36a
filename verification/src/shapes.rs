use vstd::prelude::*;

use rand::seq::SliceRandom;

verus! {

use vstd::multiset::Multiset;

/// Display colors of the seven piece kinds, one per kind.
#[derive(Copy, Clone, Debug, PartialEq, Eq, Structural)]
pub enum ShapeColor {
    Cyan,
    Yellow,
    Magenta,
    Green,
    Red,
    Blue,
    DarkYellow,
}

/// The data for a single tetromino kind: four orientation layouts of four
/// cells each, a color code, and a one-character display name.
pub struct TetrominoShape {
    pub orientations: Vec<Vec<(i32, i32)>>,
    pub color_index: u8,
    pub name: char,
}

/// Cell offsets of the I piece for each orientation.
pub open spec fn i_offsets(o: int) -> Seq<(i32, i32)> {
    if o == 0 {
        seq![(0i32, 1i32), (1i32, 1i32), (2i32, 1i32), (3i32, 1i32)]
    } else if o == 1 {
        seq![(2i32, 0i32), (2i32, 1i32), (2i32, 2i32), (2i32, 3i32)]
    } else if o == 2 {
        seq![(0i32, 2i32), (1i32, 2i32), (2i32, 2i32), (3i32, 2i32)]
    } else {
        seq![(1i32, 0i32), (1i32, 1i32), (1i32, 2i32), (1i32, 3i32)]
    }
}

/// Cell offsets of the O piece, identical in every orientation.
pub open spec fn o_piece_offsets(o: int) -> Seq<(i32, i32)> {
    seq![(0i32, 0i32), (1i32, 0i32), (0i32, 1i32), (1i32, 1i32)]
}

/// Cell offsets of the T piece for each orientation.
pub open spec fn t_offsets(o: int) -> Seq<(i32, i32)> {
    if o == 0 {
        seq![(0i32, 1i32), (1i32, 1i32), (2i32, 1i32), (1i32, 2i32)]
    } else if o == 1 {
        seq![(1i32, 0i32), (1i32, 1i32), (1i32, 2i32), (2i32, 1i32)]
    } else if o == 2 {
        seq![(0i32, 1i32), (1i32, 1i32), (2i32, 1i32), (1i32, 0i32)]
    } else {
        seq![(0i32, 1i32), (1i32, 0i32), (1i32, 1i32), (1i32, 2i32)]
    }
}

/// Cell offsets of the S piece for each orientation.
pub open spec fn s_offsets(o: int) -> Seq<(i32, i32)> {
    if o == 0 {
        seq![(1i32, 1i32), (2i32, 1i32), (0i32, 2i32), (1i32, 2i32)]
    } else if o == 1 {
        seq![(1i32, 0i32), (1i32, 1i32), (2i32, 1i32), (2i32, 2i32)]
    } else if o == 2 {
        seq![(1i32, 0i32), (2i32, 0i32), (0i32, 1i32), (1i32, 1i32)]
    } else {
        seq![(0i32, 0i32), (0i32, 1i32), (1i32, 1i32), (1i32, 2i32)]
    }
}

/// Cell offsets of the Z piece for each orientation.
pub open spec fn z_offsets(o: int) -> Seq<(i32, i32)> {
    if o == 0 {
        seq![(0i32, 1i32), (1i32, 1i32), (1i32, 2i32), (2i32, 2i32)]
    } else if o == 1 {
        seq![(2i32, 0i32), (2i32, 1i32), (1i32, 1i32), (1i32, 2i32)]
    } else if o == 2 {
        seq![(0i32, 0i32), (1i32, 0i32), (1i32, 1i32), (2i32, 1i32)]
    } else {
        seq![(1i32, 0i32), (1i32, 1i32), (0i32, 1i32), (0i32, 2i32)]
    }
}

/// Cell offsets of the J piece for each orientation.
pub open spec fn j_offsets(o: int) -> Seq<(i32, i32)> {
    if o == 0 {
        seq![(0i32, 1i32), (0i32, 2i32), (1i32, 2i32), (2i32, 2i32)]
    } else if o == 1 {
        seq![(1i32, 0i32), (2i32, 0i32), (1i32, 1i32), (1i32, 2i32)]
    } else if o == 2 {
        seq![(0i32, 1i32), (1i32, 1i32), (2i32, 1i32), (2i32, 2i32)]
    } else {
        seq![(1i32, 0i32), (1i32, 1i32), (0i32, 2i32), (1i32, 2i32)]
    }
}

/// Cell offsets of the L piece for each orientation.
pub open spec fn l_offsets(o: int) -> Seq<(i32, i32)> {
    if o == 0 {
        seq![(2i32, 1i32), (0i32, 2i32), (1i32, 2i32), (2i32, 2i32)]
    } else if o == 1 {
        seq![(1i32, 0i32), (1i32, 1i32), (1i32, 2i32), (2i32, 2i32)]
    } else if o == 2 {
        seq![(0i32, 1i32), (1i32, 1i32), (2i32, 1i32), (0i32, 2i32)]
    } else {
        seq![(0i32, 0i32), (1i32, 0i32), (1i32, 1i32), (1i32, 2i32)]
    }
}

/// Cell offsets of kind `s` in orientation `o`, relative to the piece origin.
pub open spec fn shape_offsets(s: int, o: int) -> Seq<(i32, i32)> {
    if s == 0 {
        i_offsets(o)
    } else if s == 1 {
        o_piece_offsets(o)
    } else if s == 2 {
        t_offsets(o)
    } else if s == 3 {
        s_offsets(o)
    } else if s == 4 {
        z_offsets(o)
    } else if s == 5 {
        j_offsets(o)
    } else {
        l_offsets(o)
    }
}

/// Color code of kind `s`, an index into the display palette.
pub open spec fn shape_color_index(s: int) -> u8 {
    if s == 0 {
        0
    } else if s == 1 {
        1
    } else if s == 2 {
        2
    } else if s == 3 {
        3
    } else if s == 4 {
        4
    } else if s == 5 {
        5
    } else {
        6
    }
}

/// One-character display name of kind `s`.
pub open spec fn shape_name(s: int) -> char {
    if s == 0 {
        'I'
    } else if s == 1 {
        'O'
    } else if s == 2 {
        'T'
    } else if s == 3 {
        'S'
    } else if s == 4 {
        'Z'
    } else if s == 5 {
        'J'
    } else {
        'L'
    }
}

/// A cell offset lies inside the 4-by-4 bounding box of a piece.
pub open spec fn in_box(c: (i32, i32)) -> bool {
    0 <= c.0 <= 3 && 0 <= c.1 <= 3
}

/// An orientation layout is well formed: exactly four cells, all inside
/// the bounding box.
pub open spec fn offsets_wf(s: Seq<(i32, i32)>) -> bool {
    s.len() == 4 && forall|i: int| 0 <= i < 4 ==> in_box(#[trigger] s[i])
}

proof fn lemma_offsets_wf_4(s: Seq<(i32, i32)>)
    requires
        s.len() == 4,
        in_box(s[0]),
        in_box(s[1]),
        in_box(s[2]),
        in_box(s[3]),
    ensures
        offsets_wf(s),
{
    assert forall|i: int| 0 <= i < 4 implies in_box(#[trigger] s[i]) by {
        if i == 0 {
        } else if i == 1 {
        } else if i == 2 {
        } else {
            assert(i == 3);
        }
    }
}

/// Every catalog layout has exactly four cells, all inside the 4-by-4 box.
pub proof fn lemma_shape_offsets_wf(s: int, o: int)
    requires
        0 <= s < 7,
        0 <= o < 4,
    ensures
        offsets_wf(shape_offsets(s, o)),
{
    if s == 0 {
        if o == 0 {
            lemma_offsets_wf_4(shape_offsets(s, o));
        } else if o == 1 {
            lemma_offsets_wf_4(shape_offsets(s, o));
        } else if o == 2 {
            lemma_offsets_wf_4(shape_offsets(s, o));
        } else {
            lemma_offsets_wf_4(shape_offsets(s, o));
        }
    } else if s == 1 {
        lemma_offsets_wf_4(shape_offsets(s, o));
    } else if s == 2 {
        if o == 0 {
            lemma_offsets_wf_4(shape_offsets(s, o));
        } else if o == 1 {
            lemma_offsets_wf_4(shape_offsets(s, o));
        } else if o == 2 {
            lemma_offsets_wf_4(shape_offsets(s, o));
        } else {
            lemma_offsets_wf_4(shape_offsets(s, o));
        }
    } else if s == 3 {
        if o == 0 {
            lemma_offsets_wf_4(shape_offsets(s, o));
        } else if o == 1 {
            lemma_offsets_wf_4(shape_offsets(s, o));
        } else if o == 2 {
            lemma_offsets_wf_4(shape_offsets(s, o));
        } else {
            lemma_offsets_wf_4(shape_offsets(s, o));
        }
    } else if s == 4 {
        if o == 0 {
            lemma_offsets_wf_4(shape_offsets(s, o));
        } else if o == 1 {
            lemma_offsets_wf_4(shape_offsets(s, o));
        } else if o == 2 {
            lemma_offsets_wf_4(shape_offsets(s, o));
        } else {
            lemma_offsets_wf_4(shape_offsets(s, o));
        }
    } else if s == 5 {
        if o == 0 {
            lemma_offsets_wf_4(shape_offsets(s, o));
        } else if o == 1 {
            lemma_offsets_wf_4(shape_offsets(s, o));
        } else if o == 2 {
            lemma_offsets_wf_4(shape_offsets(s, o));
        } else {
            lemma_offsets_wf_4(shape_offsets(s, o));
        }
    } else {
        if o == 0 {
            lemma_offsets_wf_4(shape_offsets(s, o));
        } else if o == 1 {
            lemma_offsets_wf_4(shape_offsets(s, o));
        } else if o == 2 {
            lemma_offsets_wf_4(shape_offsets(s, o));
        } else {
            lemma_offsets_wf_4(shape_offsets(s, o));
        }
    }
}

/// The four cell offsets of kind `s` in orientation `o`.
pub fn orientation_cells(s: usize, o: usize) -> (r: Vec<(i32, i32)>)
    requires
        s < 7,
        o < 4,
    ensures
        r@ == shape_offsets(s as int, o as int),
{
    let r: Vec<(i32, i32)> = match (s, o) {
        (0, 0) => vec![(0, 1), (1, 1), (2, 1), (3, 1)],
        (0, 1) => vec![(2, 0), (2, 1), (2, 2), (2, 3)],
        (0, 2) => vec![(0, 2), (1, 2), (2, 2), (3, 2)],
        (0, _) => vec![(1, 0), (1, 1), (1, 2), (1, 3)],
        (1, _) => vec![(0, 0), (1, 0), (0, 1), (1, 1)],
        (2, 0) => vec![(0, 1), (1, 1), (2, 1), (1, 2)],
        (2, 1) => vec![(1, 0), (1, 1), (1, 2), (2, 1)],
        (2, 2) => vec![(0, 1), (1, 1), (2, 1), (1, 0)],
        (2, _) => vec![(0, 1), (1, 0), (1, 1), (1, 2)],
        (3, 0) => vec![(1, 1), (2, 1), (0, 2), (1, 2)],
        (3, 1) => vec![(1, 0), (1, 1), (2, 1), (2, 2)],
        (3, 2) => vec![(1, 0), (2, 0), (0, 1), (1, 1)],
        (3, _) => vec![(0, 0), (0, 1), (1, 1), (1, 2)],
        (4, 0) => vec![(0, 1), (1, 1), (1, 2), (2, 2)],
        (4, 1) => vec![(2, 0), (2, 1), (1, 1), (1, 2)],
        (4, 2) => vec![(0, 0), (1, 0), (1, 1), (2, 1)],
        (4, _) => vec![(1, 0), (1, 1), (0, 1), (0, 2)],
        (5, 0) => vec![(0, 1), (0, 2), (1, 2), (2, 2)],
        (5, 1) => vec![(1, 0), (2, 0), (1, 1), (1, 2)],
        (5, 2) => vec![(0, 1), (1, 1), (2, 1), (2, 2)],
        (5, _) => vec![(1, 0), (1, 1), (0, 2), (1, 2)],
        (_, 0) => vec![(2, 1), (0, 2), (1, 2), (2, 2)],
        (_, 1) => vec![(1, 0), (1, 1), (1, 2), (2, 2)],
        (_, 2) => vec![(0, 1), (1, 1), (2, 1), (0, 2)],
        (_, _) => vec![(0, 0), (1, 0), (1, 1), (1, 2)],
    };
    proof {
        assert(r@ =~= shape_offsets(s as int, o as int));
    }
    r
}

/// The color code of kind `s`.
pub fn kind_color_index(s: usize) -> (r: u8)
    requires
        s < 7,
    ensures
        r == shape_color_index(s as int),
{
    match s {
        0 => 0,
        1 => 1,
        2 => 2,
        3 => 3,
        4 => 4,
        5 => 5,
        _ => 6,
    }
}

/// The full catalog record of kind `idx`.
pub fn shape(idx: usize) -> (r: TetrominoShape)
    requires
        idx < 7,
    ensures
        r.orientations@.len() == 4,
        forall|o: int|
            0 <= o < 4 ==> (#[trigger] r.orientations@[o])@ == shape_offsets(idx as int, o),
        r.color_index == shape_color_index(idx as int),
        r.name == shape_name(idx as int),
{
    let mut orientations: Vec<Vec<(i32, i32)>> = Vec::new();
    orientations.push(orientation_cells(idx, 0));
    orientations.push(orientation_cells(idx, 1));
    orientations.push(orientation_cells(idx, 2));
    orientations.push(orientation_cells(idx, 3));
    let name: char = match idx {
        0 => 'I',
        1 => 'O',
        2 => 'T',
        3 => 'S',
        4 => 'Z',
        5 => 'J',
        _ => 'L',
    };
    TetrominoShape { orientations, color_index: kind_color_index(idx), name }
}

#[verifier::external_type_specification]
#[verifier::external_body]
pub struct ExColor(crossterm::style::Color);

/// Maps a catalog color code to a terminal color.
///
/// Relies on crossterm::style::Color: the body only picks the variant that
/// matches the code, with white as the fallback for codes outside the palette.
#[verifier::external_body]
pub fn color_from_index(index: u8) -> crossterm::style::Color {
    match index {
        0 => crossterm::style::Color::Cyan,
        1 => crossterm::style::Color::Yellow,
        2 => crossterm::style::Color::Magenta,
        3 => crossterm::style::Color::Green,
        4 => crossterm::style::Color::Red,
        5 => crossterm::style::Color::Blue,
        6 => crossterm::style::Color::DarkYellow,
        _ => crossterm::style::Color::White,
    }
}

/// Every kind index is in range.
pub open spec fn all_kinds(s: Seq<usize>) -> bool {
    forall|i: int| 0 <= i <= s.len() - 1 ==> #[trigger] s[i] < 7
}

/// A bag: each of the seven kinds exactly once.
pub open spec fn is_bag(s: Seq<usize>) -> bool {
    &&& s.len() == 7
    &&& forall|k: usize| k < 7 ==> #[trigger] s.to_multiset().count(k) == 1
    &&& all_kinds(s)
}

/// A sequence that splits into whole bags: every aligned block of seven
/// holds each kind exactly once.
pub open spec fn is_bag_concat(s: Seq<usize>) -> bool
    decreases s.len(),
{
    if s.len() == 0 {
        true
    } else {
        s.len() >= 7 && is_bag(s.take(7)) && is_bag_concat(s.skip(7))
    }
}

/// Appending a bag to whole bags yields whole bags.
pub proof fn lemma_bag_concat_append(s: Seq<usize>, p: Seq<usize>)
    requires
        is_bag_concat(s),
        is_bag(p),
    ensures
        is_bag_concat(s + p),
    decreases s.len(),
{
    if s.len() == 0 {
        assert(s + p =~= p);
        assert(p.take(7) =~= p);
        assert(p.skip(7).len() == 0);
        assert(is_bag_concat(p.skip(7)));
    } else {
        assert((s + p).take(7) =~= s.take(7));
        assert((s + p).skip(7) =~= s.skip(7) + p);
        lemma_bag_concat_append(s.skip(7), p);
    }
}

/// Any aligned window of seven in a sequence of whole bags is itself a bag.
pub proof fn lemma_bag_concat_window(s: Seq<usize>, i: int)
    requires
        is_bag_concat(s),
        0 <= i,
        i % 7 == 0,
        i + 7 <= s.len(),
    ensures
        is_bag(s.subrange(i, i + 7)),
    decreases i,
{
    if i == 0 {
        assert(s.subrange(0, 7) =~= s.take(7));
    } else {
        assert(i >= 7) by {
            assert(i % 7 == 0 && i > 0);
        }
        assert(s.subrange(i, i + 7) =~= s.skip(7).subrange(i - 7, i));
        assert((i - 7) % 7 == 0);
        lemma_bag_concat_window(s.skip(7), i - 7);
    }
}

/// A fresh bag of the seven kind indices in random order.
///
/// Relies on rand's thread_rng and SliceRandom::shuffle: shuffling only
/// swaps elements in place, so the result is a permutation of the seven
/// distinct kind indices.
#[verifier::external_body]
pub fn generate_bag() -> (r: Vec<usize>)
    ensures
        is_bag(r@),
{
    let mut bag = [0usize, 1, 2, 3, 4, 5, 6];
    bag.shuffle(&mut rand::thread_rng());
    bag.to_vec()
}

} // verus!
