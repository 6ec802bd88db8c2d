//! Building the text of a `.proto` file.
//!
//! A document is a sequence of glyphs: characters, and floating-point values
//! kept as their bit patterns (the program that writes the files turns those
//! into decimal text).
use crate::util::push_char;
use vstd::prelude::*;
use vstd::string::StringExecFns;

verus! {

/// One part of a rendered document.
#[derive(Debug)]
pub enum Piece {
    Text(String),
    Double(u64),
    Float(u32),
}

/// One element of a document: a character, or a floating-point value by its bits.
pub enum Glyph {
    Char(char),
    Double(u64),
    Float(u32),
}

/// A character as a glyph.
pub open spec fn char_glyph(c: char) -> Glyph {
    Glyph::Char(c)
}

/// The characters of `s` as glyphs.
pub open spec fn lift(s: Seq<char>) -> Seq<Glyph> {
    s.map_values(|c: char| char_glyph(c))
}

/// The glyphs of one piece.
pub open spec fn piece_glyphs(p: Piece) -> Seq<Glyph> {
    match p {
        Piece::Text(s) => lift(s@),
        Piece::Double(b) => seq![Glyph::Double(b)],
        Piece::Float(b) => seq![Glyph::Float(b)],
    }
}

/// The glyphs of a sequence of pieces, in order.
pub open spec fn pieces_glyphs(ps: Seq<Piece>) -> Seq<Glyph>
    decreases ps.len(),
{
    if ps.len() == 0 {
        Seq::empty()
    } else {
        pieces_glyphs(ps.drop_last()) + piece_glyphs(ps.last())
    }
}

pub proof fn lemma_lift_concat(a: Seq<char>, b: Seq<char>)
    ensures
        lift(a + b) == lift(a) + lift(b),
{
    assert forall|i: int| 0 <= i < (a + b).len() implies #[trigger] lift(a + b)[i] == (lift(a)
        + lift(b))[i] by {
        if i < a.len() {
            assert((a + b)[i] == a[i]);
        } else {
            assert((a + b)[i] == b[i - a.len()]);
        }
    }
    assert(lift(a + b) =~= lift(a) + lift(b));
}

/// A document under construction.
pub struct Doc {
    pieces: Vec<Piece>,
    current: String,
}

impl View for Doc {
    type V = Seq<Glyph>;

    closed spec fn view(&self) -> Seq<Glyph> {
        pieces_glyphs(self.pieces@) + lift(self.current@)
    }
}

impl Doc {
    pub fn new() -> (d: Doc)
        ensures
            d@ == Seq::<Glyph>::empty(),
    {
        let d = Doc { pieces: Vec::new(), current: String::new() };
        assert(d.pieces@ =~= Seq::<Piece>::empty());
        assert(pieces_glyphs(d.pieces@) =~= Seq::<Glyph>::empty());
        assert(lift(d.current@) =~= Seq::<Glyph>::empty());
        assert(d@ =~= Seq::<Glyph>::empty());
        d
    }

    pub fn push_str(&mut self, s: &str)
        ensures
            final(self)@ == old(self)@ + lift(s@),
    {
        let ghost before = self.current@;
        self.current.append(s);
        proof {
            lemma_lift_concat(before, s@);
        }
        assert(self@ =~= old(self)@ + lift(s@));
    }

    pub fn push_char(&mut self, c: char)
        ensures
            final(self)@ == old(self)@ + lift(seq![c]),
    {
        let ghost before = self.current@;
        push_char(&mut self.current, c);
        proof {
            lemma_lift_concat(before, seq![c]);
        }
        assert(before.push(c) =~= before + seq![c]);
        assert(self@ =~= old(self)@ + lift(seq![c]));
    }

    /// Appends the glyphs of a finished piece.
    pub fn push_piece(&mut self, p: Piece)
        ensures
            final(self)@ == old(self)@ + piece_glyphs(p),
    {
        match p {
            Piece::Text(s) => {
                self.push_str(s.as_str());
            },
            other => {
                let ghost before_pieces = self.pieces@;
                let mut text = String::new();
                std::mem::swap(&mut text, &mut self.current);
                self.pieces.push(Piece::Text(text));
                assert(self.pieces@.drop_last() =~= before_pieces);
                let ghost mid = self.pieces@;
                assert(pieces_glyphs(mid) == pieces_glyphs(before_pieces) + lift(text@));
                self.pieces.push(other);
                assert(self.pieces@.drop_last() =~= mid);
                assert(pieces_glyphs(self.pieces@) == pieces_glyphs(mid) + piece_glyphs(other));
                assert(lift(self.current@) =~= Seq::<Glyph>::empty());
                assert(self@ =~= old(self)@ + piece_glyphs(other));
            },
        }
    }

    /// Appends all glyphs of `other`.
    pub fn append_doc(&mut self, other: Doc)
        ensures
            final(self)@ == old(self)@ + other@,
    {
        let ghost o = other@;
        let pieces = other.pieces;
        let current = other.current;
        let ghost start = self@;
        for p in it: pieces
            invariant
                self@ == start + pieces_glyphs(it.seq().take(it.index() as int)),
        {
            let ghost k = it.index();
            self.push_piece(p);
            assert(it.seq().take(k + 1).drop_last() =~= it.seq().take(k as int));
        }
        assert(pieces@.take(pieces@.len() as int) =~= pieces@);
        self.push_str(current.as_str());
        assert(self@ =~= start + o);
    }

    /// The finished document.
    pub fn into_pieces(self) -> (r: Vec<Piece>)
        ensures
            pieces_glyphs(r@) == self@,
    {
        let mut pieces = self.pieces;
        let ghost before = pieces@;
        pieces.push(Piece::Text(self.current));
        assert(pieces@.drop_last() =~= before);
        pieces
    }
}

/// The decimal digit for `d < 10`.
pub open spec fn digit_char(d: nat) -> char {
    if d == 0 {
        '0'
    } else if d == 1 {
        '1'
    } else if d == 2 {
        '2'
    } else if d == 3 {
        '3'
    } else if d == 4 {
        '4'
    } else if d == 5 {
        '5'
    } else if d == 6 {
        '6'
    } else if d == 7 {
        '7'
    } else if d == 8 {
        '8'
    } else {
        '9'
    }
}

/// The decimal representation of `n`, without leading zeros.
pub open spec fn decimal(n: nat) -> Seq<char>
    decreases n,
{
    if n < 10 {
        seq![digit_char(n)]
    } else {
        decimal(n / 10).push(digit_char(n % 10))
    }
}

/// The decimal representation of `i`, with a leading `-` when negative.
pub open spec fn int_text(i: int) -> Seq<char> {
    if i < 0 {
        seq!['-'] + decimal((-i) as nat)
    } else {
        decimal(i as nat)
    }
}

fn digit(d: u64) -> (c: char)
    requires
        d < 10,
    ensures
        c == digit_char(d as nat),
{
    if d == 0 {
        '0'
    } else if d == 1 {
        '1'
    } else if d == 2 {
        '2'
    } else if d == 3 {
        '3'
    } else if d == 4 {
        '4'
    } else if d == 5 {
        '5'
    } else if d == 6 {
        '6'
    } else if d == 7 {
        '7'
    } else if d == 8 {
        '8'
    } else {
        '9'
    }
}

/// Appends the decimal representation of `n`.
pub fn push_decimal(s: &mut String, n: u64)
    ensures
        final(s)@ == old(s)@ + decimal(n as nat),
    decreases n,
{
    if n >= 10 {
        push_decimal(s, n / 10);
    }
    push_char(s, digit(n % 10));
    assert(s@ =~= old(s)@ + decimal(n as nat));
}

/// The decimal text of an unsigned value (`u64::to_string`).
pub fn u64_text(n: u64) -> (r: String)
    ensures
        r@ == int_text(n as int),
{
    let mut s = String::new();
    push_decimal(&mut s, n);
    assert(s@ =~= decimal(n as nat));
    s
}

/// The decimal text of a signed value (`i64::to_string`).
pub fn i64_text(n: i64) -> (r: String)
    ensures
        r@ == int_text(n as int),
{
    let mut s = String::new();
    if n < 0 {
        push_char(&mut s, '-');
        let magnitude: u64 = if n == i64::MIN {
            9223372036854775808u64
        } else {
            (-n) as u64
        };
        push_decimal(&mut s, magnitude);
        assert(s@ =~= seq!['-'] + decimal((-n) as nat));
    } else {
        push_decimal(&mut s, n as u64);
        assert(s@ =~= decimal(n as nat));
    }
    s
}

/// `"true"` or `"false"`.
pub open spec fn bool_text(b: bool) -> Seq<char> {
    if b {
        seq!['t', 'r', 'u', 'e']
    } else {
        seq!['f', 'a', 'l', 's', 'e']
    }
}

/// The protobuf text of a boolean.
pub fn bool_str(b: bool) -> (r: String)
    ensures
        r@ == bool_text(b),
{
    let mut s = String::new();
    if b {
        push_char(&mut s, 't');
        push_char(&mut s, 'r');
        push_char(&mut s, 'u');
        push_char(&mut s, 'e');
    } else {
        push_char(&mut s, 'f');
        push_char(&mut s, 'a');
        push_char(&mut s, 'l');
        push_char(&mut s, 's');
        push_char(&mut s, 'e');
    }
    assert(s@ =~= bool_text(b));
    s
}

/// The elements of `b` in decimal, separated by `", "`.
pub open spec fn byte_list(b: Seq<u8>) -> Seq<char>
    decreases b.len(),
{
    if b.len() == 0 {
        Seq::empty()
    } else if b.len() == 1 {
        decimal(b[0] as nat)
    } else {
        byte_list(b.drop_last()) + seq![',', ' '] + decimal(b.last() as nat)
    }
}

/// A byte slice as its `Debug` text: `[1, 2, 3]`.
pub open spec fn bytes_debug_text(b: Seq<u8>) -> Seq<char> {
    seq!['['] + byte_list(b) + seq![']']
}

/// The `Debug` text of a byte slice.
pub fn bytes_debug(b: &[u8]) -> (r: String)
    ensures
        r@ == bytes_debug_text(b@),
{
    let mut s = String::new();
    push_char(&mut s, '[');
    for i in 0..b.len()
        invariant
            s@ == seq!['['] + byte_list(b@.take(i as int)),
    {
        assert(b@.take(i + 1).drop_last() =~= b@.take(i as int));
        if i > 0 {
            push_char(&mut s, ',');
            push_char(&mut s, ' ');
        }
        push_decimal(&mut s, b[i] as u64);
        assert(s@ =~= seq!['['] + byte_list(b@.take(i + 1)));
    }
    assert(b@.take(b.len() as int) =~= b@);
    push_char(&mut s, ']');
    assert(s@ =~= bytes_debug_text(b@));
    s
}

} // verus!
