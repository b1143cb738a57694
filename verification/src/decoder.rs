//! Decoding UTF-8 that comes in pieces.
//!
//! A character may be split between two pieces: its first bytes are kept until
//! the others come. Bytes that belong to no character are replaced by U+FFFD, one
//! for each longest run of bytes that a character could begin with.
use vstd::prelude::*;
use vstd::utf8::{
    codepoint_width_1, codepoint_width_2, codepoint_width_3, codepoint_width_4,
    decode_first_scalar, encode_scalar, encode_utf8, encode_utf8_first_scalar,
    is_continuation_byte, length_of_first_scalar, valid_first_scalar,
};

verus! {

/// What stands at the front of some bytes.
pub ghost enum Front {
    /// A character of the given number of bytes.
    Whole(int),
    /// Bytes of the given number that belong to no character.
    Broken(int),
    /// The beginning of a character, whose end is missing.
    Cut,
}

/// How many bytes a character has that begins with a byte, or zero where none does.
pub open spec fn width(first: u8) -> int {
    if first <= 0x7f {
        1
    } else if 0xc2 <= first <= 0xdf {
        2
    } else if 0xe0 <= first <= 0xef {
        3
    } else if 0xf0 <= first <= 0xf4 {
        4
    } else {
        0
    }
}

/// Whether a byte can stand behind the first byte of a character.
pub open spec fn second_fits(first: u8, second: u8) -> bool {
    if first == 0xe0 {
        0xa0 <= second <= 0xbf
    } else if first == 0xed {
        0x80 <= second <= 0x9f
    } else if first == 0xf0 {
        0x90 <= second <= 0xbf
    } else if first == 0xf4 {
        0x80 <= second <= 0x8f
    } else {
        is_continuation_byte(second)
    }
}

/// What stands at the front of some bytes, which are not empty.
pub open spec fn front(b: Seq<u8>) -> Front {
    let w = width(b[0]);
    if w == 0 {
        Front::Broken(1)
    } else if w == 1 {
        Front::Whole(1)
    } else if b.len() < 2 {
        Front::Cut
    } else if !second_fits(b[0], b[1]) {
        Front::Broken(1)
    } else if w == 2 {
        Front::Whole(2)
    } else if b.len() < 3 {
        Front::Cut
    } else if !is_continuation_byte(b[2]) {
        Front::Broken(2)
    } else if w == 3 {
        Front::Whole(3)
    } else if b.len() < 4 {
        Front::Cut
    } else if !is_continuation_byte(b[3]) {
        Front::Broken(3)
    } else {
        Front::Whole(4)
    }
}

/// The text that some bytes give, as far as their characters are whole.
pub open spec fn text_in(b: Seq<u8>) -> Seq<char>
    decreases b.len(),
{
    if b.len() == 0 {
        Seq::empty()
    } else {
        match front(b) {
            Front::Whole(n) => if 0 < n <= b.len() {
                seq![decode_first_scalar(b) as char] + text_in(b.skip(n))
            } else {
                Seq::empty()
            },
            Front::Broken(n) => if 0 < n <= b.len() {
                seq!['\u{FFFD}'] + text_in(b.skip(n))
            } else {
                Seq::empty()
            },
            Front::Cut => Seq::empty(),
        }
    }
}

/// The bytes at the end of which the rest is missing.
pub open spec fn rest_of(b: Seq<u8>) -> Seq<u8>
    decreases b.len(),
{
    if b.len() == 0 {
        b
    } else {
        match front(b) {
            Front::Whole(n) | Front::Broken(n) => if 0 < n <= b.len() {
                rest_of(b.skip(n))
            } else {
                b
            },
            Front::Cut => b,
        }
    }
}

/// How often bytes are replaced.
pub open spec fn losses_in(b: Seq<u8>) -> int
    decreases b.len(),
{
    if b.len() == 0 {
        0
    } else {
        match front(b) {
            Front::Whole(n) => if 0 < n <= b.len() {
                losses_in(b.skip(n))
            } else {
                0
            },
            Front::Broken(n) => if 0 < n <= b.len() {
                1 + losses_in(b.skip(n))
            } else {
                0
            },
            Front::Cut => 0,
        }
    }
}

/// The text that some bytes give when nothing comes behind them.
pub open spec fn whole_text(b: Seq<u8>) -> Seq<char> {
    if rest_of(b).len() == 0 {
        text_in(b)
    } else {
        text_in(b).push('\u{FFFD}')
    }
}

/// A count that starts over behind the greatest one.
pub open spec fn counted(n: int) -> int {
    n % 0x1_0000_0000_0000_0000
}

proof fn lemma_scalar_2(b1: u8, b2: u8)
    by (bit_vector)
    requires
        0xc0 <= b1 <= 0xdf,
        0x80 <= b2 <= 0xbf,
    ensures
        0xc2 <= b1 <==> 0x80 <= codepoint_width_2(b1, b2),
        codepoint_width_2(b1, b2) <= 0x7ff,
{
}

proof fn lemma_scalar_3(b1: u8, b2: u8, b3: u8)
    by (bit_vector)
    requires
        0xe0 <= b1 <= 0xef,
        0x80 <= b2 <= 0xbf,
        0x80 <= b3 <= 0xbf,
    ensures
        (b1 == 0xe0 ==> 0xa0 <= b2) <==> 0x800 <= codepoint_width_3(b1, b2, b3),
        (b1 == 0xed ==> b2 <= 0x9f) <==> !(0xd800 <= codepoint_width_3(b1, b2, b3) && codepoint_width_3(b1, b2, b3) <= 0xdfff),
        codepoint_width_3(b1, b2, b3) <= 0xffff,
{
}

proof fn lemma_scalar_4(b1: u8, b2: u8, b3: u8, b4: u8)
    by (bit_vector)
    requires
        0xf0 <= b1 <= 0xf7,
        0x80 <= b2 <= 0xbf,
        0x80 <= b3 <= 0xbf,
        0x80 <= b4 <= 0xbf,
    ensures
        (b1 == 0xf0 ==> 0x90 <= b2) <==> 0x10000 <= codepoint_width_4(b1, b2, b3, b4),
        (b1 <= 0xf4 && (b1 == 0xf4 ==> b2 <= 0x8f)) <==> codepoint_width_4(b1, b2, b3, b4)
            <= 0x10ffff,
{
}

proof fn lemma_scalar_1(b1: u8)
    by (bit_vector)
    requires
        b1 <= 0x7f,
    ensures
        codepoint_width_1(b1) == b1,
{
}

/// A whole character is a well-formed one.
proof fn lemma_whole(b: Seq<u8>)
    requires
        b.len() > 0,
    ensures
        front(b) is Whole <==> valid_first_scalar(b),
        front(b) matches Front::Whole(n) ==> n == length_of_first_scalar(b) && 0 < n <= b.len() && {
            let scalar = decode_first_scalar(b);
            scalar <= 0xd7ff || 0xe000 <= scalar <= 0x10ffff
        },
{
    let b1 = b[0];
    if b1 <= 0x7f {
        lemma_scalar_1(b1);
    } else if 0xc0 <= b1 <= 0xdf && b.len() >= 2 && is_continuation_byte(b[1]) {
        lemma_scalar_2(b1, b[1]);
    } else if 0xe0 <= b1 <= 0xef && b.len() >= 3 && is_continuation_byte(b[1])
        && is_continuation_byte(b[2]) {
        lemma_scalar_3(b1, b[1], b[2]);
    } else if 0xf0 <= b1 <= 0xf7 && b.len() >= 4 && is_continuation_byte(b[1])
        && is_continuation_byte(b[2]) && is_continuation_byte(b[3]) {
        lemma_scalar_4(b1, b[1], b[2], b[3]);
    }
}

/// A decoder of UTF-8 that comes in pieces.
#[derive(Debug)]
pub struct Utf8StreamDecoder {
    leftover: Vec<u8>,
    replacements: u64,
}

/// The model of a decoder: the bytes that it keeps, and how often it replaced bytes.
#[verifier::ext_equal]
pub ghost struct Decoding {
    pub kept: Seq<u8>,
    pub replacements: int,
}

impl View for Utf8StreamDecoder {
    type V = Decoding;

    closed spec fn view(&self) -> Decoding {
        Decoding { kept: self.leftover@, replacements: self.replacements as int }
    }
}

impl Decoding {
    /// A decoder that has seen nothing.
    pub open spec fn none() -> Decoding {
        Decoding { kept: Seq::empty(), replacements: 0 }
    }

    /// The decoder once it has seen a piece.
    pub open spec fn after(self, piece: Seq<u8>) -> Decoding {
        Decoding {
            kept: rest_of(self.kept + piece),
            replacements: counted(self.replacements + losses_in(self.kept + piece)),
        }
    }

    /// The text that a piece gives.
    pub open spec fn text(self, piece: Seq<u8>) -> Seq<char> {
        text_in(self.kept + piece)
    }

    /// The decoder once nothing more comes.
    pub open spec fn ended(self) -> Decoding {
        if self.kept.len() == 0 {
            self
        } else {
            Decoding { kept: Seq::empty(), replacements: counted(self.replacements + 1) }
        }
    }

    /// The text that the end gives: a replacement for a character that was cut.
    pub open spec fn last_text(self) -> Seq<char> {
        if self.kept.len() == 0 {
            Seq::empty()
        } else {
            seq!['\u{FFFD}']
        }
    }
}

/// What stands at the front of the bytes from `at` on.
enum Unit {
    Char(char, usize),
    Broken(usize),
    Cut,
}

fn cont(b: u8) -> (r: bool)
    ensures
        r == is_continuation_byte(b),
{
    0x80 <= b && b <= 0xbf
}

fn fits(first: u8, second: u8) -> (r: bool)
    ensures
        r == second_fits(first, second),
{
    if first == 0xe0 {
        0xa0 <= second && second <= 0xbf
    } else if first == 0xed {
        0x80 <= second && second <= 0x9f
    } else if first == 0xf0 {
        0x90 <= second && second <= 0xbf
    } else if first == 0xf4 {
        0x80 <= second && second <= 0x8f
    } else {
        cont(second)
    }
}

fn character(scalar: u32) -> (r: char)
    requires
        scalar <= 0xd7ff || 0xe000 <= scalar <= 0x10ffff,
    ensures
        r == scalar as char,
{
    match char::from_u32(scalar) {
        Some(c) => c,
        None => '\u{FFFD}',
    }
}

fn unit_at(v: &Vec<u8>, at: usize) -> (r: Unit)
    requires
        at < v@.len(),
    ensures
        match r {
            Unit::Char(c, n) => front(v@.skip(at as int)) == Front::Whole(n as int) && c
                == decode_first_scalar(v@.skip(at as int)) as char && 0 < n <= v@.len() - at,
            Unit::Broken(n) => front(v@.skip(at as int)) == Front::Broken(n as int) && 0 < n
                <= v@.len() - at,
            Unit::Cut => front(v@.skip(at as int)) == Front::Cut,
        },
{
    let ghost b = v@.skip(at as int);
    proof {
        lemma_whole(b);
        assert(b[0] == v@[at as int]);
        if b.len() > 1 {
            assert(b[1] == v@[at as int + 1]);
        }
        if b.len() > 2 {
            assert(b[2] == v@[at as int + 2]);
        }
        if b.len() > 3 {
            assert(b[3] == v@[at as int + 3]);
        }
    }
    let total: usize = v.len();
    let left: usize = total - at;
    let b1: u8 = v[at];
    if b1 <= 0x7f {
        return Unit::Char(character((b1 & 0x7f) as u32), 1);
    }
    if b1 < 0xc2 || b1 > 0xf4 {
        return Unit::Broken(1);
    }
    if left < 2 {
        return Unit::Cut;
    }
    let b2: u8 = v[at + 1];
    if !fits(b1, b2) {
        return Unit::Broken(1);
    }
    if b1 <= 0xdf {
        return Unit::Char(character((((b1 & 0x1f) as u32) << 6) | ((b2 & 0x3f) as u32)), 2);
    }
    if left < 3 {
        return Unit::Cut;
    }
    let b3: u8 = v[at + 2];
    if !cont(b3) {
        return Unit::Broken(2);
    }
    if b1 <= 0xef {
        return Unit::Char(
            character(
                (((b1 & 0x0f) as u32) << 12) | (((b2 & 0x3f) as u32) << 6) | ((b3 & 0x3f) as u32),
            ),
            3,
        );
    }
    if left < 4 {
        return Unit::Cut;
    }
    let b4: u8 = v[at + 3];
    if !cont(b4) {
        return Unit::Broken(3);
    }
    Unit::Char(
        character(
            (((b1 & 0x07) as u32) << 18) | (((b2 & 0x3f) as u32) << 12) | (((b3 & 0x3f) as u32)
                << 6) | ((b4 & 0x3f) as u32),
        ),
        4,
    )
}

/// Counts that start over add up.
pub proof fn lemma_counted(n: int, m: int)
    ensures
        counted(counted(n) + m) == counted(n + m),
{
    vstd::arithmetic::div_mod::lemma_add_mod_noop(n, m, 0x1_0000_0000_0000_0000);
    vstd::arithmetic::div_mod::lemma_add_mod_noop(counted(n), m, 0x1_0000_0000_0000_0000);
    vstd::arithmetic::div_mod::lemma_mod_twice(n, 0x1_0000_0000_0000_0000);
}

impl Utf8StreamDecoder {
    /// A decoder that has seen nothing.
    pub fn new() -> (r: Utf8StreamDecoder)
        ensures
            r@ == Decoding::none(),
    {
        let r = Utf8StreamDecoder { leftover: Vec::new(), replacements: 0 };
        assert(r@.kept =~= Seq::empty());
        r
    }

    /// How often bytes were replaced so far.
    pub fn replacements(&self) -> (r: u64)
        ensures
            r == self@.replacements,
    {
        self.replacements
    }

    /// The text that a piece gives. The beginning of a character whose end is missing
    /// is kept for the next piece.
    pub fn decode(&mut self, chunk: &[u8]) -> (r: String)
        ensures
            r@ == old(self)@.text(chunk@),
            final(self)@ == old(self)@.after(chunk@),
    {
        let ghost start = self@;
        let mut bytes: Vec<u8> = Vec::new();
        bytes.append(&mut self.leftover);
        bytes.extend_from_slice(chunk);
        assert(bytes@ =~= start.kept + chunk@);
        let mut out = String::new();
        let mut count: u64 = self.replacements;
        let mut at: usize = 0;
        let mut cut = false;
        assert(bytes@.skip(0) =~= bytes@);
        let total: usize = bytes.len();
        proof {
            vstd::arithmetic::div_mod::lemma_small_mod(
                start.replacements as nat,
                0x1_0000_0000_0000_0000,
            );
            lemma_counted(start.replacements, losses_in(bytes@));
        }
        while at < total && !cut
            invariant
                at <= total,
                total == bytes@.len(),
                cut ==> at < total && front(bytes@.skip(at as int)) == Front::Cut,
                out@ + text_in(bytes@.skip(at as int)) == text_in(bytes@),
                rest_of(bytes@.skip(at as int)) == rest_of(bytes@),
                counted(count + losses_in(bytes@.skip(at as int))) == counted(
                    start.replacements + losses_in(bytes@),
                ),
            decreases total - at + if cut { 0int } else { 1 },
        {
            let ghost here = bytes@.skip(at as int);
            match unit_at(&bytes, at) {
                Unit::Char(c, n) => {
                    assert(here.skip(n as int) =~= bytes@.skip(at + n));
                    assert(out@ + text_in(here) =~= out@.push(c) + text_in(here.skip(n as int)));
                    out.push(c);
                    at += n;
                },
                Unit::Broken(n) => {
                    assert(here.skip(n as int) =~= bytes@.skip(at + n));
                    assert(out@ + text_in(here) =~= out@.push('\u{FFFD}') + text_in(
                        here.skip(n as int),
                    ));
                    proof {
                        lemma_counted(count + 1, losses_in(here.skip(n as int)));
                        assert(count.wrapping_add(1) == counted(count + 1));
                    }
                    out.push('\u{FFFD}');
                    count = count.wrapping_add(1);
                    at += n;
                },
                Unit::Cut => {
                    cut = true;
                },
            }
        }
        let ghost tail = bytes@.skip(at as int);
        proof {
            if at == total {
                assert(tail =~= Seq::empty());
            }
            assert(out@ =~= text_in(bytes@));
            assert(rest_of(tail) == tail);
            assert(losses_in(tail) == 0);
            vstd::arithmetic::div_mod::lemma_small_mod(count as nat, 0x1_0000_0000_0000_0000);
        }
        self.replacements = count;
        self.leftover = bytes.split_off(at);
        assert(self.leftover@ =~= tail);
        out
    }

    /// The text that the end gives: a replacement for a character that was cut.
    pub fn finalize(&mut self) -> (r: String)
        ensures
            r@ == old(self)@.last_text(),
            final(self)@ == old(self)@.ended(),
    {
        let mut out = String::new();
        if self.leftover.is_empty() {
            return out;
        }
        self.leftover = Vec::new();
        assert(self.leftover@ =~= Seq::empty());
        self.replacements = self.replacements.wrapping_add(1);
        out.push('\u{FFFD}');
        assert(out@ =~= seq!['\u{FFFD}']);
        out
    }
}

/// What stands at the front does not change when more comes, unless it is cut.
proof fn lemma_front_stays(a: Seq<u8>, b: Seq<u8>)
    requires
        a.len() > 0,
        front(a) != Front::Cut,
    ensures
        front(a + b) == front(a),
        front(a) matches Front::Whole(n) ==> 0 < n <= a.len() && decode_first_scalar(a + b)
            == decode_first_scalar(a),
        front(a) matches Front::Broken(n) ==> 0 < n <= a.len(),
{
    let c = a + b;
    assert(c[0] == a[0]);
    if a.len() > 1 {
        assert(c[1] == a[1]);
    }
    if a.len() > 2 {
        assert(c[2] == a[2]);
    }
    if a.len() > 3 {
        assert(c[3] == a[3]);
    }
}

/// Where bytes are split into pieces makes no difference: two pieces give the text,
/// the replacements and the rest of both in one.
pub proof fn decoding_does_not_depend_on_the_pieces(a: Seq<u8>, b: Seq<u8>)
    ensures
        text_in(a + b) == text_in(a) + text_in(rest_of(a) + b),
        rest_of(a + b) == rest_of(rest_of(a) + b),
        losses_in(a + b) == losses_in(a) + losses_in(rest_of(a) + b),
    decreases a.len(),
{
    if a.len() == 0 {
        assert(a + b =~= b);
        assert(text_in(a) + text_in(b) =~= text_in(b));
    } else if front(a) == Front::Cut {
        assert(text_in(a) + text_in(a + b) =~= text_in(a + b));
    } else {
        lemma_front_stays(a, b);
        let n = match front(a) {
            Front::Whole(n) => n,
            Front::Broken(n) => n,
            Front::Cut => 1,
        };
        decoding_does_not_depend_on_the_pieces(a.skip(n), b);
        assert((a + b).skip(n) =~= a.skip(n) + b);
        match front(a) {
            Front::Whole(_) => {
                let c = seq![decode_first_scalar(a) as char];
                assert(c + (text_in(a.skip(n)) + text_in(rest_of(a) + b)) =~= c + text_in(
                    a.skip(n),
                ) + text_in(rest_of(a) + b));
            },
            _ => {
                let c = seq!['\u{FFFD}'];
                assert(c + (text_in(a.skip(n)) + text_in(rest_of(a) + b)) =~= c + text_in(
                    a.skip(n),
                ) + text_in(rest_of(a) + b));
            },
        }
    }
}

/// The decoder once it has seen some pieces.
pub open spec fn after_all(pieces: Seq<Seq<u8>>) -> Decoding
    decreases pieces.len(),
{
    if pieces.len() == 0 {
        Decoding::none()
    } else {
        after_all(pieces.drop_last()).after(pieces.last())
    }
}

/// The text that some pieces give, one after the other.
pub open spec fn text_of_all(pieces: Seq<Seq<u8>>) -> Seq<char>
    decreases pieces.len(),
{
    if pieces.len() == 0 {
        Seq::empty()
    } else {
        text_of_all(pieces.drop_last()) + after_all(pieces.drop_last()).text(pieces.last())
    }
}

/// The bytes of some pieces.
pub open spec fn bytes_of_all(pieces: Seq<Seq<u8>>) -> Seq<u8>
    decreases pieces.len(),
{
    if pieces.len() == 0 {
        Seq::empty()
    } else {
        bytes_of_all(pieces.drop_last()) + pieces.last()
    }
}

proof fn lemma_all_pieces(pieces: Seq<Seq<u8>>)
    ensures
        text_of_all(pieces) == text_in(bytes_of_all(pieces)),
        after_all(pieces).kept == rest_of(bytes_of_all(pieces)),
        after_all(pieces).replacements == counted(losses_in(bytes_of_all(pieces))),
    decreases pieces.len(),
{
    if pieces.len() == 0 {
    } else {
        lemma_all_pieces(pieces.drop_last());
        let before = bytes_of_all(pieces.drop_last());
        decoding_does_not_depend_on_the_pieces(before, pieces.last());
        lemma_counted(losses_in(before), losses_in(rest_of(before) + pieces.last()));
    }
}

/// However bytes are split into pieces, a decoder that is ended behind them gives one
/// and the same text: that of all the bytes.
pub proof fn pieces_give_the_text_of_all_bytes(pieces: Seq<Seq<u8>>)
    ensures
        text_of_all(pieces) + after_all(pieces).last_text() == whole_text(bytes_of_all(pieces)),
{
    lemma_all_pieces(pieces);
    let b = bytes_of_all(pieces);
    if rest_of(b).len() == 0 {
        assert(text_in(b) + Seq::<char>::empty() =~= text_in(b));
    } else {
        assert(text_in(b) + seq!['\u{FFFD}'] =~= text_in(b).push('\u{FFFD}'));
    }
}

/// The encoding of a text is decoded to that text, and nothing is replaced or kept.
pub proof fn encoded_text_is_preserved(s: Seq<char>)
    ensures
        text_in(encode_utf8(s)) == s,
        rest_of(encode_utf8(s)) == Seq::<u8>::empty(),
        losses_in(encode_utf8(s)) == 0,
        whole_text(encode_utf8(s)) == s,
    decreases s.len(),
{
    if s.len() == 0 {
        assert(s =~= Seq::empty());
    } else {
        let b = encode_utf8(s);
        encode_utf8_first_scalar(s);
        crate::utf8::lemma_scalar_len(s[0]);
        lemma_whole(b);
        encoded_text_is_preserved(s.drop_first());
        let n = encode_scalar(s[0] as u32).len() as int;
        assert(b.skip(n) =~= encode_utf8(s.drop_first()));
        vstd::utf8::char_u32_cast(s[0], decode_first_scalar(b));
        assert(seq![s[0]] + s.drop_first() =~= s);
    }
}

/// At most three bytes are kept, and they begin a character.
pub proof fn little_is_kept(b: Seq<u8>)
    ensures
        rest_of(b).len() <= 3,
        rest_of(b).len() > 0 ==> front(rest_of(b)) == Front::Cut,
    decreases b.len(),
{
    if b.len() > 0 && front(b) != Front::Cut {
        lemma_front_stays(b, Seq::empty());
        let n = match front(b) {
            Front::Whole(n) => n,
            Front::Broken(n) => n,
            Front::Cut => 1,
        };
        little_is_kept(b.skip(n));
    }
}

/// How often the replacement character stands in a text.
pub open spec fn marks_in(s: Seq<char>) -> int
    decreases s.len(),
{
    if s.len() == 0 {
        0
    } else {
        marks_in(s.drop_first()) + if s[0] == '\u{FFFD}' {
            1int
        } else {
            0
        }
    }
}

/// Whether the three bytes of the encoded replacement character stand at a position.
pub open spec fn mark_at(b: Seq<u8>, i: int) -> bool {
    0 <= i && i + 3 <= b.len() && b[i] == 0xef && b[i + 1] == 0xbf && b[i + 2] == 0xbd
}

/// How often the encoded replacement character stands in some bytes.
pub open spec fn encoded_marks(b: Seq<u8>) -> int
    decreases b.len(),
{
    if b.len() == 0 {
        0
    } else {
        encoded_marks(b.drop_first()) + if mark_at(b, 0) {
            1int
        } else {
            0
        }
    }
}

proof fn lemma_mark_3(b1: u8, b2: u8, b3: u8)
    by (bit_vector)
    requires
        0xe0 <= b1 <= 0xef,
        0x80 <= b2 <= 0xbf,
        0x80 <= b3 <= 0xbf,
    ensures
        codepoint_width_3(b1, b2, b3) == 0xfffd <==> (b1 == 0xef && b2 == 0xbf && b3 == 0xbd),
{
}

proof fn lemma_mark_4(b1: u8, b2: u8, b3: u8, b4: u8)
    by (bit_vector)
    requires
        0xf0 <= b1 <= 0xf4,
        b1 == 0xf0 ==> 0x90 <= b2,
        0x80 <= b2 <= 0xbf,
        0x80 <= b3 <= 0xbf,
        0x80 <= b4 <= 0xbf,
    ensures
        codepoint_width_4(b1, b2, b3, b4) >= 0x10000,
{
}

/// Bytes among which the encoded replacement character begins nowhere count none.
proof fn lemma_no_marks(b: Seq<u8>, n: int)
    requires
        0 <= n <= b.len(),
        forall|i: int| 0 <= i < n ==> !#[trigger] mark_at(b, i),
    ensures
        encoded_marks(b) == encoded_marks(b.skip(n)),
    decreases n,
{
    if n == 0 {
        assert(b.skip(0) =~= b);
    } else {
        let tail = b.drop_first();
        assert forall|i: int| 0 <= i < n - 1 implies !#[trigger] mark_at(tail, i) by {
            assert(!mark_at(b, i + 1));
        }
        assert(!mark_at(b, 0));
        lemma_no_marks(tail, n - 1);
        assert(tail.skip(n - 1) =~= b.skip(n));
    }
}

proof fn lemma_marks_first(c: char, s: Seq<char>)
    ensures
        marks_in(seq![c] + s) == marks_in(s) + if c == '\u{FFFD}' {
            1int
        } else {
            0
        },
{
    let t = seq![c] + s;
    assert(t[0] == c);
    assert(t.drop_first() =~= s);
}

proof fn lemma_marks_push(s: Seq<char>)
    ensures
        marks_in(s.push('\u{FFFD}')) == marks_in(s) + 1,
    decreases s.len(),
{
    let t = s.push('\u{FFFD}');
    reveal_with_fuel(marks_in, 2);
    if s.len() == 0 {
        assert(t.drop_first() =~= Seq::empty());
    } else {
        assert(t[0] == s[0]);
        assert(t.drop_first() =~= s.drop_first().push('\u{FFFD}'));
        lemma_marks_push(s.drop_first());
    }
}

/// The first unit of some bytes holds the encoded replacement character where it is
/// that character.
proof fn lemma_unit_marks(b: Seq<u8>)
    requires
        b.len() > 0,
    ensures
        match front(b) {
            Front::Whole(n) => {
                &&& 0 < n <= b.len()
                &&& encoded_marks(b) == encoded_marks(b.skip(n)) + if decode_first_scalar(b) as char
                    == '\u{FFFD}' {
                    1int
                } else {
                    0
                }
            },
            Front::Broken(n) => 0 < n <= b.len() && encoded_marks(b) == encoded_marks(b.skip(n)),
            Front::Cut => encoded_marks(b) == 0,
        },
{
    lemma_whole(b);
    match front(b) {
        Front::Whole(n) => {
            let scalar = decode_first_scalar(b);
            if scalar == 0xfffd {
                vstd::utf8::char_u32_cast('\u{FFFD}', scalar);
            } else {
                assert((scalar as char) as u32 == scalar);
            }
            if n == 1 {
                lemma_scalar_1(b[0]);
                lemma_no_marks(b, 1);
            } else if n == 2 {
                lemma_scalar_2(b[0], b[1]);
                lemma_no_marks(b, 2);
            } else if n == 3 {
                lemma_mark_3(b[0], b[1], b[2]);
                if mark_at(b, 0) {
                    let tail = b.drop_first();
                    lemma_no_marks(tail, 2);
                    assert(tail.skip(2) =~= b.skip(3));
                } else {
                    lemma_no_marks(b, 3);
                }
            } else {
                lemma_mark_4(b[0], b[1], b[2], b[3]);
                lemma_no_marks(b, 4);
            }
        },
        Front::Broken(n) => {
            lemma_no_marks(b, n);
        },
        Front::Cut => {
            assert(b.len() <= 3);
            lemma_no_marks(b, b.len() as int);
            assert(b.skip(b.len() as int) =~= Seq::empty());
        },
    }
}

proof fn lemma_losses_are_marks(b: Seq<u8>)
    ensures
        losses_in(b) == marks_in(text_in(b)) - encoded_marks(b),
    decreases b.len(),
{
    if b.len() > 0 {
        lemma_unit_marks(b);
        match front(b) {
            Front::Whole(n) => {
                lemma_losses_are_marks(b.skip(n));
                lemma_marks_first(decode_first_scalar(b) as char, text_in(b.skip(n)));
            },
            Front::Broken(n) => {
                lemma_losses_are_marks(b.skip(n));
                lemma_marks_first('\u{FFFD}', text_in(b.skip(n)));
            },
            Front::Cut => {},
        }
    }
}

/// However bytes come in pieces, the count of an ended decoder is how often the
/// replacement character stands in all the text that was given out, less how often it
/// stood in the bytes already, up to the width of the count.
pub proof fn replacements_are_the_marks_that_were_added(pieces: Seq<Seq<u8>>)
    ensures
        after_all(pieces).ended().replacements == counted(
            marks_in(text_of_all(pieces) + after_all(pieces).last_text()) - encoded_marks(
                bytes_of_all(pieces),
            ),
        ),
{
    lemma_all_pieces(pieces);
    let b = bytes_of_all(pieces);
    lemma_losses_are_marks(b);
    if rest_of(b).len() == 0 {
        assert(text_in(b) + Seq::<char>::empty() =~= text_in(b));
    } else {
        assert(text_in(b) + seq!['\u{FFFD}'] =~= text_in(b).push('\u{FFFD}'));
        lemma_marks_push(text_in(b));
        lemma_counted(losses_in(b), 1);
    }
}

} // verus!
