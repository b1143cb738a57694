//! Positions in a text, counted in characters and in the bytes of its UTF-8
//! encoding.
use vstd::prelude::*;
use vstd::utf8::*;

verus! {

/// The number of bytes of the UTF-8 encoding of a text.
pub open spec fn byte_len(s: Seq<char>) -> int {
    encode_utf8(s).len() as int
}

/// The encoding of a text is the encoding of its parts, one after the other.
pub proof fn lemma_encode_concat(a: Seq<char>, b: Seq<char>)
    ensures
        encode_utf8(a + b) == encode_utf8(a) + encode_utf8(b),
    decreases a.len(),
{
    if a.len() == 0 {
        assert(a + b =~= b);
        assert(encode_utf8(a) + encode_utf8(b) =~= encode_utf8(b));
    } else {
        assert((a + b).drop_first() =~= a.drop_first() + b);
        lemma_encode_concat(a.drop_first(), b);
        assert(encode_utf8(a + b) =~= encode_utf8(a) + encode_utf8(b));
    }
}

/// The encoding of one character more.
pub proof fn lemma_encode_push(a: Seq<char>, c: char)
    ensures
        encode_utf8(a.push(c)) == encode_utf8(a) + encode_scalar(c as u32),
{
    lemma_encode_concat(a, seq![c]);
    assert(a + seq![c] =~= a.push(c));
    assert(seq![c].drop_first() =~= Seq::<char>::empty());
    reveal_with_fuel(encode_utf8, 2);
    assert(encode_utf8(seq![c]) =~= encode_scalar(c as u32));
}

/// A longer prefix has a longer encoding.
pub proof fn lemma_prefix_grows(s: Seq<char>, i: int, j: int)
    requires
        0 <= i <= j <= s.len(),
    ensures
        byte_len(s.take(i)) + (j - i) <= byte_len(s.take(j)),
        byte_len(s.take(j)) <= byte_len(s),
    decreases j - i,
{
    if i < j {
        lemma_prefix_grows(s, i, j - 1);
        lemma_encode_push(s.take(j - 1), s[j - 1]);
        assert(s.take(j - 1).push(s[j - 1]) =~= s.take(j));
    }
    lemma_encode_concat(s.take(j), s.skip(j));
    assert(s.take(j) + s.skip(j) =~= s);
}

/// A character takes one to four bytes.
pub proof fn lemma_scalar_len(c: char)
    ensures
        1 <= encode_scalar(c as u32).len() <= 4,
{
}

/// The number of bytes of the encoding of a character.
pub fn char_width(c: char) -> (r: usize)
    ensures
        r == encode_scalar(c as u32).len(),
        1 <= r <= 4,
{
    let n: u32 = c as u32;
    if n <= 0x7f {
        1
    } else if n <= 0x7ff {
        2
    } else if n <= 0xffff {
        3
    } else {
        4
    }
}

/// The number of characters before byte `at`, which stands between characters.
pub fn char_index(v: &Vec<char>, at: usize) -> (r: usize)
    requires
        exists|i: int| 0 <= i <= v@.len() && at == #[trigger] byte_len(v@.take(i)),
    ensures
        r <= v@.len(),
        byte_len(v@.take(r as int)) == at,
{
    let ghost k = choose|i: int| 0 <= i <= v@.len() && at == #[trigger] byte_len(v@.take(i));
    let total: usize = v.len();
    let mut i: usize = 0;
    let mut bytes: usize = 0;
    assert(v@.take(0) =~= Seq::<char>::empty());
    while bytes < at
        invariant
            total == v@.len(),
            i <= v@.len(),
            i <= k <= v@.len(),
            at == byte_len(v@.take(k)),
            bytes <= at,
            bytes == byte_len(v@.take(i as int)),
        decreases at - bytes,
    {
        proof {
            lemma_encode_push(v@.take(i as int), v@[i as int]);
            assert(v@.take(i as int).push(v@[i as int]) =~= v@.take(i as int + 1));
            lemma_prefix_grows(v@, i as int + 1, k);
            lemma_prefix_grows(v@.take(k), i as int + 1, k);
        }
        bytes += char_width(v[i]);
        i += 1;
    }
    i
}

/// The number of bytes of the first `n` characters of a text.
pub fn bytes_of_prefix(s: &str, v: &Vec<char>, n: usize) -> (r: usize)
    requires
        v@ == s@,
        n <= v@.len(),
    ensures
        r == byte_len(s@.take(n as int)),
{
    let total: usize = s.as_bytes().len();
    let mut i: usize = 0;
    let mut bytes: usize = 0;
    assert(v@.take(0) =~= Seq::<char>::empty());
    while i < n
        invariant
            i <= n <= v@.len(),
            v@ == s@,
            total == byte_len(s@),
            bytes == byte_len(v@.take(i as int)),
        decreases n - i,
    {
        proof {
            lemma_encode_push(v@.take(i as int), v@[i as int]);
            assert(v@.take(i as int).push(v@[i as int]) =~= v@.take(i as int + 1));
            lemma_prefix_grows(v@, i as int, i as int + 1);
        }
        bytes += char_width(v[i]);
        i += 1;
    }
    bytes
}

} // verus!
