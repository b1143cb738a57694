//! Media input, and the hosts that it may name.
//!
//! An `input_image` or `input_audio` item becomes a Chat content part. A URL is
//! only passed on where it is `https://` to a public host, or a `data:` URI of
//! the right kind of media.
use vstd::prelude::*;
use vstd::string::*;
use crate::context::hex_number;
use crate::convert::message_normalization::{nonempty, nonempty_text};
use crate::json::{member, members_in, object_of, text_at, Json, Object, Tree};
use crate::text::{
    after, begins, cat, cat3, chars_of, debug_text, fields, find, lower, lowered, opt_string,
    own_opt, position, quoted, same, split, starts, text_of, texts, trim, trimmed,
};

verus! {

/// Whether a text is decimal digits.
pub open spec fn all_digits(s: Seq<char>) -> bool {
    forall|i: int| 0 <= i < s.len() ==> '0' <= #[trigger] s[i] <= '9'
}

/// The value of decimal digits.
pub open spec fn decimal(s: Seq<char>) -> int
    decreases s.len(),
{
    if s.len() == 0 {
        0
    } else {
        10 * decimal(s.drop_last()) + (s.last() as int - '0' as int)
    }
}

/// The value of one part of an IPv4 address: up to three digits without a
/// leading zero, no more than 255.
pub open spec fn octet(s: Seq<char>) -> Option<int> {
    if 1 <= s.len() <= 3 && all_digits(s) && (s.len() == 1 || s[0] != '0') && decimal(s) <= 255 {
        Some(decimal(s))
    } else {
        None
    }
}

/// The four parts of an IPv4 address.
pub open spec fn ipv4(s: Seq<char>) -> Option<Seq<int>> {
    let f = fields(s, '.');
    if f.len() == 4 && octet(f[0]) is Some && octet(f[1]) is Some && octet(f[2]) is Some && octet(
        f[3],
    ) is Some {
        Some(seq![octet(f[0])->0, octet(f[1])->0, octet(f[2])->0, octet(f[3])->0])
    } else {
        None
    }
}

/// The value of one group of an IPv6 address: up to four hexadecimal digits.
pub open spec fn group(s: Seq<char>) -> Option<int> {
    if 1 <= s.len() <= 4 {
        hex_number(s)
    } else {
        None
    }
}

/// The values of a list of groups.
pub open spec fn groups(f: Seq<Seq<char>>) -> Option<Seq<int>>
    decreases f.len(),
{
    if f.len() == 0 {
        Some(Seq::empty())
    } else {
        match (groups(f.drop_last()), group(f.last())) {
            (Some(before), Some(n)) => Some(before.push(n)),
            _ => None,
        }
    }
}

/// The groups on one side of an IPv6 address. The last of them may be written as
/// an IPv4 address, where that is allowed.
pub open spec fn side(s: Seq<char>, with_v4: bool) -> Option<Seq<int>> {
    if s.len() == 0 {
        Some(Seq::empty())
    } else {
        let f = fields(s, ':');
        match groups(f.drop_last()) {
            Some(before) => match group(f.last()) {
                Some(n) => Some(before.push(n)),
                None => match ipv4(f.last()) {
                    Some(p) => if with_v4 {
                        Some(before.push(256 * p[0] + p[1]).push(256 * p[2] + p[3]))
                    } else {
                        None
                    },
                    None => None,
                },
            },
            None => None,
        }
    }
}

/// The eight groups of an IPv6 address. A double colon stands for as many zero
/// groups as are missing, and for at least one.
pub open spec fn ipv6(s: Seq<char>) -> Option<Seq<int>> {
    match position(s, "::"@, 0) {
        None => match side(s, true) {
            Some(g) => if g.len() == 8 {
                Some(g)
            } else {
                None
            },
            None => None,
        },
        Some(p) => match (side(s.take(p), false), side(s.skip(p + 2), true)) {
            (Some(a), Some(b)) => if a.len() + b.len() <= 7 {
                Some(a + Seq::new((8 - a.len() - b.len()) as nat, |i: int| 0int) + b)
            } else {
                None
            },
            _ => None,
        },
    }
}

/// Whether an IPv4 address is kept out of reach: private, loopback, link-local,
/// unspecified, multicast, reserved with broadcast, documentation and shared address
/// space.
pub open spec fn blocked_v4(p: Seq<int>) -> bool {
    ||| p[0] == 10
    ||| p[0] == 172 && 16 <= p[1] <= 31
    ||| p[0] == 192 && p[1] == 168
    ||| p[0] == 127
    ||| p[0] == 169 && p[1] == 254
    ||| p[0] == 0 && p[1] == 0 && p[2] == 0 && p[3] == 0
    ||| 224 <= p[0] <= 239
    ||| 240 <= p[0]
    ||| p[0] == 192 && p[1] == 0 && p[2] == 2
    ||| p[0] == 198 && p[1] == 51 && p[2] == 100
    ||| p[0] == 203 && p[1] == 0 && p[2] == 113
    ||| p[0] == 100 && 64 <= p[1] <= 127
}

/// Whether an IPv6 address stands for an IPv4 address.
pub open spec fn is_mapped(g: Seq<int>) -> bool {
    g[0] == 0 && g[1] == 0 && g[2] == 0 && g[3] == 0 && g[4] == 0 && g[5] == 0xffff
}

/// The IPv4 address that an IPv6 address stands for.
pub open spec fn mapped_v4(g: Seq<int>) -> Seq<int> {
    seq![g[6] / 256, g[6] % 256, g[7] / 256, g[7] % 256]
}

/// Whether an IPv6 address is kept out of reach. One that stands for an IPv4 address is
/// where that address is. Of the others, global unicast `2000::/3` alone is in reach:
/// unspecified, loopback, multicast, unique-local, link-local and reserved addresses
/// all lie outside it.
pub open spec fn blocked_v6(g: Seq<int>) -> bool {
    if is_mapped(g) {
        blocked_v4(mapped_v4(g))
    } else {
        !(0x2000 <= g[0] <= 0x3fff)
    }
}

/// The text without leading characters `c`.
pub open spec fn without_leading(s: Seq<char>, c: char) -> Seq<char>
    decreases s.len(),
{
    if s.len() > 0 && s[0] == c {
        without_leading(s.drop_first(), c)
    } else {
        s
    }
}

/// The text without trailing characters `c`.
pub open spec fn without_trailing(s: Seq<char>, c: char) -> Seq<char>
    decreases s.len(),
{
    if s.len() > 0 && s.last() == c {
        without_trailing(s.drop_last(), c)
    } else {
        s
    }
}

/// Whether a host is kept out of reach. Names are not resolved and never are.
pub open spec fn blocked(host: Seq<char>) -> bool {
    let bare = without_trailing(without_leading(host, '['), ']');
    host.len() == 0 || match ipv4(bare) {
        Some(p) => blocked_v4(p),
        None => match ipv6(bare) {
            Some(g) => blocked_v6(g),
            None => false,
        },
    }
}

/// The integers of machine integers.
pub open spec fn ints(s: Seq<u16>) -> Seq<int> {
    s.map_values(|n: u16| n as int)
}

/// The integers of an optional list.
pub open spec fn opt_ints(o: Option<Vec<u16>>) -> Option<Seq<int>> {
    match o {
        Some(v) => Some(ints(v@)),
        None => None,
    }
}

fn read_octet(s: &str) -> (r: Option<u16>)
    ensures
        match r {
            Some(n) => octet(s@) == Some(n as int) && n <= 255,
            None => octet(s@) is None,
        },
{
    let v = chars_of(s);
    let len: usize = v.len();
    if len == 0 || len > 3 || (len > 1 && v[0] == '0') {
        return None;
    }
    let mut n: u16 = 0;
    let mut i: usize = 0;
    assert(v@.take(0) =~= Seq::<char>::empty());
    while i < len
        invariant
            i <= len <= 3,
            len == v@.len(),
            v@ == s@,
            forall|j: int| 0 <= j < i ==> '0' <= #[trigger] s@[j] <= '9',
            n == decimal(s@.take(i as int)),
            i == 0 ==> n == 0,
            i == 1 ==> n < 10,
            i == 2 ==> n < 100,
            n < 1000,
        decreases len - i,
    {
        assert(s@.take(i as int + 1).drop_last() =~= s@.take(i as int));
        let c = v[i];
        if c < '0' || c > '9' {
            assert(!('0' <= s@[i as int] <= '9'));
            return None;
        }
        n = 10 * n + (c as u16 - '0' as u16);
        i += 1;
    }
    assert(s@.take(i as int) =~= s@);
    if n <= 255 {
        Some(n)
    } else {
        None
    }
}

fn read_ipv4(s: &str) -> (r: Option<Vec<u16>>)
    ensures
        opt_ints(r) == ipv4(s@),
        r matches Some(v) ==> v@.len() == 4 && forall|i: int| 0 <= i < 4 ==> #[trigger] v@[i] <= 255,
{
    let f = split(s, '.');
    assert(texts(f@).len() == f@.len());
    if f.len() != 4 {
        return None;
    }
    assert(texts(f@)[0] == f@[0]@ && texts(f@)[1] == f@[1]@ && texts(f@)[2] == f@[2]@ && texts(
        f@,
    )[3] == f@[3]@);
    match (
        read_octet(f[0].as_str()),
        read_octet(f[1].as_str()),
        read_octet(f[2].as_str()),
        read_octet(f[3].as_str()),
    ) {
        (Some(a), Some(b), Some(c), Some(d)) => {
            let r = vec![a, b, c, d];
            assert(ints(r@) =~= seq![a as int, b as int, c as int, d as int]);
            Some(r)
        },
        _ => None,
    }
}

fn read_group(s: &str) -> (r: Option<u16>)
    ensures
        match r {
            Some(n) => group(s@) == Some(n as int),
            None => group(s@) is None,
        },
{
    let v = chars_of(s);
    let len: usize = v.len();
    if len == 0 || len > 4 {
        return None;
    }
    let mut n: u32 = 0;
    let mut i: usize = 0;
    assert(v@.take(0) =~= Seq::<char>::empty());
    while i < len
        invariant
            i <= len <= 4,
            len == v@.len(),
            v@ == s@,
            hex_number(s@.take(i as int)) == Some(n as int),
            i == 0 ==> n == 0,
            i == 1 ==> n < 16,
            i == 2 ==> n < 256,
            i == 3 ==> n < 4096,
            n < 65536,
        decreases len - i,
    {
        assert(s@.take(i as int + 1).drop_last() =~= s@.take(i as int));
        match crate::context::digit_value(v[i]) {
            Some(d) => {
                n = 16 * n + d;
            },
            None => {
                proof {
                    crate::context::lemma_hex_prefix(s@, i as int + 1);
                }
                return None;
            },
        }
        i += 1;
    }
    assert(s@.take(i as int) =~= s@);
    Some(n as u16)
}

fn read_side(s: &str, with_v4: bool) -> (r: Option<Vec<u16>>)
    ensures
        opt_ints(r) == side(s@, with_v4),
{
    let mut out: Vec<u16> = Vec::new();
    assert(ints(out@) =~= Seq::<int>::empty());
    if s.is_empty() {
        return Some(out);
    }
    let f = split(s, ':');
    let ghost all = texts(f@);
    assert(all.len() == f@.len());
    let last: usize = f.len() - 1;
    let mut i: usize = 0;
    assert(all.take(0) =~= Seq::<Seq<char>>::empty());
    while i < last
        invariant
            i <= last,
            last + 1 == f@.len(),
            all == texts(f@),
            all == fields(s@, ':'),
            s@.len() > 0,
            groups(all.take(i as int)) == Some(ints(out@)),
        decreases last - i,
    {
        assert(all.take(i as int + 1).drop_last() =~= all.take(i as int));
        assert(all.take(i as int + 1).last() == f@[i as int]@);
        match read_group(f[i].as_str()) {
            Some(n) => {
                let ghost before = out@;
                out.push(n);
                assert(ints(out@) =~= ints(before).push(n as int));
            },
            None => {
                proof {
                    assert(groups(all.take(i as int + 1)) is None);
                    lemma_groups_prefix(all.drop_last(), i as int + 1);
                    assert(all.drop_last().take(i as int + 1) =~= all.take(i as int + 1));
                }
                return None;
            },
        }
        i += 1;
    }
    assert(all.take(last as int) =~= all.drop_last());
    assert(all.last() == f@[last as int]@);
    let ghost before = out@;
    match read_group(f[last].as_str()) {
        Some(n) => {
            out.push(n);
            assert(ints(out@) =~= ints(before).push(n as int));
            Some(out)
        },
        None => match read_ipv4(f[last].as_str()) {
            Some(p) => {
                if with_v4 {
                    let ghost q = ints(p@);
                    out.push(256 * p[0] + p[1]);
                    out.push(256 * p[2] + p[3]);
                    assert(ints(out@) =~= ints(before).push(256 * q[0] + q[1]).push(
                        256 * q[2] + q[3],
                    ));
                    Some(out)
                } else {
                    None
                }
            },
            None => None,
        },
    }
}

proof fn lemma_groups_prefix(f: Seq<Seq<char>>, n: int)
    requires
        0 <= n <= f.len(),
        groups(f.take(n)) is None,
    ensures
        groups(f) is None,
    decreases f.len() - n,
{
    if n < f.len() {
        assert(f.take(n + 1).drop_last() =~= f.take(n));
        lemma_groups_prefix(f, n + 1);
    } else {
        assert(f.take(n) =~= f);
    }
}

fn read_ipv6(s: &str) -> (r: Option<Vec<u16>>)
    ensures
        opt_ints(r) == ipv6(s@),
        r matches Some(v) ==> v@.len() == 8,
{
    let v = chars_of(s);
    let total: usize = v.len();
    match find(&v, &chars_of("::"), 0) {
        None => match read_side(s, true) {
            Some(g) => {
                assert(ints(g@).len() == g@.len());
                if g.len() == 8 {
                    Some(g)
                } else {
                    None
                }
            },
            None => None,
        },
        Some(p) => {
            proof {
                reveal_strlit("::");
            }
            let head = text_of(&v, 0, p);
            let tail = text_of(&v, p + 2, total);
            assert(head@ =~= s@.take(p as int));
            assert(tail@ =~= s@.skip(p + 2));
            match (read_side(head.as_str(), false), read_side(tail.as_str(), true)) {
                (Some(a), Some(b)) => {
                    assert(ints(a@).len() == a@.len() && ints(b@).len() == b@.len());
                    if a.len() > 7 || b.len() > 7 - a.len() {
                        return None;
                    }
                    let zeros: usize = 8 - a.len() - b.len();
                    let mut out = a;
                    let mut i: usize = 0;
                    while i < zeros
                        invariant
                            i <= zeros,
                            out@ == a@ + Seq::new(i as nat, |j: int| 0u16),
                        decreases zeros - i,
                    {
                        out.push(0);
                        i += 1;
                        assert(out@ =~= a@ + Seq::new(i as nat, |j: int| 0u16));
                    }
                    let ghost mid = out@;
                    let mut i: usize = 0;
                    while i < b.len()
                        invariant
                            i <= b@.len(),
                            out@ == mid + b@.take(i as int),
                        decreases b.len() - i,
                    {
                        out.push(b[i]);
                        i += 1;
                        assert(out@ =~= mid + b@.take(i as int));
                    }
                    assert(b@.take(i as int) =~= b@);
                    assert(ints(out@) =~= ints(a@) + Seq::new(zeros as nat, |j: int| 0int) + ints(
                        b@,
                    ));
                    Some(out)
                },
                _ => None,
            }
        },
    }
}

fn strip_brackets(s: &str) -> (r: String)
    ensures
        r@ == without_trailing(without_leading(s@, '['), ']'),
{
    let v = chars_of(s);
    let n: usize = v.len();
    let mut lo: usize = 0;
    assert(v@.subrange(0, n as int) =~= v@);
    while lo < n && v[lo] == '['
        invariant
            v@ == s@,
            n == v@.len(),
            lo <= n,
            without_leading(s@, '[') == without_leading(v@.subrange(lo as int, n as int), '['),
        decreases n - lo,
    {
        assert(v@.subrange(lo as int, n as int).drop_first() =~= v@.subrange(
            lo as int + 1,
            n as int,
        ));
        lo += 1;
    }
    let mut hi: usize = n;
    while hi > lo && v[hi - 1] == ']'
        invariant
            n == v@.len(),
            lo <= hi <= n,
            without_trailing(v@.subrange(lo as int, n as int), ']') == without_trailing(
                v@.subrange(lo as int, hi as int),
                ']',
            ),
        decreases hi,
    {
        assert(v@.subrange(lo as int, hi as int).drop_last() =~= v@.subrange(
            lo as int,
            hi as int - 1,
        ));
        hi -= 1;
    }
    text_of(&v, lo, hi)
}

fn is_blocked_v4(a: u16, b: u16, c: u16, d: u16) -> (r: bool)
    ensures
        r == blocked_v4(seq![a as int, b as int, c as int, d as int]),
{
    a == 10 || (a == 172 && 16 <= b && b <= 31) || (a == 192 && b == 168) || a == 127 || (a == 169
        && b == 254) || (a == 0 && b == 0 && c == 0 && d == 0) || (224 <= a && a <= 239) || 240
        <= a || (a == 192 && b == 0 && c == 2) || (a == 198 && b == 51 && c == 100) || (a == 203
        && b == 0 && c == 113) || (a == 100 && 64 <= b && b <= 127)
}

/// Whether a host is kept out of reach.
pub fn is_blocked_host(host: &str) -> (r: bool)
    ensures
        r == blocked(host@),
{
    if host.is_empty() {
        return true;
    }
    let bare = strip_brackets(host);
    match read_ipv4(bare.as_str()) {
        Some(p) => {
            assert(ints(p@) =~= seq![p@[0] as int, p@[1] as int, p@[2] as int, p@[3] as int]);
            is_blocked_v4(p[0], p[1], p[2], p[3])
        },
        None => match read_ipv6(bare.as_str()) {
            Some(g) => {
                let ghost h = ints(g@);
                assert(h[0] == g@[0] && h[1] == g@[1] && h[2] == g@[2] && h[3] == g@[3] && h[4]
                    == g@[4] && h[5] == g@[5] && h[6] == g@[6] && h[7] == g@[7]);
                if g[0] == 0 && g[1] == 0 && g[2] == 0 && g[3] == 0 && g[4] == 0 && g[5] == 0xffff {
                    is_blocked_v4(g[6] / 256, g[6] % 256, g[7] / 256, g[7] % 256)
                } else {
                    g[0] < 0x2000 || g[0] > 0x3fff
                }
            },
            None => false,
        },
    }
}

/// Whether the authority of a URL ends at `c`.
pub open spec fn ends_authority(c: char) -> bool {
    c == '/' || c == '?' || c == '#'
}

/// The text before the first character that ends an authority.
pub open spec fn authority(s: Seq<char>) -> Seq<char>
    decreases s.len(),
{
    if s.len() == 0 || ends_authority(s[0]) {
        Seq::empty()
    } else {
        seq![s[0]] + authority(s.drop_first())
    }
}

/// The text behind the last `c`, or all of it.
pub open spec fn behind_last(s: Seq<char>, c: char) -> Seq<char>
    decreases s.len(),
{
    if s.len() == 0 || s.last() == c {
        Seq::empty()
    } else {
        behind_last(s.drop_last(), c).push(s.last())
    }
}

/// The text before the first `c`, or all of it.
pub open spec fn before_first(s: Seq<char>, c: char) -> Seq<char>
    decreases s.len(),
{
    if s.len() == 0 || s[0] == c {
        Seq::empty()
    } else {
        seq![s[0]] + before_first(s.drop_first(), c)
    }
}

/// The host of a URL from behind its scheme, without user and port. An IPv6
/// address stands without its brackets.
pub open spec fn host_of(s: Seq<char>) -> Seq<char> {
    let a = behind_last(authority(s), '@');
    if a.len() > 0 && a[0] == '[' {
        before_first(a.skip(1), ']')
    } else {
        before_first(a, ':')
    }
}

proof fn lemma_authority(s: Seq<char>, n: int)
    requires
        0 <= n <= s.len(),
        forall|i: int| 0 <= i < n ==> !ends_authority(#[trigger] s[i]),
        n == s.len() || ends_authority(s[n]),
    ensures
        authority(s) == s.take(n),
    decreases n,
{
    if n > 0 {
        let t = s.drop_first();
        assert forall|i: int| 0 <= i < n - 1 implies !ends_authority(#[trigger] t[i]) by {
            assert(t[i] == s[i + 1]);
        }
        assert(!ends_authority(s[0]));
        lemma_authority(t, n - 1);
        assert(seq![s[0]] + t.take(n - 1) =~= s.take(n));
    } else {
        assert(s.take(n) =~= Seq::<char>::empty());
    }
}

proof fn lemma_before_first(s: Seq<char>, c: char, n: int)
    requires
        0 <= n <= s.len(),
        forall|i: int| 0 <= i < n ==> #[trigger] s[i] != c,
        n == s.len() || s[n] == c,
    ensures
        before_first(s, c) == s.take(n),
    decreases n,
{
    if n > 0 {
        let t = s.drop_first();
        assert forall|i: int| 0 <= i < n - 1 implies #[trigger] t[i] != c by {
            assert(t[i] == s[i + 1]);
        }
        assert(s[0] != c);
        lemma_before_first(t, c, n - 1);
        assert(seq![s[0]] + t.take(n - 1) =~= s.take(n));
    } else {
        assert(s.take(n) =~= Seq::<char>::empty());
    }
}

proof fn lemma_behind_last(s: Seq<char>, c: char, n: int)
    requires
        0 <= n <= s.len(),
        forall|i: int| n <= i < s.len() ==> #[trigger] s[i] != c,
        n == 0 || s[n - 1] == c,
    ensures
        behind_last(s, c) == s.skip(n),
    decreases s.len(),
{
    if n < s.len() {
        let t = s.drop_last();
        assert forall|i: int| n <= i < t.len() implies #[trigger] t[i] != c by {
            assert(t[i] == s[i]);
        }
        assert(s[s.len() - 1] != c);
        lemma_behind_last(t, c, n);
        assert(t.skip(n).push(s.last()) =~= s.skip(n));
    } else {
        assert(s.skip(n) =~= Seq::<char>::empty());
    }
}

fn index_before(v: &Vec<char>, c: char, from: usize, to: usize) -> (r: usize)
    requires
        from <= to <= v@.len(),
    ensures
        from <= r <= to,
        forall|i: int| from <= i < r ==> #[trigger] v@[i] != c,
        r == to || v@[r as int] == c,
{
    let mut i: usize = from;
    while i < to && v[i] != c
        invariant
            from <= i <= to <= v@.len(),
            forall|j: int| from <= j < i ==> #[trigger] v@[j] != c,
        decreases to - i,
    {
        i += 1;
    }
    i
}

/// The host of a URL from behind its scheme.
pub fn host_from_authority(after_scheme: &str) -> (r: &str)
    ensures
        r@ == host_of(after_scheme@),
{
    let v = chars_of(after_scheme);
    let total: usize = v.len();
    let mut end: usize = 0;
    while end < total && !(v[end] == '/' || v[end] == '?' || v[end] == '#')
        invariant
            total == v@.len(),
            end <= total,
            forall|i: int| 0 <= i < end ==> !ends_authority(#[trigger] v@[i]),
        decreases total - end,
    {
        end += 1;
    }
    let ghost whole = after_scheme@.take(end as int);
    proof {
        lemma_authority(after_scheme@, end as int);
    }
    let mut start: usize = end;
    while start > 0 && v[start - 1] != '@'
        invariant
            start <= end <= total,
            total == v@.len(),
            v@ == after_scheme@,
            whole == after_scheme@.take(end as int),
            forall|i: int| start <= i < end ==> #[trigger] whole[i] != '@',
        decreases start,
    {
        start -= 1;
        assert(whole[start as int] == v@[start as int]);
    }
    let ghost a = whole.skip(start as int);
    proof {
        if start > 0 {
            assert(whole[start - 1] == v@[start - 1]);
        }
        lemma_behind_last(whole, '@', start as int);
        assert(forall|i: int| 0 <= i < a.len() ==> #[trigger] a[i] == v@[start + i]);
    }
    if start < end && v[start] == '[' {
        let stop = index_before(&v, ']', start + 1, end);
        let ghost inner = a.skip(1);
        proof {
            assert(a[0] == v@[start as int]);
            assert(forall|i: int| 0 <= i < inner.len() ==> #[trigger] inner[i] == v@[start + 1 + i]);
            lemma_before_first(inner, ']', stop - start - 1);
            assert(after_scheme@.subrange(start + 1, stop as int) =~= inner.take(stop - start - 1));
        }
        after_scheme.substring_char(start + 1, stop)
    } else {
        let stop = index_before(&v, ':', start, end);
        proof {
            if start < end {
                assert(a[0] == v@[start as int]);
            }
            lemma_before_first(a, ':', stop - start);
            assert(after_scheme@.subrange(start as int, stop as int) =~= a.take(stop - start));
        }
        after_scheme.substring_char(start, stop)
    }
}

/// Whether a media URL may be passed on: a `data:` URI with the given prefix, or
/// `https://` to a host that is not kept out of reach.
pub open spec fn safe_url(url: Seq<char>, data_prefix: Option<Seq<char>>) -> bool {
    if begins(url, "data:"@) {
        match data_prefix {
            Some(p) => begins(url, p),
            None => true,
        }
    } else {
        begins(url, "https://"@) && !blocked(host_of(url.skip(8)))
    }
}

/// Whether a media URL may be passed on.
pub fn is_safe_media_url(url: &str, allowed_data_prefix: Option<&str>) -> (r: bool)
    ensures
        r == safe_url(url@, crate::text::opt_text(allowed_data_prefix)),
{
    if starts(url, "data:") {
        return match allowed_data_prefix {
            Some(prefix) => starts(url, prefix),
            None => true,
        };
    }
    if !starts(url, "https://") {
        return false;
    }
    proof {
        reveal_strlit("https://");
    }
    let rest = after(url, 8);
    !is_blocked_host(host_from_authority(rest.as_str()))
}

/// Whether an image URL may be passed on.
pub fn is_safe_image_url(url: &str) -> (r: bool)
    ensures
        r == safe_url(url@, Some("data:image/"@)),
{
    is_safe_media_url(url, Some("data:image/"))
}

/// Whether an audio URL may be passed on.
pub fn is_safe_audio_url(url: &str) -> (r: bool)
    ensures
        r == safe_url(url@, Some("data:audio/"@)),
{
    is_safe_media_url(url, Some("data:audio/"))
}

/// A URL that is passed on names no host that is kept out of reach.
pub proof fn safe_urls_reach_no_blocked_host(url: Seq<char>, data_prefix: Option<Seq<char>>)
    requires
        safe_url(url, data_prefix),
    ensures
        begins(url, "data:"@) || begins(url, "https://"@) && !blocked(host_of(url.skip(8))),
        data_prefix matches Some(p) ==> begins(url, "data:"@) ==> begins(url, p),
        url.len() > 0,
{
    reveal_strlit("data:");
    reveal_strlit("https://");
}

/// The first `max` characters of a text.
pub open spec fn cut(s: Seq<char>, max: int) -> Seq<char> {
    if s.len() <= max {
        s
    } else {
        s.take(max)
    }
}

/// The first `max` characters of a text.
pub fn truncate(s: &str, max: usize) -> (r: String)
    ensures
        r@ == cut(s@, max as int),
{
    let v = chars_of(s);
    if v.len() <= max {
        return s.to_owned();
    }
    let r = text_of(&v, 0, max);
    assert(r@ =~= s@.take(max as int));
    r
}

/// A media item: a Chat content part, or why it was rejected.
#[derive(Debug)]
pub enum MediaConversion {
    Part(Json),
    Rejected(String),
}

impl View for MediaConversion {
    type V = Result<Tree, Seq<char>>;

    open spec fn view(&self) -> Result<Tree, Seq<char>> {
        match self {
            MediaConversion::Part(p) => Ok(p@),
            MediaConversion::Rejected(s) => Err(s@),
        }
    }
}

/// The URL of an image item, and what else its `image_url` holds.
pub open spec fn image_source(
    item: Map<Seq<char>, Tree>,
) -> Option<(Seq<char>, Map<Seq<char>, Tree>)> {
    match member(item, "image_url"@) {
        Some(Tree::Str(s)) => if s.len() > 0 {
            Some((s, Map::empty()))
        } else {
            None
        },
        Some(Tree::Object(o)) => match nonempty(text_at(o, "url"@)) {
            Some(u) => Some((u, o)),
            None => None,
        },
        _ => None,
    }
}

/// The Chat content part of an image item.
pub open spec fn image_part(item: Map<Seq<char>, Tree>) -> Result<Tree, Seq<char>> {
    match image_source(item) {
        None => Err("input_image missing url"@),
        Some((url, rest)) => if !safe_url(url, Some("data:image/"@)) {
            Err(
                "Rejected unsafe image URL (only https:// to public hosts and data:image/ allowed): "@
                    + cut(url, 60),
            )
        } else {
            let own = rest.insert("url"@, Tree::Str(url));
            let payload = match nonempty(text_at(item, "detail"@)) {
                Some(d) => if own.contains_key("detail"@) {
                    own
                } else {
                    own.insert("detail"@, Tree::Str(d))
                },
                None => own,
            };
            Ok(
                Tree::Object(
                    map![
                        "type"@ => Tree::Str("image_url"@),
                        "image_url"@ => Tree::Object(payload),
                    ],
                ),
            )
        },
    }
}

/// Convert an image item to a Chat content part.
pub fn image_part_from_input_item(item: &Object) -> (r: MediaConversion)
    ensures
        r@ == image_part(item@),
{
    let source: Option<(String, Object)> = match item.get("image_url") {
        Some(Json::Str(s)) => {
            if s.as_str().is_empty() {
                None
            } else {
                Some((s.clone(), Object::new()))
            }
        },
        Some(Json::Object(o)) => match nonempty_text(o.get_str("url")) {
            Some(u) => Some((u.to_owned(), o.clone())),
            None => None,
        },
        _ => None,
    };
    let (url, rest) = match source {
        Some(p) => p,
        None => {
            return MediaConversion::Rejected("input_image missing url".to_owned());
        },
    };
    if !is_safe_image_url(url.as_str()) {
        return MediaConversion::Rejected(
            cat(
                "Rejected unsafe image URL (only https:// to public hosts and data:image/ allowed): ",
                truncate(url.as_str(), 60).as_str(),
            ),
        );
    }
    let mut payload = rest;
    payload.insert("url", Json::Str(url));
    if let Some(detail) = nonempty_text(item.get_str("detail")) {
        if !payload.has("detail") {
            payload.insert("detail", Json::text(detail));
        }
    }
    MediaConversion::Part(
        Json::Object(
            Object::new().with("type", Json::text("image_url")).with(
                "image_url",
                Json::Object(payload),
            ),
        ),
    )
}

/// A text field of an audio item: that of its `input_audio`, or its own.
pub open spec fn audio_field(
    item: Map<Seq<char>, Tree>,
    nested: Seq<char>,
    own: Seq<char>,
) -> Option<Seq<char>> {
    let inner = match members_in(member(item, "input_audio"@)) {
        Some(n) => text_at(n, nested),
        None => None,
    };
    match inner {
        Some(s) => Some(s),
        None => text_at(item, own),
    }
}

/// A text field of an audio item.
fn audio_text(item: &Object, nested: &str, own: &str) -> (r: Option<String>)
    ensures
        opt_string(r) == audio_field(item@, nested@, own@),
{
    if let Some(Json::Object(n)) = item.get("input_audio") {
        if let Some(s) = n.get_str(nested) {
            return Some(s.to_owned());
        }
    }
    own_opt(item.get_str(own))
}

/// The URL, the data and the format of an audio item.
pub fn audio_source(item: &Object) -> (r: (Option<String>, Option<String>, Option<String>))
    ensures
        opt_string(r.0) == audio_field(item@, "url"@, "audio_url"@),
        opt_string(r.1) == audio_field(item@, "data"@, "data"@),
        opt_string(r.2) == audio_field(item@, "format"@, "format"@),
{
    (
        audio_text(item, "url", "audio_url"),
        audio_text(item, "data", "data"),
        audio_text(item, "format", "format"),
    )
}

/// Whether an audio format is accepted.
pub open spec fn audio_format(f: Seq<char>) -> bool {
    f == "wav"@ || f == "mp3"@ || f == "flac"@ || f == "ogg"@ || f == "m4a"@ || f == "aac"@
}

/// A Chat audio part with one member.
pub open spec fn audio_part_of(k: Seq<char>, v: Seq<char>) -> Tree {
    Tree::Object(
        map![
            "type"@ => Tree::Str("input_audio"@),
            "input_audio"@ => Tree::Object(map![k => Tree::Str(v)]),
        ],
    )
}

/// The Chat content part of an audio item: its URL, or else its data, which
/// becomes a `data:` URI of its format where it is none yet.
pub open spec fn audio_part(item: Map<Seq<char>, Tree>) -> Result<Tree, Seq<char>> {
    match nonempty(audio_field(item, "url"@, "audio_url"@)) {
        Some(url) => if safe_url(url, Some("data:audio/"@)) {
            Ok(audio_part_of("url"@, url))
        } else {
            Err(
                "Rejected unsafe audio URL (only https:// to public hosts and data:audio/ allowed): "@
                    + cut(url, 60),
            )
        },
        None => match nonempty(audio_field(item, "data"@, "data"@)) {
            Some(data) => if begins(data, "data:"@) {
                Ok(audio_part_of("data"@, data))
            } else {
                let named = match audio_field(item, "format"@, "format"@) {
                    Some(f) => nonempty(Some(trim(f))),
                    None => None,
                };
                let format = lower(
                    match named {
                        Some(f) => f,
                        None => "wav"@,
                    },
                );
                if audio_format(format) {
                    Ok(audio_part_of("data"@, "data:audio/"@ + format + ";base64,"@ + data))
                } else {
                    Err(
                        "Rejected unsupported audio format: "@ + debug_text(format)
                            + " (allowed: [\"wav\", \"mp3\", \"flac\", \"ogg\", \"m4a\", \"aac\"])"@,
                    )
                }
            },
            None => Err("input_audio missing url and data"@),
        },
    }
}

fn make_audio_part(k: &str, v: &str) -> (r: MediaConversion)
    ensures
        r@ == Ok::<Tree, Seq<char>>(audio_part_of(k@, v@)),
{
    MediaConversion::Part(
        Json::Object(
            Object::new().with("type", Json::text("input_audio")).with(
                "input_audio",
                object_of(k, Json::text(v)),
            ),
        ),
    )
}

/// Convert an audio item to a Chat content part.
pub fn audio_part_from_input_item(item: &Object) -> (r: MediaConversion)
    ensures
        r@ == audio_part(item@),
{
    let (url, data, format) = audio_source(item);
    if let Some(url) = url {
        if !url.as_str().is_empty() {
            if !is_safe_audio_url(url.as_str()) {
                return MediaConversion::Rejected(
                    cat(
                        "Rejected unsafe audio URL (only https:// to public hosts and data:audio/ allowed): ",
                        truncate(url.as_str(), 60).as_str(),
                    ),
                );
            }
            return make_audio_part("url", url.as_str());
        }
    }
    if let Some(data) = data {
        if !data.as_str().is_empty() {
            if starts(data.as_str(), "data:") {
                return make_audio_part("data", data.as_str());
            }
            let mut named = "wav".to_owned();
            if let Some(f) = format {
                let f = trimmed(f.as_str());
                if !f.as_str().is_empty() {
                    named = f;
                }
            }
            let fmt = lowered(named.as_str());
            let f = fmt.as_str();
            if !(same(f, "wav") || same(f, "mp3") || same(f, "flac") || same(f, "ogg") || same(
                f,
                "m4a",
            ) || same(f, "aac")) {
                return MediaConversion::Rejected(
                    cat3(
                        "Rejected unsupported audio format: ",
                        quoted(f).as_str(),
                        " (allowed: [\"wav\", \"mp3\", \"flac\", \"ogg\", \"m4a\", \"aac\"])",
                    ),
                );
            }
            let mut uri = cat3("data:audio/", f, ";base64,");
            uri.push_str(data.as_str());
            return make_audio_part("data", uri.as_str());
        }
    }
    MediaConversion::Rejected("input_audio missing url and data".to_owned())
}

} // verus!
