//! Reasoning: the effort policy, and reasoning inside message text.
//!
//! A caller's effort is normalized into a small canonical set, and the provider
//! family that the model name belongs to decides how it goes onto the wire.
//! Reasoning that a model writes into its message text, between think tags, is
//! parted from the answer.
use vstd::prelude::*;
use crate::json::{text_at, Object, Tree};
use crate::text::{
    begins, cat, chars_of, is_space, join, lower, lower_char, lowered, occurs, occurs_at,
    opt_string, opt_text, same, starts, text_of, trim, trim_start, trimmed,
};
use crate::utf8::{byte_len, bytes_of_prefix, char_index, lemma_prefix_grows};

verus! {

/// A caller's effort after normalization. `Unspecified` means that the caller
/// sent none.
#[derive(Debug, Clone, Copy, PartialEq, Eq, Structural)]
pub enum CanonicalEffort {
    Unspecified,
    Off,
    High,
    XHigh,
}

impl CanonicalEffort {
    /// The `reasoning_effort` text of this effort.
    pub open spec fn label(self) -> Seq<char> {
        match self {
            CanonicalEffort::Unspecified => "unspecified"@,
            CanonicalEffort::Off => "none"@,
            CanonicalEffort::High => "high"@,
            CanonicalEffort::XHigh => "xhigh"@,
        }
    }

    /// The `reasoning_effort` text of this effort.
    pub fn wire_str(self) -> (r: &'static str)
        ensures
            r@ == self.label(),
    {
        match self {
            CanonicalEffort::Unspecified => "unspecified",
            CanonicalEffort::Off => "none",
            CanonicalEffort::High => "high",
            CanonicalEffort::XHigh => "xhigh",
        }
    }
}

/// How a provider family takes reasoning parameters: `Effort` accepts a
/// `reasoning_effort`, `Passthrough` is sent none.
#[derive(Debug, Clone, Copy, PartialEq, Eq, Structural)]
pub enum Bucket {
    Effort,
    Passthrough,
}

/// Whether a model name names one of the given families: a family name, in any
/// letter case, at the start or after a slash or a hyphen.
pub open spec fn names_family(model: Seq<char>, words: Seq<Seq<char>>) -> bool {
    exists|i: int, k: int|
        #![trigger occurs_at(lower(model), words[k], i)]
        0 <= k < words.len() && occurs_at(lower(model), words[k], i) && (i == 0 || model[i - 1]
            == '/' || model[i - 1] == '-')
}

/// The pattern that finds one of the given family names.
pub open spec fn family_pattern(words: Seq<Seq<char>>) -> Seq<char> {
    "(?i)(?:^|[/\\-])("@ + join(words, "|"@) + ")"@
}

/// The families that are sent no reasoning parameters.
pub open spec fn passthrough_families() -> Seq<Seq<char>> {
    seq!["kimi"@, "moonshot"@]
}

/// The bucket of a model.
pub open spec fn bucket_of(model: Seq<char>) -> Bucket {
    if names_family(trim(model), passthrough_families()) {
        Bucket::Passthrough
    } else {
        Bucket::Effort
    }
}

/// The canonical effort of a caller's effort. An unknown one counts as high.
pub open spec fn canonical_effort(value: Option<Seq<char>>) -> CanonicalEffort {
    match value {
        None => CanonicalEffort::Unspecified,
        Some(v) => {
            let raw = lower(trim(v));
            if raw.len() == 0 {
                CanonicalEffort::Unspecified
            } else if raw == "off"@ || raw == "disabled"@ || raw == "false"@ || raw == "none"@
                || raw == "minimal"@ {
                CanonicalEffort::Off
            } else if raw == "xhigh"@ || raw == "max"@ {
                CanonicalEffort::XHigh
            } else {
                CanonicalEffort::High
            }
        },
    }
}

/// The `reasoning_effort` that goes onto the wire, if any.
pub open spec fn wire_effort(model: Seq<char>, effort: CanonicalEffort) -> Option<Seq<char>> {
    if effort == CanonicalEffort::Unspecified || bucket_of(model) == Bucket::Passthrough {
        None
    } else {
        Some(effort.label())
    }
}

/// `regex_lite::Error`, of which nothing is claimed.
#[verifier::external_type_specification]
#[verifier::external_body]
pub struct ExRegexError(regex_lite::Error);

/// `regex_lite::Regex::is_match`: whether the pattern matches anywhere in the
/// text. For a family pattern, that is whether the text names a family; letter
/// case is ignored for ASCII letters.
#[verifier::external_body]
fn regex_is_match(pattern: &str, text: &str) -> (r: Result<bool, regex_lite::Error>)
    ensures
        match r {
            Ok(found) => pattern@ == family_pattern(passthrough_families()) ==> found
                == names_family(text@, passthrough_families()),
            Err(_) => pattern@ != family_pattern(passthrough_families()),
        },
{
    let re = regex_lite::Regex::new(pattern)?;
    Ok(re.is_match(text))
}

/// Whether `model` names one of the families that are sent no reasoning
/// parameters.
fn names_passthrough_family(model: &str) -> (r: bool)
    ensures
        r == names_family(model@, passthrough_families()),
{
    let pattern = "(?i)(?:^|[/\\-])(kimi|moonshot)";
    proof {
        let words = passthrough_families();
        reveal_strlit("kimi");
        reveal_strlit("moonshot");
        reveal_strlit("|");
        reveal_strlit(")");
        reveal_strlit("(?i)(?:^|[/\\-])(");
        reveal_strlit("(?i)(?:^|[/\\-])(kimi|moonshot)");
        reveal_with_fuel(join, 3);
        assert(words.drop_last() =~= seq!["kimi"@]);
        assert(join(words, "|"@) == "kimi"@ + "|"@ + "moonshot"@);
        assert(pattern@ =~= family_pattern(words));
    }
    match regex_is_match(pattern, model) {
        Ok(found) => found,
        Err(_) => false,
    }
}

/// The bucket of a model.
pub fn select_bucket(model: &str) -> (r: Bucket)
    ensures
        r == bucket_of(model@),
{
    let model = trimmed(model);
    if names_passthrough_family(model.as_str()) {
        Bucket::Passthrough
    } else {
        Bucket::Effort
    }
}

/// Normalize a caller's effort.
pub fn normalize_canonical_effort(value: Option<&str>) -> (r: CanonicalEffort)
    ensures
        r == canonical_effort(opt_text(value)),
{
    match value {
        None => CanonicalEffort::Unspecified,
        Some(v) => {
            let raw = lowered(trimmed(v).as_str());
            let raw = raw.as_str();
            if raw.is_empty() {
                CanonicalEffort::Unspecified
            } else if same(raw, "off") || same(raw, "disabled") || same(raw, "false") || same(
                raw,
                "none",
            ) || same(raw, "minimal") {
                CanonicalEffort::Off
            } else if same(raw, "xhigh") || same(raw, "max") {
                CanonicalEffort::XHigh
            } else {
                CanonicalEffort::High
            }
        },
    }
}

/// The `reasoning_effort` to send for a model and an effort, if any.
pub fn wire_reasoning_effort(model: &str, effort: CanonicalEffort) -> (r: Option<&'static str>)
    ensures
        opt_text(r) == wire_effort(model@, effort),
{
    if effort == CanonicalEffort::Unspecified {
        return None;
    }
    match select_bucket(model) {
        Bucket::Effort => Some(effort.wire_str()),
        Bucket::Passthrough => None,
    }
}

/// A model of a passthrough family is never sent an effort.
pub proof fn passthrough_models_get_no_effort(model: Seq<char>, effort: CanonicalEffort)
    requires
        names_family(trim(model), passthrough_families()),
    ensures
        wire_effort(model, effort) is None,
{
}

/// The think tags.
#[derive(Debug, Clone, Copy, PartialEq, Eq, Structural)]
pub enum Tag {
    Open,
    Close,
    Any,
}

impl Tag {
    /// The pattern that finds the tag.
    pub open spec fn pattern_text(self) -> Seq<char> {
        match self {
            Tag::Open => "(?i)<(?:think|thinking)\\s*>"@,
            Tag::Close => "(?i)</(?:think|thinking)\\s*>"@,
            Tag::Any => "(?i)</?(?:think|thinking)\\s*>"@,
        }
    }

    /// The pattern that finds the tag.
    pub fn pattern(self) -> (r: &'static str)
        ensures
            r@ == self.pattern_text(),
    {
        match self {
            Tag::Open => "(?i)<(?:think|thinking)\\s*>",
            Tag::Close => "(?i)</(?:think|thinking)\\s*>",
            Tag::Any => "(?i)</?(?:think|thinking)\\s*>",
        }
    }
}

/// The white space of a tag: ASCII white space.
pub open spec fn is_tag_space(c: char) -> bool {
    '\u{9}' <= c <= '\u{d}' || c == ' '
}

/// Whether a text is tag white space alone.
pub open spec fn all_tag_space(s: Seq<char>) -> bool {
    forall|i: int| 0 <= i < s.len() ==> is_tag_space(#[trigger] s[i])
}

/// Whether a text is a tag name, in lower case, with white space behind it.
pub open spec fn is_tag_name(s: Seq<char>) -> bool {
    ||| begins(s, "think"@) && all_tag_space(s.skip("think"@.len() as int))
    ||| begins(s, "thinking"@) && all_tag_space(s.skip("thinking"@.len() as int))
}

/// Whether a text in lower case is what stands inside the brackets of the tag.
pub open spec fn is_tag_inner(s: Seq<char>, tag: Tag) -> bool {
    match tag {
        Tag::Open => is_tag_name(s),
        Tag::Close => s.len() > 0 && s[0] == '/' && is_tag_name(s.skip(1)),
        Tag::Any => is_tag_name(s) || s.len() > 0 && s[0] == '/' && is_tag_name(s.skip(1)),
    }
}

/// Whether the tag stands in `s` from position `i` to position `j`.
pub open spec fn tag_at(s: Seq<char>, tag: Tag, i: int, j: int) -> bool {
    &&& 0 <= i
    &&& i + 2 <= j
    &&& j <= s.len()
    &&& s[i] == '<'
    &&& s[j - 1] == '>'
    &&& is_tag_inner(lower(s.subrange(i + 1, j - 1)), tag)
}

/// Whether the first such tag of `s` stands from `i` to `j`.
pub open spec fn first_tag_at(s: Seq<char>, tag: Tag, i: int, j: int) -> bool {
    &&& tag_at(s, tag, i, j)
    &&& forall|i2: int, j2: int| i2 < i ==> !#[trigger] tag_at(s, tag, i2, j2)
}

/// Where the first such tag of `s` stands.
pub open spec fn first_tag(s: Seq<char>, tag: Tag) -> Option<(int, int)> {
    if exists|i: int, j: int| first_tag_at(s, tag, i, j) {
        Some(choose|i: int, j: int| first_tag_at(s, tag, i, j))
    } else {
        None
    }
}

/// `s` without any of its tags.
pub open spec fn without_tags(s: Seq<char>) -> Seq<char>
    decreases s.len(),
{
    match first_tag(s, Tag::Any) {
        Some((i, j)) => if 0 <= i < j <= s.len() {
            s.take(i) + without_tags(s.skip(j))
        } else {
            s
        },
        None => s,
    }
}

/// What stands between two bytes of a text's encoding, by characters.
pub open spec fn spans(s: Seq<char>, span: (usize, usize), i: int, j: int) -> bool {
    span.0 == byte_len(s.take(i)) && span.1 == byte_len(s.take(j))
}

/// Whether `found` is where the first such tag of `s` stands, in bytes.
pub open spec fn finds(s: Seq<char>, tag: Tag, found: Option<(usize, usize)>) -> bool {
    match found {
        Some(span) => exists|i: int, j: int| #[trigger]
            first_tag_at(s, tag, i, j) && spans(s, span, i, j),
        None => forall|i: int, j: int| !#[trigger] tag_at(s, tag, i, j),
    }
}

/// `regex_lite::Regex::find`: the leftmost match, by its first and last byte.
/// For the think tags that is the first tag of the text.
#[verifier::external_body]
fn regex_find(pattern: &str, text: &str) -> (r: Result<Option<(usize, usize)>, regex_lite::Error>)
    ensures
        match r {
            Ok(found) => {
                &&& pattern@ == Tag::Open.pattern_text() ==> finds(text@, Tag::Open, found)
                &&& pattern@ == Tag::Close.pattern_text() ==> finds(text@, Tag::Close, found)
                &&& pattern@ == Tag::Any.pattern_text() ==> finds(text@, Tag::Any, found)
            },
            Err(_) => {
                &&& pattern@ != Tag::Open.pattern_text()
                &&& pattern@ != Tag::Close.pattern_text()
                &&& pattern@ != Tag::Any.pattern_text()
            },
        },
{
    let re = regex_lite::Regex::new(pattern)?;
    Ok(re.find(text).map(|m| (m.start(), m.end())))
}

/// `regex_lite::Regex::replace_all` with nothing: the text without the matches,
/// taken from left to right.
#[verifier::external_body]
fn regex_erase(pattern: &str, text: &str) -> (r: Result<String, regex_lite::Error>)
    ensures
        match r {
            Ok(s) => pattern@ == Tag::Any.pattern_text() ==> s@ == without_tags(text@),
            Err(_) => pattern@ != Tag::Any.pattern_text(),
        },
{
    let re = regex_lite::Regex::new(pattern)?;
    Ok(re.replace_all(text, "").into_owned())
}

proof fn lemma_name_has_no_bracket(s: Seq<char>)
    requires
        is_tag_name(s),
    ensures
        forall|k: int| 0 <= k < s.len() ==> #[trigger] s[k] != '>',
{
    reveal_strlit("think");
    reveal_strlit("thinking");
    assert forall|k: int| 0 <= k < s.len() implies #[trigger] s[k] != '>' by {
        if begins(s, "think"@) && all_tag_space(s.skip(5)) {
            if k < 5 {
                assert(s.subrange(0, 5)[k] == "think"@[k]);
            } else {
                assert(is_tag_space(s.skip(5)[k - 5]));
            }
        } else {
            if k < 8 {
                assert(s.subrange(0, 8)[k] == "thinking"@[k]);
            } else {
                assert(is_tag_space(s.skip(8)[k - 8]));
            }
        }
    }
}

/// A tag that begins at a position ends at one position only.
pub proof fn lemma_tag_end_unique(s: Seq<char>, tag: Tag, i: int, j1: int, j2: int)
    requires
        tag_at(s, tag, i, j1),
        tag_at(s, tag, i, j2),
    ensures
        j1 >= j2,
{
    if j1 < j2 {
        lemma_no_tag_inside(s, tag, i, j1, j2);
    }
}

proof fn lemma_no_tag_inside(s: Seq<char>, tag: Tag, i: int, j1: int, j2: int)
    requires
        tag_at(s, tag, i, j2),
        i + 2 <= j1 < j2,
    ensures
        s[j1 - 1] != '>',
{
    let inner = lower(s.subrange(i + 1, j2 - 1));
    let k = j1 - 1 - (i + 1);
    assert(s.subrange(i + 1, j2 - 1)[k] == s[j1 - 1]);
    assert(inner[k] == lower_char(s[j1 - 1]));
    if is_tag_name(inner) {
        lemma_name_has_no_bracket(inner);
    } else {
        lemma_name_has_no_bracket(inner.skip(1));
        if k > 0 {
            assert(inner.skip(1)[k - 1] == inner[k]);
        }
    }
}

/// There is at most one first tag.
pub proof fn lemma_first_tag(s: Seq<char>, tag: Tag, i: int, j: int)
    requires
        first_tag_at(s, tag, i, j),
    ensures
        first_tag(s, tag) == Some((i, j)),
{
    let (a, b) = choose|a: int, b: int| first_tag_at(s, tag, a, b);
    assert(first_tag_at(s, tag, a, b));
    assert(a == i) by {
        if a < i {
            assert(!tag_at(s, tag, a, b));
        }
        if i < a {
            assert(!tag_at(s, tag, i, j));
        }
    }
    lemma_tag_end_unique(s, tag, i, b, j);
    lemma_tag_end_unique(s, tag, i, j, b);
}

/// Where the first such tag of `text` stands, counted in characters.
pub fn find_tag(text: &str, tag: Tag) -> (r: Option<(usize, usize)>)
    ensures
        match r {
            Some((i, j)) => first_tag(text@, tag) == Some((i as int, j as int)) && first_tag_at(
                text@,
                tag,
                i as int,
                j as int,
            ),
            None => first_tag(text@, tag) is None,
        },
{
    match regex_find(tag.pattern(), text) {
        Ok(Some((a, b))) => {
            let v = chars_of(text);
            assert(exists|i: int| 0 <= i <= v@.len() && a == #[trigger] byte_len(v@.take(i)));
            assert(exists|i: int| 0 <= i <= v@.len() && b == #[trigger] byte_len(v@.take(i)));
            let i = char_index(&v, a);
            let j = char_index(&v, b);
            proof {
                let (x, y) = choose|x: int, y: int| #[trigger]
                    first_tag_at(text@, tag, x, y) && spans(text@, (a, b), x, y);
                lemma_same_prefix(text@, x, i as int);
                lemma_same_prefix(text@, y, j as int);
                lemma_first_tag(text@, tag, i as int, j as int);
            }
            Some((i, j))
        },
        Ok(None) => None,
        Err(_) => None,
    }
}

proof fn lemma_same_prefix(s: Seq<char>, i: int, j: int)
    requires
        0 <= i <= s.len(),
        0 <= j <= s.len(),
        byte_len(s.take(i)) == byte_len(s.take(j)),
    ensures
        i == j,
{
    if i <= j {
        lemma_prefix_grows(s, i, j);
    } else {
        lemma_prefix_grows(s, j, i);
    }
}

/// The reasoning and the answer of a text with a think block. A block that is
/// never closed takes the rest of the text, and leaves no answer. A block with
/// nothing in it is no think block.
pub open spec fn inline_think(text: Seq<char>) -> Option<(Seq<char>, Seq<char>)> {
    match first_tag(text, Tag::Open) {
        None => None,
        Some((i, j)) => {
            let rest = text.skip(j);
            let (reasoning, answer) = match first_tag(rest, Tag::Close) {
                None => (trim(without_tags(rest)), Seq::empty()),
                Some((a, b)) => (trim(rest.take(a)), trim(text.take(i) + rest.skip(b))),
            };
            if reasoning.len() == 0 {
                None
            } else {
                Some((reasoning, answer))
            }
        },
    }
}

/// The model of an optional pair of texts.
pub open spec fn opt_pair(o: Option<(String, String)>) -> Option<(Seq<char>, Seq<char>)> {
    match o {
        Some((a, b)) => Some((a@, b@)),
        None => None,
    }
}

/// Part a text with a think block into reasoning and answer.
pub fn split_inline_think(text: &str) -> (r: Option<(String, String)>)
    ensures
        opt_pair(r) == inline_think(text@),
{
    match find_tag(text, Tag::Open) {
        None => None,
        Some((i, j)) => {
            let v = chars_of(text);
            let rest = text_of(&v, j, v.len());
            assert(rest@ =~= text@.skip(j as int));
            let (reasoning, answer) = match find_tag(rest.as_str(), Tag::Close) {
                None => {
                    let erased = match regex_erase(Tag::Any.pattern(), rest.as_str()) {
                        Ok(s) => s,
                        Err(_) => rest,
                    };
                    (trimmed(erased.as_str()), String::new())
                },
                Some((a, b)) => {
                    let w = chars_of(rest.as_str());
                    let inner = text_of(&w, 0, a);
                    assert(inner@ =~= rest@.take(a as int));
                    let before = text_of(&v, 0, i);
                    assert(before@ =~= text@.take(i as int));
                    let behind = text_of(&w, b, w.len());
                    assert(behind@ =~= rest@.skip(b as int));
                    (
                        trimmed(inner.as_str()),
                        trimmed(cat(before.as_str(), behind.as_str()).as_str()),
                    )
                },
            };
            if reasoning.as_str().is_empty() {
                None
            } else {
                Some((reasoning, answer))
            }
        },
    }
}

/// The byte just past an open tag that stands at the very start of `buf`.
pub fn match_think_open_at_start(buf: &str) -> (r: Option<usize>)
    ensures
        match r {
            Some(n) => first_tag(buf@, Tag::Open) matches Some((i, j)) && i == 0 && n == byte_len(
                buf@.take(j),
            ),
            None => !(first_tag(buf@, Tag::Open) matches Some((i, j)) && i == 0),
        },
{
    match find_tag(buf, Tag::Open) {
        Some((i, j)) => {
            if i == 0 {
                let v = chars_of(buf);
                Some(bytes_of_prefix(buf, &v, j))
            } else {
                None
            }
        },
        None => None,
    }
}

/// The first and last byte of the first close tag of `text`.
pub fn find_think_close(text: &str) -> (r: Option<(usize, usize)>)
    ensures
        match r {
            Some(span) => first_tag(text@, Tag::Close) matches Some((i, j)) && spans(
                text@,
                span,
                i,
                j,
            ),
            None => first_tag(text@, Tag::Close) is None,
        },
{
    match find_tag(text, Tag::Close) {
        Some((i, j)) => {
            let v = chars_of(text);
            Some((bytes_of_prefix(text, &v, i), bytes_of_prefix(text, &v, j)))
        },
        None => None,
    }
}

/// Whether a text is white space alone.
pub open spec fn all_space(s: Seq<char>) -> bool {
    forall|i: int| 0 <= i < s.len() ==> is_space(#[trigger] s[i])
}

/// Whether `s` is `stem` with at least one character of white space behind it.
pub open spec fn spaced(s: Seq<char>, stem: Seq<char>) -> bool {
    begins(s, stem) && s.len() > stem.len() && all_space(s.skip(stem.len() as int))
}

/// Whether a buffer may still grow into an open tag.
pub open spec fn partial_open(buffer: Seq<char>) -> bool {
    let b = lower(trim_start(buffer));
    b.len() > 0 && (begins("<think>"@, b) || begins("<thinking>"@, b) || spaced(b, "<think"@)
        || spaced(b, "<thinking"@))
}

/// Whether a text in lower case may still grow into a close tag.
pub open spec fn partial_close(s: Seq<char>) -> bool {
    begins("</think>"@, s) || begins("</thinking>"@, s) || spaced(s, "</think"@) || spaced(
        s,
        "</thinking"@,
    )
}

/// The longest of the last `n` characters of `s`, or fewer, that may still grow
/// into a close tag.
pub open spec fn longest_partial_close(s: Seq<char>, n: int) -> int
    decreases n,
{
    if n <= 0 {
        0
    } else if partial_close(lower(s).skip(s.len() - n)) {
        n
    } else {
        longest_partial_close(s, n - 1)
    }
}

/// How many characters at the end of `s` may still grow into a close tag.
pub open spec fn held_back(s: Seq<char>) -> int {
    longest_partial_close(s, s.len() as int)
}

fn is_spaced(s: &Vec<char>, stem: &str) -> (r: bool)
    ensures
        r == spaced(s@, stem@),
{
    let st = chars_of(stem);
    if !occurs(s, &st, 0) || s.len() <= st.len() {
        return false;
    }
    let mut i: usize = st.len();
    while i < s.len()
        invariant
            st@.len() <= i <= s@.len(),
            st@ == stem@,
            forall|j: int| st@.len() <= j < i ==> is_space(#[trigger] s@[j]),
        decreases s.len() - i,
    {
        if !crate::text::is_space_char(s[i]) {
            proof {
                let tail = s@.skip(stem@.len() as int);
                assert(tail[i - stem@.len()] == s@[i as int]);
                assert(!all_space(tail));
            }
            return false;
        }
        i += 1;
    }
    true
}

/// Whether `buffer` may still grow into an open tag.
pub fn could_be_partial_think_open(buffer: &str) -> (r: bool)
    ensures
        r == partial_open(buffer@),
{
    let b = lowered(crate::text::trimmed_start(buffer).as_str());
    if b.as_str().is_empty() {
        return false;
    }
    let v = chars_of(b.as_str());
    starts("<think>", b.as_str()) || starts("<thinking>", b.as_str()) || is_spaced(&v, "<think")
        || is_spaced(&v, "<thinking")
}

/// How many characters at the end of `text` may still grow into a close tag.
pub fn held_back_chars(text: &str) -> (r: usize)
    ensures
        r == held_back(text@),
        r <= text@.len(),
{
    let low = chars_of(lowered(text).as_str());
    let total: usize = low.len();
    let mut size: usize = total;
    proof {
        reveal_strlit("</think>");
        reveal_strlit("</thinking>");
        reveal_strlit("</think");
        reveal_strlit("</thinking");
    }
    while size > 0
        invariant
            size <= total,
            "</think>"@[0] == '<',
            "</thinking>"@[0] == '<',
            "</think"@[0] == '<',
            "</thinking"@[0] == '<',
            "</think"@.len() == 7,
            "</thinking"@.len() == 10,
            total == text@.len(),
            low@ == lower(text@),
            held_back(text@) == longest_partial_close(text@, size as int),
        decreases size,
    {
        let ghost end = lower(text@).skip(text@.len() - size);
        if low[total - size] == '<' {
            let candidate = text_of(&low, total - size, total);
            assert(candidate@ =~= end);
            let v = chars_of(candidate.as_str());
            if starts("</think>", candidate.as_str()) || starts("</thinking>", candidate.as_str())
                || is_spaced(&v, "</think") || is_spaced(&v, "</thinking") {
                return size;
            }
        } else {
            assert(end[0] != '<');
            assert(!partial_close(end)) by {
                assert(begins("</think>"@, end) ==> "</think>"@.subrange(0, size as int)[0]
                    == end[0]);
                assert(begins("</thinking>"@, end) ==> "</thinking>"@.subrange(0, size as int)[0]
                    == end[0]);
                assert(begins(end, "</think"@) ==> end.subrange(0, 7)[0] == "</think"@[0]);
                assert(begins(end, "</thinking"@) ==> end.subrange(0, 10)[0] == "</thinking"@[0]);
            }
        }
        size -= 1;
    }
    0
}

/// The bytes of the end of `text` that may still grow into a close tag.
pub fn trailing_partial_close_len(text: &str) -> (r: usize)
    ensures
        r == byte_len(lower(text@).skip(text@.len() - held_back(text@))),
{
    let n = held_back_chars(text);
    let low = chars_of(lowered(text).as_str());
    let tail = text_of(&low, low.len() - n, low.len());
    assert(tail@ =~= lower(text@).skip(text@.len() - n));
    tail.as_str().as_bytes().len()
}

/// A tag stands in the end of a text where it stands in the text.
pub proof fn lemma_tag_shift(s: Seq<char>, tag: Tag, k: int, i: int, j: int)
    requires
        0 <= k <= s.len(),
        0 <= i,
    ensures
        tag_at(s.skip(k), tag, i, j) == tag_at(s, tag, i + k, j + k),
{
    if i + 2 <= j && j + k <= s.len() {
        assert(s.skip(k).subrange(i + 1, j - 1) =~= s.subrange(i + k + 1, j + k - 1));
    }
}

/// The first tag of a text is still the first when more follows.
pub proof fn lemma_first_tag_stays(s: Seq<char>, more: Seq<char>, tag: Tag)
    requires
        first_tag(s, tag) is Some,
    ensures
        first_tag(s + more, tag) == first_tag(s, tag),
        ({
            let (i, j) = first_tag(s, tag)->0;
            tag_at(s, tag, i, j)
        }),
{
    let (i, j) = choose|i: int, j: int| first_tag_at(s, tag, i, j);
    assert(first_tag_at(s, tag, i, j));
    let all = s + more;
    assert(all.subrange(i + 1, j - 1) =~= s.subrange(i + 1, j - 1));
    assert(tag_at(all, tag, i, j));
    assert forall|i2: int, j2: int| i2 < i implies !#[trigger] tag_at(all, tag, i2, j2) by {
        if tag_at(all, tag, i2, j2) {
            if j2 <= s.len() {
                assert(all.subrange(i2 + 1, j2 - 1) =~= s.subrange(i2 + 1, j2 - 1));
                assert(tag_at(s, tag, i2, j2));
            } else {
                lemma_no_tag_inside(all, tag, i2, j, j2);
            }
        }
    }
    lemma_first_tag(all, tag, i, j);
}

/// Where a tag stands, one is the first.
pub proof fn lemma_some_tag_is_first(s: Seq<char>, tag: Tag, i: int, j: int)
    requires
        tag_at(s, tag, i, j),
    ensures
        first_tag(s, tag) is Some,
    decreases i,
{
    if !first_tag_at(s, tag, i, j) {
        let (a, b) = choose|a: int, b: int| a < i && #[trigger] tag_at(s, tag, a, b);
        lemma_some_tag_is_first(s, tag, a, b);
    }
}

/// What stands of a tag name, when its end is missing, is the name cut short or the
/// name with white space behind it.
proof fn lemma_name_cut(name: Seq<char>, stem: Seq<char>, head: Seq<char>, n: int)
    requires
        begins(name, stem),
        all_tag_space(name.skip(stem.len() as int)),
        0 <= n <= name.len(),
    ensures
        n <= stem.len() ==> begins(head + stem + ">"@, head + name.take(n)),
        n > stem.len() ==> spaced(head + name.take(n), head + stem),
{
    let t = head + name.take(n);
    if n <= stem.len() {
        let whole = head + stem + ">"@;
        assert forall|k: int| 0 <= k < t.len() implies whole.subrange(0, t.len() as int)[k]
            == t[k] by {
            if k >= head.len() {
                assert(name.subrange(0, stem.len() as int)[k - head.len()] == stem[k - head.len()]);
            }
        }
        assert(whole.subrange(0, t.len() as int) =~= t);
    } else {
        let st = head + stem;
        assert forall|k: int| 0 <= k < st.len() implies t.subrange(0, st.len() as int)[k]
            == st[k] by {
            if k >= head.len() {
                assert(name.subrange(0, stem.len() as int)[k - head.len()] == stem[k - head.len()]);
            }
        }
        assert(t.subrange(0, st.len() as int) =~= st);
        assert forall|k: int| 0 <= k < t.skip(st.len() as int).len() implies is_space(
            #[trigger] t.skip(st.len() as int)[k],
        ) by {
            assert(t.skip(st.len() as int)[k] == name.skip(stem.len() as int)[k]);
            assert(is_tag_space(name.skip(stem.len() as int)[k]));
        }
    }
}

/// A close tag whose end is missing may still grow into a close tag.
pub proof fn lemma_cut_close_tag(s: Seq<char>, i: int, n: int, j: int)
    requires
        tag_at(s, Tag::Close, i, j),
        i < n < j,
    ensures
        partial_close(lower(s.subrange(i, n))),
{
    reveal_strlit("think");
    reveal_strlit("thinking");
    reveal_strlit("</think");
    reveal_strlit("</thinking");
    reveal_strlit("</think>");
    reveal_strlit("</thinking>");
    reveal_strlit(">");
    let inner = lower(s.subrange(i + 1, j - 1));
    let name = inner.skip(1);
    let cut = lower(s.subrange(i, n));
    let head = seq!['<', '/'];
    assert(cut[0] == '<');
    if n == i + 1 {
        assert("</think>"@.subrange(0, 1) =~= cut);
    } else {
        assert(s.subrange(i + 1, j - 1)[0] == s[i + 1]);
        assert forall|k: int| 1 <= k < cut.len() implies cut[k] == inner[k - 1] by {
            assert(s.subrange(i, n)[k] == s.subrange(i + 1, j - 1)[k - 1]);
        }
        let m = n - i - 2;
        assert(cut =~= head + name.take(m));
        assert(head + "think"@ =~= "</think"@);
        assert(head + "thinking"@ =~= "</thinking"@);
        assert(head + "think"@ + ">"@ =~= "</think>"@);
        assert(head + "thinking"@ + ">"@ =~= "</thinking>"@);
        if begins(name, "think"@) && all_tag_space(name.skip("think"@.len() as int)) {
            lemma_name_cut(name, "think"@, head, m);
        } else {
            lemma_name_cut(name, "thinking"@, head, m);
        }
    }
}

/// An open tag whose end is missing may still grow into an open tag.
pub proof fn lemma_cut_open_tag(t: Seq<char>, k: int)
    requires
        tag_at(t, Tag::Open, 0, t.len() as int),
        0 < k < t.len(),
    ensures
        partial_open(t.take(k)),
{
    reveal_strlit("think");
    reveal_strlit("thinking");
    reveal_strlit("<think");
    reveal_strlit("<thinking");
    reveal_strlit("<think>");
    reveal_strlit("<thinking>");
    reveal_strlit(">");
    let cut = t.take(k);
    let name = lower(t.subrange(1, t.len() - 1));
    let head = seq!['<'];
    assert(trim_start(cut) == cut);
    let low = lower(cut);
    assert forall|m: int| 1 <= m < low.len() implies low[m] == name[m - 1] by {
        assert(cut[m] == t.subrange(1, t.len() - 1)[m - 1]);
    }
    assert(low =~= head + name.take(k - 1));
    assert(head + "think"@ =~= "<think"@);
    assert(head + "thinking"@ =~= "<thinking"@);
    assert(head + "think"@ + ">"@ =~= "<think>"@);
    assert(head + "thinking"@ + ">"@ =~= "<thinking>"@);
    if begins(name, "think"@) && all_tag_space(name.skip("think"@.len() as int)) {
        lemma_name_cut(name, "think"@, head, k - 1);
    } else {
        lemma_name_cut(name, "thinking"@, head, k - 1);
    }
}

/// At least as much is held back as may grow into a close tag.
pub proof fn lemma_held_back(s: Seq<char>, n: int, m: int)
    requires
        0 < m <= n <= s.len(),
        partial_close(lower(s).skip(s.len() - m)),
    ensures
        m <= longest_partial_close(s, n) <= n,
    decreases n,
{
    if !partial_close(lower(s).skip(s.len() - n)) {
        lemma_held_back(s, n - 1, m);
    }
}

/// What is held back is at most what is looked at.
pub proof fn lemma_longest_bound(s: Seq<char>, n: int)
    requires
        0 <= n,
    ensures
        0 <= longest_partial_close(s, n) <= n,
    decreases n,
{
    if n > 0 {
        lemma_longest_bound(s, n - 1);
    }
}

/// Whether a text is one tag from its first to its last character.
pub open spec fn is_whole_tag(s: Seq<char>, tag: Tag) -> bool {
    first_tag(s, tag) == Some((0int, s.len() as int))
}

/// Whether a text can grow into one tag.
pub open spec fn can_become(s: Seq<char>, tag: Tag) -> bool {
    exists|more: Seq<char>| is_whole_tag(#[trigger] (s + more), tag)
}

/// Whether all white space of a text is of the kind that tags may hold.
pub open spec fn tag_spaced(s: Seq<char>) -> bool {
    forall|i: int| 0 <= i < s.len() && is_space(#[trigger] s[i]) ==> is_tag_space(s[i])
}

proof fn lemma_whole_tag(s: Seq<char>, tag: Tag)
    ensures
        is_whole_tag(s, tag) == tag_at(s, tag, 0, s.len() as int),
{
    if tag_at(s, tag, 0, s.len() as int) {
        assert(first_tag_at(s, tag, 0, s.len() as int));
        lemma_first_tag(s, tag, 0, s.len() as int);
    }
    if is_whole_tag(s, tag) {
        let (i, j) = choose|i: int, j: int| first_tag_at(s, tag, i, j);
        assert(first_tag_at(s, tag, i, j));
    }
}

/// A text that is a bracket, a name with white space and a bracket in lower case is a
/// tag.
proof fn lemma_lower_tag(s: Seq<char>, tag: Tag)
    requires
        s.len() >= 2,
        lower(s)[0] == '<',
        lower(s).last() == '>',
        is_tag_inner(lower(s).subrange(1, s.len() - 1), tag),
    ensures
        is_whole_tag(s, tag),
{
    assert(lower(s.subrange(1, s.len() - 1)) =~= lower(s).subrange(1, s.len() - 1));
    assert(lower(s)[0] == lower_char(s[0]));
    assert(lower(s).last() == lower_char(s.last()));
    lemma_whole_tag(s, tag);
}

/// The front of a tag grows into the tag.
proof fn lemma_front_grows(x: Seq<char>, whole: Seq<char>, tag: Tag)
    requires
        begins(whole, lower(x)),
        whole.len() >= 2,
        whole[0] == '<',
        whole.last() == '>',
        lower(whole) == whole,
        is_tag_inner(whole.subrange(1, whole.len() - 1), tag),
    ensures
        can_become(x, tag),
{
    let more = whole.skip(x.len() as int);
    assert(lower(x).len() == x.len());
    assert(lower(x + more) =~= whole) by {
        assert forall|k: int| 0 <= k < whole.len() implies lower(x + more)[k] == whole[k] by {
            if k < x.len() {
                assert(whole.subrange(0, x.len() as int)[k] == lower(x)[k]);
            } else {
                assert(lower(whole)[k] == lower_char(whole[k]));
            }
        }
    }
    lemma_lower_tag(x + more, tag);
}

/// A tag that lacks its last bracket, with white space behind its name, grows into the
/// tag.
proof fn lemma_spaced_grows(x: Seq<char>, stem: Seq<char>, name: Seq<char>, tag: Tag)
    requires
        tag_spaced(x),
        spaced(lower(x), stem),
        tag == Tag::Open && stem == seq!['<'] + name || tag == Tag::Close && stem == seq!['<', '/']
            + name,
        name == "think"@ || name == "thinking"@,
    ensures
        can_become(x, tag),
{
    reveal_strlit("think");
    reveal_strlit("thinking");
    let more = seq!['>'];
    let s = x + more;
    let low = lower(s);
    let n = stem.len() as int;
    assert(low =~= lower(x) + more);
    assert forall|k: int| 0 <= k < n implies low[k] == stem[k] by {
        assert(lower(x).subrange(0, n)[k] == stem[k]);
    }
    let inner = low.subrange(1, s.len() - 1);
    let own = if tag == Tag::Open {
        inner
    } else {
        inner.skip(1)
    };
    let shift = s.len() - 1 - own.len();
    assert(own.subrange(0, name.len() as int) =~= name) by {
        assert forall|k: int| 0 <= k < name.len() implies own[k] == name[k] by {
            assert(own[k] == low[k + shift]);
            assert(stem[k + shift] == name[k]);
        }
    }
    assert(all_tag_space(own.skip(name.len() as int))) by {
        assert forall|k: int| 0 <= k < own.skip(name.len() as int).len() implies is_tag_space(
            #[trigger] own.skip(name.len() as int)[k],
        ) by {
            let at = n + k;
            assert(own.skip(name.len() as int)[k] == low[at]);
            assert(lower(x).skip(n)[k] == lower(x)[at]);
            assert(lower(x)[at] == lower_char(x[at]));
            assert(is_space(lower(x).skip(n)[k]));
            assert(is_space(x[at]));
        }
    }
    assert(inner[0] == stem[1]);
    assert(is_tag_name(own));
    lemma_lower_tag(s, tag);
}

proof fn lemma_tag_texts()
    ensures
        "<think"@ == seq!['<'] + "think"@,
        "<thinking"@ == seq!['<'] + "thinking"@,
        "</think"@ == seq!['<', '/'] + "think"@,
        "</thinking"@ == seq!['<', '/'] + "thinking"@,
        forall|s: Seq<char>|
            #![trigger lower(s)]
            s == "<think>"@ || s == "<thinking>"@ ==> lower(s) == s && s.len() >= 2 && s[0] == '<'
                && s.last() == '>' && is_tag_inner(s.subrange(1, s.len() - 1), Tag::Open),
        forall|s: Seq<char>|
            #![trigger lower(s)]
            s == "</think>"@ || s == "</thinking>"@ ==> lower(s) == s && s.len() >= 2 && s[0]
                == '<' && s.last() == '>' && is_tag_inner(s.subrange(1, s.len() - 1), Tag::Close),
{
    reveal_strlit("think");
    reveal_strlit("thinking");
    reveal_strlit("<think");
    reveal_strlit("<thinking");
    reveal_strlit("<think>");
    reveal_strlit("<thinking>");
    reveal_strlit("</think");
    reveal_strlit("</thinking");
    reveal_strlit("</think>");
    reveal_strlit("</thinking>");
    assert("<think"@ =~= seq!['<'] + "think"@);
    assert("<thinking"@ =~= seq!['<'] + "thinking"@);
    assert("</think"@ =~= seq!['<', '/'] + "think"@);
    assert("</thinking"@ =~= seq!['<', '/'] + "thinking"@);
    assert(lower("<think>"@) =~= "<think>"@);
    assert(lower("<thinking>"@) =~= "<thinking>"@);
    assert(lower("</think>"@) =~= "</think>"@);
    assert(lower("</thinking>"@) =~= "</thinking>"@);
    assert("<think>"@.subrange(1, 6) =~= "think"@);
    assert("<thinking>"@.subrange(1, 9) =~= "thinking"@);
    assert("</think>"@.subrange(1, 7).skip(1) =~= "think"@);
    assert("</thinking>"@.subrange(1, 10).skip(1) =~= "thinking"@);
    assert("think"@.subrange(0, 5) =~= "think"@);
    assert("thinking"@.subrange(0, 8) =~= "thinking"@);
}

/// A buffer may still grow into an open tag exactly where something can follow it that
/// makes it one. A buffer that is an open tag already has nothing left to grow by. White
/// space before the tag does not count, and white space inside it has to be ASCII, as
/// that of tags is.
pub proof fn partial_open_tags_can_become_open_tags(buffer: Seq<char>)
    requires
        trim_start(buffer).len() > 0,
        tag_spaced(trim_start(buffer)),
    ensures
        (partial_open(buffer) || is_whole_tag(trim_start(buffer), Tag::Open)) == can_become(
            trim_start(buffer),
            Tag::Open,
        ),
{
    let b = trim_start(buffer);
    lemma_tag_texts();
    if is_whole_tag(b, Tag::Open) {
        assert(b + Seq::empty() =~= b);
        assert(is_whole_tag(b + Seq::empty(), Tag::Open));
    } else if partial_open(buffer) {
        if begins("<think>"@, lower(b)) {
            assert(lower("<think>"@) == "<think>"@);
            lemma_front_grows(b, "<think>"@, Tag::Open);
        } else if begins("<thinking>"@, lower(b)) {
            assert(lower("<thinking>"@) == "<thinking>"@);
            lemma_front_grows(b, "<thinking>"@, Tag::Open);
        } else if spaced(lower(b), "<think"@) {
            lemma_spaced_grows(b, "<think"@, "think"@, Tag::Open);
        } else {
            lemma_spaced_grows(b, "<thinking"@, "thinking"@, Tag::Open);
        }
    }
    if can_become(b, Tag::Open) && !is_whole_tag(b, Tag::Open) {
        let more = choose|more: Seq<char>| is_whole_tag(#[trigger] (b + more), Tag::Open);
        lemma_whole_tag(b + more, Tag::Open);
        if more.len() == 0 {
            assert(b + more =~= b);
        } else {
            lemma_cut_open_tag(b + more, b.len() as int);
            assert((b + more).take(b.len() as int) =~= b);
            lemma_trim_start_twice(buffer);
        }
    }
}

/// Trimming twice is trimming once.
pub proof fn lemma_trim_start_twice(s: Seq<char>)
    ensures
        trim_start(trim_start(s)) == trim_start(s),
    decreases s.len(),
{
    if s.len() > 0 && is_space(s[0]) {
        lemma_trim_start_twice(s.drop_first());
    }
}

proof fn lemma_held_back_is_partial(s: Seq<char>, n: int)
    requires
        0 <= n <= s.len(),
        longest_partial_close(s, n) > 0,
    ensures
        partial_close(lower(s).skip(s.len() - longest_partial_close(s, n))),
    decreases n,
{
    if n > 0 && !partial_close(lower(s).skip(s.len() - n)) {
        lemma_held_back_is_partial(s, n - 1);
    }
}

/// What is held back of a text without a close tag is the longest end of it that can
/// grow into a close tag. White space has to be ASCII, as that of tags is.
pub proof fn held_back_text_is_the_longest_partial_close_tag(s: Seq<char>)
    requires
        first_tag(s, Tag::Close) is None,
        tag_spaced(s),
    ensures
        0 <= held_back(s) <= s.len(),
        held_back(s) > 0 ==> can_become(s.skip(s.len() - held_back(s)), Tag::Close),
        forall|m: int|
            held_back(s) < m <= s.len() ==> !can_become(#[trigger] s.skip(s.len() - m), Tag::Close),
{
    let n = held_back(s);
    lemma_tag_texts();
    lemma_longest_bound(s, s.len() as int);
    if n > 0 {
        let x = s.skip(s.len() - n);
        lemma_held_back_is_partial(s, s.len() as int);
        assert(lower(x) =~= lower(s).skip(s.len() - n));
        assert forall|i: int| 0 <= i < x.len() && is_space(#[trigger] x[i]) implies is_tag_space(
            x[i],
        ) by {
            assert(x[i] == s[s.len() - n + i]);
        }
        if begins("</think>"@, lower(x)) {
            assert(lower("</think>"@) == "</think>"@);
            lemma_front_grows(x, "</think>"@, Tag::Close);
        } else if begins("</thinking>"@, lower(x)) {
            assert(lower("</thinking>"@) == "</thinking>"@);
            lemma_front_grows(x, "</thinking>"@, Tag::Close);
        } else if spaced(lower(x), "</think"@) {
            lemma_spaced_grows(x, "</think"@, "think"@, Tag::Close);
        } else {
            lemma_spaced_grows(x, "</thinking"@, "thinking"@, Tag::Close);
        }
    }
    assert forall|m: int| n < m <= s.len() implies !can_become(
        #[trigger] s.skip(s.len() - m),
        Tag::Close,
    ) by {
        let x = s.skip(s.len() - m);
        if can_become(x, Tag::Close) {
            let more = choose|more: Seq<char>| is_whole_tag(#[trigger] (x + more), Tag::Close);
            lemma_whole_tag(x + more, Tag::Close);
            if more.len() == 0 {
                assert(x + more =~= x);
                lemma_tag_shift(s, Tag::Close, s.len() - m, 0, m);
                lemma_some_tag_is_first(s, Tag::Close, s.len() - m, s.len() as int);
            } else {
                lemma_cut_close_tag(x + more, 0, m, (x + more).len() as int);
                assert(lower((x + more).subrange(0, m)) =~= lower(s).skip(s.len() - m));
                lemma_held_back(s, s.len() as int, m);
            }
        }
    }
}

/// The first of the two reasoning fields of a message that is not blank.
pub open spec fn reasoning_field(message: Map<Seq<char>, Tree>) -> Option<Seq<char>> {
    match text_at(message, "reasoning_content"@) {
        Some(s) if trim(s).len() > 0 => Some(s),
        _ => match text_at(message, "reasoning"@) {
            Some(s) if trim(s).len() > 0 => Some(s),
            _ => None,
        },
    }
}

/// Whether a text is blank.
pub fn is_blank(s: &str) -> (r: bool)
    ensures
        r == (trim(s@).len() == 0),
{
    trimmed(s).as_str().is_empty()
}

/// The first of the reasoning fields of a chat message that is not blank, as it
/// stands.
pub fn extract_reasoning_field(message: &Object) -> (r: Option<String>)
    ensures
        opt_string(r) == reasoning_field(message@),
{
    if let Some(s) = message.get_str("reasoning_content") {
        if !is_blank(s) {
            return Some(s.to_owned());
        }
    }
    if let Some(s) = message.get_str("reasoning") {
        if !is_blank(s) {
            return Some(s.to_owned());
        }
    }
    None
}

} // verus!
