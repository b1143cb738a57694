//! Server-sent events: finding the frames in a text, reading their fields, and
//! writing them.
use vstd::prelude::*;
use vstd::utf8::encode_utf8;
use crate::json::{depth_limit, parsed, rendered, shallow, Json, Tree};
use crate::text::{
    after, begins, chars_of, fields, find, join, joined, lemma_first_unique, lemma_position,
    lemma_texts_push, occurs_at, one_line, opt_string, opt_text, position, split, starts, text_of,
    texts, trim, trimmed,
};

verus! {

broadcast use lemma_texts_push;

/// A text with each carriage return that stands before a line feed left out.
pub open spec fn unix(s: Seq<char>) -> Seq<char>
    decreases s.len(),
{
    if s.len() == 0 {
        s
    } else if s[0] == '\r' && s.len() > 1 && s[1] == '\n' {
        unix(s.drop_first())
    } else {
        seq![s[0]] + unix(s.drop_first())
    }
}

/// What stands between two frames: an empty line.
pub open spec fn delimiter() -> Seq<char> {
    "\n\n"@
}

/// The first frame of a buffer, and what follows it, both with unix line ends.
pub open spec fn first_block(buffer: Seq<char>) -> Option<(Seq<char>, Seq<char>)> {
    let s = unix(buffer);
    match position(s, delimiter(), 0) {
        Some(p) => Some((s.take(p), s.skip(p + 2))),
        None => None,
    }
}

/// The text of a frame as a pair of texts.
pub open spec fn pair_view(o: Option<(String, String)>) -> Option<(Seq<char>, Seq<char>)> {
    match o {
        Some((a, b)) => Some((a@, b@)),
        None => None,
    }
}

/// A line without the carriage return at its end.
pub open spec fn without_return(line: Seq<char>) -> Seq<char> {
    if line.len() > 0 && line.last() == '\r' {
        line.drop_last()
    } else {
        line
    }
}

/// The lines of a text. A carriage return before a line feed belongs to the line
/// end, and a line feed at the end of the text opens no line.
pub open spec fn lines(s: Seq<char>) -> Seq<Seq<char>> {
    let f = fields(s, '\n');
    let ended = f.drop_last().map_values(|l: Seq<char>| without_return(l));
    if f.last().len() == 0 {
        ended
    } else {
        ended.push(f.last())
    }
}

/// What follows the field name of a `data` line: one leading space is no part of
/// it.
pub open spec fn data_of(rest: Seq<char>) -> Seq<char> {
    if begins(rest, " "@) {
        rest.skip(1)
    } else {
        rest
    }
}

/// The event name and the data lines of a frame.
#[verifier::ext_equal]
pub ghost struct Frame {
    pub event: Option<Seq<char>>,
    pub data: Seq<Seq<char>>,
}

/// The fields of a frame with one line more.
pub open spec fn with_line(f: Frame, line: Seq<char>) -> Frame {
    if begins(line, "event:"@) {
        Frame { event: Some(trim(line.skip(6))), ..f }
    } else if begins(line, "data:"@) {
        Frame { data: f.data.push(data_of(line.skip(5))), ..f }
    } else {
        f
    }
}

/// The fields that the lines of a frame give.
pub open spec fn frame_of(list: Seq<Seq<char>>) -> Frame
    decreases list.len(),
{
    if list.len() == 0 {
        Frame { event: None, data: Seq::empty() }
    } else {
        with_line(frame_of(list.drop_last()), list.last())
    }
}

/// The event name and the data of a frame: its data lines are joined by line
/// feeds.
pub open spec fn block_fields(block: Seq<char>) -> (Option<Seq<char>>, Option<Seq<char>>) {
    let f = frame_of(lines(block));
    (
        f.event,
        if f.data.len() == 0 {
            None
        } else {
            Some(join(f.data, "\n"@))
        },
    )
}

/// The lines of a frame that carries data of one line.
pub open spec fn block_text(event: Option<Seq<char>>, data: Seq<char>) -> Seq<char> {
    match event {
        Some(name) => "event: "@ + name + "\n"@ + ("data: "@ + data),
        None => "data: "@ + data,
    }
}

/// A frame that carries data of one line, with the empty line that ends it.
pub open spec fn frame_text(event: Option<Seq<char>>, data: Seq<char>) -> Seq<char> {
    block_text(event, data) + "\n\n"@
}

/// The bytes of a frame that carries a document.
pub open spec fn frame_bytes(event: Option<Seq<char>>, data: Tree) -> Seq<u8> {
    encode_utf8(frame_text(event, rendered(data)))
}

/// Whether a name can stand on an `event` line and be read back.
pub open spec fn is_event_name(name: Seq<char>) -> bool {
    trim(name) == name && forall|i: int| 0 <= i < name.len() ==> #[trigger] name[i] != '\n'
}

/// The first complete frame of `buffer` and what follows it, or nothing where no
/// frame is complete yet. Carriage returns before line feeds are dropped first.
pub fn extract_block(buffer: &str) -> (r: Option<(String, String)>)
    ensures
        pair_view(r) == first_block(buffer@),
{
    let v = chars_of(buffer);
    let mut normal: Vec<char> = Vec::new();
    let mut i: usize = 0;
    assert(v@.skip(0) =~= v@);
    let total: usize = v.len();
    while i < total
        invariant
            i <= total,
            total == v@.len(),
            normal@ + unix(v@.skip(i as int)) == unix(v@),
        decreases total - i,
    {
        let ghost rest = v@.skip(i as int);
        assert(rest.drop_first() =~= v@.skip(i as int + 1));
        assert(rest[0] == v@[i as int]);
        if v[i] == '\r' && total - i > 1 && v[i + 1] == '\n' {
            assert(rest[1] == v@[i as int + 1]);
            i += 1;
        } else {
            proof {
                if rest.len() > 1 {
                    assert(rest[1] == v@[i as int + 1]);
                }
                assert(normal@ + unix(rest) =~= normal@.push(v@[i as int]) + unix(
                    rest.drop_first(),
                ));
            }
            normal.push(v[i]);
            i += 1;
        }
    }
    assert(v@.skip(i as int) =~= Seq::<char>::empty());
    assert(normal@ =~= unix(v@));
    proof {
        reveal_strlit("\n\n");
        lemma_position(normal@, delimiter(), 0);
    }
    let mark = chars_of("\n\n");
    match find(&normal, &mark, 0) {
        Some(p) => {
            assert(occurs_at(normal@, delimiter(), p as int));
            let block = text_of(&normal, 0, p);
            let end: usize = normal.len();
            assert("\n\n"@.len() == 2);
            let rest = text_of(&normal, p + 2, end);
            assert(block@ =~= normal@.take(p as int));
            assert(rest@ =~= normal@.skip(p as int + 2));
            Some((block, rest))
        },
        None => None,
    }
}

/// The lines of a text.
pub fn lines_of(s: &str) -> (r: Vec<String>)
    ensures
        texts(r@) == lines(s@),
{
    let all = split(s, '\n');
    let ghost f = fields(s@, '\n');
    let mut out: Vec<String> = Vec::new();
    let last: usize = all.len() - 1;
    let ghost ended = f.drop_last().map_values(|l: Seq<char>| without_return(l));
    let mut i: usize = 0;
    assert(texts(out@) =~= ended.take(0));
    while i < last
        invariant
            i <= last,
            last == all@.len() - 1,
            f == texts(all@),
            ended == f.drop_last().map_values(|l: Seq<char>| without_return(l)),
            texts(out@) == ended.take(i as int),
        decreases last - i,
    {
        let line = &all[i];
        assert(f[i as int] == line@);
        let c = chars_of(line.as_str());
        if c.len() > 0 && c[c.len() - 1] == '\r' {
            let short = text_of(&c, 0, c.len() - 1);
            assert(short@ =~= without_return(line@));
            out.push(short);
        } else {
            out.push(line.clone());
        }
        assert(texts(out@) =~= ended.take(i as int + 1));
        i += 1;
    }
    assert(ended.take(i as int) =~= ended);
    assert(f.last() == all@[last as int]@);
    if !all[last].as_str().is_empty() {
        out.push(all[last].clone());
    }
    out
}

/// The event name and the data of a frame. Data lines are joined by line feeds,
/// and one leading space of each is dropped. Either is absent where no line
/// gives it.
pub fn parse_sse_block(block: &str) -> (r: (Option<String>, Option<String>))
    ensures
        (opt_string(r.0), opt_string(r.1)) == block_fields(block@),
{
    let list = lines_of(block);
    let ghost all = texts(list@);
    let mut event: Option<String> = None;
    let mut data: Vec<String> = Vec::new();
    let mut i: usize = 0;
    assert(all.take(0) =~= Seq::empty());
    assert(texts(data@) =~= Seq::empty());
    proof {
        reveal_strlit("event:");
        reveal_strlit("data:");
        reveal_strlit(" ");
    }
    while i < list.len()
        invariant
            i <= list@.len(),
            all == texts(list@),
            "event:"@.len() == 6,
            "data:"@.len() == 5,
            " "@.len() == 1,
            (Frame { event: opt_string(event), data: texts(data@) }) == frame_of(
                all.take(i as int),
            ),
        decreases list.len() - i,
    {
        assert(all.take(i as int + 1).drop_last() =~= all.take(i as int));
        assert(all.take(i as int + 1).last() == list@[i as int]@);
        let line = list[i].as_str();
        if starts(line, "event:") {
            event = Some(trimmed(after(line, 6).as_str()));
        } else if starts(line, "data:") {
            let rest = after(line, 5);
            if starts(rest.as_str(), " ") {
                data.push(after(rest.as_str(), 1));
            } else {
                data.push(rest);
            }
        }
        i += 1;
    }
    assert(all.take(i as int) =~= all);
    assert(texts(data@).len() == data@.len());
    if data.is_empty() {
        (event, None)
    } else {
        (event, Some(joined(&data, "\n")))
    }
}

/// Dropping carriage returns works on two parts alone, unless a line end is cut.
pub proof fn lemma_unix_concat(a: Seq<char>, b: Seq<char>)
    requires
        a.len() == 0 || a.last() != '\r' || b.len() == 0 || b[0] != '\n',
    ensures
        unix(a + b) == unix(a) + unix(b),
    decreases a.len(),
{
    if a.len() == 0 {
        assert(a + b =~= b);
        assert(unix(a) + unix(b) =~= unix(b));
    } else {
        let tail = a.drop_first();
        assert((a + b).drop_first() =~= tail + b);
        assert((a + b)[0] == a[0]);
        if a.len() > 1 {
            assert((a + b)[1] == a[1]);
            assert(tail.last() == a.last());
        } else if b.len() > 0 {
            assert((a + b)[1] == b[0]);
        }
        lemma_unix_concat(tail, b);
        assert(unix(a + b) =~= unix(a) + unix(b));
    }
}

/// A text in which no line feed follows a carriage return stays as it is.
pub proof fn lemma_unix_same(s: Seq<char>)
    requires
        forall|i: int| 0 <= i && i + 1 < s.len() && s[i] == '\r' ==> #[trigger] s[i + 1] != '\n',
    ensures
        unix(s) == s,
    decreases s.len(),
{
    if s.len() > 0 {
        let tail = s.drop_first();
        assert forall|i: int| 0 <= i && i + 1 < tail.len() && tail[i] == '\r' implies #[trigger] tail[i
            + 1] != '\n' by {
            assert(s[i + 1] == tail[i]);
            assert(s[(i + 1) + 1] == tail[i + 1]);
        }
        lemma_unix_same(tail);
        if s.len() > 1 {
            assert(s[0int + 1] != '\n' || s[0] != '\r');
        }
        assert(unix(s) =~= s);
    }
}

/// A text without a separator is a single field.
proof fn lemma_one_field(s: Seq<char>, sep: char)
    requires
        forall|i: int| 0 <= i < s.len() ==> #[trigger] s[i] != sep,
    ensures
        fields(s, sep) == seq![s],
    decreases s.len(),
{
    if s.len() == 0 {
        assert(s =~= Seq::<char>::empty());
    } else {
        let before = s.drop_last();
        assert forall|i: int| 0 <= i < before.len() implies #[trigger] before[i] != sep by {
            assert(before[i] == s[i]);
        }
        lemma_one_field(before, sep);
        assert(before.push(s.last()) =~= s);
        assert(fields(s, sep) =~= seq![s]);
    }
}

/// What follows the last separator is the last field.
proof fn lemma_last_field(a: Seq<char>, b: Seq<char>, sep: char)
    requires
        forall|i: int| 0 <= i < b.len() ==> #[trigger] b[i] != sep,
    ensures
        fields(a.push(sep) + b, sep) == fields(a, sep).push(b),
    decreases b.len(),
{
    let s = a.push(sep) + b;
    if b.len() == 0 {
        assert(s =~= a.push(sep));
        assert(s.drop_last() =~= a);
        assert(b =~= Seq::<char>::empty());
    } else {
        let before = b.drop_last();
        assert forall|i: int| 0 <= i < before.len() implies #[trigger] before[i] != sep by {
            assert(before[i] == b[i]);
        }
        lemma_last_field(a, before, sep);
        assert(s.drop_last() =~= a.push(sep) + before);
        assert(s.last() == b.last());
        let done = fields(a, sep);
        assert(done.push(before).drop_last() =~= done);
        assert(before.push(b.last()) =~= b);
    }
}

/// A frame that carries data of one line is found at the front of any buffer,
/// whatever follows it, and its event name and its data are read back from it.
pub proof fn frames_read_back(event: Option<Seq<char>>, data: Seq<char>, rest: Seq<char>)
    requires
        one_line(data),
        event matches Some(name) ==> is_event_name(name),
    ensures
        first_block(frame_text(event, data) + rest) == Some((block_text(event, data), unix(rest))),
        block_fields(block_text(event, data)) == (event, Some(data)),
{
    lemma_frame_found(event, data, rest);
    lemma_frame_read(event, data);
}

/// No line break of a frame stands beside another one.
spec fn spaced(s: Seq<char>) -> bool {
    &&& forall|i: int|
        0 <= i && i + 1 < s.len() && (s[i] == '\r' || s[i] == '\n') ==> #[trigger] s[i + 1] != '\n'
    &&& s.len() > 0 ==> s.last() != '\r' && s.last() != '\n'
}

proof fn lemma_block_spaced(event: Option<Seq<char>>, data: Seq<char>)
    requires
        one_line(data),
        event matches Some(name) ==> is_event_name(name),
    ensures
        spaced(block_text(event, data)),
{
    reveal_strlit("event: ");
    reveal_strlit("data: ");
    reveal_strlit("\n");
    let line = "data: "@ + data;
    assert(one_line(line)) by {
        assert forall|i: int| 0 <= i < line.len() implies #[trigger] line[i] != '\n' && line[i]
            != '\r' by {
            if i >= 6 {
                assert(line[i] == data[i - 6]);
            }
        }
    }
    let block = block_text(event, data);
    assert(block.last() == line.last());
    match event {
        Some(name) => {
            let n = name.len() as int;
            assert(block.len() == 7 + n + 1 + line.len());
            lemma_trimmed_end(name);
            assert forall|i: int|
                0 <= i && i + 1 < block.len() && (block[i] == '\r' || block[i]
                    == '\n') implies #[trigger] block[i + 1] != '\n' by {
                let j = i + 1;
                if j < 7 {
                } else if j < 7 + n {
                    assert(block[j] == name[j - 7]);
                } else if j == 7 + n {
                    if n > 0 {
                        assert(block[i] == name[n - 1]);
                        assert(name[n - 1] == name.last());
                    }
                } else {
                    assert(block[j] == line[j - 8 - n]);
                }
            }
        },
        None => {
            assert(block == line);
        },
    }
}

/// A trimmed text does not end in white space.
proof fn lemma_trimmed_end(s: Seq<char>)
    requires
        trim(s) == s,
    ensures
        s.len() > 0 ==> !crate::text::is_space(s.last()),
{
    lemma_trim_end(crate::text::trim_start(s));
}

proof fn lemma_trim_end(s: Seq<char>)
    ensures
        crate::text::trim_end(s).len() > 0 ==> !crate::text::is_space(
            crate::text::trim_end(s).last(),
        ),
    decreases s.len(),
{
    if s.len() > 0 && crate::text::is_space(s.last()) {
        lemma_trim_end(s.drop_last());
    }
}

proof fn lemma_frame_found(event: Option<Seq<char>>, data: Seq<char>, rest: Seq<char>)
    requires
        one_line(data),
        event matches Some(name) ==> is_event_name(name),
    ensures
        first_block(frame_text(event, data) + rest) == Some((block_text(event, data), unix(rest))),
{
    reveal_strlit("\n\n");
    reveal_strlit("data: ");
    let block = block_text(event, data);
    let frame = frame_text(event, data);
    lemma_block_spaced(event, data);
    assert forall|i: int| 0 <= i && i + 1 < frame.len() && frame[i] == '\r' implies #[trigger] frame[i
        + 1] != '\n' by {
        if i + 1 < block.len() {
            assert(frame[i] == block[i]);
            assert(frame[i + 1] == block[i + 1]);
        } else if i < block.len() {
            assert(frame[i] == block.last());
        }
    }
    lemma_unix_same(frame);
    assert(frame.last() == '\n');
    lemma_unix_concat(frame, rest);
    let s = unix(frame + rest);
    assert(s == frame + unix(rest));
    let p = block.len() as int;
    assert(s.subrange(p, p + 2) =~= delimiter());
    assert(occurs_at(s, delimiter(), p));
    assert forall|j: int| 0 <= j < p implies !#[trigger] occurs_at(s, delimiter(), j) by {
        if occurs_at(s, delimiter(), j) {
            assert(s.subrange(j, j + 2)[0] == delimiter()[0]);
            assert(s.subrange(j, j + 2)[1] == delimiter()[1]);
            assert(s[j] == block[j]);
            if j + 1 < p {
                assert(s[j + 1] == block[j + 1]);
            } else {
                assert(block.last() == '\n');
            }
        }
    }
    lemma_first_unique(s, delimiter(), 0, p);
    assert(s.take(p) =~= block);
    assert(s.skip(p + 2) =~= unix(rest));
}

/// A line with one space after the colon of its field name.
proof fn lemma_line_read(f: Frame, data: Seq<char>, name: Seq<char>)
    ensures
        with_line(f, "data: "@ + data) == (Frame { data: f.data.push(data), ..f }),
        with_line(f, "event: "@ + name) == (Frame { event: Some(trim(" "@ + name)), ..f }),
{
    reveal_strlit("event:");
    reveal_strlit("data:");
    reveal_strlit("event: ");
    reveal_strlit("data: ");
    reveal_strlit(" ");
    let d = "data: "@ + data;
    assert(d.subrange(0, 5) =~= "data:"@);
    assert(d[0] == 'd');
    assert(!begins(d, "event:"@)) by {
        if begins(d, "event:"@) {
            assert(d.subrange(0, 6)[0] == "event:"@[0]);
        }
    }
    assert(d.skip(5) =~= " "@ + data);
    assert((" "@ + data).subrange(0, 1) =~= " "@);
    assert((" "@ + data).skip(1) =~= data);
    let e = "event: "@ + name;
    assert(e.subrange(0, 6) =~= "event:"@);
    assert(e.skip(6) =~= " "@ + name);
}

proof fn lemma_frame_read(event: Option<Seq<char>>, data: Seq<char>)
    requires
        one_line(data),
        event matches Some(name) ==> is_event_name(name),
    ensures
        block_fields(block_text(event, data)) == (event, Some(data)),
{
    reveal_strlit("event: ");
    reveal_strlit("data: ");
    reveal_strlit("\n");
    reveal_with_fuel(frame_of, 3);
    let line = "data: "@ + data;
    let none = Frame { event: None, data: Seq::empty() };
    assert forall|i: int| 0 <= i < line.len() implies #[trigger] line[i] != '\n' by {
        if i >= 6 {
            assert(line[i] == data[i - 6]);
        }
    }
    let block = block_text(event, data);
    match event {
        Some(name) => {
            let head = "event: "@ + name;
            assert forall|i: int| 0 <= i < head.len() implies #[trigger] head[i] != '\n' by {
                if i >= 7 {
                    assert(head[i] == name[i - 7]);
                }
            }
            assert(block =~= head.push('\n') + line);
            lemma_one_field(head, '\n');
            lemma_last_field(head, line, '\n');
            let f = fields(block, '\n');
            assert(f == seq![head].push(line));
            assert(f.last() == line);
            assert(f.drop_last() =~= seq![head]);
            lemma_trimmed_end(name);
            assert(without_return(head) == head) by {
                if name.len() > 0 {
                    assert(head.last() == name.last());
                } else {
                    assert(head.last() == "event: "@[6]);
                }
            }
            assert(lines(block) =~= seq![head, line]);
            assert(seq![head, line].drop_last() =~= seq![head]);
            assert(seq![head].drop_last() =~= Seq::<Seq<char>>::empty());
            let one = with_line(none, head);
            lemma_line_read(none, data, name);
            lemma_line_read(one, data, name);
            lemma_trim_lead(name);
            assert(frame_of(seq![head]) == one);
            assert(frame_of(seq![head, line]) == with_line(one, line));
            assert(one.data.push(data) =~= seq![data]);
        },
        None => {
            lemma_one_field(line, '\n');
            assert(seq![line].drop_last() =~= Seq::<Seq<char>>::empty());
            assert(lines(block) =~= seq![line]);
            lemma_line_read(none, data, data);
            assert(none.data.push(data) =~= seq![data]);
        },
    }
}

/// One leading space does not change what trimming leaves.
proof fn lemma_trim_lead(s: Seq<char>)
    ensures
        trim(" "@ + s) == trim(s),
{
    reveal_strlit(" ");
    let t = " "@ + s;
    assert(t[0] == ' ');
    assert(t.drop_first() =~= s);
}

/// The frames of a buffer join up again: what is cut off is the frame, an empty
/// line, and what follows, and no frame holds an empty line.
pub proof fn blocks_rejoin(buffer: Seq<char>)
    ensures
        match first_block(buffer) {
            Some((block, rest)) => {
                &&& unix(buffer) == block + delimiter() + rest
                &&& !crate::text::contains(block, delimiter())
            },
            None => !crate::text::contains(unix(buffer), delimiter()),
        },
{
    reveal_strlit("\n\n");
    let s = unix(buffer);
    lemma_position(s, delimiter(), 0);
    match position(s, delimiter(), 0) {
        Some(p) => {
            let block = s.take(p);
            assert(s.subrange(p, p + 2) =~= delimiter());
            assert(s =~= block + delimiter() + s.skip(p + 2));
            assert forall|j: int| !#[trigger] occurs_at(block, delimiter(), j) by {
                if occurs_at(block, delimiter(), j) {
                    assert(block.subrange(j, j + 2) =~= s.subrange(j, j + 2));
                    assert(occurs_at(s, delimiter(), j));
                }
            }
        },
        None => {
            assert forall|j: int| !#[trigger] occurs_at(s, delimiter(), j) by {
            }
        },
    }
}

/// One event as bytes: an `event` line where there is a name, a `data` line with
/// the compact text of the document, and an empty line. The frame reads back as
/// the name and that text, and the text as the document.
pub fn serialize_event(event: Option<&str>, data: &Json) -> (r: Vec<u8>)
    ensures
        r@ == frame_bytes(opt_text(event), data@),
        one_line(rendered(data@)),
        shallow(data@, depth_limit()) ==> parsed(rendered(data@)) == Some(data@),
{
    let mut out = String::new();
    if let Some(name) = event {
        out.push_str("event: ");
        out.push_str(name);
        out.push_str("\n");
    }
    out.push_str("data: ");
    out.push_str(data.render().as_str());
    out.push_str("\n\n");
    assert(out@ =~= frame_text(opt_text(event), rendered(data@)));
    vstd::slice::slice_to_vec(out.as_str().as_bytes())
}

/// The first frame of a buffer stays the first when more comes.
pub proof fn lemma_block_stays(a: Seq<char>, b: Seq<char>)
    requires
        unix(a) == a,
        unix(a + b) == a + b,
        first_block(a) is Some,
    ensures
        match first_block(a) {
            Some((block, rest)) => first_block(a + b) == Some((block, rest + b)),
            None => true,
        },
{
    reveal_strlit("\n\n");
    lemma_position(a, delimiter(), 0);
    let p = position(a, delimiter(), 0)->0;
    let c = a + b;
    assert(c.subrange(p, p + 2) =~= a.subrange(p, p + 2));
    assert forall|j: int| 0 <= j < p implies !#[trigger] occurs_at(c, delimiter(), j) by {
        if occurs_at(c, delimiter(), j) {
            assert(a.subrange(j, j + 2) =~= c.subrange(j, j + 2));
            assert(occurs_at(a, delimiter(), j));
        }
    }
    lemma_first_unique(c, delimiter(), 0, p);
    assert(c.take(p) =~= a.take(p));
    assert(c.skip(p + 2) =~= a.skip(p + 2) + b);
}

} // verus!
