//! How reasoning that stands in the text of an answer is told from the answer.
use vstd::prelude::*;
use crate::reasoning::{first_tag_at, inline_think, tag_at, Tag};
use crate::text::trim;

verus! {

/// Whether a text holds no character that begins a tag.
pub open spec fn has_no_tags(s: Seq<char>) -> bool {
    forall|i: int| 0 <= i < s.len() ==> #[trigger] s[i] != '<'
}

proof fn lemma_open_tag(s: Seq<char>, rest: Seq<char>)
    requires
        s == "<think>"@ + rest,
    ensures
        first_tag_at(s, Tag::Open, 0, 7),
        s.skip(7) == rest,
        s.take(0) == Seq::<char>::empty(),
{
    reveal_strlit("<think>");
    reveal_strlit("think");
    reveal_strlit("thinking");
    let inner = s.subrange(1, 6);
    assert(inner =~= "think"@);
    assert(crate::text::lower(inner) =~= "think"@);
    lemma_tag_name("think"@);
    assert(tag_at(s, Tag::Open, 0, 7));
    assert(s.skip(7) =~= rest);
    assert(s.take(0) =~= Seq::<char>::empty());
}

proof fn lemma_close_tag(s: Seq<char>, before: Seq<char>, rest: Seq<char>)
    requires
        s == before + "</think>"@ + rest,
        has_no_tags(before),
    ensures
        first_tag_at(s, Tag::Close, before.len() as int, before.len() as int + 8),
        s.take(before.len() as int) == before,
        s.skip(before.len() as int + 8) == rest,
{
    reveal_strlit("</think>");
    reveal_strlit("think");
    let n = before.len() as int;
    let inner = s.subrange(n + 1, n + 7);
    let name = "think"@;
    assert(inner =~= seq!['/'] + name);
    assert(crate::text::lower(inner) =~= seq!['/'] + name);
    assert((seq!['/'] + name).skip(1) =~= name);
    lemma_tag_name(name);
    assert(tag_at(s, Tag::Close, n, n + 8));
    assert forall|i: int, j: int| i < n implies !#[trigger] tag_at(s, Tag::Close, i, j) by {
        if 0 <= i {
            assert(s[i] == before[i]);
        }
    }
    assert(s.take(n) =~= before);
    assert(s.skip(n + 8) =~= rest);
}

proof fn lemma_tag_name(name: Seq<char>)
    requires
        name == "think"@,
    ensures
        crate::reasoning::is_tag_name(name),
{
    reveal_strlit("think");
    reveal_strlit("thinking");
    assert(name.skip(name.len() as int) =~= Seq::<char>::empty());
    assert(name.take(name.len() as int) =~= name);
    assert(name.subrange(0, name.len() as int) =~= name);
}

proof fn lemma_unclosed(thought: Seq<char>)
    requires
        has_no_tags(thought),
    ensures
        inline_think("<think>"@ + thought) == if trim(thought).len() > 0 {
            Some((trim(thought), Seq::<char>::empty()))
        } else {
            None
        },
{
    let text = "<think>"@ + thought;
    lemma_open_tag(text, thought);
    crate::reasoning::lemma_first_tag(text, Tag::Open, 0, 7);
    if crate::reasoning::first_tag(thought, Tag::Close) is Some {
        let (i, j) = choose|i: int, j: int| first_tag_at(thought, Tag::Close, i, j);
        assert(thought[i] == '<');
    }
    if crate::reasoning::first_tag(thought, Tag::Any) is Some {
        let (i, j) = choose|i: int, j: int| first_tag_at(thought, Tag::Any, i, j);
        assert(thought[i] == '<');
    }
}

/// What stands in a think block at the front of an answer is its reasoning, and what stands
/// behind the block is the answer. A block that is never closed leaves no answer, and one
/// with nothing in it is no reasoning.
pub proof fn think_blocks_are_reasoning(thought: Seq<char>, answer: Seq<char>)
    requires
        has_no_tags(thought),
    ensures
        ({
            let text = "<think>"@ + (thought + "</think>"@ + answer);
            inline_think(text) == if trim(thought).len() > 0 {
                Some((trim(thought), trim(answer)))
            } else {
                None
            }
        }),
        inline_think("<think>"@ + thought) == if trim(thought).len() > 0 {
            Some((trim(thought), Seq::<char>::empty()))
        } else {
            None
        },
{
    lemma_unclosed(thought);
    let rest = thought + "</think>"@ + answer;
    let text = "<think>"@ + rest;
    lemma_open_tag(text, rest);
    crate::reasoning::lemma_first_tag(text, Tag::Open, 0, 7);
    lemma_close_tag(rest, thought, answer);
    crate::reasoning::lemma_first_tag(
        rest,
        Tag::Close,
        thought.len() as int,
        thought.len() as int + 8,
    );
    assert(Seq::<char>::empty() + answer =~= answer);
}

/// A text in which no tag begins has no reasoning in it.
pub proof fn plain_answers_hold_no_reasoning(text: Seq<char>)
    requires
        has_no_tags(text),
    ensures
        inline_think(text) is None,
{
    if crate::reasoning::first_tag(text, Tag::Open) is Some {
        let (i, j) = choose|i: int, j: int| first_tag_at(text, Tag::Open, i, j);
        assert(text[i] == '<');
    }
}

} // verus!
