//! Reasoning that is kept for continuation.
//!
//! Some upstreams leave out the reasoning of assistant messages with tool calls
//! when a turn is continued. So the reasoning of a turn is kept under the ids of
//! its tool calls, and given back to messages that lack it.
use vstd::prelude::*;
use crate::convert::message_normalization::{nonempty, nonempty_text};
use crate::convert::semantics::is_text;
use crate::json::{items_in, lemma_trees_push, member, text_in, trees, Json, Object, Tree};
use crate::reasoning::is_blank;
use crate::text::{opt_text, same, trim};

verus! {

broadcast use lemma_trees_push;

/// Reasoning under the ids of tool calls.
#[derive(Debug)]
pub struct ReasoningCache {
    entries: Vec<(String, String)>,
}

/// The latest reasoning under each id.
spec fn latest(s: Seq<(String, String)>) -> Map<Seq<char>, Seq<char>>
    decreases s.len(),
{
    if s.len() == 0 {
        Map::empty()
    } else {
        latest(s.drop_last()).insert(s.last().0@, s.last().1@)
    }
}

impl View for ReasoningCache {
    type V = Map<Seq<char>, Seq<char>>;

    closed spec fn view(&self) -> Map<Seq<char>, Seq<char>> {
        latest(self.entries@)
    }
}

impl ReasoningCache {
    /// No reasoning.
    pub fn new() -> (r: ReasoningCache)
        ensures
            r@ == Map::<Seq<char>, Seq<char>>::empty(),
    {
        ReasoningCache { entries: Vec::new() }
    }

    /// Whether there is no reasoning.
    pub fn is_empty(&self) -> (r: bool)
        ensures
            r == (self@ == Map::<Seq<char>, Seq<char>>::empty()),
    {
        proof {
            if self.entries@.len() > 0 {
                assert(self@.contains_key(self.entries@.last().0@));
            }
        }
        self.entries.is_empty()
    }

    /// Keep reasoning under an id.
    pub fn insert(&mut self, id: &str, reasoning: &str)
        ensures
            final(self)@ == old(self)@.insert(id@, reasoning@),
    {
        let ghost before = self.entries@;
        self.entries.push((id.to_owned(), reasoning.to_owned()));
        assert(self.entries@.drop_last() =~= before);
    }

    /// The reasoning under an id.
    pub fn get(&self, id: &str) -> (r: Option<&str>)
        ensures
            opt_text(r) == kept(self@, id@),
    {
        let ghost all = self.entries@;
        let mut i: usize = self.entries.len();
        assert(all.take(i as int) =~= all);
        while i > 0
            invariant
                i <= all.len(),
                all == self.entries@,
                kept(latest(all.take(i as int)), id@) == kept(latest(all), id@),
            decreases i,
        {
            assert(all.take(i as int).drop_last() =~= all.take(i as int - 1));
            assert(all.take(i as int).last() == all[i as int - 1]);
            if same(self.entries[i - 1].0.as_str(), id) {
                return Some(self.entries[i - 1].1.as_str());
            }
            i -= 1;
        }
        assert(all.take(0) =~= Seq::empty());
        None
    }
}

impl Clone for ReasoningCache {
    fn clone(&self) -> (r: ReasoningCache)
        ensures
            r@ == self@,
    {
        let ghost all = self.entries@;
        let mut out = ReasoningCache::new();
        let mut i: usize = 0;
        assert(all.take(0) =~= Seq::empty());
        while i < self.entries.len()
            invariant
                i <= all.len(),
                all == self.entries@,
                out@ == latest(all.take(i as int)),
            decreases self.entries.len() - i,
        {
            assert(all.take(i as int + 1).drop_last() =~= all.take(i as int));
            assert(all.take(i as int + 1).last() == all[i as int]);
            out.insert(self.entries[i].0.as_str(), self.entries[i].1.as_str());
            i += 1;
        }
        assert(all.take(i as int) =~= all);
        out
    }
}

/// The reasoning under an id.
pub open spec fn kept(cache: Map<Seq<char>, Seq<char>>, id: Seq<char>) -> Option<Seq<char>> {
    if cache.contains_key(id) {
        Some(cache[id])
    } else {
        None
    }
}

/// The id of a Chat tool call, or an empty text.
pub open spec fn chat_call_id(call: Tree) -> Seq<char> {
    match nonempty(text_in(call.at("id"@))) {
        Some(s) => s,
        None => match nonempty(text_in(call.at("call_id"@))) {
            Some(s) => s,
            None => Seq::empty(),
        },
    }
}

/// The tool calls of an assistant message.
pub open spec fn assistant_calls(message: Tree) -> Seq<Tree> {
    if text_in(message.at("role"@)) == Some("assistant"@) {
        match items_in(message.at("tool_calls"@)) {
            Some(calls) => calls,
            None => Seq::empty(),
        }
    } else {
        Seq::empty()
    }
}

/// The reasoning of a message, where it is not blank.
pub open spec fn own_reasoning(message: Tree) -> Option<Seq<char>> {
    match text_in(message.at("reasoning_content"@)) {
        Some(s) => if trim(s).len() == 0 {
            None
        } else {
            Some(s)
        },
        None => None,
    }
}

/// The cache with reasoning under the id of each call that has one.
pub open spec fn with_calls(
    cache: Map<Seq<char>, Seq<char>>,
    calls: Seq<Tree>,
    reasoning: Seq<char>,
) -> Map<Seq<char>, Seq<char>>
    decreases calls.len(),
{
    if calls.len() == 0 {
        cache
    } else {
        let before = with_calls(cache, calls.drop_last(), reasoning);
        let id = chat_call_id(calls.last());
        if id.len() == 0 {
            before
        } else {
            before.insert(id, reasoning)
        }
    }
}

/// The reasoning of assistant messages under the ids of their tool calls.
pub open spec fn cached(messages: Seq<Tree>) -> Map<Seq<char>, Seq<char>>
    decreases messages.len(),
{
    if messages.len() == 0 {
        Map::empty()
    } else {
        let before = cached(messages.drop_last());
        match own_reasoning(messages.last()) {
            Some(r) => with_calls(before, assistant_calls(messages.last()), r),
            None => before,
        }
    }
}

/// The reasoning of the first call that the cache knows.
pub open spec fn first_kept(calls: Seq<Tree>, cache: Map<Seq<char>, Seq<char>>) -> Option<Seq<char>>
    decreases calls.len(),
{
    if calls.len() == 0 {
        None
    } else {
        match first_kept(calls.drop_last(), cache) {
            Some(r) => Some(r),
            None => kept(cache, chat_call_id(calls.last())),
        }
    }
}

/// A message with its reasoning given back, where it lacks it.
pub open spec fn restored(message: Tree, cache: Map<Seq<char>, Seq<char>>) -> Tree {
    if own_reasoning(message) is Some {
        message
    } else {
        match (message, first_kept(assistant_calls(message), cache)) {
            (Tree::Object(m), Some(r)) => Tree::Object(
                m.insert("reasoning_content"@, Tree::Str(r)),
            ),
            _ => message,
        }
    }
}

/// The messages with their reasoning given back.
pub open spec fn all_restored(messages: Seq<Tree>, cache: Map<Seq<char>, Seq<char>>) -> Seq<Tree> {
    messages.map_values(|m: Tree| restored(m, cache))
}

/// The id of a Chat tool call: its `id`, or else its `call_id`, or an empty text.
pub fn chat_tool_call_id(tool_call: &Json) -> (r: String)
    ensures
        r@ == chat_call_id(tool_call@),
{
    match nonempty_text(tool_call.get_str("id")) {
        Some(s) => s.to_owned(),
        None => match nonempty_text(tool_call.get_str("call_id")) {
            Some(s) => s.to_owned(),
            None => String::new(),
        },
    }
}

fn reasoning_in(message: &Json) -> (r: Option<&str>)
    ensures
        opt_text(r) == own_reasoning(message@),
{
    match message.get_str("reasoning_content") {
        Some(s) => {
            if is_blank(s) {
                None
            } else {
                Some(s)
            }
        },
        None => None,
    }
}

fn calls_in(message: &Json) -> (r: Option<&Vec<Json>>)
    ensures
        match r {
            Some(calls) => trees(calls@) == assistant_calls(message@),
            None => assistant_calls(message@) == Seq::<Tree>::empty(),
        },
{
    if is_text(message.get_str("role"), "assistant") {
        message.get_array("tool_calls")
    } else {
        None
    }
}

/// The reasoning of assistant messages under the ids of their tool calls. Messages
/// without tool calls or with blank reasoning are left out.
pub fn extract_reasoning_cache(messages: &Vec<Json>) -> (r: ReasoningCache)
    ensures
        r@ == cached(trees(messages@)),
{
    let ghost all = trees(messages@);
    let mut cache = ReasoningCache::new();
    let mut i: usize = 0;
    assert(all.take(0) =~= Seq::empty());
    while i < messages.len()
        invariant
            i <= messages@.len(),
            all == trees(messages@),
            cache@ == cached(all.take(i as int)),
        decreases messages.len() - i,
    {
        assert(all.take(i as int + 1).drop_last() =~= all.take(i as int));
        assert(all.take(i as int + 1).last() == messages@[i as int]@);
        let message = &messages[i];
        if let Some(reasoning) = reasoning_in(message) {
            if let Some(calls) = calls_in(message) {
                let ghost list = trees(calls@);
                let ghost before = cache@;
                let mut k: usize = 0;
                assert(list.take(0) =~= Seq::empty());
                while k < calls.len()
                    invariant
                        k <= calls@.len(),
                        list == trees(calls@),
                        cache@ == with_calls(before, list.take(k as int), reasoning@),
                    decreases calls.len() - k,
                {
                    assert(list.take(k as int + 1).drop_last() =~= list.take(k as int));
                    assert(list.take(k as int + 1).last() == calls@[k as int]@);
                    let id = chat_tool_call_id(&calls[k]);
                    if !id.as_str().is_empty() {
                        cache.insert(id.as_str(), reasoning);
                    }
                    k += 1;
                }
                assert(list.take(k as int) =~= list);
            }
        }
        i += 1;
    }
    assert(all.take(i as int) =~= all);
    cache
}

fn first_hit(calls: &Vec<Json>, cache: &ReasoningCache) -> (r: Option<String>)
    ensures
        crate::text::opt_string(r) == first_kept(trees(calls@), cache@),
{
    let ghost list = trees(calls@);
    let mut k: usize = 0;
    assert(list.take(0) =~= Seq::empty());
    while k < calls.len()
        invariant
            k <= calls@.len(),
            list == trees(calls@),
            first_kept(list.take(k as int), cache@) is None,
        decreases calls.len() - k,
    {
        assert(list.take(k as int + 1).drop_last() =~= list.take(k as int));
        assert(list.take(k as int + 1).last() == calls@[k as int]@);
        let id = chat_tool_call_id(&calls[k]);
        if let Some(s) = cache.get(id.as_str()) {
            proof {
                lemma_first_kept(list, cache@, k as int + 1);
            }
            return Some(s.to_owned());
        }
        k += 1;
    }
    assert(list.take(k as int) =~= list);
    None
}

proof fn lemma_first_kept(calls: Seq<Tree>, cache: Map<Seq<char>, Seq<char>>, n: int)
    requires
        0 <= n <= calls.len(),
        first_kept(calls.take(n), cache) is Some,
    ensures
        first_kept(calls, cache) == first_kept(calls.take(n), cache),
    decreases calls.len() - n,
{
    if n < calls.len() {
        assert(calls.take(n + 1).drop_last() =~= calls.take(n));
        lemma_first_kept(calls, cache, n + 1);
    } else {
        assert(calls.take(n) =~= calls);
    }
}

/// Give reasoning back to assistant messages with tool calls that lack it: that of the
/// first of their calls that the cache knows.
pub fn apply_reasoning_cache(messages: Vec<Json>, cache: &ReasoningCache) -> (r: Vec<Json>)
    ensures
        trees(r@) == all_restored(trees(messages@), cache@),
{
    let ghost all = trees(messages@);
    let mut out: Vec<Json> = Vec::new();
    let mut i: usize = 0;
    assert(trees(out@) =~= all_restored(all, cache@).take(0));
    while i < messages.len()
        invariant
            i <= messages@.len(),
            all == trees(messages@),
            trees(out@) == all_restored(all, cache@).take(i as int),
        decreases messages.len() - i,
    {
        assert(all[i as int] == messages@[i as int]@);
        let message = messages[i].clone();
        let hit = if reasoning_in(&message).is_some() {
            None
        } else {
            match calls_in(&message) {
                Some(calls) => first_hit(calls, cache),
                None => None,
            }
        };
        let done = match message {
            Json::Object(m) => match hit {
                Some(r) => Json::Object(m.with("reasoning_content", Json::Str(r))),
                None => Json::Object(m),
            },
            other => other,
        };
        assert(done@ == restored(all[i as int], cache@));
        out.push(done);
        assert(trees(out@) =~= all_restored(all, cache@).take(i as int + 1));
        i += 1;
    }
    assert(all_restored(all, cache@).take(i as int) =~= all_restored(all, cache@));
    out
}

proof fn lemma_with_calls(
    cache: Map<Seq<char>, Seq<char>>,
    calls: Seq<Tree>,
    reasoning: Seq<char>,
    k: int,
)
    requires
        0 <= k < calls.len(),
        chat_call_id(calls[k]).len() > 0,
    ensures
        kept(with_calls(cache, calls, reasoning), chat_call_id(calls[k])) == Some(reasoning),
    decreases calls.len(),
{
    if k < calls.len() - 1 {
        assert(calls.drop_last()[k] == calls[k]);
        lemma_with_calls(cache, calls.drop_last(), reasoning, k);
    }
}

proof fn lemma_with_other_calls(
    cache: Map<Seq<char>, Seq<char>>,
    calls: Seq<Tree>,
    later: Seq<char>,
    id: Seq<char>,
    reasoning: Seq<char>,
)
    requires
        kept(cache, id) == Some(reasoning),
        later == reasoning || forall|l: int|
            0 <= l < calls.len() ==> chat_call_id(#[trigger] calls[l]) != id,
    ensures
        kept(with_calls(cache, calls, later), id) == Some(reasoning),
    decreases calls.len(),
{
    if calls.len() > 0 {
        let front = calls.drop_last();
        if later != reasoning {
            assert forall|l: int| 0 <= l < front.len() implies chat_call_id(#[trigger] front[l])
                != id by {
                assert(front[l] == calls[l]);
            }
            assert(chat_call_id(calls[calls.len() - 1]) != id);
        }
        lemma_with_other_calls(cache, front, later, id, reasoning);
    }
}

proof fn lemma_no_empty_id(cache: Map<Seq<char>, Seq<char>>, calls: Seq<Tree>, reasoning: Seq<char>)
    requires
        !cache.contains_key(Seq::empty()),
    ensures
        !with_calls(cache, calls, reasoning).contains_key(Seq::empty()),
    decreases calls.len(),
{
    if calls.len() > 0 {
        lemma_no_empty_id(cache, calls.drop_last(), reasoning);
    }
}

proof fn lemma_no_empty_ids(messages: Seq<Tree>)
    ensures
        !cached(messages).contains_key(Seq::empty()),
    decreases messages.len(),
{
    if messages.len() > 0 {
        lemma_no_empty_ids(messages.drop_last());
        if let Some(r) = own_reasoning(messages.last()) {
            lemma_no_empty_id(
                cached(messages.drop_last()),
                assistant_calls(messages.last()),
                r,
            );
        }
    }
}

/// Whether later messages leave reasoning under an id alone: those that have the id have
/// the same reasoning.
pub open spec fn stays_under(
    messages: Seq<Tree>,
    i: int,
    id: Seq<char>,
    reasoning: Seq<char>,
) -> bool {
    forall|j: int, l: int|
        #![trigger assistant_calls(messages[j])[l]]
        i < j < messages.len() && 0 <= l < assistant_calls(messages[j]).len()
            && own_reasoning(messages[j]) is Some && own_reasoning(messages[j]) != Some(reasoning)
            ==> chat_call_id(assistant_calls(messages[j])[l]) != id
}

proof fn lemma_stays_under(
    messages: Seq<Tree>,
    i: int,
    k: int,
    reasoning: Seq<char>,
    n: int,
)
    requires
        0 <= i < n <= messages.len(),
        own_reasoning(messages[i]) == Some(reasoning),
        0 <= k < assistant_calls(messages[i]).len(),
        chat_call_id(assistant_calls(messages[i])[k]).len() > 0,
        stays_under(messages, i, chat_call_id(assistant_calls(messages[i])[k]), reasoning),
    ensures
        kept(cached(messages.take(n)), chat_call_id(assistant_calls(messages[i])[k])) == Some(
            reasoning,
        ),
    decreases n,
{
    let list = messages.take(n);
    let id = chat_call_id(assistant_calls(messages[i])[k]);
    assert(list.drop_last() =~= messages.take(n - 1));
    assert(list.last() == messages[n - 1]);
    if n == i + 1 {
        lemma_with_calls(cached(list.drop_last()), assistant_calls(messages[i]), reasoning, k);
    } else {
        lemma_stays_under(messages, i, k, reasoning, n - 1);
        if let Some(later) = own_reasoning(messages[n - 1]) {
            let calls = assistant_calls(messages[n - 1]);
            if later != reasoning {
                assert forall|l: int| 0 <= l < calls.len() implies chat_call_id(
                    #[trigger] calls[l],
                ) != id by {
                    assert(assistant_calls(messages[n - 1])[l] == calls[l]);
                }
            }
            lemma_with_other_calls(cached(list.drop_last()), calls, later, id, reasoning);
        }
    }
}

/// Calls without ids find nothing.
proof fn lemma_nameless_calls(calls: Seq<Tree>, cache: Map<Seq<char>, Seq<char>>)
    requires
        !cache.contains_key(Seq::empty()),
        forall|l: int| 0 <= l < calls.len() ==> chat_call_id(#[trigger] calls[l]).len() == 0,
    ensures
        first_kept(calls, cache) is None,
    decreases calls.len(),
{
    if calls.len() > 0 {
        let front = calls.drop_last();
        assert forall|l: int| 0 <= l < front.len() implies chat_call_id(#[trigger] front[l]).len()
            == 0 by {
            assert(front[l] == calls[l]);
        }
        lemma_nameless_calls(front, cache);
        assert(chat_call_id(calls[calls.len() - 1]) =~= Seq::empty());
    }
}

/// The reasoning of each message with a tool call that has an id is given back when it is
/// left out: the message is then as it was. `k` is the first of its calls that has an id;
/// where a later message has other reasoning under that id, that is given back instead.
pub proof fn left_out_reasoning_is_restored(
    messages: Seq<Tree>,
    i: int,
    m: Map<Seq<char>, Tree>,
    reasoning: Seq<char>,
    k: int,
)
    requires
        0 <= i < messages.len(),
        messages[i] == Tree::Object(m),
        member(m, "reasoning_content"@) == Some(Tree::Str(reasoning)),
        trim(reasoning).len() > 0,
        0 <= k < assistant_calls(Tree::Object(m)).len(),
        chat_call_id(assistant_calls(Tree::Object(m))[k]).len() > 0,
        forall|l: int|
            0 <= l < k ==> chat_call_id(#[trigger] assistant_calls(Tree::Object(m))[l]).len() == 0,
        stays_under(
            messages,
            i,
            chat_call_id(assistant_calls(Tree::Object(m))[k]),
            reasoning,
        ),
    ensures
        restored(Tree::Object(m.remove("reasoning_content"@)), cached(messages)) == Tree::Object(m),
{
    reveal_strlit("role");
    reveal_strlit("tool_calls");
    reveal_strlit("reasoning_content");
    assert("role"@.len() == 4);
    assert("tool_calls"@.len() == 10);
    assert("reasoning_content"@.len() == 17);
    let bare = m.remove("reasoning_content"@);
    let calls = assistant_calls(Tree::Object(m));
    let cache = cached(messages);
    assert(assistant_calls(Tree::Object(bare)) == calls);
    lemma_stays_under(messages, i, k, reasoning, messages.len() as int);
    assert(messages.take(messages.len() as int) =~= messages);
    lemma_no_empty_ids(messages);
    lemma_nameless_calls(calls.take(k), cache);
    assert(calls.take(k + 1).drop_last() =~= calls.take(k));
    lemma_first_kept(calls, cache, k + 1);
    assert(bare.insert("reasoning_content"@, Tree::Str(reasoning)) =~= m);
}

/// Messages that have their reasoning are left as they are.
pub proof fn present_reasoning_is_untouched(message: Tree, cache: Map<Seq<char>, Seq<char>>)
    requires
        own_reasoning(message) is Some,
    ensures
        restored(message, cache) == message,
{
}

/// Giving reasoning back twice is giving it back once.
pub proof fn restoring_is_idempotent(message: Tree, cache: Map<Seq<char>, Seq<char>>)
    requires
        forall|id: Seq<char>| #[trigger] cache.contains_key(id) ==> trim(cache[id]).len() > 0,
    ensures
        restored(restored(message, cache), cache) == restored(message, cache),
{
    if own_reasoning(message) is None {
        match (message, first_kept(assistant_calls(message), cache)) {
            (Tree::Object(m), Some(r)) => {
                lemma_first_kept_in(assistant_calls(message), cache);
                assert(own_reasoning(restored(message, cache)) == Some(r));
            },
            _ => {},
        }
    }
}

proof fn lemma_first_kept_in(calls: Seq<Tree>, cache: Map<Seq<char>, Seq<char>>)
    ensures
        first_kept(calls, cache) matches Some(r) ==> exists|id: Seq<char>| #[trigger]
            cache.contains_key(id) && cache[id] == r,
    decreases calls.len(),
{
    if calls.len() > 0 {
        lemma_first_kept_in(calls.drop_last(), cache);
    }
}

} // verus!
