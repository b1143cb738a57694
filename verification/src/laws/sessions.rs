//! How long turns are remembered, and how often a request is tried.
use vstd::prelude::*;
use crate::json::Tree;
use crate::session_store::{capped, dropped, oldest, only_live, seek, Entry, Record, Sessions};
use crate::upstream::{Journey, NextStep};

verus! {

proof fn lemma_sought(entries: Seq<Entry>, id: Seq<char>, i: int, from: int)
    requires
        0 <= from <= i < entries.len(),
        entries[i].id == id,
        forall|j: int| 0 <= j < entries.len() && j != i ==> (#[trigger] entries[j]).id != id,
    ensures
        seek(entries, id, from) == Some(i),
    decreases i - from,
{
    if from < i {
        assert(entries[from].id != id);
        lemma_sought(entries, id, i, from + 1);
    }
}

proof fn lemma_not_sought(entries: Seq<Entry>, id: Seq<char>, from: int)
    requires
        0 <= from <= entries.len(),
        forall|j: int| 0 <= j < entries.len() ==> (#[trigger] entries[j]).id != id,
    ensures
        seek(entries, id, from) is None,
    decreases entries.len() - from,
{
    if from < entries.len() {
        assert(entries[from].id != id);
        lemma_not_sought(entries, id, from + 1);
    }
}

/// A turn is found under its id as long as it was used within the time to live, and to find
/// it is to use it. One that was not used for longer is gone. No other turn changes.
pub proof fn turns_are_found_while_they_live(s: Sessions, i: int, now: int)
    requires
        s.distinct(),
        0 <= i < s.entries.len(),
        s.entries[i].at <= now,
    ensures
        ({
            let (after, found) = s.looked_up(s.entries[i].id, now);
            if now - s.entries[i].at <= s.ttl {
                &&& found == Some(s.entries[i].record)
                &&& after.entries.len() == s.entries.len()
                &&& after.entries[i].at == now
                &&& after.entries[i].id == s.entries[i].id
                &&& after.entries[i].record == s.entries[i].record
                &&& forall|j: int|
                    0 <= j < s.entries.len() && j != i ==> #[trigger] after.entries[j]
                        == s.entries[j]
            } else {
                found is None && after.entries == s.entries.remove(i)
            }
        }),
{
    let id = s.entries[i].id;
    assert forall|j: int| 0 <= j < s.entries.len() && j != i implies (#[trigger] s.entries[j]).id
        != id by {
        if j < i {
            assert(s.entries[j].id != s.entries[i].id);
        } else {
            assert(s.entries[i].id != s.entries[j].id);
        }
    }
    lemma_sought(s.entries, id, i, 0);
}

proof fn lemma_oldest_is(entries: Seq<Entry>, n: int, k: int)
    requires
        0 <= k < n <= entries.len(),
        forall|j: int| 0 <= j < n && j != k ==> (#[trigger] entries[j]).at > entries[k].at,
    ensures
        oldest(entries, n) == k,
    decreases n,
{
    if n > 1 {
        if k < n - 1 {
            lemma_oldest_is(entries, n - 1, k);
            assert(entries[n - 1].at > entries[k].at);
        } else {
            lemma_oldest_within(entries, n - 1);
            let o = oldest(entries, n - 1);
            assert(entries[o].at > entries[k].at);
        }
    }
}

proof fn lemma_oldest_within(entries: Seq<Entry>, n: int)
    requires
        0 < n <= entries.len(),
    ensures
        0 <= oldest(entries, n) < n,
    decreases n,
{
    if n > 1 {
        lemma_oldest_within(entries, n - 1);
    }
}

proof fn lemma_all_live(entries: Seq<Entry>, now: int, ttl: int)
    requires
        forall|j: int|
            0 <= j < entries.len() ==> crate::session_store::elapsed(
                now,
                (#[trigger] entries[j]).at,
            ) <= ttl,
    ensures
        only_live(entries, now, ttl) == entries,
    decreases entries.len(),
{
    if entries.len() > 0 {
        let front = entries.drop_last();
        assert forall|j: int| 0 <= j < front.len() implies crate::session_store::elapsed(
            now,
            (#[trigger] front[j]).at,
        ) <= ttl by {
            assert(front[j] == entries[j]);
        }
        lemma_all_live(front, now, ttl);
        assert(crate::session_store::elapsed(now, entries[entries.len() - 1].at) <= ttl);
        assert(front.push(entries.last()) =~= entries);
    }
}

/// Where the store is full, the turn that was not used for the longest time makes room for a
/// new one, and every other turn stays.
pub proof fn the_oldest_turn_makes_room(
    s: Sessions,
    id: Seq<char>,
    record: Record,
    now: int,
    k: int,
)
    requires
        s.cap > 0,
        s.entries.len() == s.cap,
        0 <= k < s.entries.len(),
        s.ttl >= 0,
        forall|j: int| 0 <= j < s.entries.len() ==> (#[trigger] s.entries[j]).id != id,
        forall|j: int|
            0 <= j < s.entries.len() ==> now - s.ttl <= (#[trigger] s.entries[j]).at < now,
        forall|j: int|
            0 <= j < s.entries.len() && j != k ==> (#[trigger] s.entries[j]).at > s.entries[k].at,
    ensures
        s.saved(id, record, now).entries == s.entries.remove(k).push(
            Entry { id, record, at: now },
        ),
{
    lemma_not_sought(s.entries, id, 0);
    let all = s.entries.push(Entry { id, record, at: now });
    assert(dropped(s.entries, id) == s.entries);
    assert forall|j: int| 0 <= j < all.len() && j != k implies (#[trigger] all[j]).at
        > all[k].at by {
        if j < s.entries.len() {
            assert(all[j] == s.entries[j]);
        }
    }
    lemma_oldest_is(all, all.len() as int, k);
    let rest = all.remove(k);
    reveal_with_fuel(capped, 2);
    assert(capped(all, s.cap) == rest);
    assert forall|j: int| 0 <= j < rest.len() implies crate::session_store::elapsed(
        now,
        (#[trigger] rest[j]).at,
    ) <= s.ttl by {
        if j < k {
            assert(rest[j] == all[j] && all[j] == s.entries[j]);
        } else if j < s.entries.len() - 1 {
            assert(rest[j] == all[j + 1] && all[j + 1] == s.entries[j + 1]);
        } else {
            assert(rest[j] == all[j + 1]);
        }
    }
    lemma_all_live(rest, now, s.ttl);
    assert(rest =~= s.entries.remove(k).push(Entry { id, record, at: now }));
}

/// A failure that may pass is met by sending the same request again, as often as is allowed:
/// too many requests, or a server that fails. Any other that the request cannot be changed
/// for is final.
pub proof fn passing_failures_are_tried_again(j: Journey, error: Seq<char>, status: int)
    requires
        j.attempt.reason_for(error, status) is None,
    ensures
        ({
            let (after, step) = j.rejected(error, status);
            &&& after.attempt == j.attempt
            &&& (step == NextStep::SendAgain) == ((status == 429 || status >= 500) && j.retries
                < j.max_retries)
            &&& step == NextStep::SendAgain ==> after.retries == j.retries + 1
            &&& step != NextStep::SendAgain ==> step == NextStep::GiveUp && after == j
        }),
{
}

/// An error of the provider is told in its own words, and by its status where it has none.
pub proof fn failures_are_told_in_their_own_words(
    status: int,
    body: Tree,
    error: Map<Seq<char>, Tree>,
    message: Seq<char>,
)
    requires
        body.at("error"@) == Some(Tree::Object(error)),
    ensures
        error.contains_key("message"@) && error["message"@] == Tree::Str(message)
            ==> crate::upstream::failure_message(status, Some(body)) == message,
        !error.contains_key("message"@) ==> crate::upstream::failure_message(status, Some(body))
            == "Upstream returned status "@ + crate::text::decimal_digits(status as nat),
{
}

/// The tools that a tool search found are registered as if the request had declared them.
pub proof fn found_tools_are_declared_tools(
    item: Map<Seq<char>, Tree>,
    tools: Seq<Tree>,
    policy: crate::config::UnsupportedToolPolicy,
)
    requires
        item.contains_key("type"@),
        item["type"@] == Tree::Str("tool_search_output"@),
        item.contains_key("tools"@),
        item["tools"@] == Tree::Array(tools),
    ensures
        crate::context::Registry::of_request(
            None,
            Some(Tree::Array(seq![Tree::Object(item)])),
            policy,
        ) == crate::context::Registry::of_request(Some(Tree::Array(tools)), None, policy),
{
    assert("tool_search_output"@ != "custom_tool_call"@) by {
        reveal_strlit("tool_search_output");
        reveal_strlit("custom_tool_call");
        assert("tool_search_output"@.len() == 18);
        assert("custom_tool_call"@.len() == 16);
    }
    let items = seq![Tree::Object(item)];
    assert(items.drop_last() =~= Seq::empty());
    let none = crate::context::Registry::empty();
    assert(crate::context::input_items(None) =~= Seq::empty());
    assert(crate::context::input_items(Some(Tree::Array(items))) =~= items);
    assert(none.with_items(Seq::empty(), policy) == none);
    let declared = none.with_all_declared(tools, policy);
    assert(declared.with_items(Seq::empty(), policy) == declared);
    reveal_with_fuel(crate::context::Registry::with_items, 2);
}

} // verus!
