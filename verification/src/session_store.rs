//! Turns that can be continued.
//!
//! The store keeps what is needed to continue a response under the id of the
//! response. An entry that was not used for too long is gone, and when there are
//! too many entries those that were not used for the longest time go first. Times
//! are counted in nanoseconds from some fixed moment.
use vstd::prelude::*;
use crate::context::{BridgeToolContext, Registry};
use crate::json::{clone_values, trees, Json, Tree};
use crate::reasoning_cache::ReasoningCache;
use crate::text::{chars_of, same};

verus! {

/// For how long an entry is kept: an hour.
pub const DEFAULT_TTL: u64 = 3_600_000_000_000;

/// How many entries are kept.
pub const DEFAULT_MAX_SESSIONS: usize = 500;

/// What is needed to continue a response.
#[derive(Debug)]
pub struct SessionRecord {
    pub messages: Vec<Json>,
    pub tool_context: BridgeToolContext,
    pub model: String,
    pub reasoning_cache: ReasoningCache,
}

/// The model of a record.
#[verifier::ext_equal]
pub ghost struct Record {
    pub messages: Seq<Tree>,
    pub registry: Registry,
    pub model: Seq<char>,
    pub cache: Map<Seq<char>, Seq<char>>,
}

impl View for SessionRecord {
    type V = Record;

    open spec fn view(&self) -> Record {
        Record {
            messages: trees(self.messages@),
            registry: self.tool_context@,
            model: self.model@,
            cache: self.reasoning_cache@,
        }
    }
}

impl SessionRecord {
    /// A record.
    pub fn new(
        messages: Vec<Json>,
        tool_context: BridgeToolContext,
        model: String,
        reasoning_cache: ReasoningCache,
    ) -> (r: SessionRecord)
        ensures
            r@ == (Record {
                messages: trees(messages@),
                registry: tool_context@,
                model: model@,
                cache: reasoning_cache@,
            }),
    {
        SessionRecord { messages, tool_context, model, reasoning_cache }
    }
}

impl Clone for SessionRecord {
    fn clone(&self) -> (r: SessionRecord)
        ensures
            r@ == self@,
    {
        SessionRecord {
            messages: clone_values(&self.messages),
            tool_context: self.tool_context.clone(),
            model: self.model.clone(),
            reasoning_cache: self.reasoning_cache.clone(),
        }
    }
}

/// An entry of the store.
#[derive(Debug)]
struct StoredEntry {
    id: String,
    record: SessionRecord,
    last_accessed_at: u64,
}

/// The model of an entry.
#[verifier::ext_equal]
pub ghost struct Entry {
    pub id: Seq<char>,
    pub record: Record,
    pub at: int,
}

impl StoredEntry {
    spec fn model(self) -> Entry {
        Entry { id: self.id@, record: self.record@, at: self.last_accessed_at as int }
    }
}

/// The models of entries.
spec fn models(s: Seq<StoredEntry>) -> Seq<Entry> {
    s.map_values(|e: StoredEntry| e.model())
}

/// The store.
#[derive(Debug)]
pub struct SessionStore {
    ttl: u64,
    max_sessions: usize,
    entries: Vec<StoredEntry>,
}

/// The model of the store: for how long and how many entries are kept, and the entries,
/// the one that was saved last at the end.
#[verifier::ext_equal]
pub ghost struct Sessions {
    pub ttl: int,
    pub cap: nat,
    pub entries: Seq<Entry>,
}

impl View for SessionStore {
    type V = Sessions;

    closed spec fn view(&self) -> Sessions {
        Sessions {
            ttl: self.ttl as int,
            cap: self.max_sessions as nat,
            entries: models(self.entries@),
        }
    }
}

/// How long ago a time was.
pub open spec fn elapsed(now: int, at: int) -> int {
    if now >= at {
        now - at
    } else {
        0
    }
}

/// Whether a text stands before another in the order of their characters.
pub open spec fn precedes(a: Seq<char>, b: Seq<char>) -> bool
    decreases a.len(),
{
    if b.len() == 0 {
        false
    } else if a.len() == 0 {
        true
    } else if a[0] == b[0] {
        precedes(a.drop_first(), b.drop_first())
    } else {
        a[0] < b[0]
    }
}

/// Whether an entry goes before another: it was used before it, or at the same time and
/// has the smaller id.
pub open spec fn goes_before(a: Entry, b: Entry) -> bool {
    a.at < b.at || a.at == b.at && precedes(a.id, b.id)
}

/// The position of the entry among the first `n` that goes first.
pub open spec fn oldest(entries: Seq<Entry>, n: int) -> int
    decreases n,
{
    if n <= 1 {
        0
    } else {
        let k = oldest(entries, n - 1);
        if goes_before(entries[n - 1], entries[k]) {
            n - 1
        } else {
            k
        }
    }
}

/// The entries once there are not too many.
pub open spec fn capped(entries: Seq<Entry>, cap: nat) -> Seq<Entry>
    decreases entries.len(),
{
    let k = oldest(entries, entries.len() as int);
    if entries.len() <= cap || !(0 <= k < entries.len()) {
        entries
    } else {
        capped(entries.remove(k), cap)
    }
}

/// Whether an entry is still kept.
pub open spec fn live(e: Entry, now: int, ttl: int) -> bool {
    elapsed(now, e.at) <= ttl
}

/// The entries that are still kept.
pub open spec fn only_live(entries: Seq<Entry>, now: int, ttl: int) -> Seq<Entry>
    decreases entries.len(),
{
    if entries.len() == 0 {
        entries
    } else {
        let before = only_live(entries.drop_last(), now, ttl);
        if live(entries.last(), now, ttl) {
            before.push(entries.last())
        } else {
            before
        }
    }
}

/// The first position from `from` on of the entry with an id.
pub open spec fn seek(entries: Seq<Entry>, id: Seq<char>, from: int) -> Option<int>
    decreases entries.len() - from,
{
    if from >= entries.len() {
        None
    } else if entries[from].id == id {
        Some(from)
    } else {
        seek(entries, id, from + 1)
    }
}

/// The entries without the one with an id.
pub open spec fn dropped(entries: Seq<Entry>, id: Seq<char>) -> Seq<Entry> {
    match seek(entries, id, 0) {
        Some(i) => entries.remove(i),
        None => entries,
    }
}

impl Sessions {
    /// Look up a response: what is kept of it, if it is. Looking it up counts as using
    /// it, and an entry that is too old goes.
    pub open spec fn looked_up(self, id: Seq<char>, now: int) -> (Sessions, Option<Record>) {
        match seek(self.entries, id, 0) {
            Some(i) => if live(self.entries[i], now, self.ttl) {
                (
                    Sessions {
                        entries: self.entries.update(i, Entry { at: now, ..self.entries[i] }),
                        ..self
                    },
                    Some(self.entries[i].record),
                )
            } else {
                (Sessions { entries: self.entries.remove(i), ..self }, None)
            },
            None => (self, None),
        }
    }

    /// Save a response. When there are too many, the oldest go; then those that are too
    /// old.
    pub open spec fn saved(self, id: Seq<char>, record: Record, now: int) -> Sessions {
        let entries = dropped(self.entries, id).push(Entry { id, record, at: now });
        Sessions { entries: only_live(capped(entries, self.cap), now, self.ttl), ..self }
    }

    /// Whether no response is kept twice.
    pub open spec fn distinct(self) -> bool {
        forall|i: int, j: int|
            0 <= i < j < self.entries.len() ==> (#[trigger] self.entries[i]).id != (
            #[trigger] self.entries[j]).id
    }
}

/// Whether a text stands before another in the order of their characters.
fn text_precedes(a: &str, b: &str) -> (r: bool)
    ensures
        r == precedes(a@, b@),
{
    let v = chars_of(a);
    let w = chars_of(b);
    let mut i: usize = 0;
    assert(v@.skip(0) =~= v@);
    assert(w@.skip(0) =~= w@);
    while i < v.len() && i < w.len()
        invariant
            i <= v@.len(),
            i <= w@.len(),
            precedes(a@, b@) == precedes(v@.skip(i as int), w@.skip(i as int)),
        decreases v.len() - i,
    {
        assert(v@.skip(i as int)[0] == v@[i as int]);
        assert(w@.skip(i as int)[0] == w@[i as int]);
        assert(v@.skip(i as int).drop_first() =~= v@.skip(i as int + 1));
        assert(w@.skip(i as int).drop_first() =~= w@.skip(i as int + 1));
        if v[i] != w[i] {
            return v[i] < w[i];
        }
        i += 1;
    }
    i < w.len()
}

impl SessionStore {
    /// A store that is empty. An entry that was not used for more than `ttl` is gone.
    pub fn new(ttl: u64, max_sessions: usize) -> (r: SessionStore)
        ensures
            r@ == (Sessions {
                ttl: ttl as int,
                cap: max_sessions as nat,
                entries: Seq::empty(),
            }),
    {
        let r = SessionStore { ttl, max_sessions, entries: Vec::new() };
        assert(r@.entries =~= Seq::empty());
        r
    }

    /// How many entries there are.
    pub fn active_count(&self) -> (r: usize)
        ensures
            r == self@.entries.len(),
    {
        self.entries.len()
    }

    fn find(&self, id: &str) -> (r: Option<usize>)
        ensures
            match r {
                Some(i) => i < self@.entries.len() && seek(self@.entries, id@, 0) == Some(i as int),
                None => seek(self@.entries, id@, 0) is None,
            },
    {
        let mut i: usize = 0;
        while i < self.entries.len()
            invariant
                i <= self.entries@.len(),
                self@.entries == models(self.entries@),
                seek(self@.entries, id@, 0) == seek(self@.entries, id@, i as int),
            decreases self.entries.len() - i,
        {
            assert(self@.entries[i as int] == self.entries@[i as int].model());
            if same(self.entries[i].id.as_str(), id) {
                return Some(i);
            }
            i += 1;
        }
        None
    }

    fn is_live(&self, i: usize, now: u64) -> (r: bool)
        requires
            i < self@.entries.len(),
        ensures
            r == live(self@.entries[i as int], now as int, self@.ttl),
    {
        assert(self@.entries[i as int] == self.entries@[i as int].model());
        let at: u64 = self.entries[i].last_accessed_at;
        let passed: u64 = if now >= at {
            now - at
        } else {
            0
        };
        passed <= self.ttl
    }

    /// What is kept of a response, if it is. Looking it up counts as using it; the
    /// record is a copy.
    pub fn get(&mut self, response_id: &str, now: u64) -> (r: Option<SessionRecord>)
        ensures
            final(self)@ == old(self)@.looked_up(response_id@, now as int).0,
            match r {
                Some(record) => old(self)@.looked_up(response_id@, now as int).1 == Some(record@),
                None => old(self)@.looked_up(response_id@, now as int).1 is None,
            },
    {
        let ghost before = self@.entries;
        match self.find(response_id) {
            Some(i) => {
                assert(before[i as int] == self.entries@[i as int].model());
                let alive = self.is_live(i, now);
                let entry = self.entries.remove(i);
                if !alive {
                    assert(self@.entries =~= before.remove(i as int));
                    return None;
                }
                let copy = entry.record.clone();
                self.entries.insert(
                    i,
                    StoredEntry { id: entry.id, record: entry.record, last_accessed_at: now },
                );
                assert(self@.entries =~= before.update(
                    i as int,
                    Entry { at: now as int, ..before[i as int] },
                ));
                Some(copy)
            },
            None => None,
        }
    }

    fn oldest_entry(&self) -> (r: usize)
        requires
            self@.entries.len() > 0,
        ensures
            r == oldest(self@.entries, self@.entries.len() as int),
            r < self@.entries.len(),
    {
        let mut k: usize = 0;
        let mut i: usize = 1;
        while i < self.entries.len()
            invariant
                1 <= i <= self.entries@.len(),
                k < i,
                self@.entries == models(self.entries@),
                k == oldest(self@.entries, i as int),
            decreases self.entries.len() - i,
        {
            assert(self@.entries[i as int] == self.entries@[i as int].model());
            assert(self@.entries[k as int] == self.entries@[k as int].model());
            let a: u64 = self.entries[i].last_accessed_at;
            let b: u64 = self.entries[k].last_accessed_at;
            if a < b || a == b && text_precedes(
                self.entries[i].id.as_str(),
                self.entries[k].id.as_str(),
            ) {
                k = i;
            }
            i += 1;
        }
        k
    }

    fn enforce_cap(&mut self)
        ensures
            final(self)@ == (Sessions {
                entries: capped(old(self)@.entries, old(self)@.cap),
                ..old(self)@
            }),
    {
        let ghost start = self@;
        while self.entries.len() > self.max_sessions
            invariant
                self@.ttl == start.ttl,
                self@.cap == start.cap,
                self.max_sessions == start.cap,
                self.entries@.len() == self@.entries.len(),
                capped(self@.entries, start.cap) == capped(start.entries, start.cap),
            decreases self.entries.len(),
        {
            let ghost before = self@.entries;
            let k = self.oldest_entry();
            self.entries.remove(k);
            assert(self@.entries =~= before.remove(k as int));
        }
    }

    fn cleanup(&mut self, now: u64)
        ensures
            final(self)@ == (Sessions {
                entries: only_live(old(self)@.entries, now as int, old(self)@.ttl),
                ..old(self)@
            }),
    {
        let ghost all = self@.entries;
        let ghost start = self@;
        let ghost mut seen: int = 0;
        let mut i: usize = 0;
        assert(all.take(0) =~= Seq::empty());
        assert(all =~= Seq::<Entry>::empty() + all.skip(0));
        while i < self.entries.len()
            invariant
                0 <= seen <= all.len(),
                self@.entries == only_live(all.take(seen), now as int, start.ttl) + all.skip(seen),
                self@.entries == models(self.entries@),
                self@.ttl == start.ttl,
                self@.cap == start.cap,
                i == only_live(all.take(seen), now as int, start.ttl).len(),
            decreases all.len() - seen,
        {
            let ghost done = only_live(all.take(seen), now as int, start.ttl);
            let ghost before = self.entries@;
            assert(before.len() == self@.entries.len());
            assert(all.take(seen + 1).drop_last() =~= all.take(seen));
            assert(all.take(seen + 1).last() == all[seen]);
            assert(self@.entries[i as int] == all[seen]);
            if self.is_live(i, now) {
                assert(done + all.skip(seen) =~= done.push(all[seen]) + all.skip(seen + 1));
                i += 1;
            } else {
                let ghost list = done + all.skip(seen);
                self.entries.remove(i);
                assert(models(self.entries@) =~= models(before).remove(i as int));
                assert(list.remove(i as int) =~= done + all.skip(seen + 1));
            }
            proof {
                seen = seen + 1;
            }
        }
        proof {
            assert(self.entries@.len() == self@.entries.len());
            assert(seen == all.len());
            assert(all.take(seen) =~= all);
            assert(all.skip(seen) =~= Seq::empty());
            assert(self@.entries =~= only_live(all, now as int, start.ttl));
        }
    }

    /// Save a response under its id. When there are too many, the oldest go; then those
    /// that are too old.
    pub fn save(&mut self, response_id: &str, record: SessionRecord, now: u64)
        ensures
            final(self)@ == old(self)@.saved(response_id@, record@, now as int),
    {
        let ghost before = self@.entries;
        if let Some(i) = self.find(response_id) {
            self.entries.remove(i);
            assert(self@.entries =~= before.remove(i as int));
        }
        let ghost less = self@.entries;
        self.entries.push(
            StoredEntry { id: response_id.to_owned(), record, last_accessed_at: now },
        );
        assert(self@.entries =~= less.push(
            Entry { id: response_id@, record: record@, at: now as int },
        ));
        self.enforce_cap();
        self.cleanup(now);
    }
}

proof fn lemma_oldest(entries: Seq<Entry>, n: int)
    requires
        0 < n <= entries.len(),
    ensures
        0 <= oldest(entries, n) < n,
        forall|i: int|
            0 <= i < n ==> entries[oldest(entries, n)].at <= (#[trigger] entries[i]).at,
    decreases n,
{
    if n > 1 {
        lemma_oldest(entries, n - 1);
    }
}

/// There are never too many entries.
pub proof fn stores_stay_within_their_cap(s: Sessions, id: Seq<char>, record: Record, now: int)
    ensures
        s.saved(id, record, now).entries.len() <= s.cap,
{
    let entries = dropped(s.entries, id).push(Entry { id, record, at: now });
    lemma_capped(entries, s.cap);
    lemma_only_live(capped(entries, s.cap), now, s.ttl);
}

proof fn lemma_capped(entries: Seq<Entry>, cap: nat)
    ensures
        capped(entries, cap).len() <= cap,
    decreases entries.len(),
{
    if entries.len() > cap {
        lemma_oldest(entries, entries.len() as int);
        lemma_capped(entries.remove(oldest(entries, entries.len() as int)), cap);
    }
}

proof fn lemma_only_live(entries: Seq<Entry>, now: int, ttl: int)
    ensures
        only_live(entries, now, ttl).len() <= entries.len(),
        forall|i: int|
            0 <= i < only_live(entries, now, ttl).len() ==> live(
                #[trigger] only_live(entries, now, ttl)[i],
                now,
                ttl,
            ) && entries.contains(only_live(entries, now, ttl)[i]),
    decreases entries.len(),
{
    if entries.len() > 0 {
        let before = entries.drop_last();
        lemma_only_live(before, now, ttl);
        let kept = only_live(entries, now, ttl);
        assert forall|i: int| 0 <= i < kept.len() implies live(#[trigger] kept[i], now, ttl)
            && entries.contains(kept[i]) by {
            if i < only_live(before, now, ttl).len() {
                assert(kept[i] == only_live(before, now, ttl)[i]);
                let j = choose|j: int| 0 <= j < before.len() && before[j] == kept[i];
                assert(entries[j] == kept[i]);
            } else {
                assert(entries[entries.len() - 1] == kept[i]);
            }
        }
    }
}

/// What is too old is never given out: whatever a lookup finds was used within the time
/// that entries are kept.
pub proof fn old_entries_are_not_given_out(s: Sessions, id: Seq<char>, now: int)
    ensures
        s.looked_up(id, now).1 is Some ==> exists|i: int|
            0 <= i < s.entries.len() && (#[trigger] s.entries[i]).id == id && live(
                s.entries[i],
                now,
                s.ttl,
            ),
{
    lemma_seek(s.entries, id, 0);
}

proof fn lemma_seek(entries: Seq<Entry>, id: Seq<char>, from: int)
    requires
        0 <= from,
    ensures
        match seek(entries, id, from) {
            Some(i) => from <= i < entries.len() && entries[i].id == id && forall|j: int|
                from <= j < i ==> (#[trigger] entries[j]).id != id,
            None => forall|j: int| from <= j < entries.len() ==> (#[trigger] entries[j]).id != id,
        },
    decreases entries.len() - from,
{
    if from < entries.len() && entries[from].id != id {
        lemma_seek(entries, id, from + 1);
    }
}

/// The entry that was saved last stays, where it was saved after all others were used.
proof fn lemma_newest_stays(entries: Seq<Entry>, cap: nat)
    requires
        entries.len() > 0,
        cap > 0,
        forall|i: int| 0 <= i < entries.len() - 1 ==> (#[trigger] entries[i]).at < entries.last().at,
        forall|i: int| 0 <= i < entries.len() - 1 ==> (#[trigger] entries[i]).id != entries.last().id,
    ensures
        capped(entries, cap).len() > 0,
        capped(entries, cap).last() == entries.last(),
        forall|i: int|
            0 <= i < capped(entries, cap).len() - 1 ==> (#[trigger] capped(entries, cap)[i]).id
                != entries.last().id,
    decreases entries.len(),
{
    if entries.len() > cap {
        let k = oldest(entries, entries.len() as int);
        lemma_oldest(entries, entries.len() as int);
        assert(entries[k].at <= entries[0].at);
        assert(entries[0].at < entries.last().at);
        let less = entries.remove(k);
        assert(less.last() == entries.last());
        assert forall|i: int| 0 <= i < less.len() - 1 implies (#[trigger] less[i]).at
            < less.last().at && less[i].id != less.last().id by {
            if i < k {
                assert(less[i] == entries[i]);
            } else {
                assert(less[i] == entries[i + 1]);
            }
        }
        lemma_newest_stays(less, cap);
    }
}

/// What was saved can be looked up: as long as it is not too old, the record comes back
/// as it was saved. The store must keep at least one entry, and no entry may have been
/// used at the time of saving or later.
pub proof fn saved_responses_are_found(
    s: Sessions,
    id: Seq<char>,
    record: Record,
    now: int,
    later: int,
)
    requires
        s.cap > 0,
        s.ttl >= 0,
        s.distinct(),
        forall|i: int| 0 <= i < s.entries.len() ==> (#[trigger] s.entries[i]).at < now,
        elapsed(later, now) <= s.ttl,
    ensures
        s.saved(id, record, now).looked_up(id, later).1 == Some(record),
{
    let new = Entry { id, record, at: now };
    let less = dropped(s.entries, id);
    lemma_seek(s.entries, id, 0);
    assert forall|i: int| 0 <= i < less.len() implies (#[trigger] less[i]).at < now && less[i].id
        != id by {
        match seek(s.entries, id, 0) {
            Some(k) => {
                if i < k {
                    assert(less[i] == s.entries[i]);
                } else {
                    assert(less[i] == s.entries[i + 1]);
                    assert(s.entries[k].id != s.entries[i + 1].id);
                }
            },
            None => {
                assert(less[i] == s.entries[i]);
            },
        }
    }
    let entries = less.push(new);
    assert forall|i: int| 0 <= i < entries.len() - 1 implies (#[trigger] entries[i]).at
        < entries.last().at && entries[i].id != entries.last().id by {
        assert(entries[i] == less[i]);
    }
    lemma_newest_stays(entries, s.cap);
    let c = capped(entries, s.cap);
    let kept = only_live(c, now, s.ttl);
    assert(live(c.last(), now, s.ttl));
    assert(kept.last() == new);
    lemma_only_live(c.drop_last(), now, s.ttl);
    assert forall|i: int| 0 <= i < kept.len() - 1 implies (#[trigger] kept[i]).id != id by {
        assert(kept[i] == only_live(c.drop_last(), now, s.ttl)[i]);
        let j = choose|j: int| 0 <= j < c.drop_last().len() && c.drop_last()[j] == kept[i];
        assert(c[j].id != id);
    }
    lemma_seek(kept, id, 0);
    assert(kept[kept.len() - 1].id == id);
}

proof fn lemma_remove_distinct(s: Sessions, k: int)
    requires
        s.distinct(),
        0 <= k < s.entries.len(),
    ensures
        (Sessions { entries: s.entries.remove(k), ..s }).distinct(),
{
    let t = s.entries.remove(k);
    assert forall|i: int, j: int| 0 <= i < j < t.len() implies (#[trigger] t[i]).id != (
    #[trigger] t[j]).id by {
        let a = if i < k {
            i
        } else {
            i + 1
        };
        let b = if j < k {
            j
        } else {
            j + 1
        };
        assert(t[i] == s.entries[a]);
        assert(t[j] == s.entries[b]);
    }
}

proof fn lemma_capped_distinct(s: Sessions)
    requires
        s.distinct(),
    ensures
        (Sessions { entries: capped(s.entries, s.cap), ..s }).distinct(),
    decreases s.entries.len(),
{
    let k = oldest(s.entries, s.entries.len() as int);
    if s.entries.len() > s.cap && 0 <= k < s.entries.len() {
        lemma_remove_distinct(s, k);
        lemma_capped_distinct(Sessions { entries: s.entries.remove(k), ..s });
    }
}

proof fn lemma_live_distinct(s: Sessions, now: int)
    requires
        s.distinct(),
    ensures
        (Sessions { entries: only_live(s.entries, now, s.ttl), ..s }).distinct(),
    decreases s.entries.len(),
{
    if s.entries.len() > 0 {
        let less = s.entries.drop_last();
        assert(less =~= s.entries.remove(s.entries.len() - 1));
        lemma_remove_distinct(s, s.entries.len() - 1);
        lemma_live_distinct(Sessions { entries: less, ..s }, now);
        lemma_only_live(less, now, s.ttl);
        let before = only_live(less, now, s.ttl);
        let kept = only_live(s.entries, now, s.ttl);
        assert forall|i: int, j: int| 0 <= i < j < kept.len() implies (#[trigger] kept[i]).id != (
        #[trigger] kept[j]).id by {
            if j < before.len() {
                let u = Sessions { entries: before, ..s };
                assert(u.entries[i].id != u.entries[j].id);
                assert(kept[i] == before[i] && kept[j] == before[j]);
            } else {
                assert(kept[i] == before[i]);
                let a = choose|a: int| 0 <= a < less.len() && less[a] == before[i];
                assert(s.entries[a] == before[i]);
                assert(kept[j] == s.entries[s.entries.len() - 1]);
                assert(s.entries[a].id != s.entries[s.entries.len() - 1].id);
            }
        }
    }
}

/// No response is ever kept twice.
pub proof fn responses_are_kept_once(s: Sessions, id: Seq<char>, record: Record, now: int)
    requires
        s.distinct(),
    ensures
        s.saved(id, record, now).distinct(),
        s.looked_up(id, now).0.distinct(),
{
    lemma_seek(s.entries, id, 0);
    if let Some(k) = seek(s.entries, id, 0) {
        lemma_remove_distinct(s, k);
        let after = s.looked_up(id, now).0;
        if live(s.entries[k], now, s.ttl) {
            assert forall|i: int, j: int| 0 <= i < j < after.entries.len() implies (
            #[trigger] after.entries[i]).id != (#[trigger] after.entries[j]).id by {
                assert(after.entries[i].id == s.entries[i].id);
                assert(after.entries[j].id == s.entries[j].id);
            }
        }
    }
    let less = dropped(s.entries, id);
    let entries = less.push(Entry { id, record, at: now });
    let t = Sessions { entries, ..s };
    assert forall|i: int, j: int| 0 <= i < j < entries.len() implies (#[trigger] entries[i]).id != (
    #[trigger] entries[j]).id by {
        assert(entries[i] == less[i]);
        if j < less.len() {
            assert(entries[j] == less[j]);
        } else {
            match seek(s.entries, id, 0) {
                Some(k) => {
                    let a = if i < k {
                        i
                    } else {
                        i + 1
                    };
                    assert(less[i] == s.entries[a]);
                    if a < k {
                        assert(s.entries[a].id != s.entries[k].id);
                    } else {
                        assert(s.entries[k].id != s.entries[a].id);
                    }
                },
                None => {
                    assert(less[i] == s.entries[i]);
                },
            }
        }
    }
    lemma_capped_distinct(t);
    lemma_live_distinct(Sessions { entries: capped(entries, s.cap), ..s }, now);
}

} // verus!
