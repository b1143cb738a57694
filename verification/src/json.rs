//! JSON values.
//!
//! [`Json`] is the document type the conversions read and build; [`Tree`] is
//! its mathematical model. Objects keep their members in a list and their model
//! is the map from each name to its latest value, so the order in which members
//! were added never shows.
use vstd::prelude::*;
use serde_json::Value;
use crate::text::{one_line, opt_text, same, texts};

verus! {

/// The mathematical model of a JSON document.
#[verifier::ext_equal]
pub ghost enum Tree {
    Null,
    Bool(bool),
    Int(int),
    /// A number that is no integer of 64 bits, by its shortest decimal text.
    Float(Seq<char>),
    Str(Seq<char>),
    Array(Seq<Tree>),
    Object(Map<Seq<char>, Tree>),
}

/// A JSON document.
#[derive(Debug)]
pub enum Json {
    Null,
    Bool(bool),
    /// An integer from zero upwards.
    UInt(u64),
    /// An integer below zero.
    SInt(i64),
    /// A number that is no integer of 64 bits.
    Float(Decimal),
    Str(String),
    Array(Vec<Json>),
    Object(Object),
}

/// A number that is no integer of 64 bits, kept by its shortest decimal text.
#[derive(Debug)]
pub struct Decimal {
    text: String,
}

impl View for Decimal {
    type V = Seq<char>;

    closed spec fn view(&self) -> Seq<char> {
        self.text@
    }
}

impl Decimal {
    /// The number just below one, 0.999.
    pub fn almost_one() -> (r: Decimal)
        ensures
            r@ == "0.999"@,
    {
        Decimal { text: "0.999".to_owned() }
    }
}

impl Clone for Decimal {
    fn clone(&self) -> (r: Decimal)
        ensures
            r@ == self@,
    {
        Decimal { text: self.text.clone() }
    }
}

/// A JSON object.
#[derive(Debug)]
pub struct Object {
    entries: Vec<(String, Json)>,
}

impl Json {
    /// The model of this document.
    pub open spec fn tree(self) -> Tree
        decreases self,
    {
        match self {
            Json::Null => Tree::Null,
            Json::Bool(b) => Tree::Bool(b),
            Json::UInt(n) => Tree::Int(n as int),
            Json::SInt(n) => Tree::Int(n as int),
            Json::Float(s) => Tree::Float(s@),
            Json::Str(s) => Tree::Str(s@),
            Json::Array(v) => Tree::Array(trees(v@)),
            Json::Object(o) => Tree::Object(o.members()),
        }
    }
}

impl View for Json {
    type V = Tree;

    open spec fn view(&self) -> Tree {
        self.tree()
    }
}

/// The models of a list of documents.
pub open spec fn trees(s: Seq<Json>) -> Seq<Tree>
    decreases s,
{
    Seq::new(
        s.len(),
        |i: int|
            if 0 <= i < s.len() {
                s[i].tree()
            } else {
                Tree::Null
            },
    )
}

/// The latest value of each name in a list of members.
spec fn latest(s: Seq<(String, Json)>) -> Map<Seq<char>, Tree>
    decreases s,
{
    if s.len() == 0 {
        Map::empty()
    } else {
        latest(s.drop_last()).insert(s.last().0@, s.last().1.tree())
    }
}

impl Object {
    /// The value of each member name.
    pub closed spec fn members(self) -> Map<Seq<char>, Tree>
        decreases self,
    {
        latest(self.entries@)
    }
}

impl View for Object {
    type V = Map<Seq<char>, Tree>;

    open spec fn view(&self) -> Map<Seq<char>, Tree> {
        self.members()
    }
}

proof fn lemma_latest_push(s: Seq<(String, Json)>, e: (String, Json))
    ensures
        latest(s.push(e)) == latest(s).insert(e.0@, e.1@),
{
    assert(s.push(e).drop_last() =~= s);
}

proof fn lemma_latest_skip(s: Seq<(String, Json)>, i: int, k: Seq<char>)
    requires
        0 <= i < s.len(),
        forall|j: int| i < j < s.len() ==> #[trigger] s[j].0@ != k,
    ensures
        latest(s).contains_key(k) == latest(s.take(i + 1)).contains_key(k),
        latest(s).contains_key(k) ==> latest(s)[k] == latest(s.take(i + 1))[k],
    decreases s.len(),
{
    if i + 1 < s.len() {
        let d = s.drop_last();
        assert(s.last().0@ != k);
        assert forall|j: int| i < j < d.len() implies #[trigger] d[j].0@ != k by {
            assert(d[j] == s[j]);
        }
        lemma_latest_skip(d, i, k);
        assert(d.take(i + 1) =~= s.take(i + 1));
    } else {
        assert(s.take(i + 1) =~= s);
    }
}

proof fn lemma_latest_absent(s: Seq<(String, Json)>, k: Seq<char>)
    requires
        forall|j: int| 0 <= j < s.len() ==> #[trigger] s[j].0@ != k,
    ensures
        !latest(s).contains_key(k),
    decreases s.len(),
{
    if s.len() > 0 {
        let d = s.drop_last();
        assert(s.last().0@ != k);
        assert forall|j: int| 0 <= j < d.len() implies #[trigger] d[j].0@ != k by {
            assert(d[j] == s[j]);
        }
        lemma_latest_absent(d, k);
    }
}

proof fn lemma_latest_remove(s: Seq<(String, Json)>, i: int, k: Seq<char>)
    requires
        0 <= i < s.len(),
        s[i].0@ == k,
    ensures
        latest(s.remove(i)).remove(k) == latest(s).remove(k),
    decreases s.len(),
{
    let d = s.drop_last();
    if i == s.len() - 1 {
        assert(s.remove(i) =~= d);
        assert(latest(s.remove(i)).remove(k) =~= latest(s).remove(k));
    } else {
        assert(d[i] == s[i]);
        lemma_latest_remove(d, i, k);
        assert(s.remove(i).drop_last() =~= d.remove(i));
        assert(s.remove(i).last() == s.last());
        let k2 = s.last().0@;
        let v2 = s.last().1@;
        assert(latest(s.remove(i)) == latest(d.remove(i)).insert(k2, v2));
        assert(latest(s) == latest(d).insert(k2, v2));
        assert(latest(d.remove(i)).insert(k2, v2).remove(k) =~= if k2 == k {
            latest(d.remove(i)).remove(k)
        } else {
            latest(d.remove(i)).remove(k).insert(k2, v2)
        });
        assert(latest(d).insert(k2, v2).remove(k) =~= if k2 == k {
            latest(d).remove(k)
        } else {
            latest(d).remove(k).insert(k2, v2)
        });
    }
}

/// The model of an optional borrowed document.
pub open spec fn opt_tree(o: Option<&Json>) -> Option<Tree> {
    match o {
        Some(v) => Some(v@),
        None => None,
    }
}

/// The model of an optional owned document.
pub open spec fn opt_value(o: Option<Json>) -> Option<Tree> {
    match o {
        Some(v) => Some(v@),
        None => None,
    }
}

/// The models of an optional borrowed list of documents.
pub open spec fn opt_items(o: Option<&Vec<Json>>) -> Option<Seq<Tree>> {
    match o {
        Some(v) => Some(trees(v@)),
        None => None,
    }
}

/// The model of an optional borrowed object.
pub open spec fn opt_members(o: Option<&Object>) -> Option<Map<Seq<char>, Tree>> {
    match o {
        Some(v) => Some(v@),
        None => None,
    }
}

/// An optional machine integer as a mathematical one.
pub open spec fn opt_int(o: Option<i64>) -> Option<int> {
    match o {
        Some(n) => Some(n as int),
        None => None,
    }
}

/// The member `k` of an object's model.
pub open spec fn member(m: Map<Seq<char>, Tree>, k: Seq<char>) -> Option<Tree> {
    if m.contains_key(k) {
        Some(m[k])
    } else {
        None
    }
}

/// The text that a document holds, if it is a text.
pub open spec fn text_in(o: Option<Tree>) -> Option<Seq<char>> {
    match o {
        Some(Tree::Str(s)) => Some(s),
        _ => None,
    }
}

/// The text of the member `k`, if it is a text.
pub open spec fn text_at(m: Map<Seq<char>, Tree>, k: Seq<char>) -> Option<Seq<char>> {
    text_in(member(m, k))
}

/// The items that a document holds, if it is an array.
pub open spec fn items_in(o: Option<Tree>) -> Option<Seq<Tree>> {
    match o {
        Some(Tree::Array(s)) => Some(s),
        _ => None,
    }
}

/// The members that a document holds, if it is an object.
pub open spec fn members_in(o: Option<Tree>) -> Option<Map<Seq<char>, Tree>> {
    match o {
        Some(Tree::Object(m)) => Some(m),
        _ => None,
    }
}

/// The truth value that a document holds, if it is one.
pub open spec fn bool_in(o: Option<Tree>) -> Option<bool> {
    match o {
        Some(Tree::Bool(b)) => Some(b),
        _ => None,
    }
}

/// The integer that a document holds, if it is one that fits `i64`.
pub open spec fn int_in(o: Option<Tree>) -> Option<int> {
    match o {
        Some(Tree::Int(n)) => if i64::MIN <= n <= i64::MAX {
            Some(n)
        } else {
            None
        },
        _ => None,
    }
}

impl Tree {
    /// The member `k`, if this is an object that has it.
    pub open spec fn at(self, k: Seq<char>) -> Option<Tree> {
        match self {
            Tree::Object(m) => member(m, k),
            _ => None,
        }
    }
}

impl Object {
    /// An object without members.
    pub fn new() -> (r: Object)
        ensures
            r@ == Map::<Seq<char>, Tree>::empty(),
    {
        Object { entries: Vec::new() }
    }

    /// Position of the latest member named `k`.
    fn position(&self, k: &str) -> (r: Option<usize>)
        ensures
            match r {
                Some(i) => {
                    &&& i < self.entries@.len()
                    &&& self.entries@[i as int].0@ == k@
                    &&& member(self@, k@) == Some(self.entries@[i as int].1@)
                },
                None => {
                    &&& member(self@, k@) is None
                    &&& forall|j: int|
                        0 <= j < self.entries@.len() ==> #[trigger] self.entries@[j].0@ != k@
                },
            },
    {
        let mut i: usize = self.entries.len();
        while i > 0
            invariant
                i <= self.entries@.len(),
                forall|j: int| i <= j < self.entries@.len() ==> #[trigger] self.entries@[j].0@ != k@,
            decreases i,
        {
            if same(self.entries[i - 1].0.as_str(), k) {
                proof {
                    let p = i as int - 1;
                    lemma_latest_skip(self.entries@, p, k@);
                    lemma_latest_push(self.entries@.take(p), self.entries@[p]);
                    assert(self.entries@.take(p).push(self.entries@[p]) =~= self.entries@.take(
                        p + 1,
                    ));
                }
                return Some(i - 1);
            }
            i -= 1;
        }
        proof {
            lemma_latest_absent(self.entries@, k@);
        }
        None
    }

    /// The member named `k`.
    pub fn get(&self, k: &str) -> (r: Option<&Json>)
        ensures
            opt_tree(r) == member(self@, k@),
    {
        match self.position(k) {
            Some(i) => Some(&self.entries[i].1),
            None => None,
        }
    }

    /// Whether there is a member named `k`.
    pub fn has(&self, k: &str) -> (r: bool)
        ensures
            r == self@.contains_key(k@),
    {
        match self.position(k) {
            Some(_) => true,
            None => false,
        }
    }

    /// Whether there are no members.
    pub fn is_empty(&self) -> (r: bool)
        ensures
            r == (self@ == Map::<Seq<char>, Tree>::empty()),
    {
        proof {
            if self.entries@.len() > 0 {
                assert(latest(self.entries@).contains_key(self.entries@.last().0@));
            }
        }
        self.entries.len() == 0
    }

    /// Give the member `k` the value `v`.
    pub fn insert(&mut self, k: &str, v: Json)
        ensures
            final(self)@ == old(self)@.insert(k@, v@),
    {
        match self.position(k) {
            Some(i) => {
                proof {
                    lemma_latest_remove(self.entries@, i as int, k@);
                }
                self.entries.remove(i);
            },
            None => {},
        }
        let name = k.to_owned();
        proof {
            lemma_latest_push(self.entries@, (name, v));
            assert(self@.insert(k@, v@) =~= self@.remove(k@).insert(k@, v@));
            assert(old(self)@.insert(k@, v@) =~= old(self)@.remove(k@).insert(k@, v@));
        }
        self.entries.push((name, v));
    }

    /// Drop the member `k`.
    pub fn remove(&mut self, k: &str)
        ensures
            final(self)@ == old(self)@.remove(k@),
    {
        let ghost old_members = self@;
        let mut i: usize = 0;
        while i < self.entries.len()
            invariant
                i <= self.entries@.len(),
                self@.remove(k@) == old_members.remove(k@),
                forall|j: int| 0 <= j < i ==> #[trigger] self.entries@[j].0@ != k@,
            decreases self.entries.len() - i,
        {
            if same(self.entries[i].0.as_str(), k) {
                proof {
                    lemma_latest_remove(self.entries@, i as int, k@);
                }
                self.entries.remove(i);
            } else {
                i += 1;
            }
        }
        proof {
            lemma_latest_absent(self.entries@, k@);
            assert(self@.remove(k@) =~= self@);
        }
    }

    /// Give this object every member of `other`, over its own of the same name.
    pub fn overlay(&mut self, other: &Object)
        ensures
            final(self)@ == old(self)@.union_prefer_right(other@),
    {
        let ghost start = self@;
        let mut i: usize = 0;
        assert(other.entries@.take(0) =~= Seq::<(String, Json)>::empty());
        assert(start.union_prefer_right(latest(other.entries@.take(0))) =~= start);
        while i < other.entries.len()
            invariant
                i <= other.entries@.len(),
                self@ == start.union_prefer_right(latest(other.entries@.take(i as int))),
            decreases other.entries.len() - i,
        {
            let ghost e = other.entries@[i as int];
            let ghost before = latest(other.entries@.take(i as int));
            let value = other.entries[i].1.clone();
            self.insert(other.entries[i].0.as_str(), value);
            proof {
                lemma_latest_push(other.entries@.take(i as int), e);
                assert(other.entries@.take(i as int).push(e) =~= other.entries@.take(i as int + 1));
                assert(self@ =~= start.union_prefer_right(before.insert(e.0@, e.1@)));
            }
            i += 1;
        }
        assert(other.entries@.take(i as int) =~= other.entries@);
    }

    /// This object with the member `k` set to `v`.
    pub fn with(self, k: &str, v: Json) -> (r: Object)
        ensures
            r@ == self@.insert(k@, v@),
    {
        let mut o = self;
        o.insert(k, v);
        o
    }

    /// The text of the member `k`, if it is a text.
    pub fn get_str(&self, k: &str) -> (r: Option<&str>)
        ensures
            opt_text(r) == text_at(self@, k@),
    {
        match self.get(k) {
            Some(v) => v.as_str(),
            None => None,
        }
    }

    /// The items of the member `k`, if it is an array.
    pub fn get_array(&self, k: &str) -> (r: Option<&Vec<Json>>)
        ensures
            opt_items(r) == items_in(member(self@, k@)),
    {
        match self.get(k) {
            Some(v) => v.as_array(),
            None => None,
        }
    }
}

impl Json {
    /// A text document.
    pub fn text(s: &str) -> (r: Json)
        ensures
            r@ == Tree::Str(s@),
    {
        Json::Str(s.to_owned())
    }

    /// An integer document.
    pub fn integer(n: i64) -> (r: Json)
        ensures
            r@ == Tree::Int(n as int),
    {
        if n >= 0 {
            Json::UInt(n as u64)
        } else {
            Json::SInt(n)
        }
    }

    /// The text, if this is a text.
    pub fn as_str(&self) -> (r: Option<&str>)
        ensures
            opt_text(r) == text_in(Some(self@)),
    {
        match self {
            Json::Str(s) => Some(s.as_str()),
            _ => None,
        }
    }

    /// The items, if this is an array.
    pub fn as_array(&self) -> (r: Option<&Vec<Json>>)
        ensures
            opt_items(r) == items_in(Some(self@)),
    {
        match self {
            Json::Array(v) => Some(v),
            _ => None,
        }
    }

    /// The members, if this is an object.
    pub fn as_object(&self) -> (r: Option<&Object>)
        ensures
            opt_members(r) == members_in(Some(self@)),
    {
        match self {
            Json::Object(o) => Some(o),
            _ => None,
        }
    }

    /// The truth value, if this is one.
    pub fn as_bool(&self) -> (r: Option<bool>)
        ensures
            r == bool_in(Some(self@)),
    {
        match self {
            Json::Bool(b) => Some(*b),
            _ => None,
        }
    }

    /// The integer, if this is one that fits `i64`.
    pub fn as_i64(&self) -> (r: Option<i64>)
        ensures
            opt_int(r) == int_in(Some(self@)),
    {
        match self {
            Json::UInt(n) => if *n <= i64::MAX as u64 {
                Some(*n as i64)
            } else {
                None
            },
            Json::SInt(n) => Some(*n),
            _ => None,
        }
    }

    /// Whether this is null.
    pub fn is_null(&self) -> (r: bool)
        ensures
            r == (self@ == Tree::Null),
    {
        match self {
            Json::Null => true,
            _ => false,
        }
    }

    /// Whether this is an object.
    pub fn is_object(&self) -> (r: bool)
        ensures
            r == (self@ is Object),
    {
        match self {
            Json::Object(_) => true,
            _ => false,
        }
    }

    /// Whether this is an array.
    pub fn is_array(&self) -> (r: bool)
        ensures
            r == (self@ is Array),
    {
        match self {
            Json::Array(_) => true,
            _ => false,
        }
    }

    /// The member `k`, if this is an object that has it.
    pub fn get(&self, k: &str) -> (r: Option<&Json>)
        ensures
            opt_tree(r) == self@.at(k@),
    {
        match self {
            Json::Object(o) => o.get(k),
            _ => None,
        }
    }

    /// The text of the member `k`, if this is an object with such a text.
    pub fn get_str(&self, k: &str) -> (r: Option<&str>)
        ensures
            opt_text(r) == text_in(self@.at(k@)),
    {
        match self.get(k) {
            Some(v) => v.as_str(),
            None => None,
        }
    }

    /// The items of the member `k`, if this is an object with such an array.
    pub fn get_array(&self, k: &str) -> (r: Option<&Vec<Json>>)
        ensures
            opt_items(r) == items_in(self@.at(k@)),
    {
        match self.get(k) {
            Some(v) => v.as_array(),
            None => None,
        }
    }
}

impl Clone for Json {
    fn clone(&self) -> (r: Json)
        ensures
            r@ == self@,
        decreases self,
    {
        match self {
            Json::Null => Json::Null,
            Json::Bool(b) => Json::Bool(*b),
            Json::UInt(n) => Json::UInt(*n),
            Json::SInt(n) => Json::SInt(*n),
            Json::Float(t) => Json::Float(t.clone()),
            Json::Str(t) => Json::Str(t.clone()),
            Json::Array(items) => {
                let mut out: Vec<Json> = Vec::new();
                let mut i: usize = 0;
                while i < items.len()
                    invariant
                        i == out@.len(),
                        i <= items@.len(),
                        trees(out@) == trees(items@).take(i as int),
                        *self == Json::Array(*items),
                    decreases items.len() - i,
                {
                    assert(decreases_to!(*self => self->Array_0@[i as int]));
                    let item = items[i].clone();
                    out.push(item);
                    i += 1;
                    assert(trees(out@) =~= trees(items@).take(i as int));
                }
                assert(trees(items@).take(i as int) =~= trees(items@));
                Json::Array(out)
            },
            Json::Object(o) => Json::Object(o.clone()),
        }
    }
}

impl Clone for Object {
    fn clone(&self) -> (r: Object)
        ensures
            r@ == self@,
        decreases self,
    {
        let mut entries: Vec<(String, Json)> = Vec::new();
        let mut i: usize = 0;
        while i < self.entries.len()
            invariant
                i <= self.entries@.len(),
                latest(entries@) == latest(self.entries@.take(i as int)),
            decreases self.entries.len() - i,
        {
            let ghost e = self.entries@[i as int];
            assert(decreases_to!(*self => self.entries@[i as int].1));
            let name = self.entries[i].0.clone();
            let value = self.entries[i].1.clone();
            proof {
                lemma_latest_push(entries@, (name, value));
                lemma_latest_push(self.entries@.take(i as int), e);
                assert(self.entries@.take(i as int).push(e) =~= self.entries@.take(i as int + 1));
            }
            entries.push((name, value));
            i += 1;
        }
        assert(self.entries@.take(i as int) =~= self.entries@);
        Object { entries }
    }
}

/// A copy of a list of documents.
pub fn clone_values(items: &Vec<Json>) -> (r: Vec<Json>)
    ensures
        trees(r@) == trees(items@),
{
    let mut out: Vec<Json> = Vec::new();
    let mut i: usize = 0;
    while i < items.len()
        invariant
            i == out@.len(),
            i <= items@.len(),
            trees(out@) == trees(items@).take(i as int),
        decreases items.len() - i,
    {
        out.push(items[i].clone());
        i += 1;
        assert(trees(out@) =~= trees(items@).take(i as int));
    }
    assert(trees(items@).take(i as int) =~= trees(items@));
    out
}

/// The models of a list with one document more.
pub broadcast proof fn lemma_trees_push(s: Seq<Json>, v: Json)
    ensures
        #[trigger] trees(s.push(v)) == trees(s).push(v@),
{
    assert(trees(s.push(v)) =~= trees(s).push(v@));
}

proof fn lemma_latest_present(s: Seq<(String, Json)>, k: Seq<char>)
    requires
        latest(s).contains_key(k),
    ensures
        exists|j: int| 0 <= j < s.len() && #[trigger] s[j].0@ == k,
{
    if forall|j: int| 0 <= j < s.len() ==> #[trigger] s[j].0@ != k {
        lemma_latest_absent(s, k);
    }
}

/// Whether a number that is no integer is zero, by its text. Zero may have a sign.
pub open spec fn is_zero(text: Seq<char>) -> bool {
    text == "0.0"@ || text == "-0.0"@
}

/// Whether two documents are equal. Numbers that are no integers are compared by their
/// value: one text stands for one value, but zero has two texts.
pub open spec fn equal(a: Tree, b: Tree) -> bool
    decreases a,
{
    match (a, b) {
        (Tree::Float(x), Tree::Float(y)) => x == y || is_zero(x) && is_zero(y),
        (Tree::Array(x), Tree::Array(y)) => x.len() == y.len() && forall|i: int|
            0 <= i < x.len() ==> equal(#[trigger] x[i], y[i]),
        (Tree::Object(x), Tree::Object(y)) => x.dom() == y.dom() && forall|k: Seq<char>|
            x.contains_key(k) ==> equal(#[trigger] x[k], y[k]),
        _ => a == b,
    }
}

/// Whether a document is equal to one of a list.
pub open spec fn has_equal(list: Seq<Tree>, v: Tree) -> bool {
    exists|i: int| 0 <= i < list.len() && equal(#[trigger] list[i], v)
}

fn is_zero_text(text: &str) -> (r: bool)
    ensures
        r == is_zero(text@),
{
    same(text, "0.0") || same(text, "-0.0")
}

/// Whether two documents are equal.
pub fn same_json(a: &Json, b: &Json) -> (r: bool)
    ensures
        r == equal(a@, b@),
    decreases a,
{
    match (a, b) {
        (Json::Null, Json::Null) => true,
        (Json::Bool(x), Json::Bool(y)) => *x == *y,
        (Json::UInt(x), Json::UInt(y)) => *x == *y,
        (Json::SInt(x), Json::SInt(y)) => *x == *y,
        (Json::UInt(x), Json::SInt(y)) => *y >= 0 && *x == *y as u64,
        (Json::SInt(x), Json::UInt(y)) => *x >= 0 && *x as u64 == *y,
        (Json::Float(x), Json::Float(y)) => same(x.text.as_str(), y.text.as_str()) || is_zero_text(
            x.text.as_str(),
        ) && is_zero_text(y.text.as_str()),
        (Json::Str(x), Json::Str(y)) => same(x.as_str(), y.as_str()),
        (Json::Array(x), Json::Array(y)) => {
            if x.len() != y.len() {
                assert(trees(x@).len() != trees(y@).len());
                return false;
            }
            let mut i: usize = 0;
            while i < x.len()
                invariant
                    i <= x@.len(),
                    x@.len() == y@.len(),
                    *a == Json::Array(*x),
                    *b == Json::Array(*y),
                    forall|j: int| 0 <= j < i ==> equal(#[trigger] trees(x@)[j], trees(y@)[j]),
                decreases x.len() - i,
            {
                assert(decreases_to!(*a => a->Array_0@[i as int]));
                if !same_json(&x[i], &y[i]) {
                    assert(!equal(trees(x@)[i as int], trees(y@)[i as int]));
                    return false;
                }
                i += 1;
            }
            assert(equal(Tree::Array(trees(x@)), Tree::Array(trees(y@))));
            true
        },
        (Json::Object(x), Json::Object(y)) => {
            let r = same_object(x, y);
            assert(r == equal(a@, b@));
            r
        },
        _ => {
            assert(!equal(a@, b@));
            false
        },
    }
}

/// Whether two objects are equal.
pub fn same_object(a: &Object, b: &Object) -> (r: bool)
    ensures
        r == equal(Tree::Object(a@), Tree::Object(b@)),
    decreases a,
{
    let mut i: usize = 0;
    while i < a.entries.len()
        invariant
            i <= a.entries@.len(),
            forall|j: int|
                0 <= j < i ==> {
                    let k = (#[trigger] a.entries@[j]).0@;
                    &&& a@.contains_key(k)
                    &&& b@.contains_key(k)
                    &&& equal(a@[k], b@[k])
                },
        decreases a.entries.len() - i,
    {
        let name = a.entries[i].0.as_str();
        match (a.position(name), b.get(name)) {
            (Some(p), Some(v)) => {
                assert(decreases_to!(*a => a.entries@[p as int].1));
                if !same_json(&a.entries[p].1, v) {
                    assert(a@.contains_key(name@) && !equal(a@[name@], b@[name@]));
                    return false;
                }
            },
            _ => {
                assert(a.entries@[i as int].0@ == name@);
                assert(a@.dom().contains(name@) && !b@.dom().contains(name@));
                return false;
            },
        }
        i += 1;
    }
    let mut i: usize = 0;
    while i < b.entries.len()
        invariant
            i <= b.entries@.len(),
            forall|j: int|
                0 <= j < i ==> a@.contains_key((#[trigger] b.entries@[j]).0@),
        decreases b.entries.len() - i,
    {
        if !a.has(b.entries[i].0.as_str()) {
            match b.position(b.entries[i].0.as_str()) {
                Some(_) => {},
                None => {
                    assert(b.entries@[i as int].0@ == b.entries@[i as int].0@);
                },
            }
            assert(b@.dom().contains(b.entries@[i as int].0@) && !a@.dom().contains(
                b.entries@[i as int].0@,
            ));
            return false;
        }
        i += 1;
    }
    proof {
        assert forall|k: Seq<char>| #[trigger] a@.dom().contains(k) implies b@.dom().contains(k)
            && equal(a@[k], b@[k]) by {
            lemma_latest_present(a.entries@, k);
        }
        assert forall|k: Seq<char>| #[trigger] b@.dom().contains(k) implies a@.dom().contains(k) by {
            lemma_latest_present(b.entries@, k);
        }
        assert(a@.dom() =~= b@.dom());
    }
    true
}

/// Whether a document is equal to one of a list.
pub fn in_values(list: &Vec<Json>, v: &Json) -> (r: bool)
    ensures
        r == has_equal(trees(list@), v@),
{
    let mut i: usize = 0;
    while i < list.len()
        invariant
            i <= list@.len(),
            forall|j: int| 0 <= j < i ==> !equal(#[trigger] trees(list@)[j], v@),
        decreases list.len() - i,
    {
        if same_json(&list[i], v) {
            assert(equal(trees(list@)[i as int], v@));
            return true;
        }
        i += 1;
    }
    false
}

/// A document is equal to itself.
pub proof fn equality_is_reflexive(a: Tree)
    ensures
        equal(a, a),
    decreases a,
{
    match a {
        Tree::Array(x) => {
            assert forall|i: int| 0 <= i < x.len() implies equal(#[trigger] x[i], x[i]) by {
                equality_is_reflexive(x[i]);
            }
        },
        Tree::Object(x) => {
            assert forall|k: Seq<char>| x.contains_key(k) implies equal(#[trigger] x[k], x[k]) by {
                equality_is_reflexive(x[k]);
            }
        },
        _ => {},
    }
}

/// An object of one member.
pub fn object_of(k: &str, v: Json) -> (r: Json)
    ensures
        r@ == Tree::Object(map![k@ => v@]),
{
    Json::Object(Object::new().with(k, v))
}

/// An array of texts.
pub fn list_of_texts(list: &Vec<String>) -> (r: Json)
    ensures
        r@ == Tree::Array(text_trees(texts(list@))),
{
    let mut items: Vec<Json> = Vec::new();
    let mut i: usize = 0;
    while i < list.len()
        invariant
            i <= list@.len(),
            i == items@.len(),
            trees(items@) == text_trees(texts(list@)).take(i as int),
        decreases list.len() - i,
    {
        items.push(Json::text(list[i].as_str()));
        i += 1;
        assert(trees(items@) =~= text_trees(texts(list@)).take(i as int));
    }
    assert(trees(items@) =~= text_trees(texts(list@)));
    Json::Array(items)
}

/// Each text as a document.
pub open spec fn text_trees(list: Seq<Seq<char>>) -> Seq<Tree> {
    list.map_values(|s: Seq<char>| Tree::Str(s))
}

/// An array of one document.
pub fn list_of(v: Json) -> (r: Json)
    ensures
        r@ == Tree::Array(seq![v@]),
{
    let mut items: Vec<Json> = Vec::new();
    items.push(v);
    assert(trees(items@) =~= seq![v@]);
    Json::Array(items)
}

/// An array without documents.
pub fn no_items() -> (r: Json)
    ensures
        r@ == Tree::Array(Seq::<Tree>::empty()),
{
    let items: Vec<Json> = Vec::new();
    assert(trees(items@) =~= Seq::<Tree>::empty());
    Json::Array(items)
}

/// The documents of `a` followed by copies of those of `b`.
pub fn append_copies(a: &mut Vec<Json>, b: &Vec<Json>)
    ensures
        trees(final(a)@) == trees(old(a)@) + trees(b@),
{
    let ghost start = a@;
    let mut i: usize = 0;
    assert(trees(b@).take(0) =~= Seq::<Tree>::empty());
    assert(trees(start) =~= trees(start) + trees(b@).take(0));
    while i < b.len()
        invariant
            i <= b@.len(),
            trees(a@) == trees(start) + trees(b@).take(i as int),
        decreases b.len() - i,
    {
        let v = b[i].clone();
        proof {
            lemma_trees_push(a@, v);
        }
        a.push(v);
        i += 1;
        assert(trees(a@) =~= trees(start) + trees(b@).take(i as int));
    }
    assert(trees(b@).take(i as int) =~= trees(b@));
}

/// `serde_json::Value`, which is carried through and never looked into.
#[verifier::external_type_specification]
#[verifier::external_body]
pub struct ExSerdeValue(serde_json::Value);

/// `serde_json::Error`, of which nothing is claimed.
#[verifier::external_type_specification]
#[verifier::external_body]
pub struct ExSerdeError(serde_json::Error);

/// The document that a `serde_json::Value` holds.
pub uninterp spec fn document(v: serde_json::Value) -> Tree;

/// What `serde_json::from_str` reads from a text: a document, or the message of its
/// error where it does not accept the text.
pub uninterp spec fn read_text(text: Seq<char>) -> Result<Tree, Seq<char>>;

/// The document that a text denotes, if it denotes one.
pub open spec fn parsed(text: Seq<char>) -> Option<Tree> {
    match read_text(text) {
        Ok(t) => Some(t),
        Err(_) => None,
    }
}

/// The compact text that `serde_json::to_string` writes for a document.
pub uninterp spec fn rendered(t: Tree) -> Seq<char>;

/// Moves a `serde_json::Value` into the library's own type, variant by variant:
/// the two hold the same document.
#[verifier::external_body]
fn value_of(v: Value) -> (r: Json)
    ensures
        r@ == document(v),
{
    match v {
        Value::Null => Json::Null,
        Value::Bool(b) => Json::Bool(b),
        Value::Number(n) => match (n.as_u64(), n.as_i64()) {
            (Some(u), _) => Json::UInt(u),
            (None, Some(i)) => Json::SInt(i),
            (None, None) => Json::Float(Decimal { text: n.to_string() }),
        },
        Value::String(s) => Json::Str(s),
        Value::Array(a) => Json::Array(a.into_iter().map(value_of).collect()),
        Value::Object(m) => Json::Object(
            Object { entries: m.into_iter().map(|(k, v)| (k, value_of(v))).collect() },
        ),
    }
}

/// Copies a document into a `Value`, variant by variant: the two
/// hold the same document. A decimal text is read back as the number it prints.
#[verifier::external_body]
fn outside_of(v: &Json) -> (r: Value)
    ensures
        document(r) == v@,
{
    match v {
        Json::Null => Value::Null,
        Json::Bool(b) => Value::Bool(*b),
        Json::UInt(n) => Value::from(*n),
        Json::SInt(n) => Value::from(*n),
        Json::Float(d) => serde_json::from_str(&d.text).unwrap_or_default(),
        Json::Str(s) => Value::String(s.clone()),
        Json::Array(a) => a.iter().map(outside_of).collect(),
        Json::Object(o) => o.entries.iter().map(|e| (e.0.clone(), outside_of(&e.1))).collect(),
    }
}

/// `serde_json::from_str` into a `serde_json::Value`: the document that the text
/// denotes, or the message of its error where it denotes none. Both depend on the text
/// alone.
#[verifier::external_body]
fn from_text(text: &str) -> (r: Result<serde_json::Value, String>)
    ensures
        match r {
            Ok(v) => read_text(text@) == Ok::<Tree, Seq<char>>(document(v)),
            Err(m) => read_text(text@) == Err::<Tree, Seq<char>>(m@),
        },
{
    serde_json::from_str(text).map_err(|e| e.to_string())
}

/// Whether a document nests at most `depth` arrays and objects in each other.
pub open spec fn shallow(t: Tree, depth: nat) -> bool
    decreases depth,
{
    match t {
        Tree::Array(items) => depth > 0 && forall|i: int|
            0 <= i < items.len() ==> shallow(#[trigger] items[i], (depth - 1) as nat),
        Tree::Object(members) => depth > 0 && forall|k: Seq<char>| #[trigger]
            members.contains_key(k) ==> shallow(members[k], (depth - 1) as nat),
        _ => true,
    }
}

/// How many arrays and objects may nest in each other in a text that
/// `serde_json::from_str` accepts.
pub open spec fn depth_limit() -> nat {
    127
}

/// `serde_json::to_string` of a `serde_json::Value`: it never fails, and its
/// compact text holds no line break, since control characters inside strings
/// are escaped and nothing is written between tokens. `serde_json::from_str`
/// reads the document back from it, unless arrays and objects nest too deep for
/// its recursion limit; with the feature `float_roundtrip` it reads every number
/// back exactly.
#[verifier::external_body]
fn to_text(v: &serde_json::Value) -> (r: Result<String, serde_json::Error>)
    ensures
        match r {
            Ok(s) => {
                &&& s@ == rendered(document(*v))
                &&& one_line(s@)
                &&& shallow(document(*v), depth_limit()) ==> parsed(s@) == Some(document(*v))
            },
            Err(_) => false,
        },
{
    serde_json::to_string(v)
}

impl Json {
    /// The document that a `serde_json::Value` holds.
    pub fn from_serde(v: serde_json::Value) -> (r: Json)
        ensures
            r@ == document(v),
    {
        value_of(v)
    }

    /// This document as a `serde_json::Value`.
    pub fn to_serde(&self) -> (r: serde_json::Value)
        ensures
            document(r) == self@,
    {
        outside_of(self)
    }

    /// The document that `text` denotes, if it denotes one.
    pub fn parse(text: &str) -> (r: Option<Json>)
        ensures
            opt_value(r) == parsed(text@),
    {
        match from_text(text) {
            Ok(v) => Some(value_of(v)),
            Err(_) => None,
        }
    }

    /// The document that `text` denotes, or why it denotes none.
    pub fn read(text: &str) -> (r: Result<Json, String>)
        ensures
            match r {
                Ok(v) => read_text(text@) == Ok::<Tree, Seq<char>>(v@),
                Err(m) => read_text(text@) == Err::<Tree, Seq<char>>(m@),
            },
    {
        match from_text(text) {
            Ok(v) => Ok(value_of(v)),
            Err(m) => Err(m),
        }
    }

    /// The compact text of this document.
    pub fn render(&self) -> (r: String)
        ensures
            r@ == rendered(self@),
            one_line(r@),
            shallow(self@, depth_limit()) ==> parsed(r@) == Some(self@),
    {
        match to_text(&outside_of(self)) {
            Ok(s) => s,
            Err(_) => "null".to_owned(),
        }
    }
}

} // verus!
