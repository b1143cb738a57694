//! Configuration.
//!
//! The settings come from variables, by name. A variable that is missing leaves its
//! setting at the default; one that cannot be read is an error, and the first error
//! is the one that is told.
use vstd::prelude::*;
use crate::json::{lemma_trees_push, read_text, rendered, trees, Json, Object, Tree};
use crate::reasoning::is_blank;
use crate::text::{
    cat, cat3, chars_of, debug_text, fields, lemma_texts_push, lower, lowered, opt_text, quoted,
    same, split, text_of, texts, trim, trimmed,
};

verus! {

broadcast use {lemma_texts_push, lemma_trees_push};

/// A setting that cannot be read.
#[derive(Debug)]
pub struct ConfigError {
    pub message: String,
    pub code: &'static str,
}

/// The model of an error: its message and its code.
#[verifier::ext_equal]
pub ghost struct Fault {
    pub message: Seq<char>,
    pub code: Seq<char>,
}

impl View for ConfigError {
    type V = Fault;

    open spec fn view(&self) -> Fault {
        Fault { message: self.message@, code: self.code@ }
    }
}

impl ConfigError {
    /// An error.
    pub fn new(message: String, code: &'static str) -> (r: ConfigError)
        ensures
            r@ == (Fault { message: message@, code: code@ }),
    {
        ConfigError { message, code }
    }

    /// The error as a text.
    pub fn to_text(&self) -> (r: String)
        ensures
            r@ == self@.message + " ("@ + self@.code + ")"@,
    {
        cat(cat3(self.message.as_str(), " (", self.code).as_str(), ")")
    }
}

/// What to do with hosted tools that have no Chat Completions counterpart.
#[derive(Debug, Clone, Copy, PartialEq, Eq, Structural)]
pub enum UnsupportedToolPolicy {
    Ignore,
    Reject,
    Error,
    Passthrough,
}

impl UnsupportedToolPolicy {
    /// The policy that a text names, in any letter case and with white space around it.
    pub open spec fn named(raw: Seq<char>) -> Result<UnsupportedToolPolicy, Fault> {
        let s = lower(trim(raw));
        if s == "ignore"@ {
            Ok(UnsupportedToolPolicy::Ignore)
        } else if s == "reject"@ {
            Ok(UnsupportedToolPolicy::Reject)
        } else if s == "error"@ {
            Ok(UnsupportedToolPolicy::Error)
        } else if s == "passthrough"@ {
            Ok(UnsupportedToolPolicy::Passthrough)
        } else {
            Err(
                Fault {
                    message: "BRIDGE_UNSUPPORTED_TOOL_POLICY must be one of [error, ignore, passthrough, reject], got "@
                        + debug_text(s),
                    code: "tool_policy_invalid"@,
                },
            )
        }
    }

    /// The policy that a text names.
    pub fn parse(raw: &str) -> (r: Result<UnsupportedToolPolicy, ConfigError>)
        ensures
            match r {
                Ok(p) => UnsupportedToolPolicy::named(raw@) == Ok::<UnsupportedToolPolicy, Fault>(
                    p,
                ),
                Err(e) => UnsupportedToolPolicy::named(raw@) == Err::<UnsupportedToolPolicy, Fault>(
                    e@,
                ),
            },
    {
        let s = lowered(trimmed(raw).as_str());
        if same(s.as_str(), "ignore") {
            Ok(UnsupportedToolPolicy::Ignore)
        } else if same(s.as_str(), "reject") {
            Ok(UnsupportedToolPolicy::Reject)
        } else if same(s.as_str(), "error") {
            Ok(UnsupportedToolPolicy::Error)
        } else if same(s.as_str(), "passthrough") {
            Ok(UnsupportedToolPolicy::Passthrough)
        } else {
            let message = cat(
                "BRIDGE_UNSUPPORTED_TOOL_POLICY must be one of [error, ignore, passthrough, reject], got ",
                quoted(s.as_str()).as_str(),
            );
            Err(ConfigError::new(message, "tool_policy_invalid"))
        }
    }
}

/// Variables and their values.
#[derive(Debug)]
pub struct Variables {
    pub entries: Vec<(String, String)>,
}

/// The value of a variable, from position `from` on.
pub open spec fn value_from(s: Seq<(String, String)>, key: Seq<char>, from: int) -> Option<Seq<char>>
    decreases s.len() - from,
{
    if from >= s.len() {
        None
    } else if s[from].0@ == key {
        Some(s[from].1@)
    } else {
        value_from(s, key, from + 1)
    }
}

impl Variables {
    /// The value of a variable, if it is set.
    pub open spec fn value(self, key: Seq<char>) -> Option<Seq<char>> {
        value_from(self.entries@, key, 0)
    }

    /// The value of a variable, or a default.
    pub open spec fn value_or(self, key: Seq<char>, default: Seq<char>) -> Seq<char> {
        match self.value(key) {
            Some(v) => v,
            None => default,
        }
    }

    /// The value of a variable, if it is set.
    pub fn get(&self, key: &str) -> (r: Option<&str>)
        ensures
            opt_text(r) == self.value(key@),
    {
        let mut i: usize = 0;
        while i < self.entries.len()
            invariant
                i <= self.entries@.len(),
                self.value(key@) == value_from(self.entries@, key@, i as int),
            decreases self.entries.len() - i,
        {
            if same(self.entries[i].0.as_str(), key) {
                return Some(self.entries[i].1.as_str());
            }
            i += 1;
        }
        None
    }

    /// The value of a variable, or a default.
    pub fn get_or(&self, key: &str, default: &str) -> (r: String)
        ensures
            r@ == self.value_or(key@, default@),
    {
        match self.get(key) {
            Some(v) => v.to_owned(),
            None => default.to_owned(),
        }
    }
}

/// Whether a text is digits alone.
pub open spec fn all_digits(s: Seq<char>) -> bool {
    forall|i: int| 0 <= i < s.len() ==> '0' <= #[trigger] s[i] <= '9'
}

/// The number that digits give.
pub open spec fn digits_value(s: Seq<char>) -> int
    decreases s.len(),
{
    if s.len() == 0 {
        0
    } else {
        10 * digits_value(s.drop_last()) + (s.last() as u32 - '0' as u32)
    }
}

/// A text without a plus sign at its front.
pub open spec fn unsigned_digits(s: Seq<char>) -> Seq<char> {
    if s.len() > 0 && s[0] == '+' {
        s.skip(1)
    } else {
        s
    }
}

/// The number that a text gives, where it gives one that is at most `max`.
pub open spec fn number(s: Seq<char>, max: int) -> Option<int> {
    let d = unsigned_digits(s);
    if d.len() > 0 && all_digits(d) && digits_value(d) <= max {
        Some(digits_value(d))
    } else {
        None
    }
}

proof fn lemma_digits_grow(s: Seq<char>, n: int)
    requires
        all_digits(s),
        0 <= n <= s.len(),
    ensures
        0 <= digits_value(s.take(n)) <= digits_value(s),
    decreases s.len() - n,
{
    if n == s.len() {
        assert(s.take(n) =~= s);
        lemma_digits_nonnegative(s);
    } else {
        lemma_digits_grow(s, n + 1);
        assert(s.take(n + 1).drop_last() =~= s.take(n));
        assert(s.take(n + 1).last() == s[n]);
        assert(all_digits(s.take(n)));
        lemma_digits_nonnegative(s.take(n));
    }
}

proof fn lemma_digits_nonnegative(s: Seq<char>)
    requires
        all_digits(s),
    ensures
        0 <= digits_value(s),
    decreases s.len(),
{
    if s.len() > 0 {
        assert(all_digits(s.drop_last()));
        lemma_digits_nonnegative(s.drop_last());
    }
}

/// The number that a text gives, where it gives one that is at most `max`.
pub fn parse_number(s: &str, max: u64) -> (r: Option<u64>)
    ensures
        match r {
            Some(n) => number(s@, max as int) == Some(n as int),
            None => number(s@, max as int) is None,
        },
{
    let v = chars_of(s);
    let total: usize = v.len();
    let from: usize = if total > 0 && v[0] == '+' {
        1
    } else {
        0
    };
    let ghost d = unsigned_digits(s@);
    assert(d =~= v@.skip(from as int));
    if from == total {
        return None;
    }
    let mut value: u64 = 0;
    let mut i: usize = from;
    assert(d.take(0) =~= Seq::empty());
    while i < total
        invariant
            from <= i <= total,
            total == v@.len(),
            d == v@.skip(from as int),
            d == unsigned_digits(s@),
            forall|k: int| 0 <= k < i - from ==> '0' <= #[trigger] d[k] <= '9',
            value == digits_value(d.take(i - from)),
            value <= max,
        decreases total - i,
    {
        let c = v[i];
        assert(d[i - from] == c);
        if c < '0' || c > '9' {
            assert(!all_digits(d));
            return None;
        }
        let digit: u64 = (c as u32 - '0' as u32) as u64;
        proof {
            assert(d.take(i + 1 - from).drop_last() =~= d.take(i - from));
            assert(d.take(i + 1 - from).last() == c);
        }
        if digit > max || value > (max - digit) / 10 {
            proof {
                assert(digits_value(d.take(i + 1 - from)) == 10 * value + digit);
                assert(10 * value + digit > max);
                if all_digits(d) {
                    lemma_digits_grow(d, i + 1 - from);
                }
            }
            return None;
        }
        value = 10 * value + digit;
        i += 1;
    }
    assert(d.take(i - from) =~= d);
    Some(value)
}

/// A setting that is a number: that of a variable, or a default.
pub open spec fn number_setting(vars: Variables, key: Seq<char>, default: int, max: int) -> Result<
    int,
    Fault,
> {
    match vars.value(key) {
        Some(raw) => match number(trim(raw), max) {
            Some(n) => Ok(n),
            None => Err(
                Fault {
                    message: key + " must be an integer, got "@ + debug_text(raw),
                    code: "config_invalid_int"@,
                },
            ),
        },
        None => Ok(default),
    }
}

/// A setting that is a number.
pub fn read_number(vars: &Variables, key: &str, default: u64, max: u64) -> (r: Result<
    u64,
    ConfigError,
>)
    requires
        default <= max,
    ensures
        match r {
            Ok(n) => n <= max && number_setting(*vars, key@, default as int, max as int) == Ok::<
                int,
                Fault,
            >(n as int),
            Err(e) => number_setting(*vars, key@, default as int, max as int) == Err::<int, Fault>(
                e@,
            ),
        },
{
    match vars.get(key) {
        Some(raw) => match parse_number(trimmed(raw).as_str(), max) {
            Some(n) => Ok(n),
            None => Err(
                ConfigError::new(
                    cat3(key, " must be an integer, got ", quoted(raw).as_str()),
                    "config_invalid_int",
                ),
            ),
        },
        None => Ok(default),
    }
}

/// A setting that is yes or no.
pub open spec fn flag_setting(vars: Variables, key: Seq<char>, default: bool) -> bool {
    match vars.value(key) {
        Some(raw) => {
            let s = lower(trim(raw));
            s == "1"@ || s == "true"@ || s == "yes"@
        },
        None => default,
    }
}

/// A setting that is yes or no.
pub fn read_flag(vars: &Variables, key: &str, default: bool) -> (r: bool)
    ensures
        r == flag_setting(*vars, key@, default),
{
    match vars.get(key) {
        Some(raw) => {
            let s = lowered(trimmed(raw).as_str());
            same(s.as_str(), "1") || same(s.as_str(), "true") || same(s.as_str(), "yes")
        },
        None => default,
    }
}

/// The texts that are left when white space at their ends is cut off.
pub open spec fn filled_fields(list: Seq<Seq<char>>) -> Seq<Seq<char>>
    decreases list.len(),
{
    if list.len() == 0 {
        list
    } else {
        let before = filled_fields(list.drop_last());
        let s = trim(list.last());
        if s.len() == 0 {
            before
        } else {
            before.push(s)
        }
    }
}

/// A setting that is a list of texts with commas between them.
pub open spec fn list_setting(vars: Variables, key: Seq<char>) -> Seq<Seq<char>> {
    match vars.value(key) {
        Some(raw) => filled_fields(fields(raw, ',')),
        None => Seq::empty(),
    }
}

/// A setting that is a list of texts with commas between them.
pub fn read_list(vars: &Variables, key: &str) -> (r: Vec<String>)
    ensures
        texts(r@) == list_setting(*vars, key@),
{
    let mut out: Vec<String> = Vec::new();
    assert(texts(out@) =~= Seq::empty());
    if let Some(raw) = vars.get(key) {
        let parts = split(raw, ',');
        let ghost all = texts(parts@);
        let mut i: usize = 0;
        assert(all.take(0) =~= Seq::empty());
        while i < parts.len()
            invariant
                i <= parts@.len(),
                all == texts(parts@),
                texts(out@) == filled_fields(all.take(i as int)),
            decreases parts.len() - i,
        {
            assert(all.take(i as int + 1).drop_last() =~= all.take(i as int));
            assert(all.take(i as int + 1).last() == parts@[i as int]@);
            let s = trimmed(parts[i].as_str());
            if !s.as_str().is_empty() {
                out.push(s);
            }
            i += 1;
        }
        assert(all.take(i as int) =~= all);
    }
    out
}

/// The texts of a list of documents, or the first document that is no text.
pub open spec fn only_texts(items: Seq<Tree>) -> Result<Seq<Seq<char>>, Tree>
    decreases items.len(),
{
    if items.len() == 0 {
        Ok(Seq::empty())
    } else {
        match only_texts(items.drop_last()) {
            Ok(before) => match items.last() {
                Tree::Str(s) => Ok(before.push(s)),
                other => Err(other),
            },
            Err(t) => Err(t),
        }
    }
}

/// The list of texts that a value denotes, by what was read of it.
pub open spec fn texts_of(key: Seq<char>, read: Result<Tree, Seq<char>>) -> Result<
    Seq<Seq<char>>,
    Fault,
> {
    let (message, code) = (key + " must be a JSON array of strings, got "@,
        "config_invalid_json_array"@);
    match read {
        Err(m) => Err(Fault { message: message + "invalid JSON: "@ + m, code }),
        Ok(Tree::Array(items)) => match only_texts(items) {
            Ok(list) => Ok(list),
            Err(t) => Err(Fault { message: message + "member "@ + rendered(t), code }),
        },
        Ok(other) => Err(Fault { message: message + rendered(other), code }),
    }
}

/// A setting that is a JSON array of texts.
pub open spec fn texts_setting(vars: Variables, key: Seq<char>) -> Result<Seq<Seq<char>>, Fault> {
    match vars.value(key) {
        Some(raw) => if trim(raw).len() == 0 {
            Ok(Seq::empty())
        } else {
            texts_of(key, read_text(raw))
        },
        None => Ok(Seq::empty()),
    }
}

/// The texts of a list of documents, or the first document that is no text.
fn collect_texts(items: &Vec<Json>) -> (r: Result<Vec<String>, Json>)
    ensures
        match r {
            Ok(list) => only_texts(trees(items@)) == Ok::<Seq<Seq<char>>, Tree>(texts(list@)),
            Err(v) => only_texts(trees(items@)) == Err::<Seq<Seq<char>>, Tree>(v@),
        },
{
    let ghost all = trees(items@);
    let mut out: Vec<String> = Vec::new();
    let mut i: usize = 0;
    assert(all.take(0) =~= Seq::empty());
    assert(texts(out@) =~= Seq::empty());
    while i < items.len()
        invariant
            i <= items@.len(),
            all == trees(items@),
            only_texts(all.take(i as int)) == Ok::<Seq<Seq<char>>, Tree>(texts(out@)),
        decreases items.len() - i,
    {
        assert(all.take(i as int + 1).drop_last() =~= all.take(i as int));
        assert(all.take(i as int + 1).last() == items@[i as int]@);
        match &items[i] {
            Json::Str(s) => out.push(s.clone()),
            other => {
                proof {
                    lemma_only_texts(all, i as int + 1);
                }
                return Err(other.clone());
            },
        }
        i += 1;
    }
    assert(all.take(i as int) =~= all);
    Ok(out)
}

/// The list of texts that a value denotes, by what was read of it.
pub fn texts_from(key: &str, read: Result<Json, String>) -> (r: Result<Vec<String>, ConfigError>)
    ensures
        ({
            let seen = match read {
                Ok(v) => Ok::<Tree, Seq<char>>(v@),
                Err(m) => Err::<Tree, Seq<char>>(m@),
            };
            match r {
                Ok(list) => texts_of(key@, seen) == Ok::<Seq<Seq<char>>, Fault>(texts(list@)),
                Err(e) => texts_of(key@, seen) == Err::<Seq<Seq<char>>, Fault>(e@),
            }
        }),
{
    let start = cat(key, " must be a JSON array of strings, got ");
    match read {
        Err(m) => Err(
            ConfigError::new(
                cat3(start.as_str(), "invalid JSON: ", m.as_str()),
                "config_invalid_json_array",
            ),
        ),
        Ok(Json::Array(items)) => {
            match collect_texts(&items) {
                Ok(list) => Ok(list),
                Err(other) => Err(
                    ConfigError::new(
                        cat3(start.as_str(), "member ", other.render().as_str()),
                        "config_invalid_json_array",
                    ),
                ),
            }
        },
        Ok(other) => Err(
            ConfigError::new(
                cat(start.as_str(), other.render().as_str()),
                "config_invalid_json_array",
            ),
        ),
    }
}

proof fn lemma_only_texts(items: Seq<Tree>, n: int)
    requires
        0 <= n <= items.len(),
        only_texts(items.take(n)) is Err,
    ensures
        only_texts(items) == only_texts(items.take(n)),
    decreases items.len() - n,
{
    if n < items.len() {
        assert(items.take(n + 1).drop_last() =~= items.take(n));
        lemma_only_texts(items, n + 1);
    } else {
        assert(items.take(n) =~= items);
    }
}

/// A setting that is a JSON array of texts.
pub fn read_texts(vars: &Variables, key: &str) -> (r: Result<Vec<String>, ConfigError>)
    ensures
        match r {
            Ok(list) => texts_setting(*vars, key@) == Ok::<Seq<Seq<char>>, Fault>(texts(list@)),
            Err(e) => texts_setting(*vars, key@) == Err::<Seq<Seq<char>>, Fault>(e@),
        },
{
    match vars.get(key) {
        Some(raw) => {
            if is_blank(raw) {
                let none: Vec<String> = Vec::new();
                assert(texts(none@) =~= Seq::empty());
                Ok(none)
            } else {
                texts_from(key, Json::read(raw))
            }
        },
        None => {
            let none: Vec<String> = Vec::new();
            assert(texts(none@) =~= Seq::empty());
            Ok(none)
        },
    }
}

/// The object that a value denotes, by what was read of it.
pub open spec fn object_from(key: Seq<char>, read: Result<Tree, Seq<char>>) -> Result<
    Map<Seq<char>, Tree>,
    Fault,
> {
    let (message, code) = (key + " must be a JSON object, got "@, "config_invalid_json_object"@);
    match read {
        Err(m) => Err(Fault { message: message + "invalid JSON: "@ + m, code }),
        Ok(Tree::Object(m)) => Ok(m),
        Ok(other) => Err(Fault { message: message + rendered(other), code }),
    }
}

/// A setting that is a JSON object.
pub open spec fn object_setting(vars: Variables, key: Seq<char>) -> Result<
    Map<Seq<char>, Tree>,
    Fault,
> {
    match vars.value(key) {
        Some(raw) => if trim(raw).len() == 0 {
            Ok(Map::empty())
        } else {
            object_from(key, read_text(raw))
        },
        None => Ok(Map::empty()),
    }
}

/// The object that a value denotes, by what was read of it.
pub fn members_from(key: &str, read: Result<Json, String>) -> (r: Result<Object, ConfigError>)
    ensures
        ({
            let seen = match read {
                Ok(v) => Ok::<Tree, Seq<char>>(v@),
                Err(m) => Err::<Tree, Seq<char>>(m@),
            };
            match r {
                Ok(m) => object_from(key@, seen) == Ok::<Map<Seq<char>, Tree>, Fault>(m@),
                Err(e) => object_from(key@, seen) == Err::<Map<Seq<char>, Tree>, Fault>(e@),
            }
        }),
{
    let start = cat(key, " must be a JSON object, got ");
    match read {
        Err(m) => Err(
            ConfigError::new(
                cat3(start.as_str(), "invalid JSON: ", m.as_str()),
                "config_invalid_json_object",
            ),
        ),
        Ok(Json::Object(m)) => Ok(m),
        Ok(other) => Err(
            ConfigError::new(
                cat(start.as_str(), other.render().as_str()),
                "config_invalid_json_object",
            ),
        ),
    }
}

/// A setting that is a JSON object.
pub fn read_object(vars: &Variables, key: &str) -> (r: Result<Object, ConfigError>)
    ensures
        match r {
            Ok(m) => object_setting(*vars, key@) == Ok::<Map<Seq<char>, Tree>, Fault>(m@),
            Err(e) => object_setting(*vars, key@) == Err::<Map<Seq<char>, Tree>, Fault>(e@),
        },
{
    match vars.get(key) {
        Some(raw) => {
            if is_blank(raw) {
                Ok(Object::new())
            } else {
                members_from(key, Json::read(raw))
            }
        },
        None => Ok(Object::new()),
    }
}

/// The settings of the bridge, but for those that are fractions of seconds.
#[derive(Debug)]
pub struct Config {
    pub host: String,
    pub port: u16,
    pub upstream_base_url: String,
    pub upstream_api_key: String,
    pub upstream_streaming: bool,
    pub upstream_max_retries: u32,
    pub max_concurrent_requests: usize,
    pub max_body_bytes: usize,
    pub unsupported_tool_policy: UnsupportedToolPolicy,
    pub upstream_tool_denylist: Vec<String>,
    pub upstream_drop_params: Vec<String>,
    pub upstream_extra_params: Object,
    pub inbound_api_keys: Vec<String>,
}

/// The model of the settings.
#[verifier::ext_equal]
pub ghost struct Settings {
    pub host: Seq<char>,
    pub port: int,
    pub upstream_base_url: Seq<char>,
    pub upstream_api_key: Seq<char>,
    pub upstream_streaming: bool,
    pub upstream_max_retries: int,
    pub max_concurrent_requests: int,
    pub max_body_bytes: int,
    pub unsupported_tool_policy: UnsupportedToolPolicy,
    pub upstream_tool_denylist: Seq<Seq<char>>,
    pub upstream_drop_params: Seq<Seq<char>>,
    pub upstream_extra_params: Map<Seq<char>, Tree>,
    pub inbound_api_keys: Seq<Seq<char>>,
}

impl View for Config {
    type V = Settings;

    open spec fn view(&self) -> Settings {
        Settings {
            host: self.host@,
            port: self.port as int,
            upstream_base_url: self.upstream_base_url@,
            upstream_api_key: self.upstream_api_key@,
            upstream_streaming: self.upstream_streaming,
            upstream_max_retries: self.upstream_max_retries as int,
            max_concurrent_requests: self.max_concurrent_requests as int,
            max_body_bytes: self.max_body_bytes as int,
            unsupported_tool_policy: self.unsupported_tool_policy,
            upstream_tool_denylist: texts(self.upstream_tool_denylist@),
            upstream_drop_params: texts(self.upstream_drop_params@),
            upstream_extra_params: self.upstream_extra_params@,
            inbound_api_keys: texts(self.inbound_api_keys@),
        }
    }
}

/// A text without slashes at its end.
pub open spec fn without_slashes(s: Seq<char>) -> Seq<char>
    decreases s.len(),
{
    if s.len() > 0 && s.last() == '/' {
        without_slashes(s.drop_last())
    } else {
        s
    }
}

/// A text without slashes at its end.
fn cut_slashes(s: &str) -> (r: String)
    ensures
        r@ == without_slashes(s@),
{
    let v = chars_of(s);
    let mut n: usize = v.len();
    assert(v@.take(n as int) =~= v@);
    while n > 0 && v[n - 1] == '/'
        invariant
            n <= v@.len(),
            without_slashes(s@) == without_slashes(v@.take(n as int)),
        decreases n,
    {
        assert(v@.take(n as int).drop_last() =~= v@.take(n as int - 1));
        n -= 1;
    }
    let r = text_of(&v, 0, n);
    assert(r@ =~= v@.take(n as int));
    r
}

/// What is said where no upstream is given.
pub open spec fn no_upstream() -> Fault {
    Fault {
        message: "BRIDGE_UPSTREAM_BASE_URL is required but not set. Example: BRIDGE_UPSTREAM_BASE_URL=https://newapi.example.com/v1"@,
        code: "upstream_base_url_empty"@,
    }
}

/// What is said where a number must be at least one.
pub open spec fn too_small(key: Seq<char>, code: Seq<char>) -> Fault {
    Fault { message: key + " must be >= 1"@, code }
}

/// The last settings, which are read once the others are fine.
pub open spec fn last_settings(
    vars: Variables,
    base: Seq<char>,
    concurrent: int,
    body: int,
) -> Result<Settings, Fault> {
    match number_setting(vars, "BRIDGE_PORT"@, 18090, u16::MAX as int) {
        Err(e) => Err(e),
        Ok(port) => match number_setting(
            vars,
            "BRIDGE_UPSTREAM_MAX_RETRIES"@,
            2,
            u32::MAX as int,
        ) {
            Err(e) => Err(e),
            Ok(retries) => match UnsupportedToolPolicy::named(
                vars.value_or("BRIDGE_UNSUPPORTED_TOOL_POLICY"@, "ignore"@),
            ) {
                Err(e) => Err(e),
                Ok(policy) => match texts_setting(vars, "BRIDGE_UPSTREAM_DROP_PARAMS"@) {
                    Err(e) => Err(e),
                    Ok(drop) => match object_setting(vars, "BRIDGE_UPSTREAM_EXTRA_PARAMS"@) {
                        Err(e) => Err(e),
                        Ok(extra) => Ok(
                            Settings {
                                host: vars.value_or("BRIDGE_HOST"@, "0.0.0.0"@),
                                port,
                                upstream_base_url: base,
                                upstream_api_key: vars.value_or("BRIDGE_UPSTREAM_API_KEY"@, ""@),
                                upstream_streaming: flag_setting(
                                    vars,
                                    "BRIDGE_UPSTREAM_STREAMING"@,
                                    true,
                                ),
                                upstream_max_retries: retries,
                                max_concurrent_requests: concurrent,
                                max_body_bytes: body,
                                unsupported_tool_policy: policy,
                                upstream_tool_denylist: list_setting(
                                    vars,
                                    "BRIDGE_UPSTREAM_TOOL_DENYLIST"@,
                                ),
                                upstream_drop_params: drop,
                                upstream_extra_params: extra,
                                inbound_api_keys: list_setting(vars, "BRIDGE_INBOUND_API_KEYS"@),
                            },
                        ),
                    },
                },
            },
        },
    }
}

/// The settings that variables give, or the first error. `timeout` and `queue` are what
/// is wrong with the settings that are fractions of seconds.
pub open spec fn settings_of(
    vars: Variables,
    timeout: Option<Fault>,
    queue: Option<Fault>,
) -> Result<Settings, Fault> {
    let base = without_slashes(vars.value_or("BRIDGE_UPSTREAM_BASE_URL"@, ""@));
    if base.len() == 0 {
        Err(no_upstream())
    } else if timeout is Some {
        Err(timeout->0)
    } else {
        match number_setting(vars, "BRIDGE_MAX_CONCURRENT_REQUESTS"@, 20, usize::MAX as int) {
            Err(e) => Err(e),
            Ok(concurrent) => if concurrent < 1 {
                Err(too_small("BRIDGE_MAX_CONCURRENT_REQUESTS"@, "concurrency_invalid"@))
            } else if queue is Some {
                Err(queue->0)
            } else {
                match number_setting(vars, "BRIDGE_MAX_BODY_BYTES"@, 10485760, usize::MAX as int) {
                    Err(e) => Err(e),
                    Ok(body) => if body < 1 {
                        Err(too_small("BRIDGE_MAX_BODY_BYTES"@, "max_body_bytes_invalid"@))
                    } else {
                        last_settings(vars, base, concurrent, body)
                    },
                }
            },
        }
    }
}

/// What is wrong, if anything is.
pub open spec fn fault_view(o: Option<ConfigError>) -> Option<Fault> {
    match o {
        Some(e) => Some(e@),
        None => None,
    }
}

fn read_last_settings(
    vars: &Variables,
    upstream_base_url: String,
    max_concurrent_requests: usize,
    max_body_bytes: usize,
) -> (r: Result<Config, ConfigError>)
    ensures
        ({
            let s = last_settings(
                *vars,
                upstream_base_url@,
                max_concurrent_requests as int,
                max_body_bytes as int,
            );
            match r {
                Ok(c) => s == Ok::<Settings, Fault>(c@),
                Err(e) => s == Err::<Settings, Fault>(e@),
            }
        }),
{
    let port: u16 = match read_number(vars, "BRIDGE_PORT", 18090, u16::MAX as u64) {
        Ok(n) => n as u16,
        Err(e) => {
            return Err(e);
        },
    };
    let upstream_max_retries: u32 = match read_number(
        vars,
        "BRIDGE_UPSTREAM_MAX_RETRIES",
        2,
        u32::MAX as u64,
    ) {
        Ok(n) => n as u32,
        Err(e) => {
            return Err(e);
        },
    };
    let raw = vars.get_or("BRIDGE_UNSUPPORTED_TOOL_POLICY", "ignore");
    let unsupported_tool_policy = match UnsupportedToolPolicy::parse(raw.as_str()) {
        Ok(p) => p,
        Err(e) => {
            return Err(e);
        },
    };
    let upstream_drop_params = match read_texts(vars, "BRIDGE_UPSTREAM_DROP_PARAMS") {
        Ok(list) => list,
        Err(e) => {
            return Err(e);
        },
    };
    let upstream_extra_params = match read_object(vars, "BRIDGE_UPSTREAM_EXTRA_PARAMS") {
        Ok(m) => m,
        Err(e) => {
            return Err(e);
        },
    };
    Ok(
        Config {
            host: vars.get_or("BRIDGE_HOST", "0.0.0.0"),
            port,
            upstream_base_url,
            upstream_api_key: vars.get_or("BRIDGE_UPSTREAM_API_KEY", ""),
            upstream_streaming: read_flag(vars, "BRIDGE_UPSTREAM_STREAMING", true),
            upstream_max_retries,
            max_concurrent_requests,
            max_body_bytes,
            unsupported_tool_policy,
            upstream_tool_denylist: read_list(vars, "BRIDGE_UPSTREAM_TOOL_DENYLIST"),
            upstream_drop_params,
            upstream_extra_params,
            inbound_api_keys: read_list(vars, "BRIDGE_INBOUND_API_KEYS"),
        },
    )
}

impl Config {
    /// The settings that variables give, or the first error. `timeout_fault` and
    /// `queue_fault` are what is wrong with `BRIDGE_UPSTREAM_TIMEOUT_SECONDS` and
    /// `BRIDGE_QUEUE_TIMEOUT_SECONDS`, which are fractions of seconds.
    pub fn from_variables(
        vars: &Variables,
        timeout_fault: Option<ConfigError>,
        queue_fault: Option<ConfigError>,
    ) -> (r: Result<Config, ConfigError>)
        ensures
            ({
                let s = settings_of(*vars, fault_view(timeout_fault), fault_view(queue_fault));
                match r {
                    Ok(c) => s == Ok::<Settings, Fault>(c@),
                    Err(e) => s == Err::<Settings, Fault>(e@),
                }
            }),
    {
        let raw = vars.get_or("BRIDGE_UPSTREAM_BASE_URL", "");
        let upstream_base_url = cut_slashes(raw.as_str());
        if upstream_base_url.as_str().is_empty() {
            return Err(
                ConfigError::new(
                    "BRIDGE_UPSTREAM_BASE_URL is required but not set. Example: BRIDGE_UPSTREAM_BASE_URL=https://newapi.example.com/v1".to_owned(),
                    "upstream_base_url_empty",
                ),
            );
        }
        if let Some(e) = timeout_fault {
            return Err(e);
        }
        let max_concurrent_requests: usize = match read_number(
            vars,
            "BRIDGE_MAX_CONCURRENT_REQUESTS",
            20,
            usize::MAX as u64,
        ) {
            Ok(n) => n as usize,
            Err(e) => {
                return Err(e);
            },
        };
        if max_concurrent_requests < 1 {
            return Err(
                ConfigError::new(
                    cat("BRIDGE_MAX_CONCURRENT_REQUESTS", " must be >= 1"),
                    "concurrency_invalid",
                ),
            );
        }
        if let Some(e) = queue_fault {
            return Err(e);
        }
        let max_body_bytes: usize = match read_number(
            vars,
            "BRIDGE_MAX_BODY_BYTES",
            10485760,
            usize::MAX as u64,
        ) {
            Ok(n) => n as usize,
            Err(e) => {
                return Err(e);
            },
        };
        if max_body_bytes < 1 {
            return Err(
                ConfigError::new(
                    cat("BRIDGE_MAX_BODY_BYTES", " must be >= 1"),
                    "max_body_bytes_invalid",
                ),
            );
        }
        read_last_settings(vars, upstream_base_url, max_concurrent_requests, max_body_bytes)
    }

    /// Where Chat completions are asked for.
    pub fn chat_completions_url(&self) -> (r: String)
        ensures
            r@ == self@.upstream_base_url + "/chat/completions"@,
    {
        cat(self.upstream_base_url.as_str(), "/chat/completions")
    }

    /// Where the models are asked for.
    pub fn models_url(&self) -> (r: String)
        ensures
            r@ == self@.upstream_base_url + "/models"@,
    {
        cat(self.upstream_base_url.as_str(), "/models")
    }
}

/// Settings that were read are usable: upstream is given and ends in no slash, and at
/// least one request and one byte are let in.
pub proof fn settings_are_usable(vars: Variables, timeout: Option<Fault>, queue: Option<Fault>)
    ensures
        settings_of(vars, timeout, queue) matches Ok(s) ==> {
            &&& s.upstream_base_url.len() > 0
            &&& s.upstream_base_url.last() != '/'
            &&& s.max_concurrent_requests >= 1
            &&& s.max_body_bytes >= 1
        },
{
    lemma_no_slash(vars.value_or("BRIDGE_UPSTREAM_BASE_URL"@, ""@));
}

proof fn lemma_no_slash(s: Seq<char>)
    ensures
        without_slashes(s).len() > 0 ==> without_slashes(s).last() != '/',
    decreases s.len(),
{
    if s.len() > 0 && s.last() == '/' {
        lemma_no_slash(s.drop_last());
    }
}

} // verus!
