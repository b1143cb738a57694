//! The tool registry of a request.
//!
//! Every tool that a request declares is registered under the name of the Chat
//! function that stands for it. The registry owns the `tools` array that goes
//! upstream, and translates names in both directions.
use vstd::prelude::*;
use vstd::utf8::encode_utf8;
use crate::config::UnsupportedToolPolicy;
use crate::json::{
    has_equal, in_values, items_in, lemma_trees_push, list_of, list_of_texts, member, members_in,
    object_of, opt_tree, parsed, rendered, text_at, text_in, text_trees, trees, Json, Object, Tree,
};
use crate::reasoning::is_blank;
use crate::sha256::{digest_prefix, sha256_hex_16};
use crate::text::{
    cat3, chars_of, clone_opt, clone_texts, find, in_list, lemma_texts_push, listed, lower, lowered,
    occurs, occurs_at, opt_string, opt_text, own_opt, position, same, text_of, texts, trim, trimmed,
};
use crate::types::ResponsesRequest;

verus! {

broadcast use {lemma_trees_push, lemma_texts_push};

/// The Chat function that stands for a tool search.
pub const TOOL_SEARCH_PROXY_NAME: &'static str = "tool_search";

/// The argument that carries a custom tool's freeform input.
pub const CUSTOM_TOOL_INPUT_FIELD: &'static str = "input";

/// The longest name of a Chat function.
pub const CHAT_TOOL_NAME_MAX_LEN: usize = 64;

/// Whether tools of this type are hosted: they have no Chat function.
pub open spec fn hosted(t: Seq<char>) -> bool {
    t == "web_search"@ || t == "file_search"@ || t == "computer_use"@ || t
        == "computer_use_preview"@ || t == "code_interpreter"@ || t == "mcp"@
}

/// Whether tools of this type are hosted.
pub fn is_hosted_tool_type(tool_type: &str) -> (r: bool)
    ensures
        r == hosted(tool_type@),
{
    same(tool_type, "web_search") || same(tool_type, "file_search") || same(
        tool_type,
        "computer_use",
    ) || same(tool_type, "computer_use_preview") || same(tool_type, "code_interpreter") || same(
        tool_type,
        "mcp",
    )
}

/// The Chat name of a tool in a namespace: the two names joined, cut short and
/// told apart by a digest where that is too long.
pub open spec fn flattened(namespace: Seq<char>, name: Seq<char>) -> Seq<char> {
    let full = namespace + "__"@ + name;
    if full.len() <= 64 {
        full
    } else {
        full.take(46) + ("__"@ + digest_prefix(encode_utf8(full)))
    }
}

/// The Chat name of a tool in a namespace.
pub fn flatten_namespace_tool_name(namespace: &str, name: &str) -> (r: String)
    ensures
        r@ == flattened(namespace@, name@),
{
    let full = cat3(namespace, "__", name);
    let v = chars_of(full.as_str());
    if v.len() <= CHAT_TOOL_NAME_MAX_LEN {
        return full;
    }
    let mut out = text_of(&v, 0, 46);
    assert(out@ =~= full@.take(46));
    let mut suffix = "__".to_owned();
    let digits = sha256_hex_16(full.as_str().as_bytes());
    suffix.push_str(digits.as_str());
    out.push_str(suffix.as_str());
    out
}

/// A flattened name is never longer than a Chat function name may be, and two
/// names that fit are only confused where they join to the same text.
pub proof fn flattened_names_fit(namespace: Seq<char>, name: Seq<char>)
    ensures
        flattened(namespace, name).len() <= CHAT_TOOL_NAME_MAX_LEN,
        (namespace + "__"@ + name).len() <= CHAT_TOOL_NAME_MAX_LEN ==> flattened(namespace, name)
            == namespace + "__"@ + name,
        (namespace + "__"@ + name).len() > CHAT_TOOL_NAME_MAX_LEN ==> flattened(
            namespace,
            name,
        ).len() == CHAT_TOOL_NAME_MAX_LEN,
{
    reveal_strlit("__");
}

/// Long names stay apart: two that are cut short get different Chat names wherever
/// their digests differ.
pub proof fn cut_names_differ_by_their_digests(
    namespace: Seq<char>,
    name: Seq<char>,
    other_namespace: Seq<char>,
    other: Seq<char>,
)
    requires
        (namespace + "__"@ + name).len() > CHAT_TOOL_NAME_MAX_LEN,
        (other_namespace + "__"@ + other).len() > CHAT_TOOL_NAME_MAX_LEN,
        digest_prefix(encode_utf8(namespace + "__"@ + name)) != digest_prefix(
            encode_utf8(other_namespace + "__"@ + other),
        ),
    ensures
        flattened(namespace, name) != flattened(other_namespace, other),
{
    reveal_strlit("__");
    let a = flattened(namespace, name);
    let b = flattened(other_namespace, other);
    assert(a.skip(48) =~= digest_prefix(encode_utf8(namespace + "__"@ + name)));
    assert(b.skip(48) =~= digest_prefix(encode_utf8(other_namespace + "__"@ + other)));
}

/// A text that is not blank.
pub open spec fn filled(o: Option<Seq<char>>) -> Option<Seq<char>> {
    match o {
        Some(s) if trim(s).len() > 0 => Some(s),
        _ => None,
    }
}

/// The name of a declared tool: a bare text, a `name`, or a `name` inside
/// `function`.
pub open spec fn tool_name(tool: Tree) -> Option<Seq<char>> {
    match tool {
        Tree::Str(s) => if trim(s).len() > 0 {
            Some(trim(s))
        } else {
            None
        },
        Tree::Object(m) => match filled(text_at(m, "name"@)) {
            Some(s) => Some(s),
            None => match members_in(member(m, "function"@)) {
                Some(f) => filled(text_at(f, "name"@)),
                None => None,
            },
        },
        _ => None,
    }
}

/// A text that is not blank.
pub fn filled_text(o: Option<&str>) -> (r: Option<&str>)
    ensures
        opt_text(r) == filled(opt_text(o)),
{
    match o {
        Some(s) => {
            if is_blank(s) {
                None
            } else {
                Some(s)
            }
        },
        None => None,
    }
}

/// The name of a declared tool.
pub fn tool_name_from_value(tool: &Json) -> (r: Option<String>)
    ensures
        opt_string(r) == tool_name(tool@),
{
    match tool {
        Json::Str(s) => {
            let candidate = trimmed(s.as_str());
            if candidate.as_str().is_empty() {
                None
            } else {
                Some(candidate)
            }
        },
        Json::Object(obj) => match filled_text(obj.get_str("name")) {
            Some(name) => Some(name.to_owned()),
            None => match obj.get("function") {
                Some(f) => match f.as_object() {
                    Some(f) => own_opt(filled_text(f.get_str("name"))),
                    None => None,
                },
                None => None,
            },
        },
        _ => None,
    }
}

/// Where a registered tool comes from.
#[derive(Debug, Clone, Copy, PartialEq, Eq, Structural)]
pub enum ToolKind {
    Function,
    Custom,
    ToolSearch,
    Namespace,
}

/// How the tools of a namespace are offered.
#[derive(Debug, Clone, Copy, PartialEq, Eq, Structural)]
pub enum NamespaceStrategy {
    NestedOneof,
    NestedAnyof,
    Flat,
}

impl NamespaceStrategy {
    /// The name of the strategy.
    pub open spec fn label(self) -> Seq<char> {
        match self {
            NamespaceStrategy::NestedOneof => "nested_oneof"@,
            NamespaceStrategy::NestedAnyof => "nested_anyof"@,
            NamespaceStrategy::Flat => "flat"@,
        }
    }

    /// The name of the strategy.
    pub fn as_str(self) -> (r: &'static str)
        ensures
            r@ == self.label(),
    {
        match self {
            NamespaceStrategy::NestedOneof => "nested_oneof",
            NamespaceStrategy::NestedAnyof => "nested_anyof",
            NamespaceStrategy::Flat => "flat",
        }
    }

    /// The strategy of a name; unknown names are flat.
    pub open spec fn named(s: Seq<char>) -> NamespaceStrategy {
        if s == "nested_oneof"@ {
            NamespaceStrategy::NestedOneof
        } else if s == "nested_anyof"@ {
            NamespaceStrategy::NestedAnyof
        } else {
            NamespaceStrategy::Flat
        }
    }

    /// The strategy of a name; unknown names are flat.
    pub fn from_str_or_flat(s: &str) -> (r: NamespaceStrategy)
        ensures
            r == NamespaceStrategy::named(s@),
    {
        if same(s, "nested_oneof") {
            NamespaceStrategy::NestedOneof
        } else if same(s, "nested_anyof") {
            NamespaceStrategy::NestedAnyof
        } else {
            NamespaceStrategy::Flat
        }
    }

    /// Whether the strategy selects tools by an action argument.
    pub open spec fn nested(self) -> bool {
        self == NamespaceStrategy::NestedOneof || self == NamespaceStrategy::NestedAnyof
    }

    /// Whether the strategy selects tools by an action argument.
    pub fn is_nested(self) -> (r: bool)
        ensures
            r == self.nested(),
    {
        match self {
            NamespaceStrategy::NestedOneof | NamespaceStrategy::NestedAnyof => true,
            NamespaceStrategy::Flat => false,
        }
    }
}

/// The origin of a registered tool.
#[derive(Debug)]
pub struct ToolSpec {
    pub kind: ToolKind,
    /// The tool's own name.
    pub name: String,
    /// The namespace that the tool belongs to.
    pub namespace: Option<String>,
    /// How the namespace is offered, for a namespace.
    pub namespace_strategy: Option<NamespaceStrategy>,
    /// The actions to select from, for a namespace.
    pub actions: Option<Vec<String>>,
}

/// The model of a tool's origin.
#[verifier::ext_equal]
pub ghost struct Origin {
    pub kind: ToolKind,
    pub name: Seq<char>,
    pub namespace: Option<Seq<char>>,
    pub strategy: Option<NamespaceStrategy>,
    pub actions: Option<Seq<Seq<char>>>,
}

/// The texts of an optional list.
pub open spec fn opt_texts(o: Option<Vec<String>>) -> Option<Seq<Seq<char>>> {
    match o {
        Some(v) => Some(texts(v@)),
        None => None,
    }
}

impl View for ToolSpec {
    type V = Origin;

    open spec fn view(&self) -> Origin {
        Origin {
            kind: self.kind,
            name: self.name@,
            namespace: opt_string(self.namespace),
            strategy: self.namespace_strategy,
            actions: opt_texts(self.actions),
        }
    }
}

impl Origin {
    /// A function, in a namespace or not.
    pub open spec fn function(name: Seq<char>, namespace: Option<Seq<char>>) -> Origin {
        Origin { kind: ToolKind::Function, name, namespace, strategy: None, actions: None }
    }

    /// A custom tool.
    pub open spec fn custom(name: Seq<char>) -> Origin {
        Origin { kind: ToolKind::Custom, name, namespace: None, strategy: None, actions: None }
    }

    /// The tool search.
    pub open spec fn tool_search() -> Origin {
        Origin {
            kind: ToolKind::ToolSearch,
            name: "tool_search"@,
            namespace: None,
            strategy: None,
            actions: None,
        }
    }

    /// Whether this is a namespace whose tools are selected by an action.
    pub open spec fn nested_namespace(self) -> bool {
        self.kind == ToolKind::Namespace && (self.strategy matches Some(s) && s.nested())
    }
}

impl ToolSpec {
    /// A function, in a namespace or not.
    pub fn function(name: String, namespace: Option<String>) -> (r: ToolSpec)
        ensures
            r@ == Origin::function(name@, opt_string(namespace)),
    {
        ToolSpec {
            kind: ToolKind::Function,
            name,
            namespace,
            namespace_strategy: None,
            actions: None,
        }
    }

    /// A custom tool.
    pub fn custom(name: String) -> (r: ToolSpec)
        ensures
            r@ == Origin::custom(name@),
    {
        ToolSpec {
            kind: ToolKind::Custom,
            name,
            namespace: None,
            namespace_strategy: None,
            actions: None,
        }
    }

    /// The tool search.
    pub fn tool_search() -> (r: ToolSpec)
        ensures
            r@ == Origin::tool_search(),
    {
        ToolSpec {
            kind: ToolKind::ToolSearch,
            name: "tool_search".to_owned(),
            namespace: None,
            namespace_strategy: None,
            actions: None,
        }
    }

    /// Whether this is a namespace whose tools are selected by an action.
    pub fn is_nested_namespace(&self) -> (r: bool)
        ensures
            r == self@.nested_namespace(),
    {
        if self.kind != ToolKind::Namespace {
            return false;
        }
        match self.namespace_strategy {
            Some(s) => s.is_nested(),
            None => false,
        }
    }
}

impl Clone for ToolSpec {
    fn clone(&self) -> (r: ToolSpec)
        ensures
            r@ == self@,
    {
        ToolSpec {
            kind: self.kind,
            name: self.name.clone(),
            namespace: clone_opt(&self.namespace),
            namespace_strategy: self.namespace_strategy,
            actions: match &self.actions {
                Some(v) => Some(clone_texts(v)),
                None => None,
            },
        }
    }
}

/// The arguments of a call to a nested namespace: the action it selects, where
/// that is a known one, and the arguments of the action itself.
#[derive(Debug)]
pub struct NestedNamespaceResolution {
    pub action_name: Option<String>,
    pub normalized_arguments: String,
}

/// The arguments of an action: those of the call without `action`, and with
/// `params` unwrapped where the strategy wraps them.
pub open spec fn action_arguments(
    strategy: Option<NamespaceStrategy>,
    m: Map<Seq<char>, Tree>,
) -> Map<Seq<char>, Tree> {
    let bare = m.remove("action"@);
    if strategy == Some(NamespaceStrategy::NestedAnyof) {
        let rest = bare.remove("params"@);
        match members_in(member(bare, "params"@)) {
            Some(p) => rest.union_prefer_right(p),
            None => rest,
        }
    } else {
        bare
    }
}

/// The action that a call selects, where it is a known one.
pub open spec fn selected_action(
    actions: Option<Seq<Seq<char>>>,
    m: Map<Seq<char>, Tree>,
) -> Option<Seq<char>> {
    match text_at(m, "action"@) {
        Some(a) => match actions {
            Some(known) => if listed(known, a) {
                Some(a)
            } else {
                None
            },
            None => None,
        },
        None => None,
    }
}

/// The action and the arguments of a call to a nested namespace, by what its
/// argument text denotes. Arguments that denote no object stay as they are.
pub open spec fn resolved(
    spec: Origin,
    arguments: Seq<char>,
    denoted: Option<Tree>,
) -> (Option<Seq<char>>, Seq<char>) {
    if arguments.len() == 0 {
        (None, arguments)
    } else {
        match members_in(denoted) {
            Some(m) => (
                selected_action(spec.actions, m),
                rendered(Tree::Object(action_arguments(spec.strategy, m))),
            ),
            None => (None, arguments),
        }
    }
}

impl NestedNamespaceResolution {
    /// The action and the arguments.
    pub open spec fn parts(self) -> (Option<Seq<char>>, Seq<char>) {
        (opt_string(self.action_name), self.normalized_arguments@)
    }
}

/// The action and the arguments of a call, by what its argument text denotes.
pub fn resolve_denoted_arguments(
    spec: &ToolSpec,
    arguments_json: &str,
    denoted: Option<Json>,
) -> (r: NestedNamespaceResolution)
    ensures
        r.parts() == resolved(spec@, arguments_json@, crate::json::opt_value(denoted)),
{
    let unresolved = NestedNamespaceResolution {
        action_name: None,
        normalized_arguments: arguments_json.to_owned(),
    };
    if arguments_json.is_empty() {
        return unresolved;
    }
    match denoted {
        Some(Json::Object(m)) => {
            let action_name: Option<String> = match m.get_str("action") {
                Some(a) => match &spec.actions {
                    Some(known) => {
                        if in_list(known, a) {
                            Some(a.to_owned())
                        } else {
                            None
                        }
                    },
                    None => None,
                },
                None => None,
            };
            let mut rest = m;
            rest.remove("action");
            if let Some(NamespaceStrategy::NestedAnyof) = spec.namespace_strategy {
                let params: Option<Object> = match rest.get("params") {
                    Some(Json::Object(p)) => Some(p.clone()),
                    _ => None,
                };
                rest.remove("params");
                if let Some(p) = params {
                    rest.overlay(&p);
                }
            }
            NestedNamespaceResolution {
                action_name,
                normalized_arguments: Json::Object(rest).render(),
            }
        },
        _ => unresolved,
    }
}

/// The action and the arguments of a call to a nested namespace.
pub fn resolve_nested_namespace_arguments(
    spec: &ToolSpec,
    arguments_json: &str,
) -> (r: NestedNamespaceResolution)
    ensures
        r.parts() == resolved(spec@, arguments_json@, parsed(arguments_json@)),
{
    resolve_denoted_arguments(spec, arguments_json, Json::parse(arguments_json))
}

/// The tool registry of a request.
#[derive(Debug)]
pub struct BridgeToolContext {
    tools: Vec<(String, ToolSpec)>,
    chat_tools: Vec<Json>,
    registered_namespaces: Vec<String>,
}

/// The model of a registry: the registered tools under their Chat names, in
/// order of registration, the `tools` array that goes upstream, and the
/// namespaces that were declared.
#[verifier::ext_equal]
pub ghost struct Registry {
    pub tools: Seq<(Seq<char>, Origin)>,
    pub chat_tools: Seq<Tree>,
    pub namespaces: Seq<Seq<char>>,
}

/// The models of registered tools.
spec fn tool_models(s: Seq<(String, ToolSpec)>) -> Seq<(Seq<char>, Origin)> {
    s.map_values(|e: (String, ToolSpec)| (e.0@, e.1@))
}

impl View for BridgeToolContext {
    type V = Registry;

    closed spec fn view(&self) -> Registry {
        Registry {
            tools: tool_models(self.tools@),
            chat_tools: trees(self.chat_tools@),
            namespaces: texts(self.registered_namespaces@),
        }
    }
}

impl Registry {
    /// A registry without tools.
    pub open spec fn empty() -> Registry {
        Registry { tools: Seq::empty(), chat_tools: Seq::empty(), namespaces: Seq::empty() }
    }

    /// The position of the tool registered under a Chat name.
    pub open spec fn registered_at(self, chat_name: Seq<char>, i: int) -> bool {
        0 <= i < self.tools.len() && self.tools[i].0 == chat_name
    }

    /// Whether a Chat name is registered.
    pub open spec fn knows(self, chat_name: Seq<char>) -> bool {
        exists|i: int| #[trigger] self.registered_at(chat_name, i)
    }

    /// Whether every Chat name is registered at most once.
    pub open spec fn distinct(self) -> bool {
        forall|i: int, j: int|
            0 <= i < j < self.tools.len() ==> (#[trigger] self.tools[i]).0 != (
            #[trigger] self.tools[j]).0
    }

    /// The origin of the tool registered under a Chat name.
    pub open spec fn origin(self, chat_name: Seq<char>) -> Option<Origin> {
        origin_in(self.tools, chat_name)
    }

    /// Whether a Chat name stands for a custom tool.
    pub open spec fn custom(self, chat_name: Option<Seq<char>>) -> bool {
        match chat_name {
            Some(name) => name.len() > 0 && (self.origin(name) matches Some(o) && o.kind
                == ToolKind::Custom),
            None => false,
        }
    }

    /// Whether the tool search is registered.
    pub open spec fn searchable(self) -> bool {
        exists|i: int|
            0 <= i < self.tools.len() && (#[trigger] self.tools[i]).1.kind == ToolKind::ToolSearch
    }

    /// Whether a Chat name stands for the tool search.
    pub open spec fn search(self, chat_name: Option<Seq<char>>) -> bool {
        self.searchable() && chat_name == Some("tool_search"@)
    }

    /// The Chat name of a function, in a namespace or not.
    pub open spec fn chat_name(self, name: Seq<char>, namespace: Option<Seq<char>>) -> Seq<char> {
        match namespace {
            Some(ns) => match chat_name_in(self.tools, ns, name) {
                Some(c) => c,
                None => flattened(ns, name),
            },
            None => name,
        }
    }

    /// The namespace and the name that a Chat name stands for. A name that is
    /// not registered is split at its last double underscore, where a declared
    /// namespace stands before it.
    pub open spec fn restored(self, chat_name: Seq<char>) -> (Option<Seq<char>>, Seq<char>) {
        match self.origin(chat_name) {
            Some(o) => (o.namespace, o.name),
            None => match last_split(chat_name, chat_name.len() as int) {
                Some(p) => {
                    let ns = chat_name.take(p);
                    let name = chat_name.skip(p + 2);
                    if ns.len() > 0 && name.len() > 0 && listed(self.namespaces, ns) {
                        (Some(ns), name)
                    } else {
                        (None, chat_name)
                    }
                },
                None => (None, chat_name),
            },
        }
    }

    /// The registry with one tool more, unless its Chat name is blank or taken.
    pub open spec fn with_tool(self, chat_name: Seq<char>, origin: Origin, tool: Tree) -> Registry {
        if trim(chat_name).len() == 0 || self.knows(chat_name) {
            self
        } else {
            Registry {
                tools: self.tools.push((chat_name, origin)),
                chat_tools: self.chat_tools.push(tool),
                namespaces: self.namespaces,
            }
        }
    }
}

/// The origin of the first of `tools` under a Chat name.
pub open spec fn origin_in(tools: Seq<(Seq<char>, Origin)>, chat_name: Seq<char>) -> Option<Origin>
    decreases tools.len(),
{
    if tools.len() == 0 {
        None
    } else {
        match origin_in(tools.drop_last(), chat_name) {
            Some(o) => Some(o),
            None => if tools.last().0 == chat_name {
                Some(tools.last().1)
            } else {
                None
            },
        }
    }
}

/// The Chat name of the last of `tools` with the given namespace and name.
pub open spec fn chat_name_in(
    tools: Seq<(Seq<char>, Origin)>,
    namespace: Seq<char>,
    name: Seq<char>,
) -> Option<Seq<char>>
    decreases tools.len(),
{
    if tools.len() == 0 {
        None
    } else if tools.last().1.namespace == Some(namespace) && tools.last().1.name == name {
        Some(tools.last().0)
    } else {
        chat_name_in(tools.drop_last(), namespace, name)
    }
}

/// The last position below `n` where a double underscore stands.
pub open spec fn last_split(s: Seq<char>, n: int) -> Option<int>
    decreases n,
{
    if n <= 0 {
        None
    } else if occurs_at(s, "__"@, n - 1) {
        Some(n - 1)
    } else {
        last_split(s, n - 1)
    }
}

/// The model of an optional origin.
pub open spec fn opt_origin(o: Option<&ToolSpec>) -> Option<Origin> {
    match o {
        Some(s) => Some(s@),
        None => None,
    }
}

proof fn lemma_origin_known(tools: Seq<(Seq<char>, Origin)>, chat_name: Seq<char>)
    ensures
        origin_in(tools, chat_name) is Some <==> exists|i: int|
            0 <= i < tools.len() && (#[trigger] tools[i]).0 == chat_name,
    decreases tools.len(),
{
    if tools.len() > 0 {
        let rest = tools.drop_last();
        lemma_origin_known(rest, chat_name);
        if origin_in(rest, chat_name) is Some {
            let i = choose|i: int| 0 <= i < rest.len() && (#[trigger] rest[i]).0 == chat_name;
            assert(tools[i].0 == chat_name);
        } else if tools.last().0 == chat_name {
            assert(tools[tools.len() - 1].0 == chat_name);
        } else {
            assert forall|i: int| 0 <= i < tools.len() implies (#[trigger] tools[i]).0
                != chat_name by {
                if i < rest.len() {
                    assert(rest[i].0 != chat_name);
                }
            }
        }
    }
}

proof fn lemma_origin_at(tools: Seq<(Seq<char>, Origin)>, i: int)
    requires
        0 <= i < tools.len(),
        forall|j: int| 0 <= j < i ==> (#[trigger] tools[j]).0 != tools[i].0,
    ensures
        origin_in(tools, tools[i].0) == Some(tools[i].1),
    decreases tools.len(),
{
    let rest = tools.drop_last();
    if i < rest.len() {
        assert(rest[i] == tools[i]);
        assert forall|j: int| 0 <= j < i implies (#[trigger] rest[j]).0 != rest[i].0 by {
            assert(tools[j].0 != tools[i].0);
        }
        lemma_origin_at(rest, i);
    } else {
        lemma_origin_known(rest, tools[i].0);
        assert forall|j: int| 0 <= j < rest.len() implies (#[trigger] rest[j]).0 != tools[i].0 by {
            assert(tools[j].0 != tools[i].0);
        }
    }
}

impl BridgeToolContext {
    /// A registry without tools.
    pub fn new() -> (r: BridgeToolContext)
        ensures
            r@ == Registry::empty(),
    {
        let r = BridgeToolContext {
            tools: Vec::new(),
            chat_tools: Vec::new(),
            registered_namespaces: Vec::new(),
        };
        assert(r@ =~= Registry::empty());
        r
    }

    /// The `tools` array that goes upstream.
    pub fn chat_tools(&self) -> (r: &Vec<Json>)
        ensures
            trees(r@) == self@.chat_tools,
    {
        &self.chat_tools
    }

    /// Whether a Chat name stands for a custom tool.
    pub fn is_custom_tool(&self, chat_name: Option<&str>) -> (r: bool)
        ensures
            r == self@.custom(opt_text(chat_name)),
    {
        match chat_name {
            Some(name) => {
                if name.is_empty() {
                    return false;
                }
                match self.lookup_chat_name(Some(name)) {
                    Some(spec) => spec.kind == ToolKind::Custom,
                    None => false,
                }
            },
            None => false,
        }
    }

    /// Whether the tool search is registered.
    fn tool_search_enabled(&self) -> (r: bool)
        ensures
            r == self@.searchable(),
    {
        let mut i: usize = 0;
        while i < self.tools.len()
            invariant
                i <= self.tools@.len(),
                forall|j: int|
                    0 <= j < i ==> (#[trigger] self@.tools[j]).1.kind != ToolKind::ToolSearch,
            decreases self.tools.len() - i,
        {
            assert(self@.tools[i as int].1.kind == self.tools@[i as int].1.kind);
            if self.tools[i].1.kind == ToolKind::ToolSearch {
                return true;
            }
            i += 1;
        }
        false
    }

    /// Whether a Chat name stands for the tool search.
    pub fn is_tool_search(&self, chat_name: Option<&str>) -> (r: bool)
        ensures
            r == self@.search(opt_text(chat_name)),
    {
        match chat_name {
            Some(name) => same(name, "tool_search") && self.tool_search_enabled(),
            None => false,
        }
    }

    /// The origin of the tool registered under a Chat name.
    pub fn lookup_chat_name(&self, chat_name: Option<&str>) -> (r: Option<&ToolSpec>)
        ensures
            opt_origin(r) == match opt_text(chat_name) {
                Some(name) => self@.origin(name),
                None => None,
            },
    {
        let name = match chat_name {
            Some(name) => name,
            None => {
                return None;
            },
        };
        let mut i: usize = 0;
        while i < self.tools.len()
            invariant
                i <= self.tools@.len(),
                opt_text(chat_name) == Some(name@),
                forall|j: int| 0 <= j < i ==> (#[trigger] self@.tools[j]).0 != name@,
            decreases self.tools.len() - i,
        {
            assert(self@.tools[i as int] == (
                self.tools@[i as int].0@,
                self.tools@[i as int].1@,
            ));
            if same(self.tools[i].0.as_str(), name) {
                proof {
                    lemma_origin_at(self@.tools, i as int);
                }
                return Some(&self.tools[i].1);
            }
            i += 1;
        }
        proof {
            lemma_origin_known(self@.tools, name@);
        }
        None
    }

    /// The Chat name of a function, in a namespace or not. A registered tool has
    /// its registered name; any other is flattened afresh.
    pub fn chat_name_for_function(&self, name: &str, namespace: Option<&str>) -> (r: String)
        ensures
            r@ == self@.chat_name(name@, opt_text(namespace)),
    {
        let ns = match namespace {
            Some(ns) => ns,
            None => {
                return name.to_owned();
            },
        };
        let mut i: usize = self.tools.len();
        assert(self@.tools.take(i as int) =~= self@.tools);
        while i > 0
            invariant
                i <= self.tools@.len(),
                opt_text(namespace) == Some(ns@),
                chat_name_in(self@.tools, ns@, name@) == chat_name_in(
                    self@.tools.take(i as int),
                    ns@,
                    name@,
                ),
            decreases i,
        {
            let ghost entry = self@.tools[i - 1];
            assert(entry == (self.tools@[i - 1].0@, self.tools@[i - 1].1@));
            assert(self@.tools.take(i as int).last() == entry);
            assert(self@.tools.take(i as int).drop_last() =~= self@.tools.take(i - 1));
            let found = match &self.tools[i - 1].1.namespace {
                Some(own) => same(own.as_str(), ns) && same(
                    self.tools[i - 1].1.name.as_str(),
                    name,
                ),
                None => false,
            };
            if found {
                return self.tools[i - 1].0.clone();
            }
            i -= 1;
        }
        flatten_namespace_tool_name(ns, name)
    }

    /// The namespace and the name that a Chat name stands for.
    pub fn restore_namespace_and_name(&self, chat_name: &str) -> (r: (Option<String>, String))
        ensures
            (opt_string(r.0), r.1@) == self@.restored(chat_name@),
    {
        if let Some(spec) = self.lookup_chat_name(Some(chat_name)) {
            return (clone_opt(&spec.namespace), spec.name.clone());
        }
        let v = chars_of(chat_name);
        let sep = chars_of("__");
        proof {
            reveal_strlit("__");
        }
        let total: usize = v.len();
        let mut i: usize = total;
        while i > 0
            invariant
                i <= v@.len(),
                total == v@.len(),
                v@ == chat_name@,
                sep@ == "__"@,
                sep@.len() == 2,
                self@.origin(chat_name@) is None,
                last_split(chat_name@, chat_name@.len() as int) == last_split(
                    chat_name@,
                    i as int,
                ),
            decreases i,
        {
            if occurs(&v, &sep, i - 1) {
                let ns = text_of(&v, 0, i - 1);
                let name = text_of(&v, i + 1, v.len());
                assert(ns@ =~= chat_name@.take(i - 1));
                assert(name@ =~= chat_name@.skip(i + 1));
                if !ns.as_str().is_empty() && !name.as_str().is_empty() && in_list(
                    &self.registered_namespaces,
                    ns.as_str(),
                ) {
                    return (Some(ns), name);
                }
                return (None, chat_name.to_owned());
            }
            i -= 1;
        }
        (None, chat_name.to_owned())
    }

    /// Register a tool, unless its Chat name is blank or taken.
    fn register_chat_tool(&mut self, chat_name: &str, spec: ToolSpec, chat_tool: Json)
        ensures
            final(self)@ == old(self)@.with_tool(chat_name@, spec@, chat_tool@),
    {
        if is_blank(chat_name) {
            return;
        }
        proof {
            lemma_origin_known(self@.tools, chat_name@);
            if self@.knows(chat_name@) {
                let i = choose|i: int| #[trigger] self@.registered_at(chat_name@, i);
                assert(self@.tools[i].0 == chat_name@);
            }
        }
        if let Some(_) = self.lookup_chat_name(Some(chat_name)) {
            proof {
                let i = choose|i: int|
                    0 <= i < self@.tools.len() && (#[trigger] self@.tools[i]).0 == chat_name@;
                assert(self@.registered_at(chat_name@, i));
            }
            return;
        }
        let name = chat_name.to_owned();
        self.tools.push((name, spec));
        self.chat_tools.push(chat_tool);
        proof {
            assert(self@ =~= old(self)@.with_tool(chat_name@, spec@, chat_tool@));
        }
    }
}

/// Registering a tool keeps every Chat name registered at most once.
pub proof fn registration_keeps_names_distinct(
    r: Registry,
    chat_name: Seq<char>,
    origin: Origin,
    tool: Tree,
)
    requires
        r.distinct(),
    ensures
        r.with_tool(chat_name, origin, tool).distinct(),
{
    let next = r.with_tool(chat_name, origin, tool);
    if !(trim(chat_name).len() == 0 || r.knows(chat_name)) {
        assert forall|i: int, j: int| 0 <= i < j < next.tools.len() implies (
        #[trigger] next.tools[i]).0 != (#[trigger] next.tools[j]).0 by {
            assert(r.tools[i] == next.tools[i]);
            if j < r.tools.len() {
                assert(r.tools[j] == next.tools[j]);
            } else {
                assert(!r.registered_at(chat_name, i));
            }
        }
    }
}

/// A tool that has just been registered is found under its Chat name.
pub proof fn registered_tools_are_found(
    r: Registry,
    chat_name: Seq<char>,
    origin: Origin,
    tool: Tree,
)
    requires
        trim(chat_name).len() > 0,
        !r.knows(chat_name),
    ensures
        r.with_tool(chat_name, origin, tool).origin(chat_name) == Some(origin),
        r.with_tool(chat_name, origin, tool).restored(chat_name) == (origin.namespace, origin.name),
        origin.namespace matches Some(ns) ==> r.with_tool(chat_name, origin, tool).chat_name(
            origin.name,
            Some(ns),
        ) == chat_name,
{
    let next = r.with_tool(chat_name, origin, tool);
    let n = r.tools.len() as int;
    assert forall|j: int| 0 <= j < n implies (#[trigger] next.tools[j]).0 != next.tools[n].0 by {
        assert(!r.registered_at(chat_name, j));
    }
    lemma_origin_at(next.tools, n);
}

proof fn lemma_chat_name_registered(
    tools: Seq<(Seq<char>, Origin)>,
    namespace: Seq<char>,
    name: Seq<char>,
)
    requires
        chat_name_in(tools, namespace, name) is Some,
    ensures
        exists|i: int|
            0 <= i < tools.len() && (#[trigger] tools[i]).0 == chat_name_in(
                tools,
                namespace,
                name,
            )->0 && tools[i].1.namespace == Some(namespace) && tools[i].1.name == name,
    decreases tools.len(),
{
    if tools.last().1.namespace == Some(namespace) && tools.last().1.name == name {
        assert(tools[tools.len() - 1].0 == tools.last().0);
    } else {
        let rest = tools.drop_last();
        lemma_chat_name_registered(rest, namespace, name);
        let i = choose|i: int|
            0 <= i < rest.len() && (#[trigger] rest[i]).0 == chat_name_in(
                rest,
                namespace,
                name,
            )->0 && rest[i].1.namespace == Some(namespace) && rest[i].1.name == name;
        assert(tools[i] == rest[i]);
    }
}

/// The Chat name of a registered tool in a namespace leads back to that
/// namespace and that name.
pub proof fn names_round_trip(r: Registry, namespace: Seq<char>, name: Seq<char>)
    requires
        r.distinct(),
        chat_name_in(r.tools, namespace, name) is Some,
    ensures
        r.restored(r.chat_name(name, Some(namespace))) == (Some(namespace), name),
{
    lemma_chat_name_registered(r.tools, namespace, name);
    let c = r.chat_name(name, Some(namespace));
    let i = choose|i: int|
        0 <= i < r.tools.len() && (#[trigger] r.tools[i]).0 == c && r.tools[i].1.namespace == Some(
            namespace,
        ) && r.tools[i].1.name == name;
    assert forall|j: int| 0 <= j < i implies (#[trigger] r.tools[j]).0 != r.tools[i].0 by {}
    lemma_origin_at(r.tools, i);
}

/// The part of a declared function tool that describes the function.
pub open spec fn function_source(tool: Tree) -> Tree {
    match tool.at("function"@) {
        Some(Tree::Object(f)) => Tree::Object(f),
        _ => tool,
    }
}

/// A Chat tool: a function with a name, a description and parameters.
pub open spec fn chat_tool(name: Seq<char>, description: Tree, parameters: Tree) -> Tree {
    Tree::Object(
        map![
            "type"@ => Tree::Str("function"@),
            "function"@ => Tree::Object(map![
                "name"@ => Tree::Str(name),
                "description"@ => description,
                "parameters"@ => parameters,
            ]),
        ],
    )
}

/// The `parameters` of a function, or none.
pub open spec fn parameters_of(function: Tree) -> Tree {
    match function.at("parameters"@) {
        Some(Tree::Object(p)) => Tree::Object(p),
        _ => Tree::Object(Map::empty()),
    }
}

/// The `description` of a function, or null.
pub open spec fn description_of(function: Tree) -> Tree {
    match function.at("description"@) {
        Some(d) => d,
        None => Tree::Null,
    }
}

/// The Chat tool of a custom tool: a function of one text, its input.
pub open spec fn custom_chat_tool(name: Seq<char>, tool: Tree) -> Tree {
    let description = match text_in(tool.at("description"@)) {
        Some(d) if d.len() > 0 => d,
        _ => "Custom Codex tool."@,
    };
    chat_tool(
        name,
        Tree::Str(description),
        Tree::Object(
            map![
                "type"@ => Tree::Str("object"@),
                "properties"@ => Tree::Object(map![
                    "input"@ => Tree::Object(map![
                        "type"@ => Tree::Str("string"@),
                        "description"@ => Tree::Str("Input to pass to the custom Codex tool."@),
                    ]),
                ]),
                "required"@ => Tree::Array(seq![Tree::Str("input"@)]),
            ],
        ),
    )
}

/// The Chat tool of the tool search.
pub open spec fn search_chat_tool() -> Tree {
    chat_tool(
        "tool_search"@,
        Tree::Str(
            "Search and load Codex tools, plugins, connectors, and MCP namespaces for the current task."@,
        ),
        Tree::Object(
            map![
                "type"@ => Tree::Str("object"@),
                "properties"@ => Tree::Object(map![
                    "query"@ => Tree::Object(map![
                        "type"@ => Tree::Str("string"@),
                        "description"@ => Tree::Str("Search query for tools or connectors to load."@),
                    ]),
                    "limit"@ => Tree::Object(map![
                        "type"@ => Tree::Str("integer"@),
                        "description"@ => Tree::Str("Maximum number of tool groups to return."@),
                    ]),
                ]),
                "required"@ => Tree::Array(seq![Tree::Str("query"@)]),
            ],
        ),
    )
}

/// A custom tool declared by its name alone.
pub open spec fn bare_custom(name: Seq<char>) -> Tree {
    Tree::Object(map!["type"@ => Tree::Str("custom"@), "name"@ => Tree::Str(name)])
}

/// The functions among the tools of a namespace, with their names, in order.
pub open spec fn function_children(children: Seq<Tree>) -> (Seq<Tree>, Seq<Seq<char>>)
    decreases children.len(),
{
    if children.len() == 0 {
        (Seq::empty(), Seq::empty())
    } else {
        let (tools, names) = function_children(children.drop_last());
        let child = children.last();
        if text_in(child.at("type"@)) == Some("function"@) {
            match tool_name(function_source(child)) {
                Some(name) => (tools.push(function_source(child)), names.push(name)),
                None => (tools, names),
            }
        } else {
            (tools, names)
        }
    }
}

/// The members of a function's `parameters`, if it has any.
pub open spec fn parameter_members(function: Tree) -> Option<Map<Seq<char>, Tree>> {
    members_in(function.at("parameters"@))
}

/// A member of optional members.
pub open spec fn opt_member(o: Option<Map<Seq<char>, Tree>>, k: Seq<char>) -> Option<Tree> {
    match o {
        Some(m) => member(m, k),
        None => None,
    }
}

/// The schema of one action: the function's own parameters with the action's
/// name as a required constant.
pub open spec fn action_variant(function: Tree) -> Tree {
    let action = match tool_name(function) {
        Some(n) => n,
        None => "unknown"@,
    };
    let params = parameter_members(function);
    let own = match members_in(opt_member(params, "properties"@)) {
        Some(p) => p,
        None => Map::empty(),
    };
    let properties = own.insert(
        "action"@,
        Tree::Object(
            map!["type"@ => Tree::Str("string"@), "enum"@ => Tree::Array(seq![Tree::Str(action)])],
        ),
    );
    let listed_required = match items_in(opt_member(params, "required"@)) {
        Some(r) => r,
        None => Seq::empty(),
    };
    let required = if listed_required.contains(Tree::Str("action"@)) {
        listed_required
    } else {
        seq![Tree::Str("action"@)] + listed_required
    };
    let variant = map![
        "type"@ => Tree::Str("object"@),
        "properties"@ => Tree::Object(properties),
        "required"@ => Tree::Array(required),
    ];
    Tree::Object(
        match opt_member(params, "additionalProperties"@) {
            Some(ap) => variant.insert("additionalProperties"@, ap),
            None => variant,
        },
    )
}

/// The schema of a namespace as one variant per action.
pub open spec fn oneof_schema(functions: Seq<Tree>) -> Tree {
    Tree::Object(
        map![
            "type"@ => Tree::Str("object"@),
            "oneOf"@ => Tree::Array(functions.map_values(|f: Tree| action_variant(f))),
        ],
    )
}

/// The schema of a namespace as one list of actions over merged parameters.
pub open spec fn anyof_schema(functions: Seq<Tree>, names: Seq<Seq<char>>) -> Tree {
    let variants = functions.map_values(|f: Tree| parameters_of(f));
    let params = if variants.len() == 0 {
        Tree::Object(Map::empty())
    } else if variants.len() == 1 {
        variants[0]
    } else {
        Tree::Object(map!["anyOf"@ => Tree::Array(variants)])
    };
    Tree::Object(
        map![
            "type"@ => Tree::Str("object"@),
            "properties"@ => Tree::Object(map![
                "action"@ => Tree::Object(map![
                    "type"@ => Tree::Str("string"@),
                    "enum"@ => Tree::Array(text_trees(names)),
                ]),
                "params"@ => params,
            ]),
            "required"@ => Tree::Array(seq![Tree::Str("action"@)]),
        ],
    )
}

/// The tools of a declared namespace.
pub open spec fn namespace_children(tool: Tree) -> Option<Seq<Tree>> {
    items_in(
        if tool.at("tools"@) is Some {
            tool.at("tools"@)
        } else {
            tool.at("children"@)
        },
    )
}

/// How a declared namespace is to be offered.
pub open spec fn namespace_strategy(tool: Tree) -> NamespaceStrategy {
    match text_in(tool.at("strategy"@)) {
        Some(s) if s.len() > 0 => NamespaceStrategy::named(lower(s)),
        _ => NamespaceStrategy::Flat,
    }
}

impl Registry {
    /// The registry with a declared function, in a namespace or not.
    pub open spec fn with_function(self, tool: Tree, namespace: Option<Seq<char>>) -> Registry {
        let function = function_source(tool);
        match tool_name(function) {
            Some(name) => {
                let chat_name = self.chat_name(name, namespace);
                self.with_tool(
                    chat_name,
                    Origin::function(name, namespace),
                    chat_tool(chat_name, description_of(function), parameters_of(function)),
                )
            },
            None => self,
        }
    }

    /// The registry with a declared custom tool.
    pub open spec fn with_custom(self, tool: Tree) -> Registry {
        match tool_name(tool) {
            Some(name) => self.with_tool(name, Origin::custom(name), custom_chat_tool(name, tool)),
            None => self,
        }
    }

    /// The registry with the tool search.
    pub open spec fn with_search(self) -> Registry {
        self.with_tool("tool_search"@, Origin::tool_search(), search_chat_tool())
    }

    /// The registry with the functions among `children`, each in the namespace.
    pub open spec fn with_children(self, children: Seq<Tree>, namespace: Seq<char>) -> Registry
        decreases children.len(),
    {
        if children.len() == 0 {
            self
        } else {
            let before = self.with_children(children.drop_last(), namespace);
            if text_in(children.last().at("type"@)) == Some("function"@) {
                before.with_function(children.last(), Some(namespace))
            } else {
                before
            }
        }
    }

    /// The registry with one tool for a whole namespace.
    pub open spec fn with_nested(
        self,
        namespace: Seq<char>,
        children: Seq<Tree>,
        strategy: NamespaceStrategy,
    ) -> Registry {
        let (functions, names) = function_children(children);
        if functions.len() == 0 {
            self
        } else {
            let chat_name = flattened(namespace, namespace);
            let schema = if strategy == NamespaceStrategy::NestedOneof {
                oneof_schema(functions)
            } else {
                anyof_schema(functions, names)
            };
            self.with_tool(
                chat_name,
                Origin {
                    kind: ToolKind::Namespace,
                    name: namespace,
                    namespace: Some(namespace),
                    strategy: Some(strategy),
                    actions: Some(names),
                },
                chat_tool(
                    chat_name,
                    Tree::Str(
                        "Namespace tool: "@ + namespace + " (strategy: "@ + strategy.label() + ")"@,
                    ),
                    schema,
                ),
            )
        }
    }

    /// The registry with a declared namespace.
    pub open spec fn with_namespace(self, tool: Tree) -> Registry {
        match (text_in(tool.at("name"@)), namespace_children(tool)) {
            (Some(namespace), Some(children)) => if trim(namespace).len() == 0 {
                self
            } else {
                let known = Registry { namespaces: self.namespaces.push(namespace), ..self };
                let strategy = namespace_strategy(tool);
                if strategy.nested() {
                    known.with_nested(namespace, children, strategy)
                } else {
                    known.with_children(children, namespace)
                }
            },
            _ => self,
        }
    }

    /// The registry with a tool that goes upstream as it is, once.
    pub open spec fn with_hosted(self, tool: Tree) -> Registry {
        if has_equal(self.chat_tools, tool) {
            self
        } else {
            Registry { chat_tools: self.chat_tools.push(tool), ..self }
        }
    }

    /// The registry with a declared tool.
    pub open spec fn with_declared(self, tool: Tree, policy: UnsupportedToolPolicy) -> Registry {
        match tool {
            Tree::Str(s) => if trim(s).len() > 0 {
                self.with_custom(bare_custom(s))
            } else {
                self
            },
            Tree::Object(m) => {
                let t = crate::text::text_or_empty(text_at(m, "type"@));
                if hosted(t) {
                    if policy == UnsupportedToolPolicy::Passthrough {
                        self.with_hosted(tool)
                    } else {
                        self
                    }
                } else if t == "function"@ {
                    self.with_function(tool, None)
                } else if t == "custom"@ {
                    self.with_custom(tool)
                } else if t == "tool_search"@ {
                    self.with_search()
                } else if t == "namespace"@ {
                    self.with_namespace(tool)
                } else {
                    self
                }
            },
            _ => self,
        }
    }

    /// The registry with a list of declared tools.
    pub open spec fn with_all_declared(
        self,
        tools: Seq<Tree>,
        policy: UnsupportedToolPolicy,
    ) -> Registry
        decreases tools.len(),
    {
        if tools.len() == 0 {
            self
        } else {
            self.with_all_declared(tools.drop_last(), policy).with_declared(tools.last(), policy)
        }
    }

    /// The registry with one Chat tool of another registry.
    pub open spec fn with_merged_tool(self, other: Registry, tool: Tree) -> Registry {
        match text_in(tool.at("type"@)) {
            Some(t) if hosted(t) => self.with_hosted(tool),
            _ => match filled(text_in(opt_member(members_in(tool.at("function"@)), "name"@))) {
                Some(name) => match other.origin(name) {
                    Some(origin) => self.with_tool(name, origin, tool),
                    None => self,
                },
                None => self,
            },
        }
    }

    /// The registry with a list of Chat tools of another registry.
    pub open spec fn with_merged_tools(self, other: Registry, tools: Seq<Tree>) -> Registry
        decreases tools.len(),
    {
        if tools.len() == 0 {
            self
        } else {
            self.with_merged_tools(other, tools.drop_last()).with_merged_tool(other, tools.last())
        }
    }

    /// The registry with the tools of another registry.
    pub open spec fn merged(self, other: Registry) -> Registry {
        let all = self.with_merged_tools(other, other.chat_tools);
        if other.searchable() {
            all.with_search()
        } else {
            all
        }
    }
}

fn function_part(tool: &Json) -> (r: &Json)
    ensures
        r@ == function_source(tool@),
{
    match tool.get("function") {
        Some(f) => {
            if f.is_object() {
                f
            } else {
                tool
            }
        },
        None => tool,
    }
}

fn parameters_part(function: &Json) -> (r: Json)
    ensures
        r@ == parameters_of(function@),
{
    match function.get("parameters") {
        Some(p) => {
            if p.is_object() {
                return p.clone();
            }
        },
        None => {},
    }
    Json::Object(Object::new())
}

fn make_chat_tool(name: &str, description: Json, parameters: Json) -> (r: Json)
    ensures
        r@ == chat_tool(name@, description@, parameters@),
{
    let function = Object::new().with("name", Json::text(name)).with(
        "description",
        description,
    ).with("parameters", parameters);
    Json::Object(
        Object::new().with("type", Json::text("function")).with("function", Json::Object(function)),
    )
}

/// A schema with a type and a description.
fn described(kind: &str, description: &str) -> (r: Json)
    ensures
        r@ == Tree::Object(
            map!["type"@ => Tree::Str(kind@), "description"@ => Tree::Str(description@)],
        ),
{
    Json::Object(
        Object::new().with("type", Json::text(kind)).with("description", Json::text(description)),
    )
}

/// The schema of one action.
fn make_action_variant(func: &Json) -> (r: Json)
    ensures
        r@ == action_variant(func@),
{
    let action = match tool_name_from_value(func) {
        Some(n) => n,
        None => "unknown".to_owned(),
    };
    let params: Option<&Object> = match func.get("parameters") {
        Some(p) => p.as_object(),
        None => None,
    };
    let mut properties = match params {
        Some(p) => match p.get("properties") {
            Some(Json::Object(own)) => own.clone(),
            _ => Object::new(),
        },
        None => Object::new(),
    };
    properties.insert(
        "action",
        Json::Object(
            Object::new().with("type", Json::text("string")).with(
                "enum",
                list_of(Json::text(action.as_str())),
            ),
        ),
    );
    let empty: Vec<Json> = Vec::new();
    let own_required: &Vec<Json> = match params {
        Some(p) => match p.get_array("required") {
            Some(v) => v,
            None => &empty,
        },
        None => &empty,
    };
    assert(trees(empty@) =~= Seq::<Tree>::empty());
    let mut required: Vec<Json> = Vec::new();
    assert(trees(required@) =~= Seq::<Tree>::empty());
    let action_text = Json::text("action");
    proof {
        let list = trees(own_required@);
        assert(has_equal(list, action_text@) == list.contains(action_text@));
    }
    if !in_values(own_required, &action_text) {
        required.push(action_text);
        assert(trees(required@) =~= seq![Tree::Str("action"@)]);
    }
    let ghost start = trees(required@);
    crate::json::append_copies(&mut required, own_required);
    assert(start.len() == 0 ==> start + trees(own_required@) =~= trees(own_required@));
    let mut variant = Object::new().with("type", Json::text("object")).with(
        "properties",
        Json::Object(properties),
    ).with("required", Json::Array(required));
    if let Some(p) = params {
        if let Some(ap) = p.get("additionalProperties") {
            variant.insert("additionalProperties", ap.clone());
        }
    }
    Json::Object(variant)
}

/// The functions among the tools of a namespace, with their names, in order.
pub fn collect_function_children(children: &Vec<Json>) -> (r: (Vec<Json>, Vec<String>))
    ensures
        (trees(r.0@), texts(r.1@)) == function_children(trees(children@)),
        r.0@.len() == r.1@.len(),
{
    let mut sub_tools: Vec<Json> = Vec::new();
    let mut action_names: Vec<String> = Vec::new();
    let mut i: usize = 0;
    assert(trees(sub_tools@) =~= Seq::<Tree>::empty());
    assert(texts(action_names@) =~= Seq::<Seq<char>>::empty());
    while i < children.len()
        invariant
            i <= children@.len(),
            sub_tools@.len() == action_names@.len(),
            (trees(sub_tools@), texts(action_names@)) == function_children(
                trees(children@).take(i as int),
            ),
        decreases children.len() - i,
    {
        assert(trees(children@).take(i as int + 1).drop_last() =~= trees(children@).take(i as int));
        assert(trees(children@).take(i as int + 1).last() == children@[i as int]@);
        let child = &children[i];
        let is_function = match child.get_str("type") {
            Some(t) => same(t, "function"),
            None => false,
        };
        if is_function {
            let func = function_part(child);
            if let Some(name) = tool_name_from_value(func) {
                sub_tools.push(func.clone());
                action_names.push(name);
            }
        }
        i += 1;
    }
    assert(trees(children@).take(i as int) =~= trees(children@));
    (sub_tools, action_names)
}

/// The schema of a namespace as one variant per action.
pub fn build_oneof_schema(sub_tools: &Vec<Json>) -> (r: Json)
    ensures
        r@ == oneof_schema(trees(sub_tools@)),
{
    let mut variants: Vec<Json> = Vec::new();
    let ghost all = trees(sub_tools@).map_values(|f: Tree| action_variant(f));
    let mut i: usize = 0;
    while i < sub_tools.len()
        invariant
            i <= sub_tools@.len(),
            all == trees(sub_tools@).map_values(|f: Tree| action_variant(f)),
            i == variants@.len(),
            trees(variants@) == all.take(i as int),
        decreases sub_tools.len() - i,
    {
        variants.push(make_action_variant(&sub_tools[i]));
        i += 1;
        assert(trees(variants@) =~= all.take(i as int));
    }
    assert(all.take(i as int) =~= all);
    Json::Object(
        Object::new().with("type", Json::text("object")).with("oneOf", Json::Array(variants)),
    )
}

/// The schema of a namespace as one list of actions over merged parameters.
pub fn build_anyof_schema(sub_tools: &Vec<Json>, action_names: &Vec<String>) -> (r: Json)
    ensures
        r@ == anyof_schema(trees(sub_tools@), texts(action_names@)),
{
    let mut variants: Vec<Json> = Vec::new();
    let ghost all = trees(sub_tools@).map_values(|f: Tree| parameters_of(f));
    let mut i: usize = 0;
    while i < sub_tools.len()
        invariant
            i <= sub_tools@.len(),
            all == trees(sub_tools@).map_values(|f: Tree| parameters_of(f)),
            i == variants@.len(),
            trees(variants@) == all.take(i as int),
        decreases sub_tools.len() - i,
    {
        variants.push(parameters_part(&sub_tools[i]));
        i += 1;
        assert(trees(variants@) =~= all.take(i as int));
    }
    assert(all.take(i as int) =~= all);
    let params = if variants.len() == 0 {
        Json::Object(Object::new())
    } else if variants.len() == 1 {
        assert(all[0] == trees(variants@)[0]);
        variants[0].clone()
    } else {
        object_of("anyOf", Json::Array(variants))
    };
    let action = Json::Object(
        Object::new().with("type", Json::text("string")).with("enum", list_of_texts(action_names)),
    );
    let properties = Object::new().with("action", action).with("params", params);
    Json::Object(
        Object::new().with("type", Json::text("object")).with(
            "properties",
            Json::Object(properties),
        ).with("required", list_of(Json::text("action"))),
    )
}

fn make_bare_custom(name: &str) -> (r: Json)
    ensures
        r@ == bare_custom(name@),
{
    Json::Object(Object::new().with("type", Json::text("custom")).with("name", Json::text(name)))
}

impl BridgeToolContext {
    /// Register a declared function, in a namespace or not.
    pub fn add_function_tool(&mut self, tool: &Json, namespace: Option<&str>)
        ensures
            final(self)@ == old(self)@.with_function(tool@, opt_text(namespace)),
    {
        let function = function_part(tool);
        if let Some(name) = tool_name_from_value(function) {
            let chat_name = self.chat_name_for_function(name.as_str(), namespace);
            let description = match function.get("description") {
                Some(d) => d.clone(),
                None => Json::Null,
            };
            let entry = make_chat_tool(chat_name.as_str(), description, parameters_part(function));
            let spec = ToolSpec::function(name, own_opt(namespace));
            self.register_chat_tool(chat_name.as_str(), spec, entry);
        }
    }

    /// Register a declared custom tool.
    pub fn add_custom_tool(&mut self, tool: &Json)
        ensures
            final(self)@ == old(self)@.with_custom(tool@),
    {
        if let Some(name) = tool_name_from_value(tool) {
            let mut description = "Custom Codex tool.".to_owned();
            if let Some(d) = tool.get_str("description") {
                if !d.is_empty() {
                    description = d.to_owned();
                }
            }
            let input = described("string", "Input to pass to the custom Codex tool.");
            let parameters = Json::Object(
                Object::new().with("type", Json::text("object")).with(
                    "properties",
                    object_of("input", input),
                ).with("required", list_of(Json::text("input"))),
            );
            let entry = make_chat_tool(
                name.as_str(),
                Json::text(description.as_str()),
                parameters,
            );
            let spec = ToolSpec::custom(name.clone());
            self.register_chat_tool(name.as_str(), spec, entry);
        }
    }

    /// Register a custom tool by its name.
    pub fn add_custom_tool_name(&mut self, name: &str)
        ensures
            final(self)@ == old(self)@.with_custom(bare_custom(name@)),
    {
        self.add_custom_tool(&make_bare_custom(name));
    }

    /// Register the tool search.
    pub fn add_tool_search_tool(&mut self)
        ensures
            final(self)@ == old(self)@.with_search(),
    {
        let properties = Object::new().with(
            "query",
            described("string", "Search query for tools or connectors to load."),
        ).with("limit", described("integer", "Maximum number of tool groups to return."));
        let parameters = Json::Object(
            Object::new().with("type", Json::text("object")).with(
                "properties",
                Json::Object(properties),
            ).with("required", list_of(Json::text("query"))),
        );
        let entry = make_chat_tool(
            "tool_search",
            Json::text(
                "Search and load Codex tools, plugins, connectors, and MCP namespaces for the current task.",
            ),
            parameters,
        );
        self.register_chat_tool("tool_search", ToolSpec::tool_search(), entry);
    }

    /// Register a declared namespace: its functions each by themselves, or all
    /// of them as one tool.
    pub fn add_namespace_tool(&mut self, namespace_tool: &Json)
        ensures
            final(self)@ == old(self)@.with_namespace(namespace_tool@),
    {
        let declared = match namespace_tool.get("tools") {
            Some(t) => Some(t),
            None => namespace_tool.get("children"),
        };
        let children: Option<&Vec<Json>> = match declared {
            Some(t) => t.as_array(),
            None => None,
        };
        let (namespace, children) = match (namespace_tool.get_str("name"), children) {
            (Some(n), Some(c)) => (n, c),
            _ => {
                return;
            },
        };
        if is_blank(namespace) {
            return;
        }
        self.registered_namespaces.push(namespace.to_owned());
        let ghost known = Registry {
            namespaces: old(self)@.namespaces.push(namespace@),
            ..old(self)@
        };
        assert(self@ =~= known);
        let strategy = match namespace_tool.get_str("strategy") {
            Some(s) => {
                if s.is_empty() {
                    NamespaceStrategy::Flat
                } else {
                    NamespaceStrategy::from_str_or_flat(lowered(s).as_str())
                }
            },
            None => NamespaceStrategy::Flat,
        };
        if strategy.is_nested() {
            self.add_nested_namespace_tool(namespace, children, strategy);
            return;
        }
        let mut i: usize = 0;
        assert(trees(children@).take(0) =~= Seq::<Tree>::empty());
        while i < children.len()
            invariant
                i <= children@.len(),
                self@ == known.with_children(trees(children@).take(i as int), namespace@),
            decreases children.len() - i,
        {
            assert(trees(children@).take(i as int + 1).drop_last() =~= trees(children@).take(
                i as int,
            ));
            assert(trees(children@).take(i as int + 1).last() == children@[i as int]@);
            let is_function = match children[i].get_str("type") {
                Some(t) => same(t, "function"),
                None => false,
            };
            if is_function {
                self.add_function_tool(&children[i], Some(namespace));
            }
            i += 1;
        }
        assert(trees(children@).take(i as int) =~= trees(children@));
    }

    /// Register one tool for a whole namespace.
    fn add_nested_namespace_tool(
        &mut self,
        namespace: &str,
        children: &Vec<Json>,
        strategy: NamespaceStrategy,
    )
        ensures
            final(self)@ == old(self)@.with_nested(namespace@, trees(children@), strategy),
    {
        let (sub_tools, action_names) = collect_function_children(children);
        if sub_tools.len() == 0 {
            assert(trees(sub_tools@).len() == 0);
            return;
        }
        assert(trees(sub_tools@).len() > 0);
        let chat_name = flatten_namespace_tool_name(namespace, namespace);
        let schema = if strategy == NamespaceStrategy::NestedOneof {
            build_oneof_schema(&sub_tools)
        } else {
            build_anyof_schema(&sub_tools, &action_names)
        };
        let mut description = cat3("Namespace tool: ", namespace, " (strategy: ");
        description.push_str(strategy.as_str());
        description.push_str(")");
        let entry = make_chat_tool(
            chat_name.as_str(),
            Json::text(description.as_str()),
            schema,
        );
        let spec = ToolSpec {
            kind: ToolKind::Namespace,
            name: namespace.to_owned(),
            namespace: Some(namespace.to_owned()),
            namespace_strategy: Some(strategy),
            actions: Some(action_names),
        };
        self.register_chat_tool(chat_name.as_str(), spec, entry);
    }

    /// Send a tool upstream as it is, once.
    fn add_hosted_tool(&mut self, tool: &Json)
        ensures
            final(self)@ == old(self)@.with_hosted(tool@),
    {
        if !in_values(&self.chat_tools, tool) {
            self.chat_tools.push(tool.clone());
        }
        assert(self@ =~= old(self)@.with_hosted(tool@));
    }

    /// Register a declared tool by its type.
    pub fn add_response_tool(&mut self, tool: &Json, policy: UnsupportedToolPolicy)
        ensures
            final(self)@ == old(self)@.with_declared(tool@, policy),
    {
        match tool {
            Json::Str(name) => {
                if !is_blank(name.as_str()) {
                    self.add_custom_tool_name(name.as_str());
                }
            },
            Json::Object(obj) => {
                let tool_type = match obj.get_str("type") {
                    Some(t) => t,
                    None => "",
                };
                proof {
                    reveal_strlit("");
                    assert(""@ =~= Seq::<char>::empty());
                }
                if is_hosted_tool_type(tool_type) {
                    match policy {
                        UnsupportedToolPolicy::Passthrough => self.add_hosted_tool(tool),
                        UnsupportedToolPolicy::Ignore
                        | UnsupportedToolPolicy::Reject
                        | UnsupportedToolPolicy::Error => {},
                    }
                } else if same(tool_type, "function") {
                    self.add_function_tool(tool, None)
                } else if same(tool_type, "custom") {
                    self.add_custom_tool(tool)
                } else if same(tool_type, "tool_search") {
                    self.add_tool_search_tool()
                } else if same(tool_type, "namespace") {
                    self.add_namespace_tool(tool)
                }
            },
            _ => {},
        }
    }

    /// Register a list of declared tools.
    fn add_response_tools(&mut self, tools: &Vec<Json>, policy: UnsupportedToolPolicy)
        ensures
            final(self)@ == old(self)@.with_all_declared(trees(tools@), policy),
    {
        let ghost start = self@;
        let mut i: usize = 0;
        assert(trees(tools@).take(0) =~= Seq::<Tree>::empty());
        while i < tools.len()
            invariant
                i <= tools@.len(),
                self@ == start.with_all_declared(trees(tools@).take(i as int), policy),
            decreases tools.len() - i,
        {
            assert(trees(tools@).take(i as int + 1).drop_last() =~= trees(tools@).take(i as int));
            assert(trees(tools@).take(i as int + 1).last() == tools@[i as int]@);
            self.add_response_tool(&tools[i], policy);
            i += 1;
        }
        assert(trees(tools@).take(i as int) =~= trees(tools@));
    }

    /// Fold another registry's tools into this one.
    pub fn merge(&mut self, other: &BridgeToolContext)
        ensures
            final(self)@ == old(self)@.merged(other@),
    {
        let ghost start = self@;
        let ghost all = other@.chat_tools;
        let mut i: usize = 0;
        assert(all.take(0) =~= Seq::<Tree>::empty());
        while i < other.chat_tools.len()
            invariant
                i <= other.chat_tools@.len(),
                all == other@.chat_tools,
                all.len() == other.chat_tools@.len(),
                self@ == start.with_merged_tools(other@, all.take(i as int)),
            decreases other.chat_tools.len() - i,
        {
            assert(all.take(i as int + 1).drop_last() =~= all.take(i as int));
            assert(all.take(i as int + 1).last() == other.chat_tools@[i as int]@);
            let entry = &other.chat_tools[i];
            let is_hosted = match entry.get_str("type") {
                Some(t) => is_hosted_tool_type(t),
                None => false,
            };
            if is_hosted {
                self.add_hosted_tool(entry);
            } else {
                let name: Option<&str> = match entry.get("function") {
                    Some(f) => match f.as_object() {
                        Some(f) => filled_text(f.get_str("name")),
                        None => None,
                    },
                    None => None,
                };
                if let Some(name) = name {
                    if let Some(spec) = other.lookup_chat_name(Some(name)) {
                        self.register_chat_tool(name, spec.clone(), entry.clone());
                    }
                }
            }
            i += 1;
        }
        assert(all.take(i as int) =~= all);
        if other.tool_search_enabled() {
            self.add_tool_search_tool();
        }
    }
}

impl Clone for BridgeToolContext {
    fn clone(&self) -> (r: BridgeToolContext)
        ensures
            r@ == self@,
    {
        let mut tools: Vec<(String, ToolSpec)> = Vec::new();
        let mut i: usize = 0;
        while i < self.tools.len()
            invariant
                i <= self.tools@.len(),
                i == tools@.len(),
                tool_models(tools@) == tool_models(self.tools@).take(i as int),
            decreases self.tools.len() - i,
        {
            tools.push((self.tools[i].0.clone(), self.tools[i].1.clone()));
            i += 1;
            assert(tool_models(tools@) =~= tool_models(self.tools@).take(i as int));
        }
        assert(tool_models(tools@) =~= tool_models(self.tools@));
        BridgeToolContext {
            tools,
            chat_tools: crate::json::clone_values(&self.chat_tools),
            registered_namespaces: clone_texts(&self.registered_namespaces),
        }
    }
}

/// A text as an input item.
pub open spec fn text_item(s: Seq<char>) -> Tree {
    Tree::Object(map!["type"@ => Tree::Str("input_text"@), "text"@ => Tree::Str(s)])
}

/// An input item, with a bare text as a text item.
pub open spec fn lifted(item: Tree) -> Tree {
    match item {
        Tree::Str(s) => text_item(s),
        _ => item,
    }
}

/// The input items of a request.
pub open spec fn input_items(input: Option<Tree>) -> Seq<Tree> {
    match input {
        None | Some(Tree::Null) => Seq::empty(),
        Some(Tree::Array(items)) => items.map_values(|item: Tree| lifted(item)),
        Some(other) => seq![lifted(other)],
    }
}

fn lifted_item(item: &Json) -> (r: Json)
    ensures
        r@ == lifted(item@),
{
    match item {
        Json::Str(s) => Json::Object(
            Object::new().with("type", Json::text("input_text")).with(
                "text",
                Json::text(s.as_str()),
            ),
        ),
        other => other.clone(),
    }
}

/// The input items of a request, with bare texts as text items.
pub fn iter_request_input_items(input: Option<&Json>) -> (r: Vec<Json>)
    ensures
        trees(r@) == input_items(opt_tree(input)),
{
    let mut out: Vec<Json> = Vec::new();
    match input {
        None | Some(Json::Null) => {
            assert(trees(out@) =~= Seq::<Tree>::empty());
        },
        Some(Json::Array(items)) => {
            let ghost all = trees(items@).map_values(|item: Tree| lifted(item));
            let mut i: usize = 0;
            while i < items.len()
                invariant
                    i <= items@.len(),
                    i == out@.len(),
                    all == trees(items@).map_values(|item: Tree| lifted(item)),
                    trees(out@) == all.take(i as int),
                decreases items.len() - i,
            {
                out.push(lifted_item(&items[i]));
                i += 1;
                assert(trees(out@) =~= all.take(i as int));
            }
            assert(all.take(i as int) =~= all);
        },
        Some(other) => {
            out.push(lifted_item(other));
            assert(trees(out@) =~= seq![lifted(other@)]);
        },
    }
    out
}

impl Registry {
    /// The registry with the tools that a tool search found, wherever they stand
    /// in nested lists.
    pub open spec fn with_found(self, v: Tree, policy: UnsupportedToolPolicy) -> Registry
        decreases v, 0nat,
    {
        match v {
            Tree::Array(items) => self.with_all_found(items, items.len(), policy),
            Tree::Object(m) => if text_at(m, "type"@) == Some("tool_search_output"@) {
                match items_in(member(m, "tools"@)) {
                    Some(tools) => self.with_all_declared(tools, policy),
                    None => self,
                }
            } else {
                self
            },
            _ => self,
        }
    }

    /// The registry with the tools found in the first `n` of `items`.
    pub open spec fn with_all_found(
        self,
        items: Seq<Tree>,
        n: nat,
        policy: UnsupportedToolPolicy,
    ) -> Registry
        decreases items, n,
    {
        if n == 0 || n > items.len() {
            self
        } else {
            self.with_all_found(items, (n - 1) as nat, policy).with_found(items[n - 1], policy)
        }
    }

    /// The registry with the tools that an input item names or carries.
    pub open spec fn with_item(self, item: Tree, policy: UnsupportedToolPolicy) -> Registry {
        let called = if text_in(item.at("type"@)) == Some("custom_tool_call"@) {
            filled(text_in(item.at("name"@)))
        } else {
            None
        };
        let named = match called {
            Some(name) => self.with_custom(bare_custom(name)),
            None => self,
        };
        named.with_found(item, policy)
    }

    /// The registry with the tools of a list of input items.
    pub open spec fn with_items(self, items: Seq<Tree>, policy: UnsupportedToolPolicy) -> Registry
        decreases items.len(),
    {
        if items.len() == 0 {
            self
        } else {
            self.with_items(items.drop_last(), policy).with_item(items.last(), policy)
        }
    }

    /// The registry of a request with the given tools and input.
    pub open spec fn of_request(
        tools: Option<Tree>,
        input: Option<Tree>,
        policy: UnsupportedToolPolicy,
    ) -> Registry {
        let declared = match items_in(tools) {
            Some(t) => Registry::empty().with_all_declared(t, policy),
            None => Registry::empty(),
        };
        declared.with_items(input_items(input), policy)
    }
}

/// Register the tools that a tool search found.
fn collect_tool_search_output_tools(
    context: &mut BridgeToolContext,
    value: &Json,
    policy: UnsupportedToolPolicy,
)
    ensures
        final(context)@ == old(context)@.with_found(value@, policy),
    decreases value,
{
    match value {
        Json::Array(items) => {
            let ghost start = context@;
            let mut i: usize = 0;
            while i < items.len()
                invariant
                    i <= items@.len(),
                    *value == Json::Array(*items),
                    context@ == start.with_all_found(trees(items@), i as nat, policy),
                decreases items.len() - i,
            {
                assert(decreases_to!(*value => value->Array_0@[i as int]));
                collect_tool_search_output_tools(context, &items[i], policy);
                assert(trees(items@)[i as int] == items@[i as int]@);
                i += 1;
            }
        },
        Json::Object(obj) => {
            let found = match obj.get_str("type") {
                Some(t) => same(t, "tool_search_output"),
                None => false,
            };
            if found {
                if let Some(tools) = obj.get_array("tools") {
                    context.add_response_tools(tools, policy);
                }
            }
        },
        _ => {},
    }
}

/// Build the registry of a request: every declared tool, then the custom tools
/// that the input calls and the tools that a tool search found.
pub fn build_tool_context_from_request(
    payload: &ResponsesRequest,
    policy: UnsupportedToolPolicy,
) -> (r: BridgeToolContext)
    ensures
        r@ == Registry::of_request(
            crate::json::opt_value(payload.tools),
            crate::json::opt_value(payload.input),
            policy,
        ),
{
    let mut context = BridgeToolContext::new();
    if let Some(tools) = &payload.tools {
        if let Some(list) = tools.as_array() {
            context.add_response_tools(list, policy);
        }
    }
    let ghost declared = context@;
    let items = match &payload.input {
        Some(input) => iter_request_input_items(Some(input)),
        None => iter_request_input_items(None),
    };
    let ghost all = trees(items@);
    let mut i: usize = 0;
    assert(all.take(0) =~= Seq::<Tree>::empty());
    while i < items.len()
        invariant
            i <= items@.len(),
            all == trees(items@),
            context@ == declared.with_items(all.take(i as int), policy),
        decreases items.len() - i,
    {
        assert(all.take(i as int + 1).drop_last() =~= all.take(i as int));
        assert(all.take(i as int + 1).last() == items@[i as int]@);
        let item = &items[i];
        let called = match item.get_str("type") {
            Some(t) => same(t, "custom_tool_call"),
            None => false,
        };
        if called {
            if let Some(name) = filled_text(item.get_str("name")) {
                context.add_custom_tool_name(name);
            }
        }
        collect_tool_search_output_tools(&mut context, item, policy);
        i += 1;
    }
    assert(all.take(i as int) =~= all);
    context
}

proof fn lemma_function_distinct(r: Registry, tool: Tree, namespace: Option<Seq<char>>)
    requires
        r.distinct(),
    ensures
        r.with_function(tool, namespace).distinct(),
{
    let function = function_source(tool);
    if let Some(name) = tool_name(function) {
        let chat_name = r.chat_name(name, namespace);
        registration_keeps_names_distinct(
            r,
            chat_name,
            Origin::function(name, namespace),
            chat_tool(chat_name, description_of(function), parameters_of(function)),
        );
    }
}

proof fn lemma_children_distinct(r: Registry, children: Seq<Tree>, namespace: Seq<char>)
    requires
        r.distinct(),
    ensures
        r.with_children(children, namespace).distinct(),
    decreases children.len(),
{
    if children.len() > 0 {
        lemma_children_distinct(r, children.drop_last(), namespace);
        lemma_function_distinct(
            r.with_children(children.drop_last(), namespace),
            children.last(),
            Some(namespace),
        );
    }
}

proof fn lemma_custom_distinct(r: Registry, tool: Tree)
    requires
        r.distinct(),
    ensures
        r.with_custom(tool).distinct(),
{
    if let Some(name) = tool_name(tool) {
        registration_keeps_names_distinct(
            r,
            name,
            Origin::custom(name),
            custom_chat_tool(name, tool),
        );
    }
}

proof fn lemma_namespace_distinct(r: Registry, tool: Tree)
    requires
        r.distinct(),
    ensures
        r.with_namespace(tool).distinct(),
{
    if let (Some(namespace), Some(children)) = (
        text_in(tool.at("name"@)),
        namespace_children(tool),
    ) {
        let known = Registry { namespaces: r.namespaces.push(namespace), ..r };
        assert(known.distinct());
        let strategy = namespace_strategy(tool);
        if strategy.nested() {
            let (functions, names) = function_children(children);
            let chat_name = flattened(namespace, namespace);
            let schema = if strategy == NamespaceStrategy::NestedOneof {
                oneof_schema(functions)
            } else {
                anyof_schema(functions, names)
            };
            registration_keeps_names_distinct(
                known,
                chat_name,
                Origin {
                    kind: ToolKind::Namespace,
                    name: namespace,
                    namespace: Some(namespace),
                    strategy: Some(strategy),
                    actions: Some(names),
                },
                chat_tool(
                    chat_name,
                    Tree::Str(
                        "Namespace tool: "@ + namespace + " (strategy: "@ + strategy.label() + ")"@,
                    ),
                    schema,
                ),
            );
        } else {
            lemma_children_distinct(known, children, namespace);
        }
    }
}

proof fn lemma_declared_distinct(r: Registry, tool: Tree, policy: UnsupportedToolPolicy)
    requires
        r.distinct(),
    ensures
        r.with_declared(tool, policy).distinct(),
{
    match tool {
        Tree::Str(s) => lemma_custom_distinct(r, bare_custom(s)),
        Tree::Object(_) => {
            lemma_function_distinct(r, tool, None);
            lemma_custom_distinct(r, tool);
            lemma_namespace_distinct(r, tool);
            registration_keeps_names_distinct(
                r,
                "tool_search"@,
                Origin::tool_search(),
                search_chat_tool(),
            );
        },
        _ => {},
    }
}

proof fn lemma_all_declared_distinct(r: Registry, tools: Seq<Tree>, policy: UnsupportedToolPolicy)
    requires
        r.distinct(),
    ensures
        r.with_all_declared(tools, policy).distinct(),
    decreases tools.len(),
{
    if tools.len() > 0 {
        lemma_all_declared_distinct(r, tools.drop_last(), policy);
        lemma_declared_distinct(
            r.with_all_declared(tools.drop_last(), policy),
            tools.last(),
            policy,
        );
    }
}

proof fn lemma_found_distinct(r: Registry, v: Tree, policy: UnsupportedToolPolicy)
    requires
        r.distinct(),
    ensures
        r.with_found(v, policy).distinct(),
    decreases v, 0nat,
{
    match v {
        Tree::Array(items) => lemma_all_found_distinct(r, items, items.len(), policy),
        Tree::Object(m) => {
            if let Some(tools) = items_in(member(m, "tools"@)) {
                lemma_all_declared_distinct(r, tools, policy);
            }
        },
        _ => {},
    }
}

proof fn lemma_all_found_distinct(
    r: Registry,
    items: Seq<Tree>,
    n: nat,
    policy: UnsupportedToolPolicy,
)
    requires
        r.distinct(),
    ensures
        r.with_all_found(items, n, policy).distinct(),
    decreases items, n,
{
    if 0 < n <= items.len() {
        lemma_all_found_distinct(r, items, (n - 1) as nat, policy);
        lemma_found_distinct(
            r.with_all_found(items, (n - 1) as nat, policy),
            items[n - 1],
            policy,
        );
    }
}

proof fn lemma_items_distinct(r: Registry, items: Seq<Tree>, policy: UnsupportedToolPolicy)
    requires
        r.distinct(),
    ensures
        r.with_items(items, policy).distinct(),
    decreases items.len(),
{
    if items.len() > 0 {
        lemma_items_distinct(r, items.drop_last(), policy);
        let before = r.with_items(items.drop_last(), policy);
        let item = items.last();
        if let Some(name) = filled(text_in(item.at("name"@))) {
            lemma_custom_distinct(before, bare_custom(name));
            lemma_found_distinct(before.with_custom(bare_custom(name)), item, policy);
        }
        lemma_found_distinct(before, item, policy);
    }
}

/// However often a request declares a tool, it is registered once under its
/// Chat name.
pub proof fn request_tools_have_distinct_names(
    tools: Option<Tree>,
    input: Option<Tree>,
    policy: UnsupportedToolPolicy,
)
    ensures
        Registry::of_request(tools, input, policy).distinct(),
{
    let empty = Registry::empty();
    if let Some(t) = items_in(tools) {
        lemma_all_declared_distinct(empty, t, policy);
        lemma_items_distinct(empty.with_all_declared(t, policy), input_items(input), policy);
    }
    lemma_items_distinct(empty, input_items(input), policy);
}

proof fn lemma_merged_tools_distinct(r: Registry, other: Registry, tools: Seq<Tree>)
    requires
        r.distinct(),
    ensures
        r.with_merged_tools(other, tools).distinct(),
    decreases tools.len(),
{
    if tools.len() > 0 {
        lemma_merged_tools_distinct(r, other, tools.drop_last());
        let before = r.with_merged_tools(other, tools.drop_last());
        let tool = tools.last();
        if let Some(name) = filled(
            text_in(opt_member(members_in(tool.at("function"@)), "name"@)),
        ) {
            if let Some(origin) = other.origin(name) {
                registration_keeps_names_distinct(before, name, origin, tool);
            }
        }
    }
}

/// Merging registries keeps every Chat name registered at most once.
pub proof fn merging_keeps_names_distinct(r: Registry, other: Registry)
    requires
        r.distinct(),
    ensures
        r.merged(other).distinct(),
{
    lemma_merged_tools_distinct(r, other, other.chat_tools);
    registration_keeps_names_distinct(
        r.with_merged_tools(other, other.chat_tools),
        "tool_search"@,
        Origin::tool_search(),
        search_chat_tool(),
    );
}

proof fn lemma_search_persists(r: Registry, i: int, chat_name: Seq<char>, o: Origin, tool: Tree)
    requires
        0 <= i < r.tools.len(),
    ensures
        i < r.with_tool(chat_name, o, tool).tools.len(),
        r.with_tool(chat_name, o, tool).tools[i] == r.tools[i],
{
}

/// Merging keeps the tools that were registered before, under their names.
pub proof fn merging_keeps_registered_tools(r: Registry, other: Registry, i: int)
    requires
        0 <= i < r.tools.len(),
    ensures
        i < r.merged(other).tools.len(),
        r.merged(other).tools[i] == r.tools[i],
{
    lemma_merged_tools_keep(r, other, other.chat_tools, i);
    lemma_search_persists(
        r.with_merged_tools(other, other.chat_tools),
        i,
        "tool_search"@,
        Origin::tool_search(),
        search_chat_tool(),
    );
}

proof fn lemma_merged_tools_keep(r: Registry, other: Registry, tools: Seq<Tree>, i: int)
    requires
        0 <= i < r.tools.len(),
    ensures
        i < r.with_merged_tools(other, tools).tools.len(),
        r.with_merged_tools(other, tools).tools[i] == r.tools[i],
    decreases tools.len(),
{
    if tools.len() > 0 {
        lemma_merged_tools_keep(r, other, tools.drop_last(), i);
        let before = r.with_merged_tools(other, tools.drop_last());
        let tool = tools.last();
        if let Some(name) = filled(
            text_in(opt_member(members_in(tool.at("function"@)), "name"@)),
        ) {
            if let Some(origin) = other.origin(name) {
                lemma_search_persists(before, i, name, origin, tool);
            }
        }
    }
}

/// The input of a custom tool call, by what its argument text denotes: the text
/// under `input`, or else the arguments as they are.
pub open spec fn custom_input(arguments: Seq<char>, denoted: Option<Tree>) -> Seq<char> {
    if trim(arguments).len() == 0 {
        Seq::empty()
    } else {
        match text_in(opt_member(members_in(denoted), "input"@)) {
            Some(s) => s,
            None => arguments,
        }
    }
}

/// The input of a custom tool call, by what its argument text denotes.
pub fn custom_input_from_denoted(arguments: &str, denoted: Option<Json>) -> (r: String)
    ensures
        r@ == custom_input(arguments@, crate::json::opt_value(denoted)),
{
    if is_blank(arguments) {
        return String::new();
    }
    match denoted {
        Some(Json::Object(m)) => match m.get_str("input") {
            Some(s) => s.to_owned(),
            None => arguments.to_owned(),
        },
        _ => arguments.to_owned(),
    }
}

/// The input of a custom tool call with the given arguments.
pub fn custom_tool_input_from_chat_arguments(arguments: &str) -> (r: String)
    ensures
        r@ == custom_input(arguments@, parsed(arguments@)),
{
    custom_input_from_denoted(arguments, Json::parse(arguments))
}

/// The arguments of a tool search, by what their text denotes: an object, or
/// else the text as its query.
pub open spec fn search_arguments(arguments: Seq<char>, denoted: Option<Tree>) -> Tree {
    if trim(arguments).len() == 0 {
        Tree::Object(Map::empty())
    } else {
        match members_in(denoted) {
            Some(m) => Tree::Object(m),
            None => Tree::Object(map!["query"@ => Tree::Str(arguments)]),
        }
    }
}

/// The arguments of a tool search, by what their text denotes.
pub fn search_arguments_from_denoted(arguments: &str, denoted: Option<Json>) -> (r: Json)
    ensures
        r@ == search_arguments(arguments@, crate::json::opt_value(denoted)),
{
    if is_blank(arguments) {
        return Json::Object(Object::new());
    }
    match denoted {
        Some(Json::Object(m)) => Json::Object(m),
        _ => object_of("query", Json::text(arguments)),
    }
}

/// The arguments of a tool search as an object.
pub fn parse_tool_arguments_object(arguments: &str) -> (r: Json)
    ensures
        r@ == search_arguments(arguments@, parsed(arguments@)),
{
    search_arguments_from_denoted(arguments, Json::parse(arguments))
}

/// The value of a hexadecimal digit.
pub open spec fn hex_value(c: char) -> Option<int> {
    if '0' <= c <= '9' {
        Some(c as int - '0' as int)
    } else if 'a' <= c <= 'f' {
        Some(c as int - 'a' as int + 10)
    } else if 'A' <= c <= 'F' {
        Some(c as int - 'A' as int + 10)
    } else {
        None
    }
}

/// The value of hexadecimal digits, if they all are.
pub open spec fn hex_number(s: Seq<char>) -> Option<int>
    decreases s.len(),
{
    if s.len() == 0 {
        Some(0)
    } else {
        match (hex_number(s.drop_last()), hex_value(s.last())) {
            (Some(n), Some(d)) => Some(16 * n + d),
            _ => None,
        }
    }
}

/// Whether a code is the first half of a pair that stands for one character.
pub open spec fn is_high(n: int) -> bool {
    0xd800 <= n <= 0xdbff
}

/// Whether a code is the second half of a pair that stands for one character.
pub open spec fn is_low(n: int) -> bool {
    0xdc00 <= n <= 0xdfff
}

/// The number that the four characters of an escape give: four hexadecimal digits, or a
/// plus sign and three of them.
pub open spec fn code_number(s: Seq<char>) -> Option<int> {
    if s.len() > 0 && s[0] == '+' {
        hex_number(s.skip(1))
    } else {
        hex_number(s)
    }
}

/// The character that a `\u` escape at the front of a JSON string stands for, and how
/// long the escape is: one number for a character, or two such escapes for the two
/// halves of one. None where the escape is cut short or is none.
pub open spec fn code_escape(s: Seq<char>) -> Option<(char, int)> {
    if s.len() < 6 {
        None
    } else {
        match code_number(s.subrange(2, 6)) {
            Some(n) => if is_high(n) {
                if s.len() >= 12 && s[6] == '\\' && s[7] == 'u' {
                    match code_number(s.subrange(8, 12)) {
                        Some(m) => if is_low(m) {
                            Some(((0x10000 + 0x400 * (n - 0xd800) + (m - 0xdc00)) as char, 12))
                        } else {
                            None
                        },
                        None => None,
                    }
                } else {
                    None
                }
            } else if is_low(n) {
                None
            } else {
                Some((n as char, 6))
            },
            None => None,
        }
    }
}

/// The character of a one-letter escape.
pub open spec fn simple_escape(c: char) -> Option<char> {
    if c == '"' || c == '\\' || c == '/' {
        Some(c)
    } else if c == 'b' {
        Some('\u{8}')
    } else if c == 'f' {
        Some('\u{c}')
    } else if c == 'n' {
        Some('\n')
    } else if c == 'r' {
        Some('\r')
    } else if c == 't' {
        Some('\t')
    } else {
        None
    }
}

/// What a JSON string holds as far as it is there: up to its closing quote, or
/// up to where it is cut short or cannot be read.
pub open spec fn string_prefix(s: Seq<char>) -> Seq<char>
    decreases s.len(),
{
    if s.len() == 0 || s[0] == '"' {
        Seq::empty()
    } else if s[0] != '\\' {
        seq![s[0]] + string_prefix(s.skip(1))
    } else if s.len() < 2 {
        Seq::empty()
    } else if s[1] == 'u' {
        match code_escape(s) {
            Some((c, n)) => seq![c] + string_prefix(s.skip(n)),
            None => Seq::empty(),
        }
    } else {
        match simple_escape(s[1]) {
            Some(c) => seq![c] + string_prefix(s.skip(2)),
            None => Seq::empty(),
        }
    }
}

/// The value of a hexadecimal digit.
pub fn digit_value(c: char) -> (r: Option<u32>)
    ensures
        match r {
            Some(n) => hex_value(c) == Some(n as int) && n < 16,
            None => hex_value(c) is None,
        },
{
    if '0' <= c && c <= '9' {
        Some(c as u32 - '0' as u32)
    } else if 'a' <= c && c <= 'f' {
        Some(c as u32 - 'a' as u32 + 10)
    } else if 'A' <= c && c <= 'F' {
        Some(c as u32 - 'A' as u32 + 10)
    } else {
        None
    }
}

/// `char::from_u32`: the character of a Unicode scalar value.
pub assume_specification[ char::from_u32 ](n: u32) -> (r: Option<char>)
    ensures
        r == (if n <= 0xd7ff || (0xe000 <= n && n <= 0x10ffff) {
            Some(n as char)
        } else {
            None
        }),
;

fn read_code_number(v: &Vec<char>, from: usize) -> (r: Option<u32>)
    requires
        from + 4 <= v@.len(),
    ensures
        match r {
            Some(n) => n < 65536 && code_number(v@.subrange(from as int, from + 4)) == Some(
                n as int,
            ),
            None => code_number(v@.subrange(from as int, from + 4)) is None,
        },
{
    let total: usize = v.len();
    let ghost code = v@.subrange(from as int, from + 4);
    let first: usize = if v[from] == '+' {
        from + 1
    } else {
        from
    };
    let count: usize = from + 4 - first;
    let ghost digits = v@.subrange(first as int, from + 4);
    assert(code[0] == v@[from as int]);
    assert(digits =~= if code[0] == '+' {
        code.skip(1)
    } else {
        code
    });
    let mut i: usize = 0;
    let mut n: u32 = 0;
    assert(digits.take(0) =~= Seq::<char>::empty());
    while i < count
        invariant
            i <= count <= 4,
            total == v@.len(),
            first + count == from + 4 <= total,
            digits == v@.subrange(first as int, from + 4),
            code_number(code) == hex_number(digits),
            code == v@.subrange(from as int, from + 4),
            hex_number(digits.take(i as int)) == Some(n as int),
            i == 0 ==> n == 0,
            i == 1 ==> n < 16,
            i == 2 ==> n < 256,
            i == 3 ==> n < 4096,
            n < 65536,
        decreases count - i,
    {
        assert(digits.take(i as int + 1).drop_last() =~= digits.take(i as int));
        assert(digits.take(i as int + 1).last() == v@[first + i]);
        match digit_value(v[first + i]) {
            Some(d) => {
                n = 16 * n + d;
            },
            None => {
                proof {
                    assert(hex_number(digits.take(i as int + 1)) is None);
                    lemma_hex_prefix(digits, i as int + 1);
                }
                return None;
            },
        }
        i += 1;
    }
    assert(digits.take(i as int) =~= digits);
    Some(n)
}

fn read_code_escape(v: &Vec<char>, at: usize) -> (r: Option<(char, usize)>)
    requires
        at <= v@.len(),
    ensures
        match r {
            Some((c, n)) => code_escape(v@.skip(at as int)) == Some((c, n as int)) && at + n
                <= v@.len() && n > 0,
            None => code_escape(v@.skip(at as int)) is None,
        },
{
    let ghost rest = v@.skip(at as int);
    if v.len() - at < 6 {
        return None;
    }
    assert(rest.subrange(2, 6) =~= v@.subrange(at + 2, at + 6));
    let first = match read_code_number(v, at + 2) {
        Some(n) => n,
        None => {
            return None;
        },
    };
    if 0xd800 <= first && first <= 0xdbff {
        if v.len() - at < 12 || v[at + 6] != '\\' || v[at + 7] != 'u' {
            return None;
        }
        assert(rest.subrange(8, 12) =~= v@.subrange(at + 8, at + 12));
        match read_code_number(v, at + 8) {
            Some(second) => if 0xdc00 <= second && second <= 0xdfff {
                let code: u32 = 0x10000 + 0x400 * (first - 0xd800) + (second - 0xdc00);
                match char::from_u32(code) {
                    Some(c) => Some((c, 12)),
                    None => None,
                }
            } else {
                None
            },
            None => None,
        }
    } else {
        match char::from_u32(first) {
            Some(c) => Some((c, 6)),
            None => None,
        }
    }
}

/// A text is no hexadecimal number where its front is none.
pub proof fn lemma_hex_prefix(s: Seq<char>, n: int)
    requires
        0 <= n <= s.len(),
        hex_number(s.take(n)) is None,
    ensures
        hex_number(s) is None,
    decreases s.len() - n,
{
    if n < s.len() {
        assert(s.take(n + 1).drop_last() =~= s.take(n));
        lemma_hex_prefix(s, n + 1);
    } else {
        assert(s.take(n) =~= s);
    }
}

fn read_simple_escape(c: char) -> (r: Option<char>)
    ensures
        r == simple_escape(c),
{
    if c == '"' || c == '\\' || c == '/' {
        Some(c)
    } else if c == 'b' {
        Some('\u{8}')
    } else if c == 'f' {
        Some('\u{c}')
    } else if c == 'n' {
        Some('\n')
    } else if c == 'r' {
        Some('\r')
    } else if c == 't' {
        Some('\t')
    } else {
        None
    }
}

/// What a JSON string holds as far as it is there, from behind its opening
/// quote.
pub fn partial_json_string_prefix(text: &str) -> (r: String)
    ensures
        r@ == string_prefix(text@),
{
    let v = chars_of(text);
    let len: usize = v.len();
    let mut result = String::new();
    let mut i: usize = 0;
    assert(text@.skip(0) =~= text@);
    assert(result@ + string_prefix(text@) =~= string_prefix(text@));
    while i < len
        invariant_except_break
            i <= len,
            len == v@.len(),
            v@ == text@,
            result@ + string_prefix(text@.skip(i as int)) == string_prefix(text@),
        ensures
            result@ == string_prefix(text@),
        decreases len - i,
    {
        let ghost rest = text@.skip(i as int);
        let ghost before = result@;
        let ch = v[i];
        if ch == '"' {
            assert(before + string_prefix(rest) =~= before);
            break;
        }
        if ch != '\\' {
            result.push(ch);
            i += 1;
            proof {
                assert(rest.skip(1) =~= text@.skip(i as int));
                assert(before + (seq![ch] + string_prefix(rest.skip(1))) =~= result@
                    + string_prefix(rest.skip(1)));
            }
        } else if len - i < 2 {
            assert(before + string_prefix(rest) =~= before);
            break;
        } else if v[i + 1] == 'u' {
            match read_code_escape(&v, i) {
                Some((c, n)) => {
                    result.push(c);
                    i += n;
                    proof {
                        assert(rest.skip(n as int) =~= text@.skip(i as int));
                        assert(before + (seq![c] + string_prefix(rest.skip(n as int))) =~= result@
                            + string_prefix(rest.skip(n as int)));
                    }
                },
                None => {
                    assert(before + string_prefix(rest) =~= before);
                    break;
                },
            }
        } else {
            match read_simple_escape(v[i + 1]) {
                Some(c) => {
                    result.push(c);
                    i += 2;
                    proof {
                        assert(rest.skip(2) =~= text@.skip(i as int));
                        assert(before + (seq![c] + string_prefix(rest.skip(2))) =~= result@
                            + string_prefix(rest.skip(2)));
                    }
                },
                None => {
                    assert(before + string_prefix(rest) =~= before);
                    break;
                },
            }
        }
        proof {
            if i == len {
                assert(text@.skip(i as int) =~= Seq::<char>::empty());
                assert(result@ + string_prefix(text@.skip(i as int)) =~= result@);
            }
        }
    }
    result
}

/// The first position from `i` on where no JSON white space stands.
pub open spec fn past_space(s: Seq<char>, i: int) -> int
    decreases s.len() - i,
{
    if 0 <= i < s.len() && (s[i] == ' ' || s[i] == '\t' || s[i] == '\r' || s[i] == '\n') {
        past_space(s, i + 1)
    } else {
        i
    }
}

/// The input of a custom tool call as far as its arguments are there: what the
/// string behind the first `"input"` and the colon after it holds.
pub open spec fn partial_input(arguments: Seq<char>) -> Option<Seq<char>> {
    if trim(arguments).len() == 0 {
        None
    } else {
        match position(arguments, "\"input\""@, 0) {
            Some(key) => match position(arguments, ":"@, key) {
                Some(colon) => {
                    let at = past_space(arguments, colon + 1);
                    if at < arguments.len() && arguments[at] == '"' {
                        Some(string_prefix(arguments.skip(at + 1)))
                    } else {
                        None
                    }
                },
                None => None,
            },
            None => None,
        }
    }
}

/// The input of a custom tool call as far as its arguments are there.
pub fn partial_custom_tool_input_from_chat_arguments(arguments: &str) -> (r: Option<String>)
    ensures
        opt_string(r) == partial_input(arguments@),
{
    if is_blank(arguments) {
        return None;
    }
    let v = chars_of(arguments);
    let len: usize = v.len();
    let key = match find(&v, &chars_of("\"input\""), 0) {
        Some(p) => p,
        None => {
            return None;
        },
    };
    let colon = match find(&v, &chars_of(":"), key) {
        Some(p) => p,
        None => {
            return None;
        },
    };
    proof {
        reveal_strlit(":");
    }
    let mut at: usize = colon + 1;
    while at < len && (v[at] == ' ' || v[at] == '\t' || v[at] == '\r' || v[at] == '\n')
        invariant
            len == v@.len(),
            v@ == arguments@,
            at <= len,
            past_space(arguments@, colon + 1) == past_space(arguments@, at as int),
        decreases len - at,
    {
        at += 1;
    }
    if at >= len || v[at] != '"' {
        return None;
    }
    let rest = text_of(&v, at + 1, len);
    assert(rest@ =~= arguments@.skip(at + 1));
    Some(partial_json_string_prefix(rest.as_str()))
}

/// Whether `a` is the beginning of `b`.
pub open spec fn is_prefix(a: Seq<char>, b: Seq<char>) -> bool {
    a.len() <= b.len() && b.take(a.len() as int) =~= a
}

proof fn lemma_prefix_step(c: char, a: Seq<char>, b: Seq<char>)
    requires
        is_prefix(a, b),
    ensures
        is_prefix(seq![c] + a, seq![c] + b),
{
    assert forall|i: int| 0 <= i < a.len() + 1 implies (seq![c] + b).take(a.len() as int + 1)[i] == (
    seq![c] + a)[i] by {
        if i > 0 {
            assert(b.take(a.len() as int)[i - 1] == a[i - 1]);
        }
    }
    assert((seq![c] + b).take(a.len() as int + 1) =~= seq![c] + a);
}

/// When more of a string arrives, what it held before is still its beginning.
pub proof fn string_prefix_only_grows(s: Seq<char>, more: Seq<char>)
    ensures
        is_prefix(string_prefix(s), string_prefix(s + more)),
    decreases s.len(),
{
    let t = s + more;
    if s.len() > 0 {
        assert(t[0] == s[0]);
        if s[0] == '"' {
        } else if s[0] != '\\' {
            assert(t.skip(1) =~= s.skip(1) + more);
            string_prefix_only_grows(s.skip(1), more);
            lemma_prefix_step(s[0], string_prefix(s.skip(1)), string_prefix(t.skip(1)));
        } else if s.len() >= 2 {
            assert(t[1] == s[1]);
            if s[1] == 'u' {
                if let Some((c, n)) = code_escape(s) {
                    assert(t.subrange(2, 6) =~= s.subrange(2, 6));
                    if n == 12 {
                        assert(t.subrange(8, 12) =~= s.subrange(8, 12));
                        assert(t[6] == s[6] && t[7] == s[7]);
                    }
                    assert(t.skip(n) =~= s.skip(n) + more);
                    string_prefix_only_grows(s.skip(n), more);
                    lemma_prefix_step(c, string_prefix(s.skip(n)), string_prefix(t.skip(n)));
                }
            } else if let Some(c) = simple_escape(s[1]) {
                assert(t.skip(2) =~= s.skip(2) + more);
                string_prefix_only_grows(s.skip(2), more);
                lemma_prefix_step(c, string_prefix(s.skip(2)), string_prefix(t.skip(2)));
            }
        }
    }
}

} // verus!
