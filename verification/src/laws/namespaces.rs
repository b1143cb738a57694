//! What becomes of the namespaces that a request declares.
use vstd::prelude::*;
use crate::config::UnsupportedToolPolicy;
use crate::context::{resolved, NamespaceStrategy, Origin, Registry, ToolKind};
use crate::json::{member, Tree};
use crate::laws::tools::{declares, is_chat_function, is_free, lemma_free, takes_the_same};

verus! {

/// The Chat name of a short name in a namespace.
pub open spec fn joined(namespace: Seq<char>, name: Seq<char>) -> Seq<char> {
    namespace + "__"@ + name
}

proof fn lemma_no_chat_name(
    tools: Seq<(Seq<char>, Origin)>,
    namespace: Seq<char>,
    name: Seq<char>,
)
    requires
        forall|i: int| 0 <= i < tools.len() ==> (#[trigger] tools[i]).1.name != name,
    ensures
        crate::context::chat_name_in(tools, namespace, name) is None,
    decreases tools.len(),
{
    if tools.len() > 0 {
        let front = tools.drop_last();
        assert forall|i: int| 0 <= i < front.len() implies (#[trigger] front[i]).1.name != name by {
            assert(front[i] == tools[i]);
        }
        lemma_no_chat_name(front, namespace, name);
        assert(tools[tools.len() - 1].1.name != name);
    }
}

proof fn lemma_children(
    r: Registry,
    children: Seq<Tree>,
    names: Seq<Seq<char>>,
    namespace: Seq<char>,
)
    requires
        r.tools.len() == 0,
        r.chat_tools.len() == 0,
        names.len() == children.len(),
        crate::text::trim(namespace).len() > 0,
        forall|k: int| 0 <= k < children.len() ==> declares(#[trigger] children[k], names[k]),
        forall|k: int|
            0 <= k < names.len() ==> joined(namespace, #[trigger] names[k]).len() <= 64,
        forall|k: int, l: int|
            0 <= k < l < names.len() ==> #[trigger] names[k] != #[trigger] names[l],
    ensures
        are_flattened(r.with_children(children, namespace), children, names, namespace),
    decreases children.len(),
{
    reveal_strlit("type");
    reveal_strlit("function");
    reveal_strlit("name");
    reveal_strlit("description");
    reveal_strlit("parameters");
    assert("type"@.len() == 4);
    assert("function"@.len() == 8);
    assert("name"@.len() == 4);
    assert("description"@.len() == 11);
    assert("parameters"@.len() == 10);
    assert("name"@[0] == 'n');
    assert("type"@[0] == 't');
    if children.len() > 0 {
        let front = children.drop_last();
        let some = names.drop_last();
        let n = children.len() - 1;
        assert forall|k: int| 0 <= k < front.len() implies declares(
            #[trigger] front[k],
            some[k],
        ) by {
            assert(front[k] == children[k] && some[k] == names[k]);
        }
        assert forall|k: int| 0 <= k < some.len() implies joined(
            namespace,
            #[trigger] some[k],
        ).len() <= 64 by {
            assert(some[k] == names[k]);
        }
        assert forall|k: int, l: int| 0 <= k < l < some.len() implies #[trigger] some[k]
            != #[trigger] some[l] by {
            assert(names[k] != names[l]);
        }
        lemma_children(r, front, some, namespace);
        let before = r.with_children(front, namespace);
        assert(declares(children[n], names[n]));
        assert(joined(namespace, names[n]).len() <= 64);
        assert forall|i: int| 0 <= i < before.tools.len() implies (
        #[trigger] before.tools[i]).1.name != names[n] && before.tools[i].0 != joined(
            namespace,
            names[n],
        ) by {
            assert(some[i] == names[i]);
            assert(names[i] != names[n]);
            let head = namespace + "__"@;
            assert((head + names[i]).skip(head.len() as int) =~= names[i]);
            assert((head + names[n]).skip(head.len() as int) =~= names[n]);
        }
        lemma_no_chat_name(before.tools, namespace, names[n]);
        assert(is_free(before, joined(namespace, names[n])));
        lemma_free(before, joined(namespace, names[n]));
        lemma_full_name(namespace, names[n]);
        let after = r.with_children(children, namespace);
        assert(after == before.with_function(children[n], Some(namespace)));
        assert forall|k: int| 0 <= k < children.len() implies is_in_namespace(
            #[trigger] after.tools[k],
            names[k],
            namespace,
        ) by {
            if k < n {
                assert(after.tools[k] == before.tools[k]);
                assert(some[k] == names[k]);
            }
        }
        assert forall|k: int| 0 <= k < children.len() implies {
            &&& is_chat_function(#[trigger] after.chat_tools[k], joined(namespace, names[k]))
            &&& takes_the_same(after.chat_tools[k], children[k])
        } by {
            if k < n {
                assert(after.chat_tools[k] == before.chat_tools[k]);
                assert(some[k] == names[k] && front[k] == children[k]);
            }
        }
    }
}

proof fn lemma_full_name(namespace: Seq<char>, name: Seq<char>)
    requires
        crate::text::trim(namespace).len() > 0,
    ensures
        crate::text::trim(joined(namespace, name)).len() > 0,
{
    reveal_strlit("__");
    let full = joined(namespace, name);
    let at = namespace.len() as int;
    assert(full[at] == '_');
    lemma_not_blank(full, at);
}

proof fn lemma_not_blank(s: Seq<char>, i: int)
    requires
        0 <= i < s.len(),
        !crate::text::is_space(s[i]),
    ensures
        crate::text::trim(s).len() > 0,
{
    lemma_start_keeps(s, i);
    let t = crate::text::trim_start(s);
    let j = i - (s.len() - t.len());
    lemma_end_keeps(t, j);
}

proof fn lemma_start_keeps(s: Seq<char>, i: int)
    requires
        0 <= i < s.len(),
        !crate::text::is_space(s[i]),
    ensures
        ({
            let t = crate::text::trim_start(s);
            let j = i - (s.len() - t.len());
            0 <= j < t.len() && t[j] == s[i]
        }),
    decreases s.len(),
{
    if crate::text::is_space(s[0]) {
        assert(s.drop_first()[i - 1] == s[i]);
        lemma_start_keeps(s.drop_first(), i - 1);
    }
}

proof fn lemma_end_keeps(s: Seq<char>, i: int)
    requires
        0 <= i < s.len(),
        !crate::text::is_space(s[i]),
    ensures
        crate::text::trim_end(s).len() > i,
    decreases s.len(),
{
    if crate::text::is_space(s.last()) {
        assert(s.drop_last()[i] == s[i]);
        lemma_end_keeps(s.drop_last(), i);
    }
}

/// Whether a registered tool is a function of a namespace.
pub open spec fn is_in_namespace(
    tool: (Seq<char>, Origin),
    name: Seq<char>,
    namespace: Seq<char>,
) -> bool {
    &&& tool.0 == joined(namespace, name)
    &&& tool.1.kind == ToolKind::Function
    &&& tool.1.name == name
    &&& tool.1.namespace == Some(namespace)
}

/// Whether a registry holds the functions of a namespace, each under its own Chat name.
pub open spec fn are_flattened(
    r: Registry,
    children: Seq<Tree>,
    names: Seq<Seq<char>>,
    namespace: Seq<char>,
) -> bool {
    &&& r.tools.len() == children.len()
    &&& r.chat_tools.len() == children.len()
    &&& forall|k: int|
        0 <= k < children.len() ==> is_in_namespace(#[trigger] r.tools[k], names[k], namespace)
    &&& forall|k: int|
        0 <= k < children.len() ==> {
            &&& is_chat_function(#[trigger] r.chat_tools[k], joined(namespace, names[k]))
            &&& takes_the_same(r.chat_tools[k], children[k])
        }
}

/// The functions of a declared namespace all become Chat functions, in their order. Each is
/// called by the name of the namespace and its own, with two underscores between them, and is
/// known by both; each takes the parameters that it was declared with.
pub proof fn namespaces_are_flattened(
    tool: Tree,
    children: Seq<Tree>,
    names: Seq<Seq<char>>,
    namespace: Seq<char>,
    policy: UnsupportedToolPolicy,
)
    requires
        tool is Object,
        tool.at("type"@) == Some(Tree::Str("namespace"@)),
        tool.at("name"@) == Some(Tree::Str(namespace)),
        tool.at("strategy"@) is None,
        tool.at("tools"@) == Some(Tree::Array(children)) || tool.at("tools"@) is None && tool.at(
            "children"@,
        ) == Some(Tree::Array(children)),
        crate::text::trim(namespace).len() > 0,
        names.len() == children.len(),
        forall|k: int| 0 <= k < children.len() ==> declares(#[trigger] children[k], names[k]),
        forall|k: int|
            0 <= k < names.len() ==> joined(namespace, #[trigger] names[k]).len() <= 64,
        forall|k: int, l: int|
            0 <= k < l < names.len() ==> #[trigger] names[k] != #[trigger] names[l],
    ensures
        are_flattened(
            Registry::empty().with_declared(tool, policy),
            children,
            names,
            namespace,
        ),
        crate::text::listed(
            Registry::empty().with_declared(tool, policy).namespaces,
            namespace,
        ),
{
    reveal_strlit("type");
    reveal_strlit("function");
    reveal_strlit("name");
    reveal_strlit("custom");
    reveal_strlit("tool_search");
    reveal_strlit("namespace");
    reveal_strlit("web_search");
    reveal_strlit("file_search");
    reveal_strlit("computer_use");
    reveal_strlit("computer_use_preview");
    reveal_strlit("code_interpreter");
    reveal_strlit("mcp");
    assert("type"@.len() == 4);
    assert("function"@.len() == 8);
    assert("name"@.len() == 4);
    assert("custom"@.len() == 6);
    assert("tool_search"@.len() == 11);
    assert("namespace"@.len() == 9);
    assert("web_search"@.len() == 10);
    assert("file_search"@.len() == 11);
    assert("computer_use"@.len() == 12);
    assert("computer_use_preview"@.len() == 20);
    assert("code_interpreter"@.len() == 16);
    assert("mcp"@.len() == 3);
    assert("name"@[0] == 'n');
    assert("type"@[0] == 't');
    assert("file_search"@[0] == 'f');
    assert("tool_search"@[0] == 't');
    let none = Registry::empty();
    let known = Registry { namespaces: none.namespaces.push(namespace), ..none };
    lemma_children(known, children, names, namespace);
    lemma_namespaces_stay(known, children, namespace);
    assert(known.namespaces[0] == namespace);
}

proof fn lemma_namespaces_stay(r: Registry, children: Seq<Tree>, namespace: Seq<char>)
    ensures
        r.with_children(children, namespace).namespaces == r.namespaces,
    decreases children.len(),
{
    if children.len() > 0 {
        lemma_namespaces_stay(r, children.drop_last(), namespace);
    }
}

/// A call of a namespace that is offered as one tool names the function that it means as its
/// action, where the namespace has a function of that name. What else it says are the
/// arguments of that function: all its other members, or what its `params` hold.
pub proof fn nested_calls_name_their_function(
    o: Origin,
    functions: Seq<Seq<char>>,
    text: Seq<char>,
    m: Map<Seq<char>, Tree>,
    action: Seq<char>,
    params: Map<Seq<char>, Tree>,
)
    requires
        text.len() > 0,
        o.actions == Some(functions),
        m.contains_key("action"@),
        m["action"@] == Tree::Str(action),
        o.strategy == Some(NamespaceStrategy::NestedAnyof) ==> m.contains_key("params"@)
            && m["params"@] == Tree::Object(params) && m.dom() == set!["action"@, "params"@],
    ensures
        ({
            let told = resolved(o, text, Some(Tree::Object(m)));
            &&& functions.contains(action) ==> told.0 == Some(action)
            &&& !functions.contains(action) ==> told.0 is None
            &&& exists|inner: Map<Seq<char>, Tree>| #[trigger]
                crate::json::rendered(Tree::Object(inner)) == told.1 && says(
                    o.strategy,
                    inner,
                    m,
                    params,
                )
        }),
{
    reveal_strlit("action");
    reveal_strlit("params");
    assert("action"@.len() == 6);
    assert("params"@.len() == 6);
    assert("params"@[0] == 'p');
    assert("action"@[0] == 'a');
    let inner = crate::context::action_arguments(o.strategy, m);
    if o.strategy == Some(NamespaceStrategy::NestedAnyof) {
        assert(inner =~= params) by {
            assert forall|k: Seq<char>| inner.contains_key(k) == params.contains_key(k) by {
                assert(m.dom().contains(k) == set!["action"@, "params"@].contains(k));
            }
        }
    }
    assert(says(o.strategy, inner, m, params));
    if functions.contains(action) {
        let i = choose|i: int| 0 <= i < functions.len() && functions[i] == action;
        assert(functions[i] == action);
    }
}

/// Whether arguments are those that a call of a namespace holds for its function.
pub open spec fn says(
    strategy: Option<NamespaceStrategy>,
    inner: Map<Seq<char>, Tree>,
    m: Map<Seq<char>, Tree>,
    params: Map<Seq<char>, Tree>,
) -> bool {
    if strategy == Some(NamespaceStrategy::NestedAnyof) {
        inner == params
    } else {
        &&& member(inner, "action"@) is None
        &&& forall|k: Seq<char>| k != "action"@ ==> #[trigger] member(inner, k) == member(m, k)
    }
}

proof fn lemma_function_children(children: Seq<Tree>, names: Seq<Seq<char>>)
    requires
        names.len() == children.len(),
        forall|k: int| 0 <= k < children.len() ==> declares(#[trigger] children[k], names[k]),
    ensures
        crate::context::function_children(children) == (children, names),
    decreases children.len(),
{
    reveal_strlit("type");
    reveal_strlit("function");
    reveal_strlit("name");
    assert("type"@.len() == 4);
    assert("function"@.len() == 8);
    assert("name"@.len() == 4);
    assert("name"@[0] == 'n');
    assert("type"@[0] == 't');
    if children.len() > 0 {
        let front = children.drop_last();
        let some = names.drop_last();
        assert forall|k: int| 0 <= k < front.len() implies declares(
            #[trigger] front[k],
            some[k],
        ) by {
            assert(front[k] == children[k] && some[k] == names[k]);
        }
        lemma_function_children(front, some);
        assert(declares(children[children.len() - 1], names[names.len() - 1]));
        assert(front.push(children.last()) =~= children);
        assert(some.push(names.last()) =~= names);
    } else {
        assert(children =~= Seq::empty());
        assert(names =~= Seq::empty());
    }
}

/// Whether a variant of a schema is that of a function: it asks for the name of the function
/// as its action, and for what the function takes.
pub open spec fn is_variant_of(variant: Tree, function: Tree, name: Seq<char>) -> bool {
    &&& variant.at("required"@) matches Some(Tree::Array(required))
    &&& required.contains(Tree::Str("action"@))
    &&& variant.at("properties"@) matches Some(p)
    &&& p.at("action"@) matches Some(a)
    &&& a.at("enum"@) matches Some(Tree::Array(one))
    &&& one == seq![Tree::Str(name)]
    &&& function.at("parameters"@) matches Some(Tree::Object(params)) ==> forall|k: Seq<char>|
        k != "action"@ ==> (#[trigger] p.at(k)) == match params.contains_key("properties"@) {
            true => match params["properties"@] {
                Tree::Object(own) => member(own, k),
                _ => None,
            },
            false => None,
        }
}

/// A namespace that asks for one variant for each of its functions is offered as one tool,
/// which has a variant for every one of them.
pub proof fn nested_namespaces_are_one_tool(
    tool: Tree,
    children: Seq<Tree>,
    names: Seq<Seq<char>>,
    namespace: Seq<char>,
    policy: UnsupportedToolPolicy,
    k: int,
)
    requires
        tool is Object,
        tool.at("type"@) == Some(Tree::Str("namespace"@)),
        tool.at("name"@) == Some(Tree::Str(namespace)),
        tool.at("strategy"@) == Some(Tree::Str("nested_oneof"@)),
        tool.at("tools"@) == Some(Tree::Array(children)),
        crate::text::trim(namespace).len() > 0,
        joined(namespace, namespace).len() <= 64,
        names.len() == children.len(),
        forall|j: int| 0 <= j < children.len() ==> declares(#[trigger] children[j], names[j]),
        0 <= k < children.len(),
    ensures
        ({
            let r = Registry::empty().with_declared(tool, policy);
            &&& r.tools.len() == 1
            &&& r.tools[0].0 == joined(namespace, namespace)
            &&& r.tools[0].1.kind == ToolKind::Namespace
            &&& r.tools[0].1.namespace == Some(namespace)
            &&& r.tools[0].1.actions == Some(names)
            &&& r.chat_tools.len() == 1
            &&& is_chat_function(r.chat_tools[0], joined(namespace, namespace))
            &&& r.chat_tools[0].at("function"@)->0.at("parameters"@) matches Some(p)
            &&& p.at("oneOf"@) matches Some(Tree::Array(variants))
            &&& variants.len() == children.len()
            &&& is_variant_of(variants[k], children[k], names[k])
        }),
{
    reveal_strlit("type");
    reveal_strlit("function");
    reveal_strlit("name");
    reveal_strlit("custom");
    reveal_strlit("tool_search");
    reveal_strlit("namespace");
    reveal_strlit("web_search");
    reveal_strlit("file_search");
    reveal_strlit("computer_use");
    reveal_strlit("computer_use_preview");
    reveal_strlit("code_interpreter");
    reveal_strlit("mcp");
    assert("type"@.len() == 4);
    assert("function"@.len() == 8);
    assert("name"@.len() == 4);
    assert("custom"@.len() == 6);
    assert("tool_search"@.len() == 11);
    assert("namespace"@.len() == 9);
    assert("web_search"@.len() == 10);
    assert("file_search"@.len() == 11);
    assert("computer_use"@.len() == 12);
    assert("computer_use_preview"@.len() == 20);
    assert("code_interpreter"@.len() == 16);
    assert("mcp"@.len() == 3);
    assert("name"@[0] == 'n');
    assert("type"@[0] == 't');
    assert("file_search"@[0] == 'f');
    assert("tool_search"@[0] == 't');
    assert(crate::text::lower("nested_oneof"@) =~= "nested_oneof"@) by {
        reveal_strlit("nested_oneof");
    }
    assert("nested_oneof"@.len() > 0) by {
        reveal_strlit("nested_oneof");
    }
    let none = Registry::empty();
    let known = Registry { namespaces: none.namespaces.push(namespace), ..none };
    lemma_function_children(children, names);
    lemma_full_name(namespace, namespace);
    lemma_free(known, joined(namespace, namespace));
    assert(is_free(known, joined(namespace, namespace)));
    assert(declares(children[k], names[k]));
    lemma_variant(children[k], names[k]);
    assert(!known.knows(joined(namespace, namespace)));
    lemma_one_of(children, k);
    lemma_chat_parts(
        joined(namespace, namespace),
        known.with_nested(namespace, children, NamespaceStrategy::NestedOneof).chat_tools[0],
        crate::context::oneof_schema(children),
        Tree::Str(
            "Namespace tool: "@ + namespace + " (strategy: "@
                + NamespaceStrategy::NestedOneof.label() + ")"@,
        ),
    );
}

proof fn lemma_one_of(functions: Seq<Tree>, k: int)
    requires
        0 <= k < functions.len(),
    ensures
        crate::context::oneof_schema(functions).at("oneOf"@) matches Some(Tree::Array(variants))
            && variants.len() == functions.len() && variants[k] == crate::context::action_variant(
            functions[k],
        ),
{
    reveal_strlit("type");
    reveal_strlit("oneOf");
    assert("type"@.len() == 4);
    assert("oneOf"@.len() == 5);
}

proof fn lemma_chat_parts(name: Seq<char>, tool: Tree, schema: Tree, description: Tree)
    requires
        tool == crate::context::chat_tool(name, description, schema),
    ensures
        is_chat_function(tool, name),
        tool.at("function"@)->0.at("parameters"@) == Some(schema),
{
    reveal_strlit("type");
    reveal_strlit("function");
    reveal_strlit("name");
    reveal_strlit("description");
    reveal_strlit("parameters");
    assert("type"@.len() == 4);
    assert("function"@.len() == 8);
    assert("name"@.len() == 4);
    assert("description"@.len() == 11);
    assert("parameters"@.len() == 10);
    assert("name"@[0] == 'n');
    assert("type"@[0] == 't');
}

proof fn lemma_variant(function: Tree, name: Seq<char>)
    requires
        declares(function, name),
    ensures
        is_variant_of(crate::context::action_variant(function), function, name),
{
    reveal_strlit("type");
    reveal_strlit("properties");
    reveal_strlit("required");
    reveal_strlit("additionalProperties");
    reveal_strlit("enum");
    reveal_strlit("action");
    assert("type"@.len() == 4);
    assert("properties"@.len() == 10);
    assert("required"@.len() == 8);
    assert("additionalProperties"@.len() == 20);
    assert("enum"@.len() == 4);
    assert("action"@.len() == 6);
    assert("enum"@[0] == 'e');
    assert("type"@[0] == 't');
    let params = crate::context::parameter_members(function);
    let listed = match crate::json::items_in(crate::context::opt_member(params, "required"@)) {
        Some(r) => r,
        None => Seq::empty(),
    };
    let first = seq![Tree::Str("action"@)];
    assert((first + listed)[0] == Tree::Str("action"@));
    assert((first + listed).contains(Tree::Str("action"@)));
}

} // verus!
