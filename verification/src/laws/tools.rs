//! What becomes of the tools that a request declares.
use vstd::prelude::*;
use crate::config::UnsupportedToolPolicy;
use crate::context::{Origin, Registry, ToolKind};
use crate::json::Tree;

verus! {

/// Whether no tool of a registry has a Chat name.
pub open spec fn is_free(r: Registry, name: Seq<char>) -> bool {
    forall|i: int| 0 <= i < r.tools.len() ==> (#[trigger] r.tools[i]).0 != name
}

/// Whether a registry is another with one tool more: under a Chat name, from an origin, and
/// as a Chat tool.
pub open spec fn adds(before: Registry, after: Registry, name: Seq<char>, origin: Origin) -> bool {
    &&& after.tools.len() == before.tools.len() + 1
    &&& after.tools.drop_last() == before.tools
    &&& after.tools.last() == (name, origin)
    &&& after.chat_tools.len() == before.chat_tools.len() + 1
    &&& after.chat_tools.drop_last() == before.chat_tools
}

/// Whether a Chat tool is a function of a name.
pub open spec fn is_chat_function(tool: Tree, name: Seq<char>) -> bool {
    &&& tool.at("type"@) == Some(Tree::Str("function"@))
    &&& tool.at("function"@) matches Some(f)
    &&& f.at("name"@) == Some(Tree::Str(name))
}

/// Whether a Chat tool takes what a declared function takes: the same parameters and the
/// same description, none where it declares none.
pub open spec fn takes_the_same(tool: Tree, declared: Tree) -> bool {
    &&& tool.at("function"@) matches Some(f)
    &&& f.at("parameters"@) == match declared.at("parameters"@) {
        Some(Tree::Object(p)) => Some(Tree::Object(p)),
        _ => Some(Tree::Object(Map::empty())),
    }
    &&& f.at("description"@) == match declared.at("description"@) {
        Some(d) => Some(d),
        None => Some(Tree::Null),
    }
}

pub proof fn lemma_free(r: Registry, name: Seq<char>)
    ensures
        is_free(r, name) == !r.knows(name),
{
    if r.knows(name) {
        let i = choose|i: int| #[trigger] r.registered_at(name, i);
        assert(r.tools[i].0 == name);
    }
    if !is_free(r, name) {
        let i = choose|i: int| 0 <= i < r.tools.len() && (#[trigger] r.tools[i]).0 == name;
        assert(r.registered_at(name, i));
    }
}

/// A declared function whose name is not taken becomes a Chat function of that name, with
/// the very parameters and description that were declared, and is known as a function in
/// no namespace. It is the same whether its members stand in the tool itself or under
/// `function`.
pub proof fn declared_functions_become_chat_functions(
    r: Registry,
    m: Map<Seq<char>, Tree>,
    declared: Tree,
    name: Seq<char>,
    policy: UnsupportedToolPolicy,
)
    requires
        m.contains_key("type"@),
        m["type"@] == Tree::Str("function"@),
        if m.contains_key("function"@) {
            m["function"@] is Object && declared == m["function"@]
        } else {
            declared == Tree::Object(m)
        },
        declared.at("name"@) == Some(Tree::Str(name)),
        crate::text::trim(name).len() > 0,
        is_free(r, name),
    ensures
        ({
            let after = r.with_declared(Tree::Object(m), policy);
            let origin = Origin {
                kind: ToolKind::Function,
                name,
                namespace: None,
                strategy: None,
                actions: None,
            };
            &&& adds(r, after, name, origin)
            &&& is_chat_function(after.chat_tools.last(), name)
            &&& takes_the_same(after.chat_tools.last(), declared)
        }),
{
    reveal_strlit("type");
    reveal_strlit("function");
    reveal_strlit("name");
    reveal_strlit("description");
    reveal_strlit("parameters");
    reveal_strlit("custom");
    reveal_strlit("tool_search");
    reveal_strlit("namespace");
    reveal_strlit("web_search");
    reveal_strlit("file_search");
    reveal_strlit("computer_use");
    reveal_strlit("computer_use_preview");
    reveal_strlit("code_interpreter");
    reveal_strlit("mcp");
    assert("type"@.len() == 4);
    assert("function"@.len() == 8);
    assert("name"@.len() == 4);
    assert("description"@.len() == 11);
    assert("parameters"@.len() == 10);
    assert("custom"@.len() == 6);
    assert("tool_search"@.len() == 11);
    assert("namespace"@.len() == 9);
    assert("web_search"@.len() == 10);
    assert("file_search"@.len() == 11);
    assert("computer_use"@.len() == 12);
    assert("computer_use_preview"@.len() == 20);
    assert("code_interpreter"@.len() == 16);
    assert("mcp"@.len() == 3);
    assert("name"@[0] == 'n');
    assert("type"@[0] == 't');
    assert("tool_search"@[0] == 't');
    assert("description"@[0] == 'd');
    assert("file_search"@[0] == 'f');
    assert("web_search"@[0] == 'w');
    assert("parameters"@[0] == 'p');
    lemma_free(r, name);
    let after = r.with_declared(Tree::Object(m), policy);
    assert(after.tools.drop_last() =~= r.tools);
    assert(after.chat_tools.drop_last() =~= r.chat_tools);
}

/// A declared custom tool whose name is not taken becomes a Chat function of that name that
/// takes one text, `input`, and is known as a custom tool. A bare name declares one too.
pub proof fn declared_custom_tools_take_a_text(
    r: Registry,
    tool: Tree,
    name: Seq<char>,
    policy: UnsupportedToolPolicy,
)
    requires
        tool == Tree::Str(name) && crate::text::trim(name) == name || tool is Object && tool.at(
            "type"@,
        ) == Some(Tree::Str("custom"@)) && tool.at("name"@) == Some(Tree::Str(name)),
        crate::text::trim(name).len() > 0,
        is_free(r, name),
    ensures
        ({
            let after = r.with_declared(tool, policy);
            let origin = Origin {
                kind: ToolKind::Custom,
                name,
                namespace: None,
                strategy: None,
                actions: None,
            };
            let added = after.chat_tools.last();
            &&& adds(r, after, name, origin)
            &&& is_chat_function(added, name)
            &&& added.at("function"@)->0.at("parameters"@) matches Some(p)
            &&& p.at("type"@) == Some(Tree::Str("object"@))
            &&& p.at("required"@) == Some(Tree::Array(seq![Tree::Str("input"@)]))
            &&& p.at("properties"@) matches Some(Tree::Object(fields))
            &&& fields.contains_key("input"@)
            &&& fields["input"@].at("type"@) == Some(Tree::Str("string"@))
            &&& forall|k: Seq<char>| fields.contains_key(k) ==> k == "input"@
        }),
{
    reveal_strlit("type");
    reveal_strlit("function");
    reveal_strlit("name");
    reveal_strlit("description");
    reveal_strlit("parameters");
    reveal_strlit("custom");
    reveal_strlit("tool_search");
    reveal_strlit("namespace");
    reveal_strlit("web_search");
    reveal_strlit("file_search");
    reveal_strlit("computer_use");
    reveal_strlit("computer_use_preview");
    reveal_strlit("code_interpreter");
    reveal_strlit("mcp");
    reveal_strlit("object");
    reveal_strlit("required");
    reveal_strlit("properties");
    reveal_strlit("input");
    reveal_strlit("string");
    assert("type"@.len() == 4);
    assert("function"@.len() == 8);
    assert("name"@.len() == 4);
    assert("description"@.len() == 11);
    assert("parameters"@.len() == 10);
    assert("custom"@.len() == 6);
    assert("tool_search"@.len() == 11);
    assert("namespace"@.len() == 9);
    assert("web_search"@.len() == 10);
    assert("file_search"@.len() == 11);
    assert("computer_use"@.len() == 12);
    assert("computer_use_preview"@.len() == 20);
    assert("code_interpreter"@.len() == 16);
    assert("mcp"@.len() == 3);
    assert("object"@.len() == 6);
    assert("required"@.len() == 8);
    assert("properties"@.len() == 10);
    assert("input"@.len() == 5);
    assert("string"@.len() == 6);
    assert("name"@[0] == 'n');
    assert("type"@[0] == 't');
    assert("required"@[0] == 'r');
    assert("function"@[0] == 'f');
    assert("tool_search"@[0] == 't');
    assert("description"@[0] == 'd');
    assert("file_search"@[0] == 'f');
    assert("web_search"@[0] == 'w');
    assert("parameters"@[0] == 'p');
    assert("parameters"@[1] == 'a');
    assert("properties"@[0] == 'p');
    assert("properties"@[1] == 'r');
    assert("object"@[0] == 'o');
    assert("custom"@[0] == 'c');
    assert("string"@[0] == 's');
    lemma_free(r, name);
    let after = r.with_declared(tool, policy);
    assert(after.tools.drop_last() =~= r.tools);
    assert(after.chat_tools.drop_last() =~= r.chat_tools);
    let p = after.chat_tools.last().at("function"@)->0.at("parameters"@)->0;
    assert(p.at("required"@)->0->Array_0 =~= seq![Tree::Str("input"@)]);
}

/// The tool search becomes a Chat function that asks for a query.
pub proof fn the_tool_search_asks_for_a_query(
    r: Registry,
    m: Map<Seq<char>, Tree>,
    policy: UnsupportedToolPolicy,
)
    requires
        m.contains_key("type"@),
        m["type"@] == Tree::Str("tool_search"@),
        is_free(r, "tool_search"@),
    ensures
        ({
            let after = r.with_declared(Tree::Object(m), policy);
            let added = after.chat_tools.last();
            &&& after.tools.drop_last() == r.tools
            &&& after.tools.last().0 == "tool_search"@
            &&& after.tools.last().1.kind == ToolKind::ToolSearch
            &&& after.chat_tools.drop_last() == r.chat_tools
            &&& is_chat_function(added, "tool_search"@)
            &&& added.at("function"@)->0.at("parameters"@) matches Some(p)
            &&& p.at("required"@) == Some(Tree::Array(seq![Tree::Str("query"@)]))
            &&& after.search(Some("tool_search"@))
        }),
{
    reveal_strlit("type");
    reveal_strlit("function");
    reveal_strlit("name");
    reveal_strlit("description");
    reveal_strlit("parameters");
    reveal_strlit("custom");
    reveal_strlit("tool_search");
    reveal_strlit("namespace");
    reveal_strlit("web_search");
    reveal_strlit("file_search");
    reveal_strlit("computer_use");
    reveal_strlit("computer_use_preview");
    reveal_strlit("code_interpreter");
    reveal_strlit("mcp");
    reveal_strlit("required");
    reveal_strlit("properties");
    reveal_strlit("query");
    reveal_strlit("limit");
    assert("type"@.len() == 4);
    assert("function"@.len() == 8);
    assert("name"@.len() == 4);
    assert("description"@.len() == 11);
    assert("parameters"@.len() == 10);
    assert("custom"@.len() == 6);
    assert("tool_search"@.len() == 11);
    assert("namespace"@.len() == 9);
    assert("web_search"@.len() == 10);
    assert("file_search"@.len() == 11);
    assert("computer_use"@.len() == 12);
    assert("computer_use_preview"@.len() == 20);
    assert("code_interpreter"@.len() == 16);
    assert("mcp"@.len() == 3);
    assert("required"@.len() == 8);
    assert("properties"@.len() == 10);
    assert("query"@.len() == 5);
    assert("limit"@.len() == 5);
    assert("name"@[0] == 'n');
    assert("type"@[0] == 't');
    assert("required"@[0] == 'r');
    assert("function"@[0] == 'f');
    assert("tool_search"@[0] == 't');
    assert("description"@[0] == 'd');
    assert("file_search"@[0] == 'f');
    assert("web_search"@[0] == 'w');
    assert("parameters"@[0] == 'p');
    assert("parameters"@[1] == 'a');
    assert("properties"@[0] == 'p');
    assert("properties"@[1] == 'r');
    assert("limit"@[0] == 'l');
    assert("query"@[0] == 'q');
    lemma_free(r, "tool_search"@);
    assert(crate::text::trim("tool_search"@) == "tool_search"@) by {
        crate::laws::tools::lemma_trimmed("tool_search"@);
    }
    let after = r.with_declared(Tree::Object(m), policy);
    assert(after.tools.drop_last() =~= r.tools);
    assert(after.chat_tools.drop_last() =~= r.chat_tools);
    assert(after.tools[after.tools.len() - 1].1.kind == ToolKind::ToolSearch);
    let p = after.chat_tools.last().at("function"@)->0.at("parameters"@)->0;
    assert(p.at("required"@)->0->Array_0 =~= seq![Tree::Str("query"@)]);
}

/// A text that neither begins nor ends with white space is not trimmed.
pub proof fn lemma_trimmed(s: Seq<char>)
    requires
        s.len() > 0,
        !crate::text::is_space(s[0]),
        !crate::text::is_space(s.last()),
    ensures
        crate::text::trim(s) == s,
{
}

/// Hosted tools go upstream as they are, but only where the policy says so; otherwise they
/// are left out. They are never known as functions.
pub proof fn hosted_tools_follow_the_policy(
    r: Registry,
    m: Map<Seq<char>, Tree>,
    policy: UnsupportedToolPolicy,
)
    requires
        m.contains_key("type"@),
        m["type"@] == Tree::Str("web_search"@) || m["type"@] == Tree::Str("file_search"@)
            || m["type"@] == Tree::Str("computer_use"@) || m["type"@] == Tree::Str(
            "computer_use_preview"@,
        ) || m["type"@] == Tree::Str("code_interpreter"@) || m["type"@] == Tree::Str("mcp"@),
        forall|i: int| 0 <= i < r.chat_tools.len() ==> (#[trigger] r.chat_tools[i]).at("type"@)
            == Some(Tree::Str("function"@)),
    ensures
        ({
            let after = r.with_declared(Tree::Object(m), policy);
            &&& after.tools == r.tools
            &&& policy == UnsupportedToolPolicy::Passthrough ==> after.chat_tools
                == r.chat_tools.push(Tree::Object(m))
            &&& policy != UnsupportedToolPolicy::Passthrough ==> after == r
        }),
{
    reveal_strlit("type");
    reveal_strlit("function");
    reveal_strlit("web_search");
    reveal_strlit("file_search");
    reveal_strlit("computer_use");
    reveal_strlit("computer_use_preview");
    reveal_strlit("code_interpreter");
    reveal_strlit("mcp");
    assert("type"@.len() == 4);
    assert("function"@.len() == 8);
    assert("web_search"@.len() == 10);
    assert("file_search"@.len() == 11);
    assert("computer_use"@.len() == 12);
    assert("computer_use_preview"@.len() == 20);
    assert("code_interpreter"@.len() == 16);
    assert("mcp"@.len() == 3);
    if crate::json::has_equal(r.chat_tools, Tree::Object(m)) {
        let i = choose|i: int|
            0 <= i < r.chat_tools.len() && crate::json::equal(
                #[trigger] r.chat_tools[i],
                Tree::Object(m),
            );
        let t = r.chat_tools[i];
        assert(t.at("type"@) == Some(Tree::Str("function"@)));
        assert(crate::json::equal(t->Object_0["type"@], m["type"@]));
    }
}

/// Whether a tool is a declared function of a name, by its own members.
pub open spec fn declares(tool: Tree, name: Seq<char>) -> bool {
    &&& tool is Object
    &&& tool.at("type"@) == Some(Tree::Str("function"@))
    &&& tool.at("function"@) is None
    &&& tool.at("name"@) == Some(Tree::Str(name))
    &&& crate::text::trim(name).len() > 0
}

/// All declared functions of different names become Chat functions, one for each and in
/// their order, each with its own parameters.
pub proof fn all_declared_functions_are_registered(
    tools: Seq<Tree>,
    names: Seq<Seq<char>>,
    policy: UnsupportedToolPolicy,
)
    requires
        names.len() == tools.len(),
        forall|k: int| 0 <= k < tools.len() ==> declares(#[trigger] tools[k], names[k]),
        forall|k: int, l: int|
            0 <= k < l < names.len() ==> #[trigger] names[k] != #[trigger] names[l],
    ensures
        ({
            let r = Registry::of_request(Some(Tree::Array(tools)), None, policy);
            &&& r.chat_tools.len() == tools.len()
            &&& r.tools.len() == tools.len()
            &&& forall|k: int|
                0 <= k < tools.len() ==> {
                    &&& is_chat_function(#[trigger] r.chat_tools[k], names[k])
                    &&& takes_the_same(r.chat_tools[k], tools[k])
                }
            &&& forall|k: int| 0 <= k < tools.len() ==> (#[trigger] r.tools[k]).0 == names[k]
        }),
{
    let declared = Registry::empty().with_all_declared(tools, policy);
    lemma_all_declared(tools, names, policy);
    assert(crate::context::input_items(None) =~= Seq::empty());
    assert(declared.with_items(Seq::empty(), policy) == declared);
}

proof fn lemma_all_declared(tools: Seq<Tree>, names: Seq<Seq<char>>, policy: UnsupportedToolPolicy)
    requires
        names.len() == tools.len(),
        forall|k: int| 0 <= k < tools.len() ==> declares(#[trigger] tools[k], names[k]),
        forall|k: int, l: int|
            0 <= k < l < names.len() ==> #[trigger] names[k] != #[trigger] names[l],
    ensures
        ({
            let r = Registry::empty().with_all_declared(tools, policy);
            &&& r.chat_tools.len() == tools.len()
            &&& r.tools.len() == tools.len()
            &&& forall|k: int|
                0 <= k < tools.len() ==> {
                    &&& is_chat_function(#[trigger] r.chat_tools[k], names[k])
                    &&& takes_the_same(r.chat_tools[k], tools[k])
                }
            &&& forall|k: int| 0 <= k < tools.len() ==> (#[trigger] r.tools[k]).0 == names[k]
        }),
    decreases tools.len(),
{
    if tools.len() > 0 {
        let front = tools.drop_last();
        let some = names.drop_last();
        let n = tools.len() - 1;
        assert forall|k: int| 0 <= k < front.len() implies declares(
            #[trigger] front[k],
            some[k],
        ) by {
            assert(front[k] == tools[k] && some[k] == names[k]);
        }
        assert forall|k: int, l: int| 0 <= k < l < some.len() implies #[trigger] some[k]
            != #[trigger] some[l] by {
            assert(names[k] != names[l]);
        }
        lemma_all_declared(front, some, policy);
        let r = Registry::empty().with_all_declared(front, policy);
        let last = tools[n];
        assert(declares(last, names[n]));
        assert(is_free(r, names[n])) by {
            assert forall|i: int| 0 <= i < r.tools.len() implies (#[trigger] r.tools[i]).0
                != names[n] by {
                assert(r.tools[i].0 == some[i]);
                assert(names[i] != names[n]);
            }
        }
        declared_functions_become_chat_functions(
            r,
            last->Object_0,
            last,
            names[n],
            policy,
        );
        let after = Registry::empty().with_all_declared(tools, policy);
        assert(after == r.with_declared(last, policy));
        assert forall|k: int| 0 <= k < tools.len() implies {
            &&& is_chat_function(#[trigger] after.chat_tools[k], names[k])
            &&& takes_the_same(after.chat_tools[k], tools[k])
        } by {
            if k < n {
                assert(after.chat_tools[k] == after.chat_tools.drop_last()[k]);
                assert(after.chat_tools[k] == r.chat_tools[k]);
                assert(tools[k] == front[k]);
            }
        }
        assert forall|k: int| 0 <= k < tools.len() implies (#[trigger] after.tools[k]).0
            == names[k] by {
            if k < n {
                assert(after.tools[k] == after.tools.drop_last()[k]);
                assert(after.tools[k] == r.tools[k]);
            }
        }
    }
}

} // verus!
