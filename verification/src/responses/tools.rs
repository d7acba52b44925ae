//! Tool names across the chat bridge, and tool calls that a model wrote as text.

use vstd::prelude::*;

use std::borrow::Cow;

use crate::json::{
    parsed_json, printed_json, value_contents, value_from_text, value_member, value_text, Json,
    JsonView,
};
use crate::responses::types::{
    FunctionToolView, NamespaceToolParamTool, NamespaceToolParamToolView, Tool, ToolView,
};
use crate::text::{
    chars_of, concat3, contains, find_from, first_occurrence, lemma_first_occurrence, occurs,
    occurs_at, same_text, text_of, trim, trimmed,
};

verus! {

/// The flat name under which a namespaced tool is declared to the model.
pub open spec fn flat_tool_name(namespace: Seq<char>, name: Seq<char>) -> Seq<char> {
    namespace + "__"@ + name
}

/// The flat name under which a namespaced tool is declared to the model.
pub fn namespaced_chat_tool_name(namespace: &str, name: &str) -> (flat: String)
    ensures
        flat@ == flat_tool_name(namespace@, name@),
{
    concat3(namespace, "__", name)
}

/// The declared name of a namespace member.
pub open spec fn member_tool_name(member: NamespaceToolParamToolView) -> Seq<char> {
    match member {
        NamespaceToolParamToolView::Function(function) => function.name,
        NamespaceToolParamToolView::Custom(custom) => custom.name,
    }
}

/// The name of the first member of `namespace` whose flat name is `chat_name`.
pub open spec fn find_member_tool(
    namespace: Seq<char>,
    members: Seq<NamespaceToolParamToolView>,
    chat_name: Seq<char>,
) -> Option<Seq<char>>
    decreases members.len(),
{
    if members.len() == 0 {
        None
    } else if flat_tool_name(namespace, member_tool_name(members[0])) == chat_name {
        Some(member_tool_name(members[0]))
    } else {
        find_member_tool(namespace, members.drop_first(), chat_name)
    }
}

/// The name and the namespace of the first declared member whose flat name is `chat_name`.
pub open spec fn find_declared_tool(tools: Seq<ToolView>, chat_name: Seq<char>) -> Option<
    (Seq<char>, Seq<char>),
>
    decreases tools.len(),
{
    if tools.len() == 0 {
        None
    } else {
        match tools[0] {
            ToolView::Namespace(group) => match find_member_tool(
                group.name,
                group.tools,
                chat_name,
            ) {
                Some(name) => Some((name, group.name)),
                None => find_declared_tool(tools.drop_first(), chat_name),
            },
            _ => find_declared_tool(tools.drop_first(), chat_name),
        }
    }
}

/// The wire identity of a tool that the model called: the name and the namespace of its
/// declaration, or the name as it is where no namespace declares it.
pub open spec fn tool_identity(tools: Option<Seq<ToolView>>, chat_name: Seq<char>) -> (
    Seq<char>,
    Option<Seq<char>>,
) {
    let found = match tools {
        Some(declared) => find_declared_tool(declared, chat_name),
        None => None,
    };
    match found {
        Some((name, namespace)) => (name, Some(namespace)),
        None => (chat_name, None),
    }
}

/// Maps a tool name that the model called back to its wire identity.
pub fn resolve_tool_identity(tools: &Option<Vec<Tool>>, chat_name: &str) -> (identity: (
    String,
    Option<String>,
))
    ensures
        (identity.0@, identity.1.deep_view()) == tool_identity(tools.deep_view(), chat_name@),
{
    if let Some(declared) = tools {
        let ghost views = declared.deep_view();
        assert(views.skip(0) == views);
        for i in 0..declared.len()
            invariant
                tools.deep_view() == Some(views),
                views == declared.deep_view(),
                find_declared_tool(views, chat_name@) == find_declared_tool(
                    views.skip(i as int),
                    chat_name@,
                ),
        {
            assert(views.skip(i as int)[0] == declared@[i as int].deep_view());
            assert(views.skip(i as int).drop_first() == views.skip(i + 1));
            if let Tool::Namespace(group) = &declared[i] {
                let ghost members = group.tools.deep_view();
                assert(members.skip(0) == members);
                for j in 0..group.tools.len()
                    invariant
                        tools.deep_view() == Some(views),
                        i < declared@.len(),
                        views == declared.deep_view(),
                        views.skip(i as int).len() > 0,
                        views.skip(i as int)[0] == ToolView::Namespace(group.deep_view()),
                        members == group.tools.deep_view(),
                        find_declared_tool(views, chat_name@) == find_declared_tool(
                            views.skip(i as int),
                            chat_name@,
                        ),
                        find_member_tool(group.name@, members, chat_name@) == find_member_tool(
                            group.name@,
                            members.skip(j as int),
                            chat_name@,
                        ),
                {
                    assert(members.skip(j as int)[0] == group.tools@[j as int].deep_view());
                    assert(members.skip(j as int).drop_first() == members.skip(j + 1));
                    let name = match &group.tools[j] {
                        NamespaceToolParamTool::Function(function) => &function.name,
                        NamespaceToolParamTool::Custom(custom) => &custom.name,
                    };
                    let flat = namespaced_chat_tool_name(group.name.as_str(), name.as_str());
                    if same_text(flat.as_str(), chat_name) {
                        return (name.clone(), Some(group.name.clone()));
                    }
                }
            }
        }
    }
    (chat_name.to_owned(), None)
}

/// A resolved namespace member is a declared one, and its flat name is the name that the
/// model called.
pub proof fn law_resolved_name_flattens_back(tools: Seq<ToolView>, chat_name: Seq<char>)
    ensures
        match tool_identity(Some(tools), chat_name) {
            (name, Some(namespace)) => {
                &&& flat_tool_name(namespace, name) == chat_name
                &&& exists|i: int, j: int|
                    #![trigger tools[i]->Namespace_0.tools[j]]
                    {
                        &&& 0 <= i < tools.len()
                        &&& tools[i] is Namespace
                        &&& tools[i]->Namespace_0.name == namespace
                        &&& 0 <= j < tools[i]->Namespace_0.tools.len()
                        &&& member_tool_name(tools[i]->Namespace_0.tools[j]) == name
                    }
            },
            (name, None) => name == chat_name,
        },
    decreases tools.len(),
{
    if tools.len() > 0 {
        let rest = tools.drop_first();
        let found = match tools[0] {
            ToolView::Namespace(group) => find_member_tool(group.name, group.tools, chat_name),
            _ => None,
        };
        if let ToolView::Namespace(group) = tools[0] {
            lemma_find_member_tool(group.name, group.tools, chat_name);
            if found is Some {
                let j = choose|j: int|
                    0 <= j < group.tools.len() && member_tool_name(#[trigger] group.tools[j])
                        == found->0;
                assert(tools[0]->Namespace_0.tools[j] == group.tools[j]);
            }
        }
        if found is None {
            law_resolved_name_flattens_back(rest, chat_name);
            if let (name, Some(namespace)) = tool_identity(Some(rest), chat_name) {
                let (i, j) = choose|i: int, j: int|
                    #![trigger rest[i]->Namespace_0.tools[j]]
                    {
                        &&& 0 <= i < rest.len()
                        &&& rest[i] is Namespace
                        &&& rest[i]->Namespace_0.name == namespace
                        &&& 0 <= j < rest[i]->Namespace_0.tools.len()
                        &&& member_tool_name(rest[i]->Namespace_0.tools[j]) == name
                    };
                assert(tools[i + 1]->Namespace_0.tools[j] == rest[i]->Namespace_0.tools[j]);
            }
        }
    }
}

proof fn lemma_find_member_tool(
    namespace: Seq<char>,
    members: Seq<NamespaceToolParamToolView>,
    chat_name: Seq<char>,
)
    ensures
        find_member_tool(namespace, members, chat_name) matches Some(name) ==> {
            &&& flat_tool_name(namespace, name) == chat_name
            &&& exists|j: int|
                0 <= j < members.len() && member_tool_name(#[trigger] members[j]) == name
        },
        find_member_tool(namespace, members, chat_name) is None ==> forall|j: int|
            0 <= j < members.len() ==> flat_tool_name(
                namespace,
                member_tool_name(#[trigger] members[j]),
            ) != chat_name,
    decreases members.len(),
{
    if members.len() > 0 {
        let rest = members.drop_first();
        lemma_find_member_tool(namespace, rest, chat_name);
        if flat_tool_name(namespace, member_tool_name(members[0])) == chat_name {
            assert(find_member_tool(namespace, members, chat_name) == Some(
                member_tool_name(members[0]),
            ));
        } else if find_member_tool(namespace, rest, chat_name) is Some {
            let j = choose|j: int|
                0 <= j < rest.len() && member_tool_name(#[trigger] rest[j]) == find_member_tool(
                    namespace,
                    rest,
                    chat_name,
                )->0;
            assert(members[j + 1] == rest[j]);
        } else {
            assert forall|j: int| 0 <= j < members.len() implies flat_tool_name(
                namespace,
                member_tool_name(#[trigger] members[j]),
            ) != chat_name by {
                if j > 0 {
                    assert(members[j] == rest[j - 1]);
                }
            }
        }
    }
}

/// A call of any declared namespace member is resolved to some declared namespace: the
/// namespace is never lost.
pub proof fn law_declared_member_keeps_a_namespace(
    tools: Seq<ToolView>,
    i: int,
    j: int,
    chat_name: Seq<char>,
)
    requires
        0 <= i < tools.len(),
        tools[i] is Namespace,
        0 <= j < tools[i]->Namespace_0.tools.len(),
        chat_name == flat_tool_name(
            tools[i]->Namespace_0.name,
            member_tool_name(tools[i]->Namespace_0.tools[j]),
        ),
    ensures
        tool_identity(Some(tools), chat_name).1 is Some,
    decreases tools.len(),
{
    if let ToolView::Namespace(group) = tools[0] {
        lemma_find_member_tool(group.name, group.tools, chat_name);
    }
    if i > 0 {
        assert(tools.drop_first()[i - 1] == tools[i]);
        law_declared_member_keeps_a_namespace(tools.drop_first(), i - 1, j, chat_name);
    }
}

/// A tool with the `strict` flag of a function always present, by default true.
pub open spec fn normalized_tool(tool: ToolView) -> ToolView {
    match tool {
        ToolView::Function(function) if function.strict is None => ToolView::Function(
            FunctionToolView { strict: Some(true), ..function },
        ),
        _ => tool,
    }
}

/// The tools, in their order, each with the `strict` flag of a function present.
pub fn normalize_tools(tools: Vec<Tool>) -> (normal: Vec<Tool>)
    ensures
        normal.deep_view() == tools.deep_view().map_values(|tool: ToolView| normalized_tool(tool)),
{
    let mut normal: Vec<Tool> = Vec::new();
    for i in 0..tools.len()
        invariant
            normal@.len() == i,
            forall|k: int|
                0 <= k < i ==> (#[trigger] normal@[k]).deep_view() == normalized_tool(
                    tools@[k].deep_view(),
                ),
    {
        let tool = match &tools[i] {
            Tool::Function(function) => {
                let mut function = function.clone();
                if function.strict.is_none() {
                    function.strict = Some(true);
                }
                Tool::Function(function)
            },
            other => other.clone(),
        };
        normal.push(tool);
    }
    assert(normal.deep_view() =~= tools.deep_view().map_values(
        |tool: ToolView| normalized_tool(tool),
    ));
    normal
}

/// The call that the JSON text of a `<tool_call>` block describes: its name and the JSON
/// text of its arguments. A block that is no JSON, or names no function, describes none.
pub open spec fn described_call(block: Seq<char>) -> Option<(Seq<char>, Seq<char>)> {
    match parsed_json(block) {
        None => None,
        Some(tree) => call_of_tree(tree),
    }
}

/// The call that a JSON value describes.
pub open spec fn call_of_tree(tree: JsonView) -> Option<(Seq<char>, Seq<char>)> {
    call_of_parts(
        tree,
        match tree.get("arguments"@) {
            Some(arguments) => Some(printed_json(arguments)),
            None => None,
        },
    )
}

/// The call that a JSON value describes, where `printed` is the JSON text of its arguments. A
/// value that names no function describes none.
pub open spec fn call_of_parts(tree: JsonView, printed: Option<Seq<char>>) -> Option<
    (Seq<char>, Seq<char>),
> {
    match tree.get_str("name"@) {
        Some(name) if name.len() > 0 => Some(
            (name, call_arguments(tree.get("arguments"@), printed)),
        ),
        _ => None,
    }
}

/// The text of a call's arguments: a string as it stands, another value as the JSON text
/// `printed`.
pub open spec fn call_arguments(
    arguments: Option<JsonView>,
    printed: Option<Seq<char>>,
) -> Seq<char> {
    match (arguments, printed) {
        (Some(JsonView::Str(text)), _) => text,
        (Some(_), Some(text)) => text,
        _ => "{}"@,
    }
}

/// Reads the call that a JSON value describes. `printed` is the JSON text of its arguments; it
/// counts where they are no string.
pub fn call_described_by(tree: &Json, printed: Option<String>) -> (call: Option<(String, String)>)
    ensures
        call.deep_view() == call_of_parts(tree@, printed.deep_view()),
{
    let name = match tree.get_str("name") {
        Some(name) => name.clone(),
        None => return None,
    };
    if name.as_str().is_empty() {
        return None;
    }
    let arguments = match (tree.get("arguments"), printed) {
        (Some(Json::Str(text)), _) => text.clone(),
        (Some(_), Some(text)) => text,
        _ => "{}".to_owned(),
    };
    Some((name, arguments))
}

/// Reads the call that the JSON text of a block describes.
pub fn described_call_of(block: &str) -> (call: Option<(String, String)>)
    ensures
        call.deep_view() == described_call(block@),
{
    let value = match value_from_text(block) {
        Some(value) => value,
        None => return None,
    };
    let printed = match value_member(&value, "arguments") {
        Some(arguments) => Some(value_text(&arguments)),
        None => None,
    };
    call_described_by(&value_contents(&value), printed)
}

/// The calls that the `<tool_call>` blocks of `text` describe, from index `from` on. A block
/// without its closing tag ends the search.
pub open spec fn written_calls(text: Seq<char>, from: int) -> Seq<(Seq<char>, Seq<char>)>
    decreases text.len() - from,
{
    match first_occurrence(text, "<tool_call>"@, from) {
        None => seq![],
        Some(start) => {
            let body = start + "<tool_call>"@.len();
            match first_occurrence(text, "</tool_call>"@, body) {
                None => seq![],
                Some(end) => {
                    proof {
                        reveal_strlit("<tool_call>");
                        reveal_strlit("</tool_call>");
                        if 0 <= from {
                            lemma_first_occurrence(text, "<tool_call>"@, from);
                            lemma_first_occurrence(text, "</tool_call>"@, body);
                        }
                    }
                    let rest = written_calls(text, end + "</tool_call>"@.len());
                    match described_call(trim(text.subrange(body, end))) {
                        None => rest,
                        Some(call) => seq![call] + rest,
                    }
                },
            }
        },
    }
}

/// A text without an opening tag describes no call.
pub proof fn law_no_tag_means_no_call(text: Seq<char>)
    requires
        !occurs(text, "<tool_call>"@),
    ensures
        written_calls(text, 0).len() == 0,
{
    lemma_first_occurrence(text, "<tool_call>"@, 0);
}

/// Every call that is read from a text has a name.
pub proof fn law_written_calls_are_named(text: Seq<char>, from: int)
    requires
        0 <= from,
    ensures
        forall|i: int|
            0 <= i < written_calls(text, from).len() ==> (#[trigger] written_calls(
                text,
                from,
            )[i]).0.len() > 0,
    decreases text.len() - from,
{
    reveal_strlit("<tool_call>");
    reveal_strlit("</tool_call>");
    lemma_first_occurrence(text, "<tool_call>"@, from);
    if let Some(start) = first_occurrence(text, "<tool_call>"@, from) {
        let body = start + "<tool_call>"@.len();
        lemma_first_occurrence(text, "</tool_call>"@, body);
        if let Some(end) = first_occurrence(text, "</tool_call>"@, body) {
            let next = end + "</tool_call>"@.len();
            law_written_calls_are_named(text, next);
            if let Some(call) = described_call(trim(text.subrange(body, end))) {
                let all = written_calls(text, from);
                assert(all == seq![call] + written_calls(text, next));
                assert forall|i: int| 0 <= i < all.len() implies (#[trigger] all[i]).0.len() > 0 by {
                    if i > 0 {
                        assert(all[i] == written_calls(text, next)[i - 1]);
                    }
                }
            }
        }
    }
}

/// The calls that a model wrote as `<tool_call>` blocks: names and JSON arguments.
pub fn parse_tool_call_text(text: &str) -> (calls: Vec<(String, String)>)
    ensures
        calls.deep_view() == written_calls(text@, 0),
{
    let open = chars_of("<tool_call>");
    let close = chars_of("</tool_call>");
    let chars = chars_of(text);
    let mut calls: Vec<(String, String)> = Vec::new();
    let mut from: usize = 0;
    proof {
        reveal_strlit("<tool_call>");
        reveal_strlit("</tool_call>");
    }
    assert(calls.deep_view() =~= seq![]);
    loop
        invariant
            from <= chars@.len(),
            chars@ == text@,
            open@ == "<tool_call>"@,
            close@ == "</tool_call>"@,
            open@.len() > 0,
            written_calls(text@, 0) == calls.deep_view() + written_calls(text@, from as int),
        ensures
            calls.deep_view() == written_calls(text@, 0),
        decreases chars.len() - from,
    {
        let start = match find_from(&chars, &open, from) {
            Some(start) => start,
            None => {
                assert(calls.deep_view() + Seq::<(Seq<char>, Seq<char>)>::empty() =~= calls.deep_view());
                break;
            },
        };
        proof {
            lemma_first_occurrence(text@, open@, from as int);
        }
        let body: usize = start + open.len();
        let end = match find_from(&chars, &close, body) {
            Some(end) => end,
            None => {
                assert(calls.deep_view() + Seq::<(Seq<char>, Seq<char>)>::empty() =~= calls.deep_view());
                break;
            },
        };
        proof {
            lemma_first_occurrence(text@, close@, body as int);
        }
        let block = trimmed(&chars, body, end);
        let ghost before = calls.deep_view();
        let ghost rest = written_calls(text@, end + close@.len());
        if let Some(call) = described_call_of(block.as_str()) {
            let ghost view = (call.0@, call.1@);
            calls.push(call);
            assert(calls.deep_view() =~= before.push(view));
            assert(before + (seq![view] + rest) =~= before.push(view) + rest);
        }
        from = end + close.len();
    }
    calls
}

/// `text` without each run from `open` to the next `close`; from an `open` without a `close`
/// on, nothing is left.
pub open spec fn without_tag(text: Seq<char>, open: Seq<char>, close: Seq<char>) -> Seq<char>
    decreases text.len(),
        when close.len() > 0
{
    match first_occurrence(text, open, 0) {
        None => text,
        Some(start) => match first_occurrence(text, close, start) {
            None => text.take(start),
            Some(end) => {
                proof {
                    lemma_first_occurrence(text, open, 0);
                    lemma_first_occurrence(text, close, start);
                }
                without_tag(text.take(start) + text.skip(end + close.len()), open, close)
            },
        },
    }
}

/// No opening tag survives the removal of its runs.
pub proof fn law_no_opening_tag_is_left(text: Seq<char>, open: Seq<char>, close: Seq<char>)
    requires
        open.len() > 0,
        close.len() > 0,
    ensures
        !occurs(without_tag(text, open, close), open),
    decreases text.len(),
{
    lemma_first_occurrence(text, open, 0);
    if let Some(start) = first_occurrence(text, open, 0) {
        lemma_first_occurrence(text, close, start);
        match first_occurrence(text, close, start) {
            None => {
                assert forall|at: int| !occurs_at(text.take(start), open, at) by {
                    if occurs_at(text.take(start), open, at) {
                        assert(text.take(start).subrange(at, at + open.len()) == text.subrange(
                            at,
                            at + open.len(),
                        ));
                        assert(occurs_at(text, open, at));
                    }
                }
            },
            Some(end) => {
                law_no_opening_tag_is_left(
                    text.take(start) + text.skip(end + close.len()),
                    open,
                    close,
                );
            },
        }
    }
}

/// Removes each run from `open` to the next `close`.
fn strip_tag(text: String, open: &str, close: &str) -> (rest: String)
    requires
        close@.len() > 0,
    ensures
        rest@ == without_tag(text@, open@, close@),
{
    let open_chars = chars_of(open);
    let close_chars = chars_of(close);
    let mut chars = chars_of(text.as_str());
    loop
        invariant_except_break
            without_tag(text@, open@, close@) == without_tag(chars@, open@, close@),
        invariant
            open_chars@ == open@,
            close_chars@ == close@,
            close@.len() > 0,
        ensures
            chars@ == without_tag(text@, open@, close@),
        decreases chars@.len(),
    {
        let start = match find_from(&chars, &open_chars, 0) {
            Some(start) => start,
            None => break,
        };
        proof {
            lemma_first_occurrence(chars@, open@, 0);
        }
        let end = match find_from(&chars, &close_chars, start) {
            Some(end) => end,
            None => {
                chars.truncate(start);
                break;
            },
        };
        proof {
            lemma_first_occurrence(chars@, close@, start as int);
        }
        assert(end + close_chars.len() <= chars.len());
        let ghost whole = chars@;
        let mut tail = chars.split_off(end + close_chars.len());
        chars.truncate(start);
        chars.append(&mut tail);
        assert(chars@ == whole.take(start as int) + whole.skip(end + close@.len()));
    }
    text_of(&chars)
}

/// `text` without its `<tool_call>` and `<think>` runs, where it has the opening tag.
pub open spec fn without_tool_calls(text: Seq<char>) -> Seq<char> {
    let no_calls = if occurs(text, "<tool_call>"@) {
        without_tag(text, "<tool_call>"@, "</tool_call>"@)
    } else {
        text
    };
    if occurs(text, "<think>"@) {
        without_tag(no_calls, "<think>"@, "</think>"@)
    } else {
        no_calls
    }
}

/// Removes the `<tool_call>` and the `<think>` runs from a text. A text with neither opening
/// tag is handed back as it is.
pub fn strip_tool_call_text(text: &str) -> (rest: Cow<'_, str>)
    ensures
        rest@ == without_tool_calls(text@),
        rest is Borrowed <==> !occurs(text@, "<tool_call>"@) && !occurs(text@, "<think>"@),
        rest matches Cow::Borrowed(same) ==> same == text,
{
    let has_tool = contains(text, "<tool_call>");
    let has_think = contains(text, "<think>");
    if !has_tool && !has_think {
        return Cow::Borrowed(text);
    }
    proof {
        reveal_strlit("</tool_call>");
        reveal_strlit("</think>");
    }
    let mut rest = text.to_owned();
    if has_tool {
        rest = strip_tag(rest, "<tool_call>", "</tool_call>");
    }
    if has_think {
        rest = strip_tag(rest, "<think>", "</think>");
    }
    Cow::Owned(rest)
}

} // verus!
