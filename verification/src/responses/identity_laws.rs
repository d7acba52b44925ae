//! Which declared tool a name that the model called stands for.

use vstd::prelude::*;

use crate::responses::tools::{find_declared_tool, find_member_tool, tool_identity};
use crate::responses::types::{NamespaceToolParamToolView, ToolView};

verus! {

/// The name that a member of a namespace is declared under.
pub open spec fn declared_name(member: NamespaceToolParamToolView) -> Seq<char> {
    match member {
        NamespaceToolParamToolView::Function(function) => function.name,
        NamespaceToolParamToolView::Custom(custom) => custom.name,
    }
}

/// Whether member `j` of tool `i` goes by `chat_name`: the namespace, two underscores, the name.
pub open spec fn declared_at(
    tools: Seq<ToolView>,
    i: int,
    j: int,
    chat_name: Seq<char>,
) -> bool {
    &&& 0 <= i < tools.len()
    &&& tools[i] matches ToolView::Namespace(group) && {
        &&& 0 <= j < group.tools.len()
        &&& group.name + "__"@ + declared_name(group.tools[j]) == chat_name
    }
}

/// Whether no member before member `j` of tool `i` goes by `chat_name`.
pub open spec fn none_before(
    tools: Seq<ToolView>,
    i: int,
    j: int,
    chat_name: Seq<char>,
) -> bool {
    forall|k: int, l: int|
        k < i || (k == i && l < j) ==> !#[trigger] declared_at(tools, k, l, chat_name)
}

/// Whether a name and a namespace are what `chat_name` stands for: the first declared member
/// that goes by it, or the name itself, without a namespace, where no member does.
pub open spec fn stands_for(
    tools: Option<Seq<ToolView>>,
    chat_name: Seq<char>,
    name: Seq<char>,
    namespace: Option<Seq<char>>,
) -> bool {
    match tools {
        Some(all) => {
            ||| exists|i: int, j: int|
                {
                    &&& #[trigger] declared_at(all, i, j, chat_name)
                    &&& none_before(all, i, j, chat_name)
                    &&& name == declared_name(all[i]->Namespace_0.tools[j])
                    &&& namespace == Some(all[i]->Namespace_0.name)
                }
            ||| {
                &&& forall|i: int, j: int| !#[trigger] declared_at(all, i, j, chat_name)
                &&& name == chat_name
                &&& namespace is None
            }
        },
        None => name == chat_name && namespace is None,
    }
}

proof fn lemma_member(
    namespace: Seq<char>,
    members: Seq<NamespaceToolParamToolView>,
    chat_name: Seq<char>,
) -> (at: int)
    ensures
        match find_member_tool(namespace, members, chat_name) {
            Some(name) => {
                &&& 0 <= at < members.len()
                &&& namespace + "__"@ + declared_name(members[at]) == chat_name
                &&& name == declared_name(members[at])
                &&& forall|l: int|
                    0 <= l < at ==> namespace + "__"@ + declared_name(#[trigger] members[l])
                        != chat_name
            },
            None => forall|l: int|
                0 <= l < members.len() ==> namespace + "__"@ + declared_name(#[trigger] members[l])
                    != chat_name,
        },
    decreases members.len(),
{
    if members.len() == 0 {
        0
    } else if find_member_tool(namespace, members, chat_name) == Some(declared_name(members[0]))
        && namespace + "__"@ + declared_name(members[0]) == chat_name {
        0
    } else {
        let rest = members.drop_first();
        let at = lemma_member(namespace, rest, chat_name);
        assert forall|l: int| 0 < l < members.len() implies #[trigger] members[l] == rest[l
            - 1] by {}
        at + 1
    }
}

proof fn lemma_shifted(tools: Seq<ToolView>, chat_name: Seq<char>)
    requires
        tools.len() > 0,
    ensures
        forall|i: int, j: int|
            i > 0 ==> #[trigger] declared_at(tools, i, j, chat_name) == declared_at(
                tools.drop_first(),
                i - 1,
                j,
                chat_name,
            ),
        forall|i: int, j: int|
            i >= 0 ==> #[trigger] declared_at(tools.drop_first(), i, j, chat_name)
                == declared_at(tools, i + 1, j, chat_name),
{
}

proof fn lemma_declared(tools: Seq<ToolView>, chat_name: Seq<char>)
    ensures
        match find_declared_tool(tools, chat_name) {
            Some((name, namespace)) => exists|i: int, j: int|
                {
                    &&& #[trigger] declared_at(tools, i, j, chat_name)
                    &&& none_before(tools, i, j, chat_name)
                    &&& name == declared_name(tools[i]->Namespace_0.tools[j])
                    &&& namespace == tools[i]->Namespace_0.name
                },
            None => forall|i: int, j: int| !#[trigger] declared_at(tools, i, j, chat_name),
        },
    decreases tools.len(),
{
    if tools.len() > 0 {
        let rest = tools.drop_first();
        let here = match tools[0] {
            ToolView::Namespace(group) => find_member_tool(group.name, group.tools, chat_name),
            _ => None,
        };
        if let ToolView::Namespace(group) = tools[0] {
            let at = lemma_member(group.name, group.tools, chat_name);
            if here is Some {
                assert(declared_at(tools, 0, at, chat_name));
                assert(none_before(tools, 0, at, chat_name));
            }
        }
        if here is None {
            assert forall|j: int| !#[trigger] declared_at(tools, 0, j, chat_name) by {}
            lemma_shifted(tools, chat_name);
            lemma_declared(rest, chat_name);
            if find_declared_tool(rest, chat_name) is Some {
                let found = find_declared_tool(rest, chat_name)->0;
                let (i, j) = choose|i: int, j: int|
                    {
                        &&& #[trigger] declared_at(rest, i, j, chat_name)
                        &&& none_before(rest, i, j, chat_name)
                        &&& found.0 == declared_name(rest[i]->Namespace_0.tools[j])
                        &&& found.1 == rest[i]->Namespace_0.name
                    };
                assert(declared_at(tools, i + 1, j, chat_name));
                assert forall|k: int, l: int|
                    k < i + 1 || (k == i + 1 && l < j) implies !#[trigger] declared_at(
                    tools,
                    k,
                    l,
                    chat_name,
                ) by {
                    if k > 0 {
                        assert(!declared_at(rest, k - 1, l, chat_name));
                    }
                }
            } else {
                assert forall|i: int, j: int| !#[trigger] declared_at(tools, i, j, chat_name) by {
                    if i > 0 {
                        assert(!declared_at(rest, i - 1, j, chat_name));
                    }
                }
            }
        }
    }
}

/// A name that the model called is told to the client as the first declared member that goes by
/// it, with its namespace, and as it is where there is none.
pub proof fn law_called_names_stand_for_declared_tools(
    tools: Option<Seq<ToolView>>,
    chat_name: Seq<char>,
)
    ensures
        stands_for(
            tools,
            chat_name,
            tool_identity(tools, chat_name).0,
            tool_identity(tools, chat_name).1,
        ),
{
    if let Some(all) = tools {
        lemma_declared(all, chat_name);
    }
}

/// A called name stands for one tool.
pub proof fn law_called_names_stand_for_one_tool(
    tools: Option<Seq<ToolView>>,
    chat_name: Seq<char>,
    name: Seq<char>,
    namespace: Option<Seq<char>>,
    other: Seq<char>,
    elsewhere: Option<Seq<char>>,
)
    requires
        stands_for(tools, chat_name, name, namespace),
        stands_for(tools, chat_name, other, elsewhere),
    ensures
        name == other,
        namespace == elsewhere,
{
    if let Some(all) = tools {
        if exists|i: int, j: int| #[trigger] declared_at(all, i, j, chat_name) {
            let (i, j) = choose|i: int, j: int|
                {
                    &&& #[trigger] declared_at(all, i, j, chat_name)
                    &&& none_before(all, i, j, chat_name)
                    &&& name == declared_name(all[i]->Namespace_0.tools[j])
                    &&& namespace == Some(all[i]->Namespace_0.name)
                };
            let (k, l) = choose|k: int, l: int|
                {
                    &&& #[trigger] declared_at(all, k, l, chat_name)
                    &&& none_before(all, k, l, chat_name)
                    &&& other == declared_name(all[k]->Namespace_0.tools[l])
                    &&& elsewhere == Some(all[k]->Namespace_0.name)
                };
            assert(declared_at(all, i, j, chat_name));
            assert(declared_at(all, k, l, chat_name));
        }
    }
}

} // verus!
