//! Chat messages in the form that OpenAI-compatible servers take.
use crate::json;
use crate::json::{Json, JsonView};
use crate::text;
use vstd::prelude::*;
use vstd::string::*;

verus! {

/// A text, or another one where it is missing.
pub open spec fn or_text(s: Option<Seq<char>>, other: Seq<char>) -> Seq<char> {
    match s {
        Some(s) => s,
        None => other,
    }
}

/// The member of the given name, or `null`.
pub open spec fn member_or_null(v: JsonView, key: Seq<char>) -> JsonView {
    match json::member(v, key) {
        Some(value) => value,
        None => JsonView::Null,
    }
}

/// The arguments of a tool call as text: a text as it is, anything else as JSON.
pub open spec fn arguments_text(arguments: JsonView) -> Seq<char> {
    match arguments {
        JsonView::Text(s) => s,
        other => json::compact_json(other),
    }
}

/// The name of a tool call that has none: the place of the message and of the call.
pub open spec fn numbered_call(index: nat, tool_index: nat) -> Seq<char> {
    "call_"@ + text::decimal(index) + "_"@ + text::decimal(tool_index)
}

/// A tool call of the message at `index`.
pub open spec fn openai_tool_call(index: nat, tool_index: nat, call: JsonView) -> JsonView {
    let function = member_or_null(call, "function"@);
    json::with_member(
        json::with_member(
            json::with_member(
                json::empty_object(),
                "id"@,
                JsonView::Text(
                    or_text(json::text_member(call, "id"@), numbered_call(index, tool_index)),
                ),
            ),
            "type"@,
            JsonView::Text("function"@),
        ),
        "function"@,
        json::with_member(
            json::with_member(
                json::empty_object(),
                "name"@,
                member_or_null(function, "name"@),
            ),
            "arguments"@,
            JsonView::Text(arguments_text(member_or_null(function, "arguments"@))),
        ),
    )
}

/// What an assistant said: `null` where it only called tools.
pub open spec fn assistant_content(message: JsonView) -> JsonView {
    let content = or_text(json::text_member(message, "content"@), Seq::empty());
    if content.len() == 0 && json::member(message, "tool_calls"@) is Some {
        JsonView::Null
    } else {
        JsonView::Text(content)
    }
}

/// A message of somebody in a role.
pub open spec fn spoken(role: Seq<char>, content: JsonView) -> JsonView {
    json::with_member(
        json::with_member(json::empty_object(), "role"@, JsonView::Text(role)),
        "content"@,
        content,
    )
}

/// The message at `index` in the form that OpenAI-compatible servers take.
pub open spec fn openai_message(index: nat, message: JsonView) -> JsonView {
    let role = or_text(json::text_member(message, "role"@), "user"@);
    let content = or_text(json::text_member(message, "content"@), Seq::empty());
    if role == "assistant"@ {
        let said = spoken("assistant"@, assistant_content(message));
        match json::member(message, "tool_calls"@) {
            Some(JsonView::List(calls)) => json::with_member(
                said,
                "tool_calls"@,
                JsonView::List(
                    Seq::new(
                        calls.len(),
                        |i: int| openai_tool_call(index, i as nat, calls[i]),
                    ),
                ),
            ),
            _ => said,
        }
    } else if role == "tool"@ {
        match json::text_member(message, "tool_call_id"@) {
            Some(id) => json::with_member(
                spoken("tool"@, JsonView::Text(content)),
                "tool_call_id"@,
                JsonView::Text(id),
            ),
            None => spoken(
                "user"@,
                JsonView::Text(
                    "Tool "@ + or_text(json::text_member(message, "tool_name"@), "unknown"@)
                        + " returned:\n"@ + content,
                ),
            ),
        }
    } else {
        spoken(role, JsonView::Text(content))
    }
}

/// The messages in the form that OpenAI-compatible servers take.
pub open spec fn openai_messages(messages: Seq<JsonView>) -> Seq<JsonView> {
    Seq::new(messages.len(), |i: int| openai_message(i as nat, messages[i]))
}

/// The text of a member, or another one where it is none.
fn text_or(message: &Json, key: &str, other: &str) -> (r: String)
    ensures
        r@ == or_text(json::text_member(message@, key@), other@),
{
    match message.get_text(key) {
        Some(s) => s.clone(),
        None => other.to_owned(),
    }
}

/// The text of a member, or nothing where it is none.
fn text_or_empty(message: &Json, key: &str) -> (r: String)
    ensures
        r@ == or_text(json::text_member(message@, key@), Seq::empty()),
{
    match message.get_text(key) {
        Some(s) => s.clone(),
        None => String::new(),
    }
}

/// The member of the given name, or `null`.
fn get_or_null(value: &Json, key: &str) -> (r: Json)
    ensures
        r@ == member_or_null(value@, key@),
{
    match value.get(key) {
        Some(value) => value.clone(),
        None => Json::Null,
    }
}

/// The arguments of a tool call as text: a text as it is, anything else as JSON, which
/// reads back.
pub fn stringify_tool_arguments(arguments: &Json) -> (r: String)
    ensures
        r@ == arguments_text(arguments@),
        !(arguments@ is Text) && json::reads_back(arguments@) ==> json::parsed_json(r@) == Some(
            arguments@,
        ),
{
    match arguments {
        Json::Text(s) => s.clone(),
        other => json::json_string(other),
    }
}

/// What an assistant said: `null` where it only called tools.
pub fn assistant_content_for_openai(message: &Json) -> (r: Json)
    ensures
        r@ == assistant_content(message@),
{
    let content: String = text_or_empty(message, "content");
    if content.as_str().is_empty() && message.get("tool_calls").is_some() {
        Json::Null
    } else {
        Json::Text(content)
    }
}

/// The name of a tool call that has none.
fn number_call(index: usize, tool_index: usize) -> (r: String)
    ensures
        r@ == numbered_call(index as nat, tool_index as nat),
{
    let mut out: String = "call_".to_owned();
    out.append(text::decimal_text(index as u128).as_str());
    out.append("_");
    out.append(text::decimal_text(tool_index as u128).as_str());
    out
}

/// A tool call of the message at `index`.
fn map_tool_call(index: usize, tool_index: usize, call: &Json) -> (r: Json)
    ensures
        r@ == openai_tool_call(index as nat, tool_index as nat, call@),
{
    let id: String = match call.get_text("id") {
        Some(id) => id.clone(),
        None => number_call(index, tool_index),
    };
    let function: Json = get_or_null(call, "function");
    let arguments: String = stringify_tool_arguments(&get_or_null(&function, "arguments"));
    Json::object().with("id", Json::Text(id)).with("type", Json::text("function")).with(
        "function",
        Json::object().with("name", get_or_null(&function, "name")).with(
            "arguments",
            Json::Text(arguments),
        ),
    )
}

/// The message at `index` in the form that OpenAI-compatible servers take.
pub fn map_message_for_openai(index: usize, message: &Json) -> (r: Json)
    ensures
        r@ == openai_message(index as nat, message@),
{
    let role: String = text_or(message, "role", "user");
    if text::same_text(role.as_str(), "assistant") {
        let said: Json = Json::object().with("role", Json::text("assistant")).with(
            "content",
            assistant_content_for_openai(message),
        );
        match message.get("tool_calls") {
            Some(Json::List(calls)) => {
                let ghost all = json::list_view(calls@);
                let mut mapped: Vec<Json> = Vec::new();
                let mut i: usize = 0;
                proof {
                    json::lemma_list_view(calls@);
                }
                while i < calls.len()
                    invariant
                        i <= calls@.len(),
                        all == json::list_view(calls@),
                        all.len() == calls@.len(),
                        json::list_view(mapped@) == Seq::new(
                            i as nat,
                            |k: int| openai_tool_call(index as nat, k as nat, all[k]),
                        ),
                    decreases calls@.len() - i,
                {
                    let call: Json = map_tool_call(index, i, &calls[i]);
                    proof {
                        json::lemma_list_view(calls@);
                        json::lemma_list_view_push(mapped@, call);
                        assert(json::list_view(mapped@.push(call)) =~= Seq::new(
                            (i + 1) as nat,
                            |k: int| openai_tool_call(index as nat, k as nat, all[k]),
                        ));
                    }
                    mapped.push(call);
                    i += 1;
                }
                said.with("tool_calls", Json::List(mapped))
            },
            _ => said,
        }
    } else if text::same_text(role.as_str(), "tool") {
        let content: String = text_or_empty(message, "content");
        match message.get_text("tool_call_id") {
            Some(id) => Json::object().with("role", Json::text("tool")).with(
                "content",
                Json::Text(content),
            ).with("tool_call_id", Json::Text(id.clone())),
            None => {
                let mut said: String = "Tool ".to_owned();
                said.append(text_or(message, "tool_name", "unknown").as_str());
                said.append(" returned:\n");
                said.append(content.as_str());
                Json::object().with("role", Json::text("user")).with("content", Json::Text(said))
            },
        }
    } else {
        let content: String = text_or_empty(message, "content");
        Json::object().with("role", Json::Text(role)).with("content", Json::Text(content))
    }
}

/// The messages in the form that OpenAI-compatible servers take.
pub fn map_messages_for_openai(messages: &Vec<Json>) -> (r: Vec<Json>)
    ensures
        json::list_view(r@) == openai_messages(json::list_view(messages@)),
{
    let ghost all = json::list_view(messages@);
    let mut mapped: Vec<Json> = Vec::new();
    let mut i: usize = 0;
    proof {
        json::lemma_list_view(messages@);
        assert(openai_messages(all).take(0) =~= Seq::<JsonView>::empty());
    }
    while i < messages.len()
        invariant
            i <= messages@.len(),
            all == json::list_view(messages@),
            all.len() == messages@.len(),
            json::list_view(mapped@) == openai_messages(all).take(i as int),
        decreases messages@.len() - i,
    {
        let message: Json = map_message_for_openai(i, &messages[i]);
        proof {
            json::lemma_list_view(messages@);
            json::lemma_list_view_push(mapped@, message);
            assert(openai_messages(all).take(i + 1) =~= openai_messages(all).take(i as int).push(
                message@,
            ));
        }
        mapped.push(message);
        i += 1;
    }
    assert(openai_messages(all).take(all.len() as int) =~= openai_messages(all));
    mapped
}

// ---------------------------------------------------------------------------
// Laws
// ---------------------------------------------------------------------------

proof fn lemma_roles_differ()
    ensures
        "role"@ != "content"@,
        "role"@ != "tool_calls"@,
        "role"@ != "tool_call_id"@,
        "content"@ != "tool_calls"@,
        "content"@ != "tool_call_id"@,
        "assistant"@ != "tool"@,
        "user"@ != "tool"@,
        "user"@ != "assistant"@,
{
    reveal_strlit("role");
    reveal_strlit("content");
    reveal_strlit("tool_calls");
    reveal_strlit("tool_call_id");
    reveal_strlit("assistant");
    reveal_strlit("tool");
    reveal_strlit("user");
    assert("role"@.len() == 4);
    assert("content"@.len() == 7);
    assert("tool_calls"@.len() == 10);
    assert("tool_call_id"@.len() == 12);
    assert("assistant"@.len() == 9);
    assert("tool"@.len() == 4);
    assert("user"@.len() == 4);
    assert("tool"@[0] != "user"@[0]);
}

/// The answer of a tool keeps the name of the call that it answers.
pub proof fn tool_answers_keep_their_call(index: nat, message: JsonView, id: Seq<char>)
    requires
        json::text_member(message, "role"@) == Some("tool"@),
        json::text_member(message, "tool_call_id"@) == Some(id),
    ensures
        json::text_member(openai_message(index, message), "role"@) == Some("tool"@),
        json::text_member(openai_message(index, message), "tool_call_id"@) == Some(id),
        json::text_member(openai_message(index, message), "content"@) == Some(
            or_text(json::text_member(message, "content"@), Seq::empty()),
        ),
{
    lemma_roles_differ();
}

/// A message keeps its role, unless it is the answer of a tool to no named call: that
/// is told as a message of the user.
pub proof fn messages_keep_their_role(index: nat, message: JsonView)
    ensures
        json::text_member(openai_message(index, message), "role"@) == Some(
            if json::text_member(message, "role"@) == Some("tool"@) && json::text_member(
                message,
                "tool_call_id"@,
            ) is None {
                "user"@
            } else {
                or_text(json::text_member(message, "role"@), "user"@)
            },
        ),
{
    lemma_roles_differ();
}

/// An assistant's tool calls are kept, one for one and in order.
pub proof fn tool_calls_are_kept(index: nat, message: JsonView, calls: Seq<JsonView>)
    requires
        json::text_member(message, "role"@) == Some("assistant"@),
        json::member(message, "tool_calls"@) == Some(JsonView::List(calls)),
    ensures
        json::member(openai_message(index, message), "tool_calls"@) matches Some(
            JsonView::List(mapped),
        ) && mapped.len() == calls.len() && forall|i: int|
            0 <= i < calls.len() ==> #[trigger] mapped[i] == openai_tool_call(
                index,
                i as nat,
                calls[i],
            ),
{
    lemma_roles_differ();
}

/// Calls without a name get names that tell them apart, in the whole conversation.
pub proof fn numbered_calls_differ(index: nat, tool_index: nat, other: nat, other_tool: nat)
    requires
        numbered_call(index, tool_index) == numbered_call(other, other_tool),
    ensures
        index == other,
        tool_index == other_tool,
{
    reveal_strlit("call_");
    reveal_strlit("_");
    let a = text::decimal(index);
    let b = text::decimal(other);
    let c = text::decimal(tool_index);
    let d = text::decimal(other_tool);
    let left = numbered_call(index, tool_index);
    let right = numbered_call(other, other_tool);
    text::lemma_decimal_digits(index);
    text::lemma_decimal_digits(other);
    if a.len() < b.len() {
        assert(left[5int + a.len()] == '_');
        assert(right[5int + a.len()] == b[a.len() as int]);
    }
    if b.len() < a.len() {
        assert(right[5int + b.len()] == '_');
        assert(left[5int + b.len()] == a[b.len() as int]);
    }
    assert(a =~= left.subrange(5, 5int + a.len()));
    assert(b =~= right.subrange(5, 5int + b.len()));
    assert(c =~= left.skip(6int + a.len()));
    assert(d =~= right.skip(6int + b.len()));
    text::decimals_differ(index, other);
    text::decimals_differ(tool_index, other_tool);
}

/// A message of somebody who is neither an assistant nor a tool keeps its role and its
/// content, character for character, and says nothing else. Without a role it is one of the
/// user, and without a content it is empty.
pub proof fn ordinary_messages_keep_their_content(index: nat, message: JsonView, key: Seq<char>)
    requires
        json::text_member(message, "role"@) != Some("assistant"@),
        json::text_member(message, "role"@) != Some("tool"@),
    ensures
        ({
            let sent = openai_message(index, message);
            &&& match json::member(message, "role"@) {
                Some(JsonView::Text(role)) => json::member(sent, "role"@) == Some(
                    JsonView::Text(role),
                ),
                _ => json::member(sent, "role"@) == Some(JsonView::Text("user"@)),
            }
            &&& match json::member(message, "content"@) {
                Some(JsonView::Text(content)) => json::member(sent, "content"@) == Some(
                    JsonView::Text(content),
                ),
                _ => json::member(sent, "content"@) == Some(JsonView::Text(Seq::empty())),
            }
            &&& key != "role"@ && key != "content"@ ==> json::member(sent, key) is None
        }),
{
    lemma_roles_differ();
}

/// What an assistant said is sent as it was said. Where it said nothing and called tools,
/// `null` stands in the place of the content. Tool calls are sent only where there is a list
/// of them.
pub proof fn assistants_keep_their_content(index: nat, message: JsonView, key: Seq<char>)
    requires
        json::text_member(message, "role"@) == Some("assistant"@),
    ensures
        ({
            let sent = openai_message(index, message);
            let silent = if json::member(message, "tool_calls"@) is Some {
                JsonView::Null
            } else {
                JsonView::Text(Seq::empty())
            };
            &&& json::member(sent, "role"@) == Some(JsonView::Text("assistant"@))
            &&& match json::member(message, "content"@) {
                Some(JsonView::Text(content)) => json::member(sent, "content"@) == Some(
                    if content.len() == 0 {
                        silent
                    } else {
                        JsonView::Text(content)
                    },
                ),
                _ => json::member(sent, "content"@) == Some(silent),
            }
            &&& json::member(sent, "content"@) == Some(assistant_content(message))
            &&& json::member(sent, "tool_calls"@) is Some <==> (json::member(
                message,
                "tool_calls"@,
            ) matches Some(JsonView::List(_)))
            &&& key != "role"@ && key != "content"@ && key != "tool_calls"@ ==> json::member(
                sent,
                key,
            ) is None
        }),
{
    lemma_roles_differ();
    if let Some(JsonView::Text(content)) = json::member(message, "content"@) {
        if content.len() == 0 {
            assert(content =~= Seq::<char>::empty());
        }
    }
}

/// The answer of a tool is sent as it was given: to its call, where that has a name, and
/// otherwise as a message of the user that names the tool.
pub proof fn tool_answers_keep_their_content(
    index: nat,
    message: JsonView,
    content: Seq<char>,
    key: Seq<char>,
)
    requires
        json::text_member(message, "role"@) == Some("tool"@),
        match json::member(message, "content"@) {
            Some(JsonView::Text(given)) => content == given,
            _ => content.len() == 0,
        },
    ensures
        ({
            let sent = openai_message(index, message);
            match json::member(message, "tool_call_id"@) {
                Some(JsonView::Text(id)) => {
                    &&& json::member(sent, "role"@) == Some(JsonView::Text("tool"@))
                    &&& json::member(sent, "content"@) == Some(JsonView::Text(content))
                    &&& json::member(sent, "tool_call_id"@) == Some(JsonView::Text(id))
                    &&& key != "role"@ && key != "content"@ && key != "tool_call_id"@
                        ==> json::member(sent, key) is None
                },
                _ => {
                    &&& json::member(sent, "role"@) == Some(JsonView::Text("user"@))
                    &&& json::member(sent, "content"@) == Some(
                        JsonView::Text(
                            match json::member(message, "tool_name"@) {
                                Some(JsonView::Text(name)) => "Tool "@ + name + " returned:\n"@
                                    + content,
                                _ => "Tool unknown returned:\n"@ + content,
                            },
                        ),
                    )
                    &&& key != "role"@ && key != "content"@ ==> json::member(sent, key) is None
                },
            }
        }),
{
    lemma_roles_differ();
    reveal_strlit("Tool ");
    reveal_strlit("unknown");
    reveal_strlit(" returned:\n");
    reveal_strlit("Tool unknown returned:\n");
    if content.len() == 0 {
        assert(content =~= Seq::<char>::empty());
    }
    assert("Tool "@ + "unknown"@ + " returned:\n"@ =~= "Tool unknown returned:\n"@);
}

proof fn lemma_call_names_differ()
    ensures
        "id"@ != "type"@,
        "id"@ != "function"@,
        "type"@ != "function"@,
        "name"@ != "arguments"@,
{
    reveal_strlit("id");
    reveal_strlit("type");
    reveal_strlit("function");
    reveal_strlit("name");
    reveal_strlit("arguments");
    assert("id"@.len() == 2);
    assert("type"@.len() == 4);
    assert("function"@.len() == 8);
    assert("name"@.len() == 4);
    assert("arguments"@.len() == 9);
}

/// A tool call keeps its name, the name of its function, and its arguments: a text as it
/// is, anything else as JSON. A call without a name is named by the places of its message
/// and of itself.
pub proof fn calls_keep_name_and_arguments(
    index: nat,
    tool_index: nat,
    call: JsonView,
    key: Seq<char>,
)
    ensures
        ({
            let sent = openai_tool_call(index, tool_index, call);
            let told = json::member(sent, "function"@)->0;
            let known = match json::member(call, "function"@) {
                Some(function) => function,
                None => JsonView::Null,
            };
            &&& match json::member(call, "id"@) {
                Some(JsonView::Text(id)) => json::member(sent, "id"@) == Some(JsonView::Text(id)),
                _ => json::member(sent, "id"@) == Some(
                    JsonView::Text(
                        "call_"@ + text::decimal(index) + "_"@ + text::decimal(tool_index),
                    ),
                ),
            }
            &&& json::member(sent, "type"@) == Some(JsonView::Text("function"@))
            &&& json::member(sent, "function"@) is Some
            &&& match json::member(known, "name"@) {
                Some(name) => json::member(told, "name"@) == Some(name),
                None => json::member(told, "name"@) == Some(JsonView::Null),
            }
            &&& match json::member(known, "arguments"@) {
                Some(JsonView::Text(arguments)) => json::member(told, "arguments"@) == Some(
                    JsonView::Text(arguments),
                ),
                Some(arguments) => json::member(told, "arguments"@) == Some(
                    JsonView::Text(json::compact_json(arguments)),
                ),
                None => json::member(told, "arguments"@) == Some(
                    JsonView::Text(json::compact_json(JsonView::Null)),
                ),
            }
            &&& key != "id"@ && key != "type"@ && key != "function"@ ==> json::member(
                sent,
                key,
            ) is None
            &&& key != "name"@ && key != "arguments"@ ==> json::member(told, key) is None
        }),
{
    lemma_call_names_differ();
}

/// Each message of a conversation is sent, in its place.
pub proof fn messages_keep_their_place(messages: Seq<JsonView>, i: int)
    requires
        0 <= i < messages.len(),
    ensures
        openai_messages(messages).len() == messages.len(),
        openai_messages(messages)[i] == openai_message(i as nat, messages[i]),
{
}

/// Arguments that are a text are sent as that text, others as JSON.
pub proof fn arguments_are_sent_as_text(s: Seq<char>, other: JsonView)
    ensures
        arguments_text(JsonView::Text(s)) == s,
        !(other is Text) ==> arguments_text(other) == json::compact_json(other),
{
}

}
