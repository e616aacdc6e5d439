//! Gathering the answer of a model from the decoded documents of a stream.
use crate::json;
use crate::json::{Json, JsonView};
use crate::list;
use crate::text;
use vstd::prelude::*;
use vstd::string::*;

verus! {

// ---------------------------------------------------------------------------
// Tool calls
// ---------------------------------------------------------------------------

/// A call of a tool that a model asks for.
pub struct ToolUseCall {
    pub id: Option<String>,
    pub name: String,
    pub arguments: Json,
}

/// What a tool call says.
pub struct ToolUseView {
    pub id: Option<Seq<char>>,
    pub name: Seq<char>,
    pub arguments: JsonView,
}

impl View for ToolUseCall {
    type V = ToolUseView;

    open spec fn view(&self) -> ToolUseView {
        ToolUseView {
            id: json::opt_text(self.id),
            name: self.name@,
            arguments: self.arguments@,
        }
    }
}

/// What tool calls say.
pub open spec fn calls_view(calls: Seq<ToolUseCall>) -> Seq<ToolUseView> {
    Seq::new(calls.len(), |i: int| calls[i]@)
}

/// A tool call of which parts have arrived.
pub struct PartialToolCall {
    pub id: Option<String>,
    pub name: String,
    pub arguments: String,
}

/// What has arrived of a tool call.
pub struct PartialView {
    pub id: Option<Seq<char>>,
    pub name: Seq<char>,
    pub arguments: Seq<char>,
}

impl View for PartialToolCall {
    type V = PartialView;

    open spec fn view(&self) -> PartialView {
        PartialView { id: json::opt_text(self.id), name: self.name@, arguments: self.arguments@ }
    }
}

/// What has arrived of tool calls.
pub open spec fn partials_view(calls: Seq<PartialToolCall>) -> Seq<PartialView> {
    Seq::new(calls.len(), |i: int| calls[i]@)
}

/// A tool call of which nothing has arrived.
pub open spec fn no_call() -> PartialView {
    PartialView { id: None, name: Seq::empty(), arguments: Seq::empty() }
}

// ---------------------------------------------------------------------------
// What an OpenAI-compatible server sends
// ---------------------------------------------------------------------------

/// A part of the function of a tool call.
pub struct OpenAIStreamFunctionCall {
    pub name: Option<String>,
    pub arguments: Option<String>,
}

/// A part of a tool call.
pub struct OpenAIStreamToolCall {
    pub index: Option<usize>,
    pub id: Option<String>,
    pub function: Option<OpenAIStreamFunctionCall>,
}

/// A part of an answer.
pub struct OpenAIStreamDelta {
    pub content: Option<String>,
    pub tool_calls: Option<Vec<OpenAIStreamToolCall>>,
}

/// A part of one of the answers.
pub struct OpenAIStreamChoice {
    pub delta: OpenAIStreamDelta,
}

/// A document of the stream.
pub struct OpenAIStreamResponse {
    pub choices: Vec<OpenAIStreamChoice>,
}

/// What a part of a tool call adds.
pub struct CallPartView {
    pub index: Option<nat>,
    pub id: Option<Seq<char>>,
    pub name: Seq<char>,
    pub arguments: Seq<char>,
}

/// A text, or the empty one.
pub open spec fn or_empty(s: Option<String>) -> Seq<char> {
    match s {
        Some(s) => s@,
        None => Seq::empty(),
    }
}

impl View for OpenAIStreamToolCall {
    type V = CallPartView;

    open spec fn view(&self) -> CallPartView {
        CallPartView {
            index: match self.index {
                Some(index) => Some(index as nat),
                None => None,
            },
            id: json::opt_text(self.id),
            name: match self.function {
                Some(function) => or_empty(function.name),
                None => Seq::empty(),
            },
            arguments: match self.function {
                Some(function) => or_empty(function.arguments),
                None => Seq::empty(),
            },
        }
    }
}

/// What a part of an answer adds.
pub struct DeltaView {
    pub content: Seq<char>,
    pub calls: Seq<CallPartView>,
}

/// What parts of tool calls add.
pub open spec fn call_parts_view(calls: Seq<OpenAIStreamToolCall>) -> Seq<CallPartView> {
    Seq::new(calls.len(), |i: int| calls[i]@)
}

impl View for OpenAIStreamChoice {
    type V = DeltaView;

    open spec fn view(&self) -> DeltaView {
        DeltaView {
            content: or_empty(self.delta.content),
            calls: match self.delta.tool_calls {
                Some(calls) => call_parts_view(calls@),
                None => Seq::empty(),
            },
        }
    }
}

/// What the choices of a document add.
pub open spec fn deltas_view(choices: Seq<OpenAIStreamChoice>) -> Seq<DeltaView> {
    Seq::new(choices.len(), |i: int| choices[i]@)
}

// ---------------------------------------------------------------------------
// Gathering an answer
// ---------------------------------------------------------------------------

/// The text that parts of an answer add.
pub open spec fn added_text(deltas: Seq<DeltaView>) -> Seq<char>
    decreases deltas.len(),
{
    if deltas.len() == 0 {
        Seq::empty()
    } else {
        added_text(deltas.drop_last()) + deltas.last().content
    }
}

/// A tool call with a part added: a new id replaces the old one, the function's name and
/// arguments grow.
pub open spec fn extended_call(call: PartialView, part: CallPartView) -> PartialView {
    PartialView {
        id: match part.id {
            Some(id) => Some(id),
            None => call.id,
        },
        name: call.name + part.name,
        arguments: call.arguments + part.arguments,
    }
}

/// Tool calls, with empty ones added so that there is one at `index`.
pub open spec fn with_slot(calls: Seq<PartialView>, index: nat) -> Seq<PartialView> {
    if index < calls.len() {
        calls
    } else {
        Seq::new(
            index + 1,
            |i: int|
                if i < calls.len() {
                    calls[i]
                } else {
                    no_call()
                },
        )
    }
}

/// Tool calls with a part added at its index. A part without one starts a new call.
pub open spec fn with_part(calls: Seq<PartialView>, part: CallPartView) -> Seq<PartialView> {
    let index = match part.index {
        Some(index) => index,
        None => calls.len(),
    };
    let slots = with_slot(calls, index);
    slots.update(index as int, extended_call(slots[index as int], part))
}

/// Tool calls with parts added, one after another.
pub open spec fn with_parts(calls: Seq<PartialView>, parts: Seq<CallPartView>) -> Seq<PartialView>
    decreases parts.len(),
{
    if parts.len() == 0 {
        calls
    } else {
        with_part(with_parts(calls, parts.drop_last()), parts.last())
    }
}

/// Tool calls with the parts of an answer added, one after another.
pub open spec fn with_deltas(calls: Seq<PartialView>, deltas: Seq<DeltaView>) -> Seq<PartialView>
    decreases deltas.len(),
{
    if deltas.len() == 0 {
        calls
    } else {
        with_parts(with_deltas(calls, deltas.drop_last()), deltas.last().calls)
    }
}

/// Appends an optional text.
fn append_optional(text: &mut String, more: Option<String>)
    ensures
        final(text)@ == old(text)@ + or_empty(more),
{
    match more {
        Some(more) => text.append(more.as_str()),
        None => {
            assert(text@ + Seq::<char>::empty() =~= text@);
        },
    }
}

/// Adds a part to the tool calls.
fn add_part(calls: &mut Vec<PartialToolCall>, part: OpenAIStreamToolCall)
    ensures
        partials_view(final(calls)@) == with_part(partials_view(old(calls)@), part@),
{
    let ghost before = partials_view(calls@);
    let ghost added = part@;
    let index: usize = match part.index {
        Some(index) => index,
        None => calls.len(),
    };
    while calls.len() <= index
        invariant
            before.len() <= calls@.len(),
            calls@.len() <= index + 1 || calls@.len() == before.len(),
            forall|i: int|
                0 <= i < calls@.len() ==> #[trigger] partials_view(calls@)[i] == (if i
                    < before.len() {
                    before[i]
                } else {
                    no_call()
                }),
        decreases index + 1 - calls@.len(),
    {
        let ghost now = calls@;
        let empty: PartialToolCall = PartialToolCall {
            id: None,
            name: String::new(),
            arguments: String::new(),
        };
        calls.push(empty);
        proof {
            assert forall|i: int| 0 <= i < calls@.len() implies #[trigger] partials_view(calls@)[i]
                == (if i < before.len() {
                before[i]
            } else {
                no_call()
            }) by {
                if i < now.len() {
                    assert(partials_view(now)[i] == now[i]@);
                    assert(calls@[i] == now[i]);
                }
            }
        }
    }
    let ghost slots = partials_view(calls@);
    assert(slots =~= with_slot(before, index as nat));
    let ghost now = calls@;
    let mut call: PartialToolCall = PartialToolCall {
        id: None,
        name: String::new(),
        arguments: String::new(),
    };
    core::mem::swap(&mut call, &mut calls[index]);
    assert(call == now[index as int]);
    if part.id.is_some() {
        call.id = part.id;
    }
    match part.function {
        Some(function) => {
            append_optional(&mut call.name, function.name);
            append_optional(&mut call.arguments, function.arguments);
        },
        None => {
            assert(call.name@ + Seq::<char>::empty() =~= call.name@);
            assert(call.arguments@ + Seq::<char>::empty() =~= call.arguments@);
        },
    }
    assert(call@ == extended_call(slots[index as int], added));
    calls.set(index, call);
    assert(partials_view(calls@) =~= slots.update(index as int, call@));
}

/// Adds parts to the tool calls, one after another.
fn add_parts(calls: &mut Vec<PartialToolCall>, parts: Vec<OpenAIStreamToolCall>)
    ensures
        partials_view(final(calls)@) == with_parts(
            partials_view(old(calls)@),
            call_parts_view(parts@),
        ),
{
    let ghost all = parts@;
    let ghost views = call_parts_view(all);
    let ghost before = partials_view(calls@);
    let mut waiting: Vec<OpenAIStreamToolCall> = list::reversed(parts);
    assert(views.take(0) =~= Seq::<CallPartView>::empty());
    while 0 < waiting.len()
        invariant
            views == call_parts_view(all),
            waiting@.len() <= all.len(),
            forall|i: int|
                0 <= i < waiting@.len() ==> #[trigger] waiting@[i] == all[all.len() - 1 - i],
            partials_view(calls@) == with_parts(before, views.take(all.len() - waiting@.len())),
        decreases waiting@.len(),
    {
        let ghost at = all.len() - waiting@.len();
        if let Some(part) = waiting.pop() {
            proof {
                assert(part == all[at]);
                assert(views.take(at + 1).drop_last() =~= views.take(at));
                assert(views.take(at + 1).last() == part@);
            }
            add_part(calls, part);
        }
    }
    assert(views.take(all.len() as int) =~= views);
}

/// Adds a decoded document to the answer. Gives back the text that it adds.
pub fn apply_openai_stream_response(
    response: OpenAIStreamResponse,
    text: &mut String,
    partial_tool_calls: &mut Vec<PartialToolCall>,
) -> (r: String)
    ensures
        r@ == added_text(deltas_view(response.choices@)),
        final(text)@ == old(text)@ + added_text(deltas_view(response.choices@)),
        partials_view(final(partial_tool_calls)@) == with_deltas(
            partials_view(old(partial_tool_calls)@),
            deltas_view(response.choices@),
        ),
{
    let ghost all = response.choices@;
    let ghost views = deltas_view(all);
    let ghost before = partials_view(partial_tool_calls@);
    let mut added: String = String::new();
    let mut waiting: Vec<OpenAIStreamChoice> = list::reversed(response.choices);
    assert(views.take(0) =~= Seq::<DeltaView>::empty());
    while 0 < waiting.len()
        invariant
            views == deltas_view(all),
            waiting@.len() <= all.len(),
            forall|i: int|
                0 <= i < waiting@.len() ==> #[trigger] waiting@[i] == all[all.len() - 1 - i],
            added@ == added_text(views.take(all.len() - waiting@.len())),
            partials_view(partial_tool_calls@) == with_deltas(
                before,
                views.take(all.len() - waiting@.len()),
            ),
        decreases waiting@.len(),
    {
        let ghost at = all.len() - waiting@.len();
        if let Some(choice) = waiting.pop() {
            proof {
                assert(choice == all[at]);
                assert(views.take(at + 1).drop_last() =~= views.take(at));
                assert(views.take(at + 1).last() == choice@);
            }
            append_optional(&mut added, choice.delta.content);
            match choice.delta.tool_calls {
                Some(parts) => add_parts(partial_tool_calls, parts),
                None => {},
            }
        }
    }
    assert(views.take(all.len() as int) =~= views);
    text.append(added.as_str());
    added
}

// ---------------------------------------------------------------------------
// What Ollama sends
// ---------------------------------------------------------------------------

/// The function of a tool call.
pub struct OllamaFunctionCall {
    pub name: String,
    pub arguments: Json,
}

/// A tool call.
pub struct OllamaToolCall {
    pub function: OllamaFunctionCall,
}

/// A part of an answer.
pub struct OllamaMessage {
    pub content: Option<String>,
    pub tool_calls: Option<Vec<OllamaToolCall>>,
}

/// A document of the stream.
pub struct OllamaChatResponse {
    pub message: OllamaMessage,
    pub done: Option<bool>,
}

impl View for OllamaToolCall {
    type V = ToolUseView;

    /// A call of Ollama has no identifier.
    open spec fn view(&self) -> ToolUseView {
        ToolUseView { id: None, name: self.function.name@, arguments: self.function.arguments@ }
    }
}

/// The tool calls of a message.
pub open spec fn ollama_calls(calls: Option<Vec<OllamaToolCall>>) -> Seq<ToolUseView> {
    match calls {
        Some(calls) => Seq::new(calls@.len(), |i: int| calls@[i]@),
        None => Seq::empty(),
    }
}

/// Adds a decoded document to the answer. Gives back the text that it adds, and whether
/// it is the last one.
pub fn apply_ollama_stream_response(
    response: OllamaChatResponse,
    text: &mut String,
    tool_uses: &mut Vec<ToolUseCall>,
) -> (r: (String, bool))
    ensures
        r.0@ == or_empty(response.message.content),
        r.1 == (response.done == Some(true)),
        final(text)@ == old(text)@ + or_empty(response.message.content),
        calls_view(final(tool_uses)@) == calls_view(old(tool_uses)@) + ollama_calls(
            response.message.tool_calls,
        ),
{
    let added: String = match response.message.content {
        Some(content) => content,
        None => String::new(),
    };
    assert(added@ =~= or_empty(response.message.content));
    text.append(added.as_str());
    match response.message.tool_calls {
        Some(calls) => {
            let ghost all = calls@;
            let ghost views = ollama_calls(Some(calls));
            let ghost before = calls_view(tool_uses@);
            let mut waiting: Vec<OllamaToolCall> = list::reversed(calls);
            assert(before + views.take(0) =~= before);
            while 0 < waiting.len()
                invariant
                    views.len() == all.len(),
                    forall|i: int| 0 <= i < all.len() ==> #[trigger] views[i] == all[i]@,
                    waiting@.len() <= all.len(),
                    forall|i: int|
                        0 <= i < waiting@.len() ==> #[trigger] waiting@[i] == all[all.len() - 1
                            - i],
                    calls_view(tool_uses@) == before + views.take(all.len() - waiting@.len()),
                decreases waiting@.len(),
            {
                let ghost at = all.len() - waiting@.len();
                let ghost now = tool_uses@;
                if let Some(call) = waiting.pop() {
                    assert(call == all[at]);
                    let used: ToolUseCall = ToolUseCall {
                        id: None,
                        name: call.function.name,
                        arguments: call.function.arguments,
                    };
                    assert(used@ == views[at]);
                    tool_uses.push(used);
                    proof {
                        assert(calls_view(tool_uses@) =~= calls_view(now).push(used@));
                        assert(views.take(at + 1) =~= views.take(at).push(views[at]));
                        assert(before + views.take(at + 1) =~= (before + views.take(at)).push(
                            views[at],
                        ));
                    }
                }
            }
            assert(views.take(all.len() as int) =~= views);
        },
        None => {
            assert(calls_view(tool_uses@) + Seq::<ToolUseView>::empty() =~= calls_view(tool_uses@));
        },
    }
    let done: bool = match response.done {
        Some(done) => done,
        None => false,
    };
    (added, done)
}

// ---------------------------------------------------------------------------
// Finished tool calls
// ---------------------------------------------------------------------------

/// The arguments of a call: the document that `parsed` says, or the raw text where it is
/// no JSON.
pub open spec fn call_arguments(raw: Seq<char>, parsed: Option<JsonView>) -> JsonView {
    match parsed {
        Some(document) => document,
        None => json::with_member(json::empty_object(), "_raw"@, JsonView::Text(raw)),
    }
}

/// A finished call.
pub open spec fn finished_call(call: PartialView, parsed: Option<JsonView>) -> ToolUseView {
    ToolUseView {
        id: call.id,
        name: call.name,
        arguments: call_arguments(call.arguments, parsed),
    }
}

/// Whether a call names a tool.
pub open spec fn names_tool(call: PartialView) -> bool {
    text::trimmed(call.name).len() > 0
}

/// The finished calls: those that name a tool, in order.
pub open spec fn finished_calls(calls: Seq<PartialView>) -> Seq<ToolUseView>
    decreases calls.len(),
{
    if calls.len() == 0 {
        Seq::empty()
    } else {
        let rest = finished_calls(calls.drop_last());
        let call = calls.last();
        if names_tool(call) {
            rest.push(finished_call(call, json::parsed_json(call.arguments)))
        } else {
            rest
        }
    }
}

/// Finishes a call, given what its arguments read as.
pub fn finish_tool_call(partial: PartialToolCall, parsed: Option<Json>) -> (r: ToolUseCall)
    ensures
        r@ == finished_call(
            partial@,
            match parsed {
                Some(document) => Some(document@),
                None => None,
            },
        ),
{
    let arguments: Json = match parsed {
        Some(document) => document,
        None => Json::object().with("_raw", Json::Text(partial.arguments)),
    };
    ToolUseCall { id: partial.id, name: partial.name, arguments }
}

/// Finishes the calls that name a tool.
pub fn finalize_partial_tool_calls(partial_tool_calls: Vec<PartialToolCall>) -> (r: Vec<
    ToolUseCall,
>)
    ensures
        calls_view(r@) == finished_calls(partials_view(partial_tool_calls@)),
{
    let ghost all = partial_tool_calls@;
    let ghost views = partials_view(all);
    let mut waiting: Vec<PartialToolCall> = list::reversed(partial_tool_calls);
    let mut out: Vec<ToolUseCall> = Vec::new();
    assert(views.take(0) =~= Seq::<PartialView>::empty());
    assert(calls_view(out@) =~= Seq::<ToolUseView>::empty());
    while 0 < waiting.len()
        invariant
            views == partials_view(all),
            waiting@.len() <= all.len(),
            forall|i: int|
                0 <= i < waiting@.len() ==> #[trigger] waiting@[i] == all[all.len() - 1 - i],
            calls_view(out@) == finished_calls(views.take(all.len() - waiting@.len())),
        decreases waiting@.len(),
    {
        let ghost at = all.len() - waiting@.len();
        let ghost now = out@;
        if let Some(partial) = waiting.pop() {
            proof {
                assert(partial == all[at]);
                assert(views.take(at + 1).drop_last() =~= views.take(at));
                assert(views.take(at + 1).last() == partial@);
            }
            if !text::is_blank(partial.name.as_str()) {
                let parsed: Option<Json> = json::parse_json(partial.arguments.as_str());
                let call: ToolUseCall = finish_tool_call(partial, parsed);
                out.push(call);
                assert(calls_view(out@) =~= calls_view(now).push(call@));
            }
        }
    }
    assert(views.take(all.len() as int) =~= views);
    out
}

// ---------------------------------------------------------------------------
// The whole answer
// ---------------------------------------------------------------------------

/// The answer of a model.
pub struct AgentResponse {
    pub text: String,
    pub stop_reason: String,
    pub tool_uses: Vec<ToolUseCall>,
}

/// What an answer says.
pub struct AgentView {
    pub text: Seq<char>,
    pub stop_reason: Seq<char>,
    pub tool_uses: Seq<ToolUseView>,
}

impl View for AgentResponse {
    type V = AgentView;

    open spec fn view(&self) -> AgentView {
        AgentView {
            text: self.text@,
            stop_reason: self.stop_reason@,
            tool_uses: calls_view(self.tool_uses@),
        }
    }
}

/// Why a model stopped: to have tools used, or because it is done.
pub open spec fn stop_reason(tool_uses: Seq<ToolUseView>) -> Seq<char> {
    if tool_uses.len() == 0 {
        "end_turn"@
    } else {
        "tool_use"@
    }
}

/// The answer made of its text and its tool calls.
pub fn build_agent_response(text: String, tool_uses: Vec<ToolUseCall>) -> (r: AgentResponse)
    ensures
        r@ == (AgentView {
            text: text@,
            stop_reason: stop_reason(calls_view(tool_uses@)),
            tool_uses: calls_view(tool_uses@),
        }),
{
    let stop_reason: String = if tool_uses.len() == 0 {
        "end_turn".to_owned()
    } else {
        "tool_use".to_owned()
    };
    AgentResponse { text, stop_reason, tool_uses }
}

// ---------------------------------------------------------------------------
// Laws
// ---------------------------------------------------------------------------

/// It does not matter how the parts of an answer are grouped into documents: the text
/// and the tool calls come out the same.
pub proof fn grouping_does_not_matter(
    calls: Seq<PartialView>,
    first: Seq<DeltaView>,
    second: Seq<DeltaView>,
)
    ensures
        added_text(first + second) == added_text(first) + added_text(second),
        with_deltas(calls, first + second) == with_deltas(with_deltas(calls, first), second),
    decreases second.len(),
{
    if second.len() == 0 {
        assert(first + second =~= first);
        assert(added_text(first) + Seq::<char>::empty() =~= added_text(first));
    } else {
        let whole = first + second;
        assert(whole.drop_last() =~= first + second.drop_last());
        assert(whole.last() == second.last());
        grouping_does_not_matter(calls, first, second.drop_last());
        assert(added_text(whole) =~= added_text(first) + added_text(second));
    }
}

/// A part with an index changes the call at that index alone, and the calls stay in
/// their places.
pub proof fn parts_change_one_call(calls: Seq<PartialView>, part: CallPartView, i: int)
    requires
        part.index is Some,
        0 <= i < calls.len(),
        i != part.index->0,
    ensures
        with_part(calls, part).len() >= calls.len(),
        with_part(calls, part)[i] == calls[i],
{
}

/// The parts of one call add up: names and arguments are put together in the order in
/// which they arrive.
pub proof fn parts_of_a_call_add_up(
    calls: Seq<PartialView>,
    first: CallPartView,
    second: CallPartView,
)
    requires
        first.index is Some,
        second.index == first.index,
    ensures
        ({
            let i = first.index->0 as int;
            let before = with_slot(calls, first.index->0)[i];
            let after = with_part(with_part(calls, first), second)[i];
            &&& after.name == before.name + first.name + second.name
            &&& after.arguments == before.arguments + first.arguments + second.arguments
            &&& after.id == (if second.id is Some {
                second.id
            } else if first.id is Some {
                first.id
            } else {
                before.id
            })
        }),
{
}

/// Every finished call names a tool.
pub proof fn finished_calls_name_tools(calls: Seq<PartialView>, i: int)
    requires
        0 <= i < finished_calls(calls).len(),
    ensures
        text::trimmed(finished_calls(calls)[i].name).len() > 0,
    decreases calls.len(),
{
    let rest = finished_calls(calls.drop_last());
    if i < rest.len() {
        finished_calls_name_tools(calls.drop_last(), i);
    }
}

/// What is read of a call, of a part of a call and of a part of an answer is what it
/// holds, character for character; what is missing adds nothing.
pub proof fn parts_say_what_they_hold(
    call: OpenAIStreamToolCall,
    choice: OpenAIStreamChoice,
    name: String,
)
    ensures
        or_empty(Some(name)) == name@,
        or_empty(None).len() == 0,
        call.index matches Some(index) ==> call@.index == Some(index as nat),
        call.index is None ==> call@.index is None,
        call.id matches Some(id) ==> call@.id == Some(id@),
        call.id is None ==> call@.id is None,
        call.function matches Some(function) ==> call@.name == or_empty(function.name)
            && call@.arguments == or_empty(function.arguments),
        call.function is None ==> call@.name.len() == 0 && call@.arguments.len() == 0,
        choice@.content == or_empty(choice.delta.content),
        choice.delta.tool_calls matches Some(calls) ==> choice@.calls == call_parts_view(calls@),
        choice.delta.tool_calls is None ==> choice@.calls.len() == 0,
{
}

/// Lists say what their items say, in order.
pub proof fn lists_say_what_their_items_say(
    calls: Seq<ToolUseCall>,
    partials: Seq<PartialToolCall>,
    parts: Seq<OpenAIStreamToolCall>,
    choices: Seq<OpenAIStreamChoice>,
    i: int,
)
    ensures
        calls_view(calls).len() == calls.len(),
        partials_view(partials).len() == partials.len(),
        call_parts_view(parts).len() == parts.len(),
        deltas_view(choices).len() == choices.len(),
        0 <= i < calls.len() ==> calls_view(calls)[i] == calls[i]@,
        0 <= i < partials.len() ==> partials_view(partials)[i] == partials[i]@,
        0 <= i < parts.len() ==> call_parts_view(parts)[i] == parts[i]@,
        0 <= i < choices.len() ==> deltas_view(choices)[i] == choices[i]@,
{
}

/// Calls say what they hold.
pub proof fn calls_say_what_they_hold(call: ToolUseCall, partial: PartialToolCall)
    ensures
        call@.name == call.name@,
        call@.arguments == call.arguments@,
        call.id matches Some(id) ==> call@.id == Some(id@),
        call.id is None ==> call@.id is None,
        partial@.name == partial.name@,
        partial@.arguments == partial.arguments@,
        partial.id matches Some(id) ==> partial@.id == Some(id@),
        partial.id is None ==> partial@.id is None,
{
}

/// Every part of an answer adds exactly its content: nothing is added where there is no
/// part, and the last part adds its content behind what the parts before it have added.
pub proof fn parts_add_their_content(deltas: Seq<DeltaView>, delta: DeltaView)
    ensures
        added_text(Seq::empty()).len() == 0,
        added_text(seq![delta]) == delta.content,
        added_text(deltas.push(delta)) == added_text(deltas) + delta.content,
        added_text(deltas.push(delta)).len() == added_text(deltas).len() + delta.content.len(),
{
    let one = seq![delta];
    assert(one.drop_last() =~= Seq::<DeltaView>::empty());
    assert(added_text(one.drop_last()) =~= Seq::<char>::empty());
    assert(one.last() == delta);
    assert(Seq::<char>::empty() + delta.content =~= delta.content);
    assert(deltas.push(delta).drop_last() =~= deltas);
}

/// The parts of tool calls take effect one after another, in their order.
pub proof fn parts_take_effect_in_order(
    calls: Seq<PartialView>,
    parts: Seq<CallPartView>,
    part: CallPartView,
    deltas: Seq<DeltaView>,
    delta: DeltaView,
)
    ensures
        with_parts(calls, Seq::empty()) == calls,
        with_parts(calls, parts.push(part)) == with_part(with_parts(calls, parts), part),
        with_deltas(calls, Seq::empty()) == calls,
        with_deltas(calls, deltas.push(delta)) == with_parts(
            with_deltas(calls, deltas),
            delta.calls,
        ),
{
    assert(parts.push(part).drop_last() =~= parts);
    assert(deltas.push(delta).drop_last() =~= deltas);
}

/// A part without an index starts a call of its own behind the others, which holds what
/// the part holds. A part with an index behind the last call starts that call, and the
/// calls in between are empty.
pub proof fn new_calls_hold_their_part(calls: Seq<PartialView>, part: CallPartView, i: int)
    requires
        part.index matches Some(index) ==> index >= calls.len(),
    ensures
        ({
            let at = match part.index {
                Some(index) => index as int,
                None => calls.len() as int,
            };
            let after = with_part(calls, part);
            &&& after.len() == at + 1
            &&& after[at].id == part.id
            &&& after[at].name == part.name
            &&& after[at].arguments == part.arguments
            &&& 0 <= i < calls.len() ==> after[i] == calls[i]
            &&& calls.len() <= i < at ==> after[i].id is None && after[i].name.len() == 0
                && after[i].arguments.len() == 0
        }),
{
    assert(Seq::<char>::empty() + part.name =~= part.name);
    assert(Seq::<char>::empty() + part.arguments =~= part.arguments);
}

/// A part of a call that is there adds to it: its name and arguments stand behind what is
/// there, and its id, where it has one, takes the place of the other.
pub proof fn known_calls_grow_by_their_part(calls: Seq<PartialView>, part: CallPartView)
    requires
        part.index is Some,
        part.index->0 < calls.len(),
    ensures
        ({
            let at = part.index->0 as int;
            let after = with_part(calls, part);
            &&& after.len() == calls.len()
            &&& after[at].name == calls[at].name + part.name
            &&& after[at].arguments == calls[at].arguments + part.arguments
            &&& part.id is Some ==> after[at].id == part.id
            &&& part.id is None ==> after[at].id == calls[at].id
        }),
{
}

/// The calls of Ollama keep name and arguments and have no id.
pub proof fn ollama_calls_keep_name_and_arguments(calls: Vec<OllamaToolCall>, i: int)
    requires
        0 <= i < calls@.len(),
    ensures
        ollama_calls(None).len() == 0,
        ollama_calls(Some(calls)).len() == calls@.len(),
        ollama_calls(Some(calls))[i].id is None,
        ollama_calls(Some(calls))[i].name == calls@[i].function.name@,
        ollama_calls(Some(calls))[i].arguments == calls@[i].function.arguments@,
{
}

/// A finished call keeps id and name. Its arguments are the document that they read as,
/// or, where they are no JSON, an object that holds them as they came.
pub proof fn finished_calls_keep_what_came(call: PartialView, parsed: Option<JsonView>)
    ensures
        finished_call(call, parsed).id == call.id,
        finished_call(call, parsed).name == call.name,
        parsed matches Some(document) ==> finished_call(call, parsed).arguments == document,
        parsed is None ==> json::text_member(finished_call(call, parsed).arguments, "_raw"@)
            == Some(call.arguments),
        parsed is None ==> finished_call(call, parsed).arguments->Object_0.dom() == set!["_raw"@],
{
    if parsed is None {
        assert(finished_call(call, parsed).arguments->Object_0.dom() =~= set!["_raw"@]);
    }
}

/// Calls are finished one for one and in order: one that names a tool is kept, with the
/// arguments that its own text reads as, and one that has only white space for a name is
/// dropped.
pub proof fn calls_are_finished_in_order(calls: Seq<PartialView>, call: PartialView)
    ensures
        finished_calls(Seq::empty()).len() == 0,
        (forall|i: int| 0 <= i < call.name.len() ==> text::is_space(#[trigger] call.name[i]))
            ==> finished_calls(calls.push(call)) == finished_calls(calls),
        !(forall|i: int| 0 <= i < call.name.len() ==> text::is_space(#[trigger] call.name[i]))
            ==> finished_calls(calls.push(call)) == finished_calls(calls).push(
            finished_call(call, json::parsed_json(call.arguments)),
        ),
{
    assert(calls.push(call).drop_last() =~= calls);
    text::blank_is_white_space_throughout(call.name);
}

/// An answer says what it holds, and it stops for tools exactly where it calls some.
pub proof fn answers_stop_for_tools(answer: AgentResponse, tool_uses: Seq<ToolUseView>)
    ensures
        answer@.text == answer.text@,
        answer@.stop_reason == answer.stop_reason@,
        answer@.tool_uses == calls_view(answer.tool_uses@),
        tool_uses.len() == 0 ==> stop_reason(tool_uses) == "end_turn"@,
        tool_uses.len() > 0 ==> stop_reason(tool_uses) == "tool_use"@,
{
}

}
