//! Reading the answer of a model while it arrives.
//!
//! A reader is fed with chunks of bytes. It hands out the JSON documents that are
//! complete, and takes each back once it is decoded.
use crate::framing;
use crate::json;
use crate::path;
use crate::stream;
use crate::stream::{
    OllamaChatResponse, OpenAIStreamResponse, PartialToolCall, PartialView, ToolUseCall,
    ToolUseView,
};
use crate::text;
use vstd::prelude::*;
use vstd::string::*;

verus! {

/// The text that `String::from_utf8_lossy` makes of bytes.
pub uninterp spec fn utf8_lossy(bytes: Seq<u8>) -> Seq<char>;

/// `String::from_utf8_lossy`: a function of the bytes alone. Valid UTF-8 is decoded.
#[verifier::external_body]
fn from_utf8_lossy(bytes: &[u8]) -> (r: String)
    ensures
        r@ == utf8_lossy(bytes@),
        vstd::utf8::valid_utf8(bytes@) ==> r@ == vstd::utf8::decode_utf8(bytes@),
{
    String::from_utf8_lossy(bytes).into_owned()
}

// ---------------------------------------------------------------------------
// What an event or a line holds
// ---------------------------------------------------------------------------

/// What a piece of a stream holds.
pub enum StreamPayload {
    /// Nothing to read.
    Nothing,
    /// The end of the stream.
    Done,
    /// A JSON document.
    Document(String),
}

/// What a piece of a stream holds.
pub enum PayloadView {
    Nothing,
    Done,
    Document(Seq<char>),
}

impl View for StreamPayload {
    type V = PayloadView;

    open spec fn view(&self) -> PayloadView {
        match self {
            StreamPayload::Nothing => PayloadView::Nothing,
            StreamPayload::Done => PayloadView::Done,
            StreamPayload::Document(document) => PayloadView::Document(document@),
        }
    }
}

/// The data of lines: what follows `data:` and white space in those that start with it.
pub open spec fn data_lines(lines: Seq<Seq<char>>) -> Seq<Seq<char>>
    decreases lines.len(),
{
    if lines.len() == 0 {
        Seq::empty()
    } else {
        let rest = data_lines(lines.drop_last());
        match text::after_prefix(lines.last(), "data:"@) {
            Some(data) => rest.push(text::trimmed_start(data)),
            None => rest,
        }
    }
}

/// The data of an event.
pub open spec fn event_data(event: Seq<char>) -> Seq<char> {
    text::joined(data_lines(text::line_list(event)), "\n"@)
}

/// What an event of an OpenAI-compatible server holds.
pub open spec fn openai_payload(event: Seq<char>) -> PayloadView {
    let data = event_data(event);
    if data.len() == 0 {
        PayloadView::Nothing
    } else if text::trimmed(data) == "[DONE]"@ {
        PayloadView::Done
    } else {
        PayloadView::Document(data)
    }
}

/// What a line of Ollama holds.
pub open spec fn ollama_payload(line: Seq<char>) -> PayloadView {
    if text::trimmed(line).len() == 0 {
        PayloadView::Nothing
    } else {
        PayloadView::Document(text::trimmed(line))
    }
}

/// What an event of an OpenAI-compatible server holds.
pub fn openai_stream_payload(event: &str) -> (r: StreamPayload)
    ensures
        r@ == openai_payload(event@),
{
    let lines: Vec<String> = text::lines(event);
    let ghost all = text::strings(lines@);
    let mut data: Vec<String> = Vec::new();
    let mut i: usize = 0;
    assert(text::strings(data@) =~= Seq::<Seq<char>>::empty());
    assert(all.take(0) =~= Seq::<Seq<char>>::empty());
    while i < lines.len()
        invariant
            i <= lines@.len(),
            all == text::strings(lines@),
            text::strings(data@) == data_lines(all.take(i as int)),
        decreases lines@.len() - i,
    {
        proof {
            assert(all.take(i + 1).drop_last() =~= all.take(i as int));
            assert(all.take(i + 1).last() == lines@[i as int]@);
        }
        match text::strip_prefix(lines[i].as_str(), "data:") {
            Some(rest) => {
                let line: String = text::trim_start(rest.as_str());
                proof {
                    text::lemma_strings_push(data@, line);
                }
                data.push(line);
            },
            None => {},
        }
        i += 1;
    }
    assert(all.take(lines@.len() as int) =~= all);
    let joined: String = text::join(&data, "\n");
    if joined.as_str().is_empty() {
        StreamPayload::Nothing
    } else if text::same_text(text::trim(joined.as_str()).as_str(), "[DONE]") {
        StreamPayload::Done
    } else {
        StreamPayload::Document(joined)
    }
}

/// What a line of Ollama holds.
pub fn ollama_stream_payload(line: &str) -> (r: StreamPayload)
    ensures
        r@ == ollama_payload(line@),
{
    let trimmed: String = text::trim(line);
    if trimmed.as_str().is_empty() {
        StreamPayload::Nothing
    } else {
        StreamPayload::Document(trimmed)
    }
}

// ---------------------------------------------------------------------------
// OpenAI-compatible streams
// ---------------------------------------------------------------------------

/// The next document of a buffer, what is left of the buffer, and whether the end of
/// the stream was found instead.
pub open spec fn next_openai_document(buffer: Seq<char>) -> (Option<Seq<char>>, Seq<char>, bool)
    decreases buffer.len(),
{
    match framing::first_event(buffer) {
        Some((event, rest)) => {
            proof {
                framing::events_lose_nothing(buffer);
            }
            match openai_payload(event) {
                PayloadView::Nothing => next_openai_document(rest),
                PayloadView::Done => (None, rest, true),
                PayloadView::Document(document) => (Some(document), rest, false),
            }
        },
        None => (None, buffer, false),
    }
}

/// The document of a buffer with which a stream breaks off.
pub open spec fn last_openai_document(buffer: Seq<char>) -> Option<Seq<char>> {
    if text::trimmed(buffer).len() == 0 {
        None
    } else {
        match openai_payload(buffer) {
            PayloadView::Document(document) => Some(document),
            _ => None,
        }
    }
}

/// An answer of an OpenAI-compatible server that is being read.
pub struct OpenAIStream {
    buffer: String,
    text: String,
    calls: Vec<PartialToolCall>,
    finished: bool,
}

/// What has been read of an answer of an OpenAI-compatible server.
pub struct OpenAIStreamView {
    pub buffer: Seq<char>,
    pub text: Seq<char>,
    pub calls: Seq<PartialView>,
    pub finished: bool,
}

impl View for OpenAIStream {
    type V = OpenAIStreamView;

    closed spec fn view(&self) -> OpenAIStreamView {
        OpenAIStreamView {
            buffer: self.buffer@,
            text: self.text@,
            calls: stream::partials_view(self.calls@),
            finished: self.finished,
        }
    }
}

impl OpenAIStream {
    /// Nothing is read yet.
    pub fn new() -> (r: OpenAIStream)
        ensures
            r@ == (OpenAIStreamView {
                buffer: Seq::empty(),
                text: Seq::empty(),
                calls: Seq::empty(),
                finished: false,
            }),
    {
        let r: OpenAIStream = OpenAIStream {
            buffer: String::new(),
            text: String::new(),
            calls: Vec::new(),
            finished: false,
        };
        assert(r@.buffer =~= Seq::<char>::empty());
        assert(r@.text =~= Seq::<char>::empty());
        assert(r@.calls =~= Seq::<PartialView>::empty());
        r
    }

    /// Whether the end of the stream was found.
    pub fn is_finished(&self) -> (r: bool)
        ensures
            r == self@.finished,
    {
        self.finished
    }

    /// Takes bytes that have arrived.
    pub fn push_chunk(&mut self, bytes: &[u8])
        ensures
            final(self)@ == (OpenAIStreamView {
                buffer: old(self)@.buffer + utf8_lossy(bytes@),
                ..old(self)@
            }),
            vstd::utf8::valid_utf8(bytes@) ==> final(self)@.buffer == old(self)@.buffer
                + vstd::utf8::decode_utf8(bytes@),
    {
        let chunk: String = from_utf8_lossy(bytes);
        self.buffer.append(chunk.as_str());
    }

    /// The next document that has arrived whole. None comes once the end of the stream
    /// was found.
    pub fn next_document(&mut self) -> (r: Option<String>)
        ensures
            old(self)@.finished ==> r is None && final(self)@ == old(self)@,
            !old(self)@.finished ==> ({
                let (document, rest, finished) = next_openai_document(old(self)@.buffer);
                &&& json::opt_text(r) == document
                &&& final(self)@ == (OpenAIStreamView { buffer: rest, finished, ..old(self)@ })
            }),
    {
        if self.finished {
            return None;
        }
        loop
            invariant
                !self.finished,
                self.text == old(self).text,
                self.calls == old(self).calls,
                !old(self)@.finished,
                next_openai_document(self.buffer@) == next_openai_document(old(self)@.buffer),
            decreases self.buffer@.len(),
        {
            proof {
                if framing::first_event(self.buffer@) is Some {
                    framing::events_lose_nothing(self.buffer@);
                }
            }
            match framing::next_sse_event(&mut self.buffer) {
                Some(event) => match openai_stream_payload(event.as_str()) {
                    StreamPayload::Nothing => {},
                    StreamPayload::Done => {
                        self.finished = true;
                        return None;
                    },
                    StreamPayload::Document(document) => {
                        return Some(document);
                    },
                },
                None => {
                    return None;
                },
            }
        }
    }

    /// The document in what is left when no more bytes arrive.
    pub fn last_document(&self) -> (r: Option<String>)
        ensures
            json::opt_text(r) == (if self@.finished {
                None
            } else {
                last_openai_document(self@.buffer)
            }),
    {
        if self.finished || text::is_blank(self.buffer.as_str()) {
            return None;
        }
        match openai_stream_payload(self.buffer.as_str()) {
            StreamPayload::Document(document) => Some(document),
            _ => None,
        }
    }

    /// Takes a document that was handed out, decoded. Gives back the text that it adds.
    pub fn accept(&mut self, response: OpenAIStreamResponse) -> (r: String)
        ensures
            r@ == stream::added_text(stream::deltas_view(response.choices@)),
            final(self)@ == (OpenAIStreamView {
                text: old(self)@.text + stream::added_text(stream::deltas_view(response.choices@)),
                calls: stream::with_deltas(
                    old(self)@.calls,
                    stream::deltas_view(response.choices@),
                ),
                ..old(self)@
            }),
    {
        stream::apply_openai_stream_response(response, &mut self.text, &mut self.calls)
    }

    /// The text and the tool calls that were read.
    pub fn into_answer(self) -> (r: (String, Vec<ToolUseCall>))
        ensures
            r.0@ == self@.text,
            stream::calls_view(r.1@) == stream::finished_calls(self@.calls),
    {
        (self.text, stream::finalize_partial_tool_calls(self.calls))
    }
}

// ---------------------------------------------------------------------------
// Ollama streams
// ---------------------------------------------------------------------------

/// The next document of a buffer, and what is left of the buffer.
pub open spec fn next_ollama_document(buffer: Seq<char>) -> (Option<Seq<char>>, Seq<char>)
    decreases buffer.len(),
{
    match framing::first_line(buffer) {
        Some((line, rest)) => {
            proof {
                framing::lines_lose_nothing(buffer);
            }
            match ollama_payload(line) {
                PayloadView::Document(document) => (Some(document), rest),
                _ => next_ollama_document(rest),
            }
        },
        None => (None, buffer),
    }
}

/// The document of a buffer with which a stream breaks off.
pub open spec fn last_ollama_document(buffer: Seq<char>) -> Option<Seq<char>> {
    if text::trimmed(buffer).len() == 0 {
        None
    } else {
        Some(text::trimmed(buffer))
    }
}

/// An answer of Ollama that is being read.
pub struct OllamaStream {
    buffer: String,
    text: String,
    tool_uses: Vec<ToolUseCall>,
    finished: bool,
}

/// What has been read of an answer of Ollama.
pub struct OllamaStreamView {
    pub buffer: Seq<char>,
    pub text: Seq<char>,
    pub tool_uses: Seq<ToolUseView>,
    pub finished: bool,
}

impl View for OllamaStream {
    type V = OllamaStreamView;

    closed spec fn view(&self) -> OllamaStreamView {
        OllamaStreamView {
            buffer: self.buffer@,
            text: self.text@,
            tool_uses: stream::calls_view(self.tool_uses@),
            finished: self.finished,
        }
    }
}

impl OllamaStream {
    /// Nothing is read yet.
    pub fn new() -> (r: OllamaStream)
        ensures
            r@ == (OllamaStreamView {
                buffer: Seq::empty(),
                text: Seq::empty(),
                tool_uses: Seq::empty(),
                finished: false,
            }),
    {
        let r: OllamaStream = OllamaStream {
            buffer: String::new(),
            text: String::new(),
            tool_uses: Vec::new(),
            finished: false,
        };
        assert(r@.buffer =~= Seq::<char>::empty());
        assert(r@.text =~= Seq::<char>::empty());
        assert(r@.tool_uses =~= Seq::<ToolUseView>::empty());
        r
    }

    /// Whether the last document was taken.
    pub fn is_finished(&self) -> (r: bool)
        ensures
            r == self@.finished,
    {
        self.finished
    }

    /// Takes bytes that have arrived.
    pub fn push_chunk(&mut self, bytes: &[u8])
        ensures
            final(self)@ == (OllamaStreamView {
                buffer: old(self)@.buffer + utf8_lossy(bytes@),
                ..old(self)@
            }),
            vstd::utf8::valid_utf8(bytes@) ==> final(self)@.buffer == old(self)@.buffer
                + vstd::utf8::decode_utf8(bytes@),
    {
        let chunk: String = from_utf8_lossy(bytes);
        self.buffer.append(chunk.as_str());
    }

    /// The next document that has arrived whole. None comes once the last document was
    /// taken.
    pub fn next_document(&mut self) -> (r: Option<String>)
        ensures
            old(self)@.finished ==> r is None && final(self)@ == old(self)@,
            !old(self)@.finished ==> ({
                let (document, rest) = next_ollama_document(old(self)@.buffer);
                &&& json::opt_text(r) == document
                &&& final(self)@ == (OllamaStreamView { buffer: rest, ..old(self)@ })
            }),
    {
        if self.finished {
            return None;
        }
        loop
            invariant
                !self.finished,
                self.text == old(self).text,
                self.tool_uses == old(self).tool_uses,
                !old(self)@.finished,
                next_ollama_document(self.buffer@) == next_ollama_document(old(self)@.buffer),
            decreases self.buffer@.len(),
        {
            proof {
                if framing::first_line(self.buffer@) is Some {
                    framing::lines_lose_nothing(self.buffer@);
                }
            }
            match framing::next_ndjson_line(&mut self.buffer) {
                Some(line) => match ollama_stream_payload(line.as_str()) {
                    StreamPayload::Document(document) => {
                        return Some(document);
                    },
                    _ => {},
                },
                None => {
                    return None;
                },
            }
        }
    }

    /// The document in what is left when no more bytes arrive.
    pub fn last_document(&self) -> (r: Option<String>)
        ensures
            json::opt_text(r) == (if self@.finished {
                None
            } else {
                last_ollama_document(self@.buffer)
            }),
    {
        if self.finished {
            return None;
        }
        match ollama_stream_payload(self.buffer.as_str()) {
            StreamPayload::Document(document) => Some(document),
            _ => None,
        }
    }

    /// Takes a document that was handed out, decoded. Gives back the text that it adds.
    pub fn accept(&mut self, response: OllamaChatResponse) -> (r: String)
        ensures
            r@ == stream::or_empty(response.message.content),
            final(self)@ == (OllamaStreamView {
                text: old(self)@.text + stream::or_empty(response.message.content),
                tool_uses: old(self)@.tool_uses + stream::ollama_calls(response.message.tool_calls),
                finished: old(self)@.finished || response.done == Some(true),
                ..old(self)@
            }),
    {
        let (added, done): (String, bool) = stream::apply_ollama_stream_response(
            response,
            &mut self.text,
            &mut self.tool_uses,
        );
        if done {
            self.finished = true;
        }
        added
    }

    /// The text and the tool calls that were read.
    pub fn into_answer(self) -> (r: (String, Vec<ToolUseCall>))
        ensures
            r.0@ == self@.text,
            stream::calls_view(r.1@) == self@.tool_uses,
    {
        (self.text, self.tool_uses)
    }
}

// ---------------------------------------------------------------------------
// Laws
// ---------------------------------------------------------------------------

/// All documents of a buffer up to the end of the stream, what is left, and whether the
/// end was found.
pub open spec fn openai_documents(buffer: Seq<char>) -> (Seq<Seq<char>>, Seq<char>, bool)
    decreases buffer.len(),
{
    match framing::first_event(buffer) {
        Some((event, rest)) => {
            proof {
                framing::events_lose_nothing(buffer);
            }
            match openai_payload(event) {
                PayloadView::Nothing => openai_documents(rest),
                PayloadView::Done => (Seq::empty(), rest, true),
                PayloadView::Document(document) => {
                    let (documents, left, finished) = openai_documents(rest);
                    (seq![document] + documents, left, finished)
                },
            }
        },
        None => (Seq::empty(), buffer, false),
    }
}

/// All documents of a buffer, and what is left.
pub open spec fn ollama_documents(buffer: Seq<char>) -> (Seq<Seq<char>>, Seq<char>)
    decreases buffer.len(),
{
    match framing::first_line(buffer) {
        Some((line, rest)) => {
            proof {
                framing::lines_lose_nothing(buffer);
            }
            let (documents, left) = ollama_documents(rest);
            match ollama_payload(line) {
                PayloadView::Document(document) => (seq![document] + documents, left),
                _ => (documents, left),
            }
        },
        None => (Seq::empty(), buffer),
    }
}

/// Asking for the next document again and again gives all documents of the buffer.
pub proof fn openai_documents_come_one_by_one(buffer: Seq<char>)
    ensures
        ({
            let (document, rest, finished) = next_openai_document(buffer);
            openai_documents(buffer) == match document {
                Some(document) => {
                    let (documents, left, end) = openai_documents(rest);
                    (seq![document] + documents, left, end)
                },
                None => (Seq::empty(), rest, finished),
            }
        }),
    decreases buffer.len(),
{
    if let Some((event, rest)) = framing::first_event(buffer) {
        framing::events_lose_nothing(buffer);
        openai_documents_come_one_by_one(rest);
    }
}

/// Asking for the next document again and again gives all documents of the buffer.
pub proof fn ollama_documents_come_one_by_one(buffer: Seq<char>)
    ensures
        ({
            let (document, rest) = next_ollama_document(buffer);
            ollama_documents(buffer) == match document {
                Some(document) => {
                    let (documents, left) = ollama_documents(rest);
                    (seq![document] + documents, left)
                },
                None => (Seq::empty(), rest),
            }
        }),
    decreases buffer.len(),
{
    if let Some((line, rest)) = framing::first_line(buffer) {
        framing::lines_lose_nothing(buffer);
        ollama_documents_come_one_by_one(rest);
    }
}

/// It does not matter how an event stream is cut into chunks of text: reading what is
/// there and then the rest gives the same documents as reading all at once.
pub proof fn openai_chunks_do_not_matter(buffer: Seq<char>, more: Seq<char>)
    ensures
        ({
            let (first, rest, finished) = openai_documents(buffer);
            openai_documents(buffer + more) == if finished {
                (first, rest + more, true)
            } else {
                let (second, left, end) = openai_documents(rest + more);
                (first + second, left, end)
            }
        }),
    decreases buffer.len(),
{
    match framing::first_event(buffer) {
        Some((event, rest)) => {
            framing::events_lose_nothing(buffer);
            framing::complete_events_stay(buffer, more);
            openai_chunks_do_not_matter(rest, more);
            let (first, left, finished) = openai_documents(rest);
            if let PayloadView::Document(document) = openai_payload(event) {
                if !finished {
                    let (second, last, end) = openai_documents(left + more);
                    assert(seq![document] + (first + second) =~= (seq![document] + first) + second);
                }
            }
        },
        None => {
            let (second, left, end) = openai_documents(buffer + more);
            assert(Seq::<Seq<char>>::empty() + second =~= second);
        },
    }
}

/// It does not matter how a stream of lines is cut into chunks of text: reading what is
/// there and then the rest gives the same documents as reading all at once.
pub proof fn ollama_chunks_do_not_matter(buffer: Seq<char>, more: Seq<char>)
    ensures
        ({
            let (first, rest) = ollama_documents(buffer);
            let (second, left) = ollama_documents(rest + more);
            ollama_documents(buffer + more) == (first + second, left)
        }),
    decreases buffer.len(),
{
    match framing::first_line(buffer) {
        Some((line, rest)) => {
            framing::lines_lose_nothing(buffer);
            framing::complete_lines_stay(buffer, more);
            ollama_chunks_do_not_matter(rest, more);
            let (first, left) = ollama_documents(rest);
            let (second, last) = ollama_documents(left + more);
            if let PayloadView::Document(document) = ollama_payload(line) {
                assert(seq![document] + (first + second) =~= (seq![document] + first) + second);
            }
        },
        None => {
            let (second, left) = ollama_documents(buffer + more);
            assert(Seq::<Seq<char>>::empty() + second =~= second);
        },
    }
}

/// Bytes that are cut between characters decode to the same text, piece by piece or all
/// at once.
pub proof fn cuts_between_characters_do_not_matter(first: Seq<u8>, second: Seq<u8>)
    requires
        vstd::utf8::valid_utf8(first),
        vstd::utf8::valid_utf8(second),
    ensures
        vstd::utf8::valid_utf8(first + second),
        vstd::utf8::decode_utf8(first + second) == vstd::utf8::decode_utf8(first)
            + vstd::utf8::decode_utf8(second),
    decreases first.len(),
{
    vstd::utf8::valid_utf8_concat(first, second);
    if first.len() == 0 {
        assert(first + second =~= second);
        assert(Seq::<char>::empty() + vstd::utf8::decode_utf8(second) =~= vstd::utf8::decode_utf8(
            second,
        ));
    } else {
        let rest = vstd::utf8::pop_first_scalar(first);
        cuts_between_characters_do_not_matter(rest, second);
        assert(vstd::utf8::pop_first_scalar(first + second) =~= rest + second);
        assert(vstd::utf8::decode_utf8(first + second) =~= vstd::utf8::decode_utf8(first)
            + vstd::utf8::decode_utf8(second));
    }
}

/// A piece of a stream says what it holds.
pub proof fn payloads_say_what_they_hold(document: String)
    ensures
        StreamPayload::Nothing@ == PayloadView::Nothing,
        StreamPayload::Done@ == PayloadView::Done,
        StreamPayload::Document(document)@ == PayloadView::Document(document@),
{
}

/// Whether a text is white space throughout.
pub open spec fn all_space(s: Seq<char>) -> bool {
    forall|i: int| 0 <= i < s.len() ==> text::is_space(#[trigger] s[i])
}

/// Whether a text stands on one line.
pub open spec fn one_line(s: Seq<char>) -> bool {
    forall|i: int| 0 <= i < s.len() ==> #[trigger] s[i] != '\n' && s[i] != '\r'
}

/// A line of data gives what follows `data:` and white space, as it stands there; a line
/// that does not start so gives nothing.
pub proof fn data_lines_give_their_data(
    lines: Seq<Seq<char>>,
    space: Seq<char>,
    data: Seq<char>,
    line: Seq<char>,
)
    requires
        all_space(space),
        data.len() > 0 ==> !text::is_space(data[0]),
        forall|rest: Seq<char>| line != #[trigger] ("data:"@ + rest),
    ensures
        data_lines(Seq::empty()).len() == 0,
        data_lines(lines.push("data:"@ + space + data)) == data_lines(lines).push(data),
        data_lines(lines.push(line)) == data_lines(lines),
{
    let full = "data:"@ + space + data;
    assert(full =~= "data:"@ + (space + data));
    text::prefixes_make_up_the_text(full, "data:"@, space + data);
    text::lemma_drop_front(space, data);
    assert(lines.push(full).drop_last() =~= lines);
    assert(lines.push(line).drop_last() =~= lines);
    text::prefixes_make_up_the_text(line, "data:"@, Seq::empty());
}

proof fn lemma_data_line(space: Seq<char>, data: Seq<char>)
    requires
        all_space(space),
        data.len() > 0 ==> !text::is_space(data[0]),
    ensures
        data_lines(seq!["data:"@ + space + data]) == seq![data],
{
    let full = "data:"@ + space + data;
    assert(full =~= "data:"@ + (space + data));
    text::prefixes_make_up_the_text(full, "data:"@, space + data);
    text::lemma_drop_front(space, data);
    let one = seq![full];
    assert(one.drop_last() =~= Seq::<Seq<char>>::empty());
    assert(data_lines(one.drop_last()) =~= Seq::<Seq<char>>::empty());
    assert(one.last() == full);
    assert(Seq::<Seq<char>>::empty().push(data) =~= seq![data]);
}

proof fn lemma_data_lines_add(a: Seq<Seq<char>>, b: Seq<Seq<char>>)
    ensures
        data_lines(a + b) == data_lines(a) + data_lines(b),
    decreases b.len(),
{
    if b.len() == 0 {
        assert(a + b =~= a);
        assert(data_lines(a) + Seq::<Seq<char>>::empty() =~= data_lines(a));
    } else {
        lemma_data_lines_add(a, b.drop_last());
        assert((a + b).drop_last() =~= a + b.drop_last());
        assert((a + b).last() == b.last());
        assert(data_lines(a + b) =~= data_lines(a) + data_lines(b));
    }
}

/// The data of an event is that of its lines, in order, with a line feed between two of
/// them.
pub proof fn events_join_the_data_of_their_lines(space: Seq<char>, data: Seq<char>, rest: Seq<char>)
    requires
        all_space(space),
        one_line(space),
        one_line(data),
        data.len() > 0 ==> !text::is_space(data[0]),
    ensures
        event_data("data:"@ + space + data) == data,
        event_data(("data:"@ + space + data).push('\n') + rest) == (if data_lines(
            text::line_list(rest),
        ).len() == 0 {
            data
        } else {
            data + "\n"@ + event_data(rest)
        }),
{
    reveal_strlit("data:");
    let line = "data:"@ + space + data;
    assert forall|i: int| 0 <= i < line.len() implies #[trigger] line[i] != '\n' && line[i]
        != '\r' by {
        if i >= 5 + space.len() {
            assert(line[i] == data[i - 5 - space.len()]);
        } else if i >= 5 {
            assert(line[i] == space[i - 5]);
        }
    }
    text::lines_are_what_stands_between_line_feeds(line, rest);
    lemma_data_line(space, data);
    let later = data_lines(text::line_list(rest));
    lemma_data_lines_add(seq![line], text::line_list(rest));
    text::joined_parts_stay_as_they_are(Seq::empty(), data, "\n"@);
    assert(Seq::<Seq<char>>::empty().push(data) =~= seq![data]);
    assert(text::joined(seq![data], "\n"@) == data);
    if later.len() == 0 {
        assert(seq![data] + later =~= seq![data]);
    } else {
        let both = seq![data] + later;
        path::lemma_joined_first(both, "\n"@);
        assert(both.drop_first() =~= later);
    }
}

/// An event whose only line is one of data holds that data as its document, the end of
/// the stream where the data is `[DONE]`, and nothing where it is empty.
pub proof fn events_hold_their_data(space: Seq<char>, data: Seq<char>)
    requires
        all_space(space),
        one_line(space),
        one_line(data),
        data.len() > 0 ==> !text::is_space(data[0]),
    ensures
        openai_payload("data:"@ + space + data) == (if data.len() == 0 {
            PayloadView::Nothing
        } else if text::trimmed(data) == "[DONE]"@ {
            PayloadView::Done
        } else {
            PayloadView::Document(data)
        }),
{
    events_join_the_data_of_their_lines(space, data, Seq::empty());
}

/// An event with a line that is none of data holds nothing.
pub proof fn other_events_hold_nothing(event: Seq<char>)
    requires
        one_line(event),
        forall|rest: Seq<char>| event != #[trigger] ("data:"@ + rest),
    ensures
        openai_payload(event) == PayloadView::Nothing,
{
    text::lines_are_what_stands_between_line_feeds(event, Seq::empty());
    let none = Seq::<Seq<char>>::empty();
    assert(data_lines(none).len() == 0);
    if event.len() > 0 {
        text::prefixes_make_up_the_text(event, "data:"@, Seq::empty());
        let one = seq![event];
        assert(one.drop_last() =~= none);
        assert(one.last() == event);
    }
    assert(data_lines(text::line_list(event)) =~= none);
}

proof fn lemma_one_line_event(event: Seq<char>, rest: Seq<char>)
    requires
        one_line(event),
    ensures
        framing::first_event(event + "\n\n"@ + rest) == Some((event, rest)),
{
    reveal_strlit("\n\n");
    reveal_strlit("\r\n\r\n");
    let front = event.push('\n');
    assert forall|i: int| !text::occurs_at(front, "\n\n"@, i) by {
        if text::occurs_at(front, "\n\n"@, i) {
            assert(front[i] == front.subrange(i, i + 2)[0]);
            assert(front[i] == event[i]);
        }
    }
    assert forall|i: int| !text::occurs_at(front, "\r\n\r\n"@, i) by {
        if text::occurs_at(front, "\r\n\r\n"@, i) {
            assert(front[i] == front.subrange(i, i + 4)[0]);
            assert(front[i] == event[i]);
        }
    }
    framing::events_reach_to_the_first_empty_line(event, rest);
}

proof fn lemma_data_event(space: Seq<char>, data: Seq<char>)
    requires
        one_line(space),
        one_line(data),
    ensures
        one_line("data:"@ + space + data),
{
    reveal_strlit("data:");
    let line = "data:"@ + space + data;
    assert forall|i: int| 0 <= i < line.len() implies #[trigger] line[i] != '\n' && line[i]
        != '\r' by {
        if i >= 5 + space.len() {
            assert(line[i] == data[i - 5 - space.len()]);
        } else if i >= 5 {
            assert(line[i] == space[i - 5]);
        }
    }
}

/// A document that a server sends as an event is read as it was sent, and reading goes on
/// behind it.
pub proof fn sent_documents_are_read(space: Seq<char>, document: Seq<char>, rest: Seq<char>)
    requires
        all_space(space),
        one_line(space),
        one_line(document),
        document.len() > 0,
        !text::is_space(document[0]),
        text::trimmed(document) != "[DONE]"@,
    ensures
        ({
            let buffer = "data:"@ + space + document + "\n\n"@ + rest;
            &&& next_openai_document(buffer) == (Some(document), rest, false)
            &&& openai_documents(buffer) == ({
                let (documents, left, finished) = openai_documents(rest);
                (seq![document] + documents, left, finished)
            })
        }),
        last_openai_document("data:"@ + space + document) == Some(document),
{
    let event = "data:"@ + space + document;
    lemma_data_event(space, document);
    lemma_one_line_event(event, rest);
    events_hold_their_data(space, document);
    let buffer = event + "\n\n"@ + rest;
    reveal_strlit("data:");
    assert(!text::is_space(event[0])) by {
        assert(event[0] == 'd');
    }
    text::blank_is_white_space_throughout(event);
}

/// The end of a stream is found where it is sent, and what follows it is not read.
pub proof fn the_end_is_found(space: Seq<char>, rest: Seq<char>)
    requires
        all_space(space),
        one_line(space),
    ensures
        ({
            let buffer = "data:"@ + space + "[DONE]"@ + "\n\n"@ + rest;
            &&& next_openai_document(buffer) == (None::<Seq<char>>, rest, true)
            &&& openai_documents(buffer) == (Seq::<Seq<char>>::empty(), rest, true)
        }),
        last_openai_document("data:"@ + space + "[DONE]"@) is None,
{
    reveal_strlit("[DONE]");
    let data = "[DONE]"@;
    assert(data.len() == 6);
    assert(data[0] == '[');
    assert(data[5] == ']');
    text::lemma_trimmed_is(data);
    lemma_data_event(space, data);
    lemma_one_line_event("data:"@ + space + data, rest);
    events_hold_their_data(space, data);
}

/// What a server sends that is no data is passed over.
pub proof fn other_events_are_passed_over(event: Seq<char>, rest: Seq<char>)
    requires
        one_line(event),
        forall|data: Seq<char>| event != #[trigger] ("data:"@ + data),
    ensures
        next_openai_document(event + "\n\n"@ + rest) == next_openai_document(rest),
        openai_documents(event + "\n\n"@ + rest) == openai_documents(rest),
{
    lemma_one_line_event(event, rest);
    other_events_hold_nothing(event);
}

/// Where no event is complete, nothing is read, and nothing is lost.
pub proof fn incomplete_pieces_wait(buffer: Seq<char>)
    ensures
        !text::contains(buffer, "\n\n"@) && !text::contains(buffer, "\r\n\r\n"@)
            ==> next_openai_document(buffer) == (None::<Seq<char>>, buffer, false),
        !text::contains(buffer, "\n"@) ==> next_ollama_document(buffer) == (
            None::<Seq<char>>,
            buffer,
        ),
{
    framing::ended_pieces_are_taken(buffer);
}

/// A document that Ollama sends on a line is read as it was sent, without the white space
/// around it, and reading goes on behind it. A line of white space is passed over.
pub proof fn sent_lines_are_read(
    front: Seq<char>,
    document: Seq<char>,
    end: Seq<char>,
    blank: Seq<char>,
    rest: Seq<char>,
)
    requires
        all_space(front),
        all_space(end),
        all_space(blank),
        one_line(front),
        one_line(document),
        one_line(end),
        one_line(blank),
        document.len() > 0,
        !text::is_space(document[0]),
        !text::is_space(document.last()),
    ensures
        ({
            let line = front + document + end;
            let buffer = line.push('\n') + rest;
            &&& ollama_payload(line) == PayloadView::Document(document)
            &&& next_ollama_document(buffer) == (Some(document), rest)
            &&& ollama_documents(buffer) == ({
                let (documents, left) = ollama_documents(rest);
                (seq![document] + documents, left)
            })
            &&& last_ollama_document(line) == Some(document)
        }),
        ollama_payload(blank) == PayloadView::Nothing,
        next_ollama_document(blank.push('\n') + rest) == next_ollama_document(rest),
        ollama_documents(blank.push('\n') + rest) == ollama_documents(rest),
        last_ollama_document(blank) is None,
{
    let line = front + document + end;
    text::trimming_takes_white_space_alone(front, document, end);
    assert forall|i: int| 0 <= i < line.len() implies #[trigger] line[i] != '\n' && line[i]
        != '\r' by {
        if i < front.len() {
            assert(line[i] == front[i]);
        } else if i < front.len() + document.len() {
            assert(line[i] == document[i - front.len()]);
        } else {
            assert(line[i] == end[i - front.len() - document.len()]);
        }
    }
    framing::lines_reach_to_the_first_line_feed(line, rest);
    text::blank_is_white_space_throughout(blank);
    framing::lines_reach_to_the_first_line_feed(blank, rest);
}

/// What an event holds is the data of all its lines, with a line feed between two of them:
/// nothing where there is none, the end of the stream where it is `[DONE]`, and else a
/// document, as it is.
pub proof fn events_hold_the_data_of_all_lines(event: Seq<char>)
    ensures
        ({
            let data = text::joined(data_lines(text::line_list(event)), "\n"@);
            &&& data.len() == 0 <==> openai_payload(event) == PayloadView::Nothing
            &&& data.len() > 0 && text::trimmed(data) == "[DONE]"@ <==> openai_payload(event)
                == PayloadView::Done
            &&& data.len() > 0 && text::trimmed(data) != "[DONE]"@ ==> openai_payload(event)
                == PayloadView::Document(data)
            &&& event_data(event) == data
        }),
{
}

/// A buffer is read event by event: one that holds nothing is passed over, and the first
/// other one is the document, or the end, that is found.
pub proof fn buffers_are_read_event_by_event(
    buffer: Seq<char>,
    event: Seq<char>,
    rest: Seq<char>,
)
    requires
        framing::first_event(buffer) == Some((event, rest)),
    ensures
        openai_payload(event) == PayloadView::Nothing ==> next_openai_document(buffer)
            == next_openai_document(rest),
        openai_payload(event) == PayloadView::Done ==> next_openai_document(buffer) == (
            None::<Seq<char>>,
            rest,
            true,
        ),
        openai_payload(event) matches PayloadView::Document(document) ==> next_openai_document(
            buffer,
        ) == (Some(document), rest, false),
{
}

/// A buffer of Ollama is read line by line: a blank one is passed over, and the first
/// other one is the document that is found, without the white space around it.
pub proof fn buffers_are_read_line_by_line(buffer: Seq<char>, line: Seq<char>, rest: Seq<char>)
    requires
        framing::first_line(buffer) == Some((line, rest)),
    ensures
        text::trimmed(line).len() == 0 ==> next_ollama_document(buffer) == next_ollama_document(
            rest,
        ),
        text::trimmed(line).len() > 0 ==> next_ollama_document(buffer) == (
            Some(text::trimmed(line)),
            rest,
        ),
{
}

/// What is left when a stream breaks off is read as an event, or a line, of its own, unless
/// it is blank.
pub proof fn the_rest_of_a_stream_is_read(buffer: Seq<char>)
    ensures
        text::trimmed(buffer).len() == 0 ==> last_openai_document(buffer) is None
            && last_ollama_document(buffer) is None,
        text::trimmed(buffer).len() > 0 ==> last_ollama_document(buffer) == Some(
            text::trimmed(buffer),
        ),
        text::trimmed(buffer).len() > 0 ==> (last_openai_document(buffer) matches Some(document)
            && openai_payload(buffer) == PayloadView::Document(document)) || (last_openai_document(
            buffer,
        ) is None && !(openai_payload(buffer) is Document)),
{
}

// What is being read says what it holds.
proof fn lemma_streams(openai: OpenAIStream, ollama: OllamaStream)
    ensures
        openai@.buffer == openai.buffer@,
        openai@.text == openai.text@,
        openai@.calls == stream::partials_view(openai.calls@),
        openai@.finished == openai.finished,
        ollama@.buffer == ollama.buffer@,
        ollama@.text == ollama.text@,
        ollama@.tool_uses == stream::calls_view(ollama.tool_uses@),
        ollama@.finished == ollama.finished,
{
}

}
