//! The files that are open at a language server.
//!
//! A server is told of a file when it is first asked about, and again whenever the file
//! has changed since.
use crate::json;
use crate::json::{Json, JsonView};
use crate::path;
use crate::text;
use vstd::prelude::*;
use vstd::string::*;

verus! {

/// A message to a server that is not answered.
pub struct Notification {
    pub method: String,
    pub params: Json,
}

/// What a server is told.
pub struct NotificationView {
    pub method: Seq<char>,
    pub params: JsonView,
}

impl View for Notification {
    type V = NotificationView;

    open spec fn view(&self) -> NotificationView {
        NotificationView { method: self.method@, params: self.params@ }
    }
}

/// What a server is told, in order.
pub open spec fn notifications_view(list: Seq<Notification>) -> Seq<NotificationView> {
    Seq::new(list.len(), |i: int| list[i]@)
}

/// A file that is open at a server.
pub struct OpenDocument {
    pub uri: String,
    pub version: i32,
    pub text: String,
}

/// A file that is open at a server, as the server knows it.
pub struct DocumentView {
    pub uri: Seq<char>,
    pub version: i32,
    pub text: Seq<char>,
}

impl View for OpenDocument {
    type V = DocumentView;

    open spec fn view(&self) -> DocumentView {
        DocumentView { uri: self.uri@, version: self.version, text: self.text@ }
    }
}

/// The files that are open at a server, with their paths.
pub open spec fn documents_view(entries: Seq<(String, OpenDocument)>) -> Seq<
    (Seq<char>, DocumentView),
> {
    Seq::new(entries.len(), |i: int| (entries[i].0@, entries[i].1@))
}

/// Whether no path occurs twice, however it is written.
pub open spec fn paths_differ(documents: Seq<(Seq<char>, DocumentView)>) -> bool {
    forall|i: int, j: int|
        0 <= i < j < documents.len() ==> !path::same_path(
            (#[trigger] documents[i]).0,
            (#[trigger] documents[j]).0,
        )
}

/// Where the file of a path stands, if it is open, however the path is written.
pub open spec fn place_of(documents: Seq<(Seq<char>, DocumentView)>, path: Seq<char>) -> Option<
    int,
>
    decreases documents.len(),
{
    if documents.len() == 0 {
        None
    } else if path::same_path(documents.last().0, path) {
        Some(documents.len() - 1)
    } else {
        place_of(documents.drop_last(), path)
    }
}

/// The file of a path, if it is open.
pub open spec fn document_at(documents: Seq<(Seq<char>, DocumentView)>, path: Seq<char>) -> Option<
    DocumentView,
> {
    match place_of(documents, path) {
        Some(i) => Some(documents[i].1),
        None => None,
    }
}

/// A file is named by where it stands, and a file that stands nowhere has no name.
proof fn lemma_place_of(documents: Seq<(Seq<char>, DocumentView)>, path: Seq<char>)
    ensures
        match place_of(documents, path) {
            Some(i) => 0 <= i < documents.len() && path::same_path(documents[i].0, path)
                && forall|j: int|
                i < j < documents.len() ==> !path::same_path((#[trigger] documents[j]).0, path),
            None => forall|j: int|
                0 <= j < documents.len() ==> !path::same_path((#[trigger] documents[j]).0, path),
        },
    decreases documents.len(),
{
    if documents.len() > 0 && !path::same_path(documents.last().0, path) {
        lemma_place_of(documents.drop_last(), path);
        assert forall|j: int|
            0 <= j < documents.len() - 1 implies #[trigger] documents[j] == documents.drop_last()[j] by {
        }
    }
}

// ---------------------------------------------------------------------------
// What a server is told
// ---------------------------------------------------------------------------

/// A member `textDocument` that names a file.
pub open spec fn named_document(uri: Seq<char>) -> JsonView {
    json::with_member(json::empty_object(), "uri"@, JsonView::Text(uri))
}

/// A file is open now.
pub open spec fn did_open(uri: Seq<char>, language_id: Seq<char>, text: Seq<char>) -> NotificationView {
    NotificationView {
        method: "textDocument/didOpen"@,
        params: json::with_member(
            json::empty_object(),
            "textDocument"@,
            json::with_member(
                json::with_member(
                    json::with_member(
                        named_document(uri),
                        "languageId"@,
                        JsonView::Text(language_id),
                    ),
                    "version"@,
                    JsonView::Number(json::json_integer(1)),
                ),
                "text"@,
                JsonView::Text(text),
            ),
        ),
    }
}

/// A file holds another text now.
pub open spec fn did_change(uri: Seq<char>, version: i32, text: Seq<char>) -> NotificationView {
    NotificationView {
        method: "textDocument/didChange"@,
        params: json::with_member(
            json::with_member(
                json::empty_object(),
                "textDocument"@,
                json::with_member(
                    named_document(uri),
                    "version"@,
                    JsonView::Number(json::json_integer(version as i64)),
                ),
            ),
            "contentChanges"@,
            JsonView::List(
                seq![json::with_member(json::empty_object(), "text"@, JsonView::Text(text))],
            ),
        ),
    }
}

/// A file is saved with a text.
pub open spec fn did_save(uri: Seq<char>, text: Seq<char>) -> NotificationView {
    NotificationView {
        method: "textDocument/didSave"@,
        params: json::with_member(
            json::with_member(json::empty_object(), "textDocument"@, named_document(uri)),
            "text"@,
            JsonView::Text(text),
        ),
    }
}

/// A file is not open any more.
pub open spec fn did_close(uri: Seq<char>) -> NotificationView {
    NotificationView {
        method: "textDocument/didClose"@,
        params: json::with_member(json::empty_object(), "textDocument"@, named_document(uri)),
    }
}

/// What a server is told of a file that it is asked about.
pub open spec fn sync_notifications(
    documents: Seq<(Seq<char>, DocumentView)>,
    path: Seq<char>,
    uri: Seq<char>,
    language_id: Seq<char>,
    text: Seq<char>,
) -> Seq<NotificationView> {
    match document_at(documents, path) {
        Some(document) => if document.text != text {
            seq![
                did_change(document.uri, (document.version + 1) as i32, text),
                did_save(document.uri, text),
            ]
        } else {
            Seq::empty()
        },
        None => seq![did_open(uri, language_id, text), did_save(uri, text)],
    }
}

/// The files that are open, once a changed one is noted.
pub open spec fn noted(
    documents: Seq<(Seq<char>, DocumentView)>,
    path: Seq<char>,
    text: Seq<char>,
) -> Seq<(Seq<char>, DocumentView)> {
    match place_of(documents, path) {
        Some(i) => {
            let document = documents[i].1;
            if document.text != text {
                documents.update(
                    i,
                    (
                        documents[i].0,
                        DocumentView {
                            uri: document.uri,
                            version: (document.version + 1) as i32,
                            text,
                        },
                    ),
                )
            } else {
                documents
            }
        },
        None => documents,
    }
}

/// The files that are open, once the server has been told of a new one.
pub open spec fn opened(
    documents: Seq<(Seq<char>, DocumentView)>,
    path: Seq<char>,
    uri: Seq<char>,
    text: Seq<char>,
) -> Seq<(Seq<char>, DocumentView)> {
    documents.push((path, DocumentView { uri, version: 1, text }))
}

/// The files that are open once a server has been told of one.
pub open spec fn synced(
    documents: Seq<(Seq<char>, DocumentView)>,
    path: Seq<char>,
    uri: Seq<char>,
    text: Seq<char>,
) -> Seq<(Seq<char>, DocumentView)> {
    match place_of(documents, path) {
        Some(_) => noted(documents, path, text),
        None => opened(documents, path, uri, text),
    }
}

fn name_document(uri: &str) -> (r: Json)
    ensures
        r@ == named_document(uri@),
{
    Json::object().with("uri", Json::text(uri))
}

fn tell_opened(uri: &str, language_id: &str, text: &str) -> (r: Notification)
    ensures
        r@ == did_open(uri@, language_id@, text@),
{
    let document: Json = name_document(uri).with("languageId", Json::text(language_id)).with(
        "version",
        Json::integer(1),
    ).with("text", Json::text(text));
    Notification {
        method: "textDocument/didOpen".to_owned(),
        params: Json::object().with("textDocument", document),
    }
}

fn tell_changed(uri: &str, version: i32, text: &str) -> (r: Notification)
    ensures
        r@ == did_change(uri@, version, text@),
{
    let document: Json = name_document(uri).with("version", Json::integer(version as i64));
    let change: Json = Json::object().with("text", Json::text(text));
    let mut changes: Vec<Json> = Vec::new();
    proof {
        json::lemma_list_view_push(changes@, change);
        assert(json::list_view(changes@.push(change)) =~= seq![change@]);
    }
    changes.push(change);
    Notification {
        method: "textDocument/didChange".to_owned(),
        params: Json::object().with("textDocument", document).with(
            "contentChanges",
            Json::List(changes),
        ),
    }
}

fn tell_saved(uri: &str, text: &str) -> (r: Notification)
    ensures
        r@ == did_save(uri@, text@),
{
    Notification {
        method: "textDocument/didSave".to_owned(),
        params: Json::object().with("textDocument", name_document(uri)).with(
            "text",
            Json::text(text),
        ),
    }
}

fn tell_closed(uri: &str) -> (r: Notification)
    ensures
        r@ == did_close(uri@),
{
    Notification {
        method: "textDocument/didClose".to_owned(),
        params: Json::object().with("textDocument", name_document(uri)),
    }
}

// ---------------------------------------------------------------------------
// The open files
// ---------------------------------------------------------------------------

/// The files that are open at a server.
pub struct OpenDocuments {
    entries: Vec<(String, OpenDocument)>,
}

impl View for OpenDocuments {
    type V = Seq<(Seq<char>, DocumentView)>;

    closed spec fn view(&self) -> Seq<(Seq<char>, DocumentView)> {
        documents_view(self.entries@)
    }
}

impl OpenDocuments {
    /// No path occurs twice.
    pub open spec fn wf(&self) -> bool {
        paths_differ(self@)
    }

    /// No file is open.
    pub fn new() -> (r: OpenDocuments)
        ensures
            r.wf(),
            r@ == Seq::<(Seq<char>, DocumentView)>::empty(),
    {
        let r: OpenDocuments = OpenDocuments { entries: Vec::new() };
        assert(r@ =~= Seq::<(Seq<char>, DocumentView)>::empty());
        r
    }

    /// Where the file of a path stands.
    fn find(&self, path: &str) -> (r: Option<usize>)
        ensures
            match r {
                Some(i) => place_of(self@, path@) == Some(i as int) && i < self.entries@.len(),
                None => place_of(self@, path@) is None,
            },
    {
        let mut end: usize = self.entries.len();
        assert(self@.take(end as int) =~= self@);
        while 0 < end
            invariant
                end <= self.entries@.len(),
                place_of(self@, path@) == place_of(self@.take(end as int), path@),
            decreases end,
        {
            proof {
                assert(self@.take(end as int).last() == self@[end - 1]);
                assert(self@.take(end as int).drop_last() =~= self@.take(end - 1));
            }
            if path::is_same_path(self.entries[end - 1].0.as_str(), path) {
                return Some(end - 1);
            }
            end -= 1;
        }
        None
    }

    /// The version of the file of a path, if it is open.
    pub fn version(&self, path: &str) -> (r: Option<i32>)
        ensures
            r == (match document_at(self@, path@) {
                Some(document) => Some(document.version),
                None => None,
            }),
    {
        match self.find(path) {
            Some(i) => {
                assert(self@[i as int].1 == self.entries@[i as int].1@);
                Some(self.entries[i].1.version)
            },
            None => None,
        }
    }

    /// Whether a file can be noted with a text: a change needs a version that is free.
    pub fn can_sync(&self, path: &str, text: &str) -> (r: bool)
        ensures
            r == (match document_at(self@, path@) {
                Some(document) => document.version < i32::MAX || document.text == text@,
                None => true,
            }),
    {
        match self.find(path) {
            Some(i) => {
                assert(self@[i as int].1 == self.entries@[i as int].1@);
                self.entries[i].1.version < i32::MAX || text::same_text(
                    self.entries[i].1.text.as_str(),
                    text,
                )
            },
            None => true,
        }
    }

    /// What the server is to be told of a file that it is asked about. A changed file is
    /// noted at once; a new one is recorded when the server has been told of it.
    pub fn sync(&mut self, path: &str, uri: &str, language_id: &str, text: &str) -> (r: Vec<
        Notification,
    >)
        requires
            old(self).wf(),
            document_at(old(self)@, path@) matches Some(document) ==> document.version < i32::MAX
                || document.text == text@,
        ensures
            final(self).wf(),
            final(self)@ == noted(old(self)@, path@, text@),
            notifications_view(r@) == sync_notifications(
                old(self)@,
                path@,
                uri@,
                language_id@,
                text@,
            ),
    {
        let mut out: Vec<Notification> = Vec::new();
        proof {
            lemma_place_of(self@, path@);
        }
        match self.find(path) {
            Some(i) => {
                assert(self@[i as int].1 == self.entries@[i as int].1@);
                if !text::same_text(self.entries[i].1.text.as_str(), text) {
                    let ghost before = self.entries@;
                    let version: i32 = self.entries[i].1.version + 1;
                    let known: String = self.entries[i].1.uri.clone();
                    out.push(tell_changed(known.as_str(), version, text));
                    out.push(tell_saved(known.as_str(), text));
                    let document: OpenDocument = OpenDocument {
                        uri: known,
                        version,
                        text: text.to_owned(),
                    };
                    let entry: (String, OpenDocument) = (self.entries[i].0.clone(), document);
                    self.entries.set(i, entry);
                    proof {
                        assert(documents_view(self.entries@) =~= documents_view(before).update(
                            i as int,
                            (before[i as int].0@, document@),
                        ));
                    }
                }
            },
            None => {
                out.push(tell_opened(uri, language_id, text));
                out.push(tell_saved(uri, text));
            },
        }
        assert(notifications_view(out@) =~= sync_notifications(
            old(self)@,
            path@,
            uri@,
            language_id@,
            text@,
        ));
        out
    }

    /// Records that the server has been told of a new file.
    pub fn record_opened(&mut self, path: &str, uri: &str, text: &str)
        requires
            old(self).wf(),
            document_at(old(self)@, path@) is None,
        ensures
            final(self).wf(),
            final(self)@ == opened(old(self)@, path@, uri@, text@),
    {
        let ghost before = self.entries@;
        proof {
            lemma_place_of(self@, path@);
        }
        let document: OpenDocument = OpenDocument {
            uri: uri.to_owned(),
            version: 1,
            text: text.to_owned(),
        };
        self.entries.push((path.to_owned(), document));
        assert(documents_view(self.entries@) =~= documents_view(before).push((path@, document@)));
    }

    /// What the server is to be told when it is left: that no file is open any more.
    pub fn close_notifications(&self) -> (r: Vec<Notification>)
        ensures
            notifications_view(r@) == Seq::new(
                self@.len(),
                |i: int| did_close(self@[i].1.uri),
            ),
    {
        let mut out: Vec<Notification> = Vec::new();
        let mut i: usize = 0;
        while i < self.entries.len()
            invariant
                i <= self.entries@.len(),
                out@.len() == i,
                forall|j: int| 0 <= j < i ==> (#[trigger] out@[j])@ == did_close(self@[j].1.uri),
            decreases self.entries@.len() - i,
        {
            assert(self@[i as int].1 == self.entries@[i as int].1@);
            out.push(tell_closed(self.entries[i].1.uri.as_str()));
            i += 1;
        }
        assert(notifications_view(out@) =~= Seq::new(
            self@.len(),
            |i: int| did_close(self@[i].1.uri),
        ));
        out
    }
}

// ---------------------------------------------------------------------------
// Laws
// ---------------------------------------------------------------------------

proof fn lemma_place_is(
    documents: Seq<(Seq<char>, DocumentView)>,
    path: Seq<char>,
    i: int,
)
    requires
        0 <= i < documents.len(),
        path::same_path(documents[i].0, path),
        forall|j: int|
            i < j < documents.len() ==> !path::same_path((#[trigger] documents[j]).0, path),
    ensures
        place_of(documents, path) == Some(i),
{
    lemma_place_of(documents, path);
}

/// It does not matter how the path of a file is written: the same file is found.
pub proof fn spellings_do_not_matter(
    documents: Seq<(Seq<char>, DocumentView)>,
    path: Seq<char>,
    again: Seq<char>,
)
    requires
        path::same_path(path, again),
    ensures
        place_of(documents, path) == place_of(documents, again),
        document_at(documents, path) == document_at(documents, again),
    decreases documents.len(),
{
    if documents.len() > 0 {
        spellings_do_not_matter(documents.drop_last(), path, again);
    }
}

/// Once a server has been told of a file, it knows the text that the file holds, with the
/// name under which it was first told of it.
pub proof fn servers_know_the_text(
    documents: Seq<(Seq<char>, DocumentView)>,
    path: Seq<char>,
    uri: Seq<char>,
    text: Seq<char>,
)
    ensures
        ({
            let after = document_at(synced(documents, path, uri, text), path);
            &&& after is Some
            &&& after->0.text == text
            &&& after->0.uri == (match document_at(documents, path) {
                Some(document) => document.uri,
                None => uri,
            })
        }),
{
    lemma_place_of(documents, path);
    let after = synced(documents, path, uri, text);
    match place_of(documents, path) {
        Some(i) => {
            assert forall|j: int| i < j < after.len() implies !path::same_path(
                (#[trigger] after[j]).0,
                path,
            ) by {
                assert(after[j] == documents[j]);
            }
            lemma_place_is(after, path, i);
        },
        None => {
            lemma_place_is(after, path, documents.len() as int);
        },
    }
}

/// A server is told of a file only when there is something new: of a file that has not
/// changed since, it is told nothing, and nothing changes, however its path is written.
pub proof fn unchanged_files_are_not_told(
    documents: Seq<(Seq<char>, DocumentView)>,
    path: Seq<char>,
    again: Seq<char>,
    uri: Seq<char>,
    other_uri: Seq<char>,
    language_id: Seq<char>,
    text: Seq<char>,
)
    requires
        path::same_path(path, again),
    ensures
        ({
            let after = synced(documents, path, uri, text);
            &&& sync_notifications(after, again, other_uri, language_id, text).len() == 0
            &&& synced(after, again, other_uri, text) == after
        }),
{
    servers_know_the_text(documents, path, uri, text);
    spellings_do_not_matter(synced(documents, path, uri, text), path, again);
}

/// The version of an open file grows by one with each change, and with nothing else. A
/// file starts at version one.
pub proof fn versions_count_changes(
    documents: Seq<(Seq<char>, DocumentView)>,
    path: Seq<char>,
    uri: Seq<char>,
    text: Seq<char>,
)
    requires
        document_at(documents, path) matches Some(document) ==> document.version < i32::MAX
            || document.text == text,
    ensures
        ({
            let after = document_at(synced(documents, path, uri, text), path)->0;
            match document_at(documents, path) {
                Some(document) => after.version == document.version + (if document.text != text {
                    1int
                } else {
                    0int
                }),
                None => after.version == 1,
            }
        }),
{
    servers_know_the_text(documents, path, uri, text);
    lemma_place_of(documents, path);
    let after = synced(documents, path, uri, text);
    match place_of(documents, path) {
        Some(i) => {
            assert forall|j: int| i < j < after.len() implies !path::same_path(
                (#[trigger] after[j]).0,
                path,
            ) by {
                assert(after[j] == documents[j]);
            }
            lemma_place_is(after, path, i);
        },
        None => {
            lemma_place_is(after, path, documents.len() as int);
        },
    }
}

/// What a server is told of one file changes nothing of the others, and no path occurs
/// twice.
pub proof fn other_files_stay(
    documents: Seq<(Seq<char>, DocumentView)>,
    path: Seq<char>,
    uri: Seq<char>,
    text: Seq<char>,
    other: Seq<char>,
)
    requires
        paths_differ(documents),
        !path::same_path(other, path),
    ensures
        document_at(synced(documents, path, uri, text), other) == document_at(documents, other),
        paths_differ(synced(documents, path, uri, text)),
{
    lemma_place_of(documents, path);
    lemma_place_of(documents, other);
    let after = synced(documents, path, uri, text);
    lemma_place_of(after, other);
    match place_of(documents, other) {
        Some(k) => {
            assert(after[k] == documents[k]);
            assert forall|j: int| k < j < after.len() implies !path::same_path(
                (#[trigger] after[j]).0,
                other,
            ) by {
                if j < documents.len() {
                    assert(after[j].0 == documents[j].0);
                }
            }
            lemma_place_is(after, other, k);
        },
        None => {
            if let Some(k) = place_of(after, other) {
                if k < documents.len() {
                    assert(after[k].0 == documents[k].0);
                }
            }
        },
    }
    assert forall|i: int, j: int| 0 <= i < j < after.len() implies !path::same_path(
        (#[trigger] after[i]).0,
        (#[trigger] after[j]).0,
    ) by {
        assert(after[i].0 == documents[i].0);
        if j < documents.len() {
            assert(after[j].0 == documents[j].0);
        }
    }
}

/// A notification says what it holds, and so does a list of them, in order.
pub proof fn notifications_say_what_they_hold(list: Seq<Notification>, i: int)
    requires
        0 <= i < list.len(),
    ensures
        notifications_view(list).len() == list.len(),
        notifications_view(list)[i].method == list[i].method@,
        notifications_view(list)[i].params == list[i].params@,
{
}

/// An open file says what it holds, and so does a list of them, in order.
pub proof fn open_files_say_what_they_hold(entries: Seq<(String, OpenDocument)>, i: int)
    requires
        0 <= i < entries.len(),
    ensures
        documents_view(entries).len() == entries.len(),
        documents_view(entries)[i].0 == entries[i].0@,
        documents_view(entries)[i].1.uri == entries[i].1.uri@,
        documents_view(entries)[i].1.version == entries[i].1.version,
        documents_view(entries)[i].1.text == entries[i].1.text@,
{
}

// The open files are those that are held, in order.
proof fn lemma_open_documents(documents: OpenDocuments, i: int)
    requires
        0 <= i < documents.entries@.len(),
    ensures
        documents@.len() == documents.entries@.len(),
        documents@[i].0 == documents.entries@[i].0@,
        documents@[i].1 == documents.entries@[i].1@,
{
}

proof fn lemma_document_names_differ()
    ensures
        "textDocument"@ != "contentChanges"@,
        "textDocument"@ != "text"@,
        "uri"@ != "languageId"@,
        "uri"@ != "version"@,
        "uri"@ != "text"@,
        "languageId"@ != "version"@,
        "languageId"@ != "text"@,
        "version"@ != "text"@,
{
    reveal_strlit("textDocument");
    reveal_strlit("contentChanges");
    reveal_strlit("uri");
    reveal_strlit("languageId");
    reveal_strlit("version");
    reveal_strlit("text");
    assert("textDocument"@.len() == 12);
    assert("contentChanges"@.len() == 14);
    assert("uri"@.len() == 3);
    assert("languageId"@.len() == 10);
    assert("version"@.len() == 7);
    assert("text"@.len() == 4);
}

/// Whether a notification says of which file it speaks.
pub open spec fn speaks_of(notification: NotificationView, uri: Seq<char>) -> bool {
    &&& json::member(notification.params, "textDocument"@) matches Some(document)
    &&& json::member(document, "uri"@) == Some(JsonView::Text(uri))
}

/// Of a file that is not open, a server is first told that it is open, with the language
/// and the text of the file as it is, and then that it is saved with that text. It is the
/// text that is noted, too.
pub proof fn opened_files_are_told_as_they_are(
    documents: Seq<(Seq<char>, DocumentView)>,
    path: Seq<char>,
    uri: Seq<char>,
    language_id: Seq<char>,
    text: Seq<char>,
)
    requires
        document_at(documents, path) is None,
    ensures
        ({
            let told = sync_notifications(documents, path, uri, language_id, text);
            let known = document_at(synced(documents, path, uri, text), path);
            &&& told.len() == 2
            &&& told[0].method == "textDocument/didOpen"@
            &&& speaks_of(told[0], uri)
            &&& json::member(told[0].params, "textDocument"@) matches Some(document) && {
                &&& json::member(document, "languageId"@) == Some(JsonView::Text(language_id))
                &&& json::member(document, "version"@) == Some(
                    JsonView::Number(json::json_integer(1)),
                )
                &&& json::member(document, "text"@) == Some(JsonView::Text(text))
            }
            &&& told[1].method == "textDocument/didSave"@
            &&& speaks_of(told[1], uri)
            &&& json::member(told[1].params, "text"@) == Some(JsonView::Text(text))
            &&& known == Some(DocumentView { uri, version: 1, text })
            &&& noted(documents, path, text) == documents
        }),
{
    lemma_document_names_differ();
    servers_know_the_text(documents, path, uri, text);
    versions_count_changes(documents, path, uri, text);
}

/// Of an open file that has changed, a server is first told the whole new text, as it is,
/// with the next version, and then that the file is saved with that text. Both is told
/// under the name by which the server knows the file, and it is what is noted, too.
pub proof fn changed_files_are_told_as_they_are(
    documents: Seq<(Seq<char>, DocumentView)>,
    path: Seq<char>,
    uri: Seq<char>,
    language_id: Seq<char>,
    text: Seq<char>,
    before: DocumentView,
)
    requires
        document_at(documents, path) == Some(before),
        before.text != text,
        before.version < i32::MAX,
    ensures
        ({
            let told = sync_notifications(documents, path, uri, language_id, text);
            let version = (before.version + 1) as i32;
            &&& told.len() == 2
            &&& told[0].method == "textDocument/didChange"@
            &&& speaks_of(told[0], before.uri)
            &&& json::member(told[0].params, "textDocument"@) matches Some(document)
                && json::member(document, "version"@) == Some(
                JsonView::Number(json::json_integer(version as i64)),
            )
            &&& json::member(told[0].params, "contentChanges"@) matches Some(
                JsonView::List(changes),
            ) && changes.len() == 1 && json::member(changes[0], "text"@) == Some(
                JsonView::Text(text),
            )
            &&& told[1].method == "textDocument/didSave"@
            &&& speaks_of(told[1], before.uri)
            &&& json::member(told[1].params, "text"@) == Some(JsonView::Text(text))
            &&& document_at(noted(documents, path, text), path) == Some(
                DocumentView { uri: before.uri, version, text },
            )
        }),
{
    lemma_document_names_differ();
    servers_know_the_text(documents, path, uri, text);
    versions_count_changes(documents, path, uri, text);
}

/// That a file is closed is told under the name by which the server knows it.
pub proof fn closed_files_are_named(uri: Seq<char>)
    ensures
        did_close(uri).method == "textDocument/didClose"@,
        speaks_of(did_close(uri), uri),
{
}

/// A new file comes behind those that are open, which stay as they are.
pub proof fn new_files_come_last(
    documents: Seq<(Seq<char>, DocumentView)>,
    path: Seq<char>,
    uri: Seq<char>,
    text: Seq<char>,
    i: int,
)
    requires
        0 <= i < documents.len(),
    ensures
        opened(documents, path, uri, text).len() == documents.len() + 1,
        opened(documents, path, uri, text)[i] == documents[i],
        opened(documents, path, uri, text).last() == (path, DocumentView { uri, version: 1, text }),
        noted(documents, path, text).len() == documents.len(),
        noted(documents, path, text)[i].0 == documents[i].0,
        noted(documents, path, text)[i].1.uri == documents[i].1.uri,
{
    lemma_place_of(documents, path);
}

/// A file is open exactly where some entry has its path, however the path is written, and
/// it is then what the entry says.
pub proof fn files_are_found_by_their_path(
    documents: Seq<(Seq<char>, DocumentView)>,
    path: Seq<char>,
    i: int,
)
    requires
        paths_differ(documents),
        0 <= i < documents.len(),
    ensures
        path::same_path(documents[i].0, path) ==> document_at(documents, path) == Some(
            documents[i].1,
        ),
        (forall|j: int|
            0 <= j < documents.len() ==> !path::same_path((#[trigger] documents[j]).0, path))
            <==> document_at(documents, path) is None,
{
    lemma_place_of(documents, path);
    if path::same_path(documents[i].0, path) {
        assert forall|j: int| i < j < documents.len() implies !path::same_path(
            (#[trigger] documents[j]).0,
            path,
        ) by {
            if path::same_path(documents[j].0, path) {
                assert(path::same_path(documents[i].0, documents[j].0));
            }
        }
        lemma_place_is(documents, path, i);
    }
}

/// Of an open file that has not changed, a server is told nothing, and nothing is noted.
pub proof fn known_files_are_left_alone(
    documents: Seq<(Seq<char>, DocumentView)>,
    path: Seq<char>,
    uri: Seq<char>,
    language_id: Seq<char>,
    before: DocumentView,
)
    requires
        document_at(documents, path) == Some(before),
    ensures
        sync_notifications(documents, path, uri, language_id, before.text).len() == 0,
        noted(documents, path, before.text) == documents,
        synced(documents, path, uri, before.text) == documents,
{
}

/// A notification says nothing else than is needed: of an open file its name, language,
/// version and text, of a changed one its name, version and text, of a saved one its name
/// and text, and of a closed one its name.
pub proof fn notifications_say_nothing_else(
    uri: Seq<char>,
    language_id: Seq<char>,
    version: i32,
    text: Seq<char>,
    key: Seq<char>,
)
    ensures
        ({
            let opened = did_open(uri, language_id, text).params;
            let document = json::member(opened, "textDocument"@)->0;
            &&& key != "textDocument"@ ==> json::member(opened, key) is None
            &&& key != "uri"@ && key != "languageId"@ && key != "version"@ && key != "text"@
                ==> json::member(document, key) is None
        }),
        ({
            let changed = did_change(uri, version, text).params;
            let document = json::member(changed, "textDocument"@)->0;
            let changes = json::member(changed, "contentChanges"@)->0->List_0;
            &&& key != "textDocument"@ && key != "contentChanges"@ ==> json::member(
                changed,
                key,
            ) is None
            &&& key != "uri"@ && key != "version"@ ==> json::member(document, key) is None
            &&& key != "text"@ ==> json::member(changes[0], key) is None
        }),
        ({
            let saved = did_save(uri, text).params;
            &&& key != "textDocument"@ && key != "text"@ ==> json::member(saved, key) is None
            &&& key != "uri"@ ==> json::member(
                json::member(saved, "textDocument"@)->0,
                key,
            ) is None
        }),
        ({
            let closed = did_close(uri).params;
            &&& key != "textDocument"@ ==> json::member(closed, key) is None
            &&& key != "uri"@ ==> json::member(
                json::member(closed, "textDocument"@)->0,
                key,
            ) is None
        }),
{
    lemma_document_names_differ();
}

}
