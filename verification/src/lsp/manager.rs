//! The language servers of a workspace.
use crate::json;
use crate::json::{Json, JsonView};
use crate::lsp::documents;
use crate::lsp::documents::{DocumentView, Notification, OpenDocuments};
use crate::path;
use crate::text;
use vstd::prelude::*;
use vstd::string::*;

verus! {

/// How a language server is started, and which files it serves.
#[derive(Debug)]
pub struct LspServerConfig {
    pub name: String,
    pub command: String,
    pub args: Vec<String>,
    pub extensions: Vec<String>,
}

/// How a language server is started, and which files it serves.
pub struct ServerView {
    pub name: Seq<char>,
    pub command: Seq<char>,
    pub args: Seq<Seq<char>>,
    pub extensions: Seq<Seq<char>>,
}

impl View for LspServerConfig {
    type V = ServerView;

    open spec fn view(&self) -> ServerView {
        ServerView {
            name: self.name@,
            command: self.command@,
            args: text::strings(self.args@),
            extensions: text::strings(self.extensions@),
        }
    }
}

/// Language servers.
pub open spec fn servers_view(configs: Seq<LspServerConfig>) -> Seq<ServerView> {
    Seq::new(configs.len(), |i: int| configs[i]@)
}

/// The texts of a list, copied.
fn copy_texts(items: &Vec<String>) -> (r: Vec<String>)
    ensures
        text::strings(r@) == text::strings(items@),
{
    let mut out: Vec<String> = Vec::new();
    let mut i: usize = 0;
    while i < items.len()
        invariant
            i <= items@.len(),
            out@.len() == i,
            forall|j: int| 0 <= j < i ==> (#[trigger] out@[j])@ == items@[j]@,
        decreases items@.len() - i,
    {
        out.push(items[i].clone());
        i += 1;
    }
    assert(text::strings(out@) =~= text::strings(items@));
    out
}

impl Clone for LspServerConfig {
    fn clone(&self) -> (r: Self)
        ensures
            r@ == self@,
    {
        LspServerConfig {
            name: self.name.clone(),
            command: self.command.clone(),
            args: copy_texts(&self.args),
            extensions: copy_texts(&self.extensions),
        }
    }
}

/// Whether a text is in a list.
fn is_listed(items: &Vec<String>, wanted: &str) -> (r: bool)
    ensures
        r == text::strings(items@).contains(wanted@),
{
    let mut i: usize = 0;
    while i < items.len()
        invariant
            i <= items@.len(),
            forall|j: int| 0 <= j < i ==> (#[trigger] items@[j])@ != wanted@,
        decreases items@.len() - i,
    {
        if text::same_text(items[i].as_str(), wanted) {
            assert(text::strings(items@)[i as int] == wanted@);
            return true;
        }
        i += 1;
    }
    false
}

// ---------------------------------------------------------------------------
// Which server is asked
// ---------------------------------------------------------------------------

/// The first server that serves files with an extension.
pub open spec fn first_serving(configs: Seq<ServerView>, extension: Seq<char>) -> Option<ServerView>
    decreases configs.len(),
{
    if configs.len() == 0 {
        None
    } else if configs[0].extensions.contains(extension) {
        Some(configs[0])
    } else {
        first_serving(configs.drop_first(), extension)
    }
}

/// Whether a server serves files that the workspace has. Where none are known to be
/// there, every server does.
pub open spec fn serves_workspace(config: ServerView, present: Seq<Seq<char>>) -> bool {
    present.len() == 0 || exists|i: int|
        0 <= i < config.extensions.len() && present.contains(#[trigger] config.extensions[i])
}

/// The servers that serve files that the workspace has, in order.
pub open spec fn serving_workspace(
    configs: Seq<ServerView>,
    present: Seq<Seq<char>>,
) -> Seq<ServerView>
    decreases configs.len(),
{
    if configs.len() == 0 {
        Seq::empty()
    } else {
        let rest = serving_workspace(configs.drop_last(), present);
        if serves_workspace(configs.last(), present) {
            rest.push(configs.last())
        } else {
            rest
        }
    }
}

/// The servers that are asked about the whole workspace: those that serve its files, or
/// all where none does.
pub open spec fn workspace_servers(
    configs: Seq<ServerView>,
    present: Seq<Seq<char>>,
) -> Seq<ServerView> {
    let serving = serving_workspace(configs, present);
    if serving.len() == 0 {
        configs
    } else {
        serving
    }
}

/// The line about a server in the report.
pub open spec fn status_line(config: ServerView) -> Seq<char> {
    text::trimmed_end(
        "- "@ + config.name + " ["@ + text::joined(config.extensions, ", "@) + "] -> "@
            + config.command + " "@ + text::joined(config.args, " "@),
    )
}

/// The report on the servers.
pub open spec fn status_report(configs: Seq<ServerView>) -> Seq<char> {
    if configs.len() == 0 {
        "LSP disabled or no language servers configured"@
    } else {
        text::joined(Seq::new(configs.len(), |i: int| status_line(configs[i])), "\n"@)
    }
}

/// An error with a hint, where a server could not be found.
pub open spec fn hinted(message: Seq<char>, command: Seq<char>) -> Seq<char> {
    if text::contains(message, "No such file or directory"@) || text::contains(
        message,
        "not found"@,
    ) {
        message + ". Install '"@ + command
            + "' or override lsp.servers in .localcoder/settings.json"@
    } else {
        message
    }
}

/// The line about a server in the report.
fn server_line(config: &LspServerConfig) -> (r: String)
    ensures
        r@ == status_line(config@),
{
    let mut out: String = "- ".to_owned();
    out.append(config.name.as_str());
    out.append(" [");
    out.append(text::join(&config.extensions, ", ").as_str());
    out.append("] -> ");
    out.append(config.command.as_str());
    out.append(" ");
    out.append(text::join(&config.args, " ").as_str());
    text::trim_end(out.as_str())
}

/// Adds a hint to an error, where a server could not be found.
pub fn with_install_hint(message: &str, config: &LspServerConfig) -> (r: String)
    ensures
        r@ == hinted(message@, config@.command),
{
    let mut out: String = message.to_owned();
    if text::contains_text(message, "No such file or directory") || text::contains_text(
        message,
        "not found",
    ) {
        out.append(". Install '");
        out.append(config.command.as_str());
        out.append("' or override lsp.servers in .localcoder/settings.json");
    }
    out
}

/// The language servers of a workspace.
#[derive(Debug)]
pub struct LspServerManager {
    pub cwd: String,
    pub root_uri: String,
    pub configs: Vec<LspServerConfig>,
    pub workspace_extensions: Vec<String>,
}

/// The language servers of a workspace.
pub struct ManagerView {
    pub cwd: Seq<char>,
    pub root_uri: Seq<char>,
    pub configs: Seq<ServerView>,
    pub workspace_extensions: Seq<Seq<char>>,
}

impl View for LspServerManager {
    type V = ManagerView;

    open spec fn view(&self) -> ManagerView {
        ManagerView {
            cwd: self.cwd@,
            root_uri: self.root_uri@,
            configs: servers_view(self.configs@),
            workspace_extensions: text::strings(self.workspace_extensions@),
        }
    }
}

impl LspServerManager {
    /// The servers of the workspace at an absolute path. `workspace_extensions` are the
    /// extensions of the files that are there.
    pub fn new(
        cwd: String,
        root_uri: String,
        configs: Vec<LspServerConfig>,
        workspace_extensions: Vec<String>,
    ) -> (r: LspServerManager)
        ensures
            r@ == (ManagerView {
                cwd: cwd@,
                root_uri: root_uri@,
                configs: servers_view(configs@),
                workspace_extensions: text::strings(workspace_extensions@),
            }),
    {
        LspServerManager { cwd, root_uri, configs, workspace_extensions }
    }

    /// Whether there are any servers.
    pub fn has_servers(&self) -> (r: bool)
        ensures
            r == (self@.configs.len() > 0),
    {
        self.configs.len() > 0
    }

    /// Where the workspace is.
    pub fn workspace_root(&self) -> (r: &str)
        ensures
            r@ == self@.cwd,
    {
        self.cwd.as_str()
    }

    /// The report on the servers.
    pub fn render_status(&self) -> (r: String)
        ensures
            r@ == status_report(self@.configs),
    {
        if self.configs.len() == 0 {
            return "LSP disabled or no language servers configured".to_owned();
        }
        let mut lines: Vec<String> = Vec::new();
        let mut i: usize = 0;
        while i < self.configs.len()
            invariant
                i <= self.configs@.len(),
                lines@.len() == i,
                forall|j: int|
                    0 <= j < i ==> (#[trigger] lines@[j])@ == status_line(self@.configs[j]),
            decreases self.configs@.len() - i,
        {
            assert(self@.configs[i as int] == self.configs@[i as int]@);
            lines.push(server_line(&self.configs[i]));
            i += 1;
        }
        assert(text::strings(lines@) =~= Seq::new(
            self@.configs.len(),
            |i: int| status_line(self@.configs[i]),
        ));
        text::join(&lines, "\n")
    }

    /// The first server that serves files with an extension.
    pub fn config_for_extension(&self, extension: &str) -> (r: Option<&LspServerConfig>)
        ensures
            match r {
                Some(config) => first_serving(self@.configs, extension@) == Some(config@),
                None => first_serving(self@.configs, extension@) is None,
            },
    {
        let mut i: usize = 0;
        assert(self@.configs.skip(0) =~= self@.configs);
        while i < self.configs.len()
            invariant
                i <= self.configs@.len(),
                first_serving(self@.configs, extension@) == first_serving(
                    self@.configs.skip(i as int),
                    extension@,
                ),
            decreases self.configs@.len() - i,
        {
            proof {
                assert(self@.configs.skip(i as int)[0] == self.configs@[i as int]@);
                assert(self@.configs.skip(i as int).drop_first() =~= self@.configs.skip(i + 1));
            }
            if is_listed(&self.configs[i].extensions, extension) {
                return Some(&self.configs[i]);
            }
            i += 1;
        }
        None
    }

    /// Whether a server serves files that the workspace has.
    fn is_serving(&self, config: &LspServerConfig) -> (r: bool)
        ensures
            r == serves_workspace(config@, self@.workspace_extensions),
    {
        assert(text::strings(self.workspace_extensions@).len() == self.workspace_extensions@.len());
        if self.workspace_extensions.len() == 0 {
            return true;
        }
        let mut i: usize = 0;
        while i < config.extensions.len()
            invariant
                i <= config.extensions@.len(),
                forall|j: int|
                    0 <= j < i ==> !self@.workspace_extensions.contains(
                        #[trigger] config@.extensions[j],
                    ),
            decreases config.extensions@.len() - i,
        {
            assert(config@.extensions[i as int] == config.extensions@[i as int]@);
            if is_listed(&self.workspace_extensions, config.extensions[i].as_str()) {
                return true;
            }
            i += 1;
        }
        false
    }

    /// The servers that are asked about the whole workspace.
    pub fn workspace_configs(&self) -> (r: Vec<LspServerConfig>)
        ensures
            servers_view(r@) == workspace_servers(self@.configs, self@.workspace_extensions),
    {
        let mut serving: Vec<LspServerConfig> = Vec::new();
        let mut all: Vec<LspServerConfig> = Vec::new();
        let mut i: usize = 0;
        let ghost views = self@.configs;
        assert(servers_view(serving@) =~= serving_workspace(
            views.take(0),
            self@.workspace_extensions,
        ));
        while i < self.configs.len()
            invariant
                i <= self.configs@.len(),
                views == self@.configs,
                servers_view(serving@) == serving_workspace(
                    views.take(i as int),
                    self@.workspace_extensions,
                ),
                all@.len() == i,
                forall|j: int| 0 <= j < i ==> (#[trigger] all@[j])@ == views[j],
            decreases self.configs@.len() - i,
        {
            let ghost before = serving@;
            proof {
                assert(views[i as int] == self.configs@[i as int]@);
                assert(views.take(i + 1).drop_last() =~= views.take(i as int));
                assert(views.take(i + 1).last() == views[i as int]);
            }
            if self.is_serving(&self.configs[i]) {
                let config: LspServerConfig = self.configs[i].clone();
                serving.push(config);
                assert(servers_view(serving@) =~= servers_view(before).push(config@));
            }
            all.push(self.configs[i].clone());
            i += 1;
        }
        proof {
            assert(views.take(self.configs@.len() as int) =~= views);
            assert(servers_view(all@) =~= views);
            assert(servers_view(serving@).len() == serving@.len());
        }
        if serving.len() == 0 {
            all
        } else {
            serving
        }
    }

    /// The path of a file, seen from the workspace.
    pub fn candidate_path(&self, file_path: &str) -> (r: String)
        ensures
            r@ == path::path_join(self@.cwd, file_path@),
    {
        path::join_path(self.cwd.as_str(), file_path)
    }
}

// ---------------------------------------------------------------------------
// Starting a server
// ---------------------------------------------------------------------------

/// An object with a truth value set.
pub open spec fn with_flag(v: JsonView, key: Seq<char>, value: bool) -> JsonView {
    json::with_member(v, key, JsonView::Bool(value))
}

/// A capability that is not registered later.
pub open spec fn fixed_capability() -> JsonView {
    with_flag(json::empty_object(), "dynamicRegistration"@, false)
}

/// What the client can do with the workspace.
pub open spec fn workspace_capabilities() -> JsonView {
    with_flag(
        with_flag(json::empty_object(), "configuration"@, false),
        "workspaceFolders"@,
        false,
    )
}

/// What the client can do with files.
pub open spec fn document_capabilities() -> JsonView {
    let synchronization = with_flag(
        with_flag(with_flag(fixed_capability(), "didSave"@, true), "willSave"@, false),
        "willSaveWaitUntil"@,
        false,
    );
    let hover = json::with_member(
        fixed_capability(),
        "contentFormat"@,
        json::texts_view(seq!["markdown"@, "plaintext"@]),
    );
    let o = json::with_member(json::empty_object(), "synchronization"@, synchronization);
    let o = json::with_member(o, "hover"@, hover);
    let o = json::with_member(
        o,
        "definition"@,
        with_flag(fixed_capability(), "linkSupport"@, true),
    );
    let o = json::with_member(o, "references"@, fixed_capability());
    let o = json::with_member(
        o,
        "documentSymbol"@,
        with_flag(fixed_capability(), "hierarchicalDocumentSymbolSupport"@, true),
    );
    json::with_member(o, "callHierarchy"@, fixed_capability())
}

/// What the client can do.
pub open spec fn client_capabilities() -> JsonView {
    let o = json::with_member(json::empty_object(), "workspace"@, workspace_capabilities());
    let o = json::with_member(o, "textDocument"@, document_capabilities());
    json::with_member(
        o,
        "general"@,
        json::with_member(
            json::empty_object(),
            "positionEncodings"@,
            json::texts_view(seq!["utf-16"@]),
        ),
    )
}

/// The name of a workspace: that of its directory.
pub open spec fn workspace_name(cwd: Seq<char>) -> Seq<char> {
    match path::path_file_name(cwd) {
        Some(name) => name,
        None => "workspace"@,
    }
}

/// What a server is told when it is started.
pub open spec fn initialization(process_id: u32, cwd: Seq<char>, root_uri: Seq<char>) -> JsonView {
    let folder = json::with_member(
        json::with_member(json::empty_object(), "uri"@, JsonView::Text(root_uri)),
        "name"@,
        JsonView::Text(workspace_name(cwd)),
    );
    let o = json::with_member(
        json::empty_object(),
        "processId"@,
        JsonView::Number(json::json_integer(process_id as i64)),
    );
    let o = json::with_member(o, "rootUri"@, JsonView::Text(root_uri));
    let o = json::with_member(o, "rootPath"@, JsonView::Text(cwd));
    let o = json::with_member(o, "workspaceFolders"@, JsonView::List(seq![folder]));
    json::with_member(o, "capabilities"@, client_capabilities())
}

fn fixed() -> (r: Json)
    ensures
        r@ == fixed_capability(),
{
    Json::object().with("dynamicRegistration", Json::Bool(false))
}

/// The list of one document.
fn list_of(item: Json) -> (r: Json)
    ensures
        r@ == JsonView::List(seq![item@]),
{
    let mut items: Vec<Json> = Vec::new();
    proof {
        json::lemma_list_view_push(items@, item);
        assert(json::list_view(items@.push(item)) =~= seq![item@]);
    }
    items.push(item);
    Json::List(items)
}

fn document_capabilities_json() -> (r: Json)
    ensures
        r@ == document_capabilities(),
{
    let synchronization: Json = fixed().with("didSave", Json::Bool(true)).with(
        "willSave",
        Json::Bool(false),
    ).with("willSaveWaitUntil", Json::Bool(false));
    let formats: Vec<String> = vec!["markdown".to_owned(), "plaintext".to_owned()];
    assert(text::strings(formats@) =~= seq!["markdown"@, "plaintext"@]);
    let hover: Json = fixed().with("contentFormat", json::texts(formats));
    Json::object().with("synchronization", synchronization).with("hover", hover).with(
        "definition",
        fixed().with("linkSupport", Json::Bool(true)),
    ).with("references", fixed()).with(
        "documentSymbol",
        fixed().with("hierarchicalDocumentSymbolSupport", Json::Bool(true)),
    ).with("callHierarchy", fixed())
}

/// What a server is told when it is started.
pub fn initialization_params(process_id: u32, cwd: &str, root_uri: &str) -> (r: Json)
    ensures
        r@ == initialization(process_id, cwd@, root_uri@),
{
    let name: String = match path::file_name(cwd) {
        Some(name) => name,
        None => "workspace".to_owned(),
    };
    let folder: Json = Json::object().with("uri", Json::text(root_uri)).with(
        "name",
        Json::Text(name),
    );
    let workspace: Json = Json::object().with("configuration", Json::Bool(false)).with(
        "workspaceFolders",
        Json::Bool(false),
    );
    let encodings: Vec<String> = vec!["utf-16".to_owned()];
    assert(text::strings(encodings@) =~= seq!["utf-16"@]);
    let capabilities: Json = Json::object().with("workspace", workspace).with(
        "textDocument",
        document_capabilities_json(),
    ).with("general", Json::object().with("positionEncodings", json::texts(encodings)));
    Json::object().with("processId", Json::integer(process_id as i64)).with(
        "rootUri",
        Json::text(root_uri),
    ).with("rootPath", Json::text(cwd)).with("workspaceFolders", list_of(folder)).with(
        "capabilities",
        capabilities,
    )
}

// ---------------------------------------------------------------------------
// The servers that run
// ---------------------------------------------------------------------------

/// A server that runs, and the files that are open at it.
pub struct RunningServer {
    pub config: LspServerConfig,
    pub documents: OpenDocuments,
}

/// A server that runs, and the files that are open at it.
pub struct RunningView {
    pub config: ServerView,
    pub documents: Seq<(Seq<char>, DocumentView)>,
}

impl View for RunningServer {
    type V = RunningView;

    open spec fn view(&self) -> RunningView {
        RunningView { config: self.config@, documents: self.documents@ }
    }
}

/// The servers that run.
pub struct ManagerState {
    servers: Vec<RunningServer>,
}

impl View for ManagerState {
    type V = Seq<RunningView>;

    closed spec fn view(&self) -> Seq<RunningView> {
        Seq::new(self.servers@.len(), |i: int| self.servers@[i]@)
    }
}

/// Whether the server of a name runs.
pub open spec fn runs(servers: Seq<RunningView>, name: Seq<char>) -> bool {
    exists|i: int| 0 <= i < servers.len() && (#[trigger] servers[i]).config.name == name
}

impl ManagerState {
    /// No two servers have the same name, and no file is open twice at a server.
    pub open spec fn wf(&self) -> bool {
        &&& forall|i: int, j: int|
            0 <= i < j < self@.len() ==> (#[trigger] self@[i]).config.name != (
            #[trigger] self@[j]).config.name
        &&& forall|i: int|
            0 <= i < self@.len() ==> documents::paths_differ((#[trigger] self@[i]).documents)
    }

    /// No server runs.
    pub fn new() -> (r: ManagerState)
        ensures
            r.wf(),
            r@ == Seq::<RunningView>::empty(),
    {
        let r: ManagerState = ManagerState { servers: Vec::new() };
        assert(r@ =~= Seq::<RunningView>::empty());
        r
    }

    /// How many servers run.
    pub fn count(&self) -> (r: usize)
        ensures
            r == self@.len(),
    {
        self.servers.len()
    }

    /// The number of the server of a name, if it runs.
    pub fn find(&self, name: &str) -> (r: Option<usize>)
        ensures
            match r {
                Some(i) => i < self@.len() && self@[i as int].config.name == name@,
                None => !runs(self@, name@),
            },
    {
        let mut i: usize = 0;
        while i < self.servers.len()
            invariant
                i <= self.servers@.len(),
                forall|j: int| 0 <= j < i ==> (#[trigger] self@[j]).config.name != name@,
            decreases self.servers@.len() - i,
        {
            assert(self@[i as int] == self.servers@[i as int]@);
            if text::same_text(self.servers[i].config.name.as_str(), name) {
                return Some(i);
            }
            i += 1;
        }
        None
    }

    /// The name of a server.
    pub fn name(&self, server: usize) -> (r: &str)
        requires
            server < self@.len(),
        ensures
            r@ == self@[server as int].config.name,
    {
        assert(self@[server as int] == self.servers@[server as int]@);
        self.servers[server].config.name.as_str()
    }

    /// Records that a server was started, and gives its number. No file is open at it.
    pub fn record_started(&mut self, config: LspServerConfig) -> (r: usize)
        requires
            old(self).wf(),
            !runs(old(self)@, config@.name),
        ensures
            final(self).wf(),
            r == old(self)@.len(),
            final(self)@ == old(self)@.push(
                RunningView { config: config@, documents: Seq::empty() },
            ),
    {
        let ghost before = self@;
        let ghost added = RunningView { config: config@, documents: Seq::empty() };
        let at: usize = self.servers.len();
        let server: RunningServer = RunningServer { config, documents: OpenDocuments::new() };
        assert(server@ == added);
        self.servers.push(server);
        proof {
            assert(self@ =~= before.push(added));
            assert forall|i: int, j: int| 0 <= i < j < self@.len() implies (
            #[trigger] self@[i]).config.name != (#[trigger] self@[j]).config.name by {
                assert(self@[i] == before[i]);
                if j < before.len() {
                    assert(self@[j] == before[j]);
                }
            }
            assert forall|i: int| 0 <= i < self@.len() implies documents::paths_differ(
                (#[trigger] self@[i]).documents,
            ) by {
                if i < before.len() {
                    assert(self@[i] == before[i]);
                }
            }
        }
        at
    }

    /// The version of a file that is open at a server.
    pub fn version(&self, server: usize, path: &str) -> (r: Option<i32>)
        requires
            server < self@.len(),
        ensures
            r == (match documents::document_at(self@[server as int].documents, path@) {
                Some(document) => Some(document.version),
                None => None,
            }),
    {
        assert(self@[server as int] == self.servers@[server as int]@);
        self.servers[server].documents.version(path)
    }

    /// Whether a file can be noted at a server with a text.
    pub fn can_sync(&self, server: usize, path: &str, text: &str) -> (r: bool)
        requires
            server < self@.len(),
        ensures
            r == (match documents::document_at(self@[server as int].documents, path@) {
                Some(document) => document.version < i32::MAX || document.text == text@,
                None => true,
            }),
    {
        assert(self@[server as int] == self.servers@[server as int]@);
        self.servers[server].documents.can_sync(path, text)
    }

    /// What a server is to be told of a file that it is asked about.
    pub fn sync_document(
        &mut self,
        server: usize,
        path: &str,
        uri: &str,
        language_id: &str,
        text: &str,
    ) -> (r: Vec<Notification>)
        requires
            old(self).wf(),
            server < old(self)@.len(),
            documents::document_at(old(self)@[server as int].documents, path@) matches Some(
                document,
            ) ==> document.version < i32::MAX || document.text == text@,
        ensures
            final(self).wf(),
            final(self)@ == old(self)@.update(
                server as int,
                RunningView {
                    config: old(self)@[server as int].config,
                    documents: documents::noted(
                        old(self)@[server as int].documents,
                        path@,
                        text@,
                    ),
                },
            ),
            documents::notifications_view(r@) == documents::sync_notifications(
                old(self)@[server as int].documents,
                path@,
                uri@,
                language_id@,
                text@,
            ),
    {
        let ghost before = self@;
        assert(self@[server as int] == self.servers@[server as int]@);
        let out: Vec<Notification> = self.servers[server].documents.sync(
            path,
            uri,
            language_id,
            text,
        );
        proof {
            let changed = RunningView {
                config: before[server as int].config,
                documents: documents::noted(before[server as int].documents, path@, text@),
            };
            assert(self.servers@[server as int]@ == changed);
            assert(self@ =~= before.update(server as int, changed));
        }
        out
    }

    /// Records that a server has been told of a new file.
    pub fn record_opened(&mut self, server: usize, path: &str, uri: &str, text: &str)
        requires
            old(self).wf(),
            server < old(self)@.len(),
            documents::document_at(old(self)@[server as int].documents, path@) is None,
        ensures
            final(self).wf(),
            final(self)@ == old(self)@.update(
                server as int,
                RunningView {
                    config: old(self)@[server as int].config,
                    documents: documents::opened(
                        old(self)@[server as int].documents,
                        path@,
                        uri@,
                        text@,
                    ),
                },
            ),
    {
        let ghost before = self@;
        assert(self@[server as int] == self.servers@[server as int]@);
        self.servers[server].documents.record_opened(path, uri, text);
        proof {
            let changed = RunningView {
                config: before[server as int].config,
                documents: documents::opened(
                    before[server as int].documents,
                    path@,
                    uri@,
                    text@,
                ),
            };
            assert(self.servers@[server as int]@ == changed);
            assert(self@ =~= before.update(server as int, changed));
        }
    }

    /// What a server is to be told when it is left.
    pub fn close_notifications(&self, server: usize) -> (r: Vec<Notification>)
        requires
            server < self@.len(),
        ensures
            documents::notifications_view(r@) == Seq::new(
                self@[server as int].documents.len(),
                |i: int| documents::did_close(self@[server as int].documents[i].1.uri),
            ),
    {
        assert(self@[server as int] == self.servers@[server as int]@);
        self.servers[server].documents.close_notifications()
    }

    /// Forgets all servers.
    pub fn clear(&mut self)
        ensures
            final(self).wf(),
            final(self)@ == Seq::<RunningView>::empty(),
    {
        self.servers = Vec::new();
        assert(self@ =~= Seq::<RunningView>::empty());
    }
}

// ---------------------------------------------------------------------------
// Symbols of the whole workspace
// ---------------------------------------------------------------------------

/// What the servers of a workspace answered, and what went wrong.
pub struct WorkspaceSymbolBatch {
    pub results: Vec<(String, Json)>,
    pub errors: Vec<String>,
}

/// What servers answered.
pub open spec fn results_view(results: Seq<(String, Json)>) -> Seq<(Seq<char>, JsonView)> {
    Seq::new(results.len(), |i: int| (results[i].0@, results[i].1@))
}

/// What a server is asked for the symbols of a workspace.
pub open spec fn symbol_query(query: Seq<char>) -> JsonView {
    json::with_member(json::empty_object(), "query"@, JsonView::Text(query))
}

/// What a server is asked for the symbols of a workspace.
pub fn symbol_query_params(query: &str) -> (r: Json)
    ensures
        r@ == symbol_query(query@),
{
    Json::object().with("query", Json::text(query))
}

impl WorkspaceSymbolBatch {
    /// Nothing is known yet.
    pub fn new() -> (r: WorkspaceSymbolBatch)
        ensures
            r.results@.len() == 0,
            r.errors@.len() == 0,
    {
        WorkspaceSymbolBatch { results: Vec::new(), errors: Vec::new() }
    }

    /// A server has answered.
    pub fn record_result(&mut self, server: &str, value: Json)
        ensures
            results_view(final(self).results@) == results_view(old(self).results@).push(
                (server@, value@),
            ),
            final(self).errors@ == old(self).errors@,
    {
        let ghost before = self.results@;
        self.results.push((server.to_owned(), value));
        assert(results_view(self.results@) =~= results_view(before).push((server@, value@)));
    }

    /// A server could not be asked, or did not answer.
    pub fn record_error(&mut self, server: &str, reason: &str)
        ensures
            text::strings(final(self).errors@) == text::strings(old(self).errors@).push(
                server@ + ": "@ + reason@,
            ),
            final(self).results@ == old(self).results@,
    {
        let mut error: String = server.to_owned();
        error.append(": ");
        error.append(reason);
        proof {
            text::lemma_strings_push(self.errors@, error);
        }
        self.errors.push(error);
    }
}

// ---------------------------------------------------------------------------
// Laws
// ---------------------------------------------------------------------------

proof fn lemma_serving_is_listed(configs: Seq<ServerView>, present: Seq<Seq<char>>, i: int)
    requires
        0 <= i < serving_workspace(configs, present).len(),
    ensures
        configs.contains(serving_workspace(configs, present)[i]),
        serves_workspace(serving_workspace(configs, present)[i], present),
    decreases configs.len(),
{
    let rest = serving_workspace(configs.drop_last(), present);
    if i < rest.len() {
        lemma_serving_is_listed(configs.drop_last(), present, i);
        let k = choose|k: int|
            0 <= k < configs.drop_last().len() && configs.drop_last()[k] == rest[i];
        assert(configs[k] == rest[i]);
    } else {
        assert(configs[configs.len() - 1] == configs.last());
    }
}

/// A workspace with servers is never left without one: only configured servers are
/// asked, and where the files of the workspace are not known, all of them are.
pub proof fn workspaces_are_served(configs: Seq<ServerView>, present: Seq<Seq<char>>)
    ensures
        configs.len() > 0 ==> workspace_servers(configs, present).len() > 0,
        forall|i: int|
            0 <= i < workspace_servers(configs, present).len() ==> configs.contains(
                #[trigger] workspace_servers(configs, present)[i],
            ),
        present.len() == 0 ==> workspace_servers(configs, present) == configs,
{
    let asked = workspace_servers(configs, present);
    assert forall|i: int| 0 <= i < asked.len() implies configs.contains(#[trigger] asked[i]) by {
        if serving_workspace(configs, present).len() > 0 {
            lemma_serving_is_listed(configs, present, i);
        } else {
            assert(configs[i] == asked[i]);
        }
    }
    if present.len() == 0 {
        lemma_all_serve(configs, present);
    }
}

proof fn lemma_all_serve(configs: Seq<ServerView>, present: Seq<Seq<char>>)
    requires
        present.len() == 0,
    ensures
        serving_workspace(configs, present) == configs,
    decreases configs.len(),
{
    if configs.len() > 0 {
        lemma_all_serve(configs.drop_last(), present);
        assert(configs.drop_last().push(configs.last()) =~= configs);
    } else {
        assert(configs =~= Seq::<ServerView>::empty());
    }
}

/// The server that is asked about a file serves its extension and is the first one that
/// does; none is asked exactly where none does.
pub proof fn files_are_served_by_the_first(configs: Seq<ServerView>, extension: Seq<char>)
    ensures
        match first_serving(configs, extension) {
            Some(config) => exists|i: int|
                {
                    &&& 0 <= i < configs.len()
                    &&& #[trigger] configs[i] == config
                    &&& config.extensions.contains(extension)
                    &&& forall|j: int|
                        0 <= j < i ==> !(#[trigger] configs[j]).extensions.contains(extension)
                },
            None => forall|j: int|
                0 <= j < configs.len() ==> !(#[trigger] configs[j]).extensions.contains(extension),
        },
    decreases configs.len(),
{
    if configs.len() > 0 {
        if configs[0].extensions.contains(extension) {
            assert(first_serving(configs, extension) == Some(configs[0]));
        } else {
            let rest = configs.drop_first();
            files_are_served_by_the_first(rest, extension);
            match first_serving(rest, extension) {
                Some(config) => {
                    let i = choose|i: int|
                        {
                            &&& 0 <= i < rest.len()
                            &&& #[trigger] rest[i] == config
                            &&& config.extensions.contains(extension)
                            &&& forall|j: int|
                                0 <= j < i ==> !(#[trigger] rest[j]).extensions.contains(extension)
                        };
                    assert(configs[i + 1] == config);
                    assert forall|j: int| 0 <= j < i + 1 implies !(
                    #[trigger] configs[j]).extensions.contains(extension) by {
                        if j > 0 {
                            assert(rest[j - 1] == configs[j]);
                        }
                    }
                },
                None => {
                    assert forall|j: int| 0 <= j < configs.len() implies !(
                    #[trigger] configs[j]).extensions.contains(extension) by {
                        if j > 0 {
                            assert(rest[j - 1] == configs[j]);
                        }
                    }
                },
            }
        }
    }
}

/// A hint only adds to an error.
pub proof fn hints_keep_the_error(message: Seq<char>, command: Seq<char>)
    ensures
        message.is_prefix_of(hinted(message, command)),
{
    assert(message =~= hinted(message, command).take(message.len() as int));
}

/// Servers say what they hold, and so does a list of them, in order.
pub proof fn servers_say_what_they_hold(configs: Seq<LspServerConfig>, i: int)
    requires
        0 <= i < configs.len(),
    ensures
        servers_view(configs).len() == configs.len(),
        servers_view(configs)[i].name == configs[i].name@,
        servers_view(configs)[i].command == configs[i].command@,
        servers_view(configs)[i].args == text::strings(configs[i].args@),
        servers_view(configs)[i].extensions == text::strings(configs[i].extensions@),
{
}

/// A manager and a running server say what they hold.
pub proof fn managers_say_what_they_hold(manager: LspServerManager, server: RunningServer)
    ensures
        manager@.cwd == manager.cwd@,
        manager@.root_uri == manager.root_uri@,
        manager@.configs == servers_view(manager.configs@),
        manager@.workspace_extensions == text::strings(manager.workspace_extensions@),
        server@.config == server.config@,
        server@.documents == server.documents@,
{
}

// The servers that run are those that are held, in order.
proof fn lemma_state(state: ManagerState, i: int)
    requires
        0 <= i < state.servers@.len(),
    ensures
        state@.len() == state.servers@.len(),
        state@[i] == state.servers@[i]@,
{
}

/// What servers answered is kept with their names, in order.
pub proof fn answers_say_what_they_hold(results: Seq<(String, Json)>, i: int)
    requires
        0 <= i < results.len(),
    ensures
        results_view(results).len() == results.len(),
        results_view(results)[i].0 == results[i].0@,
        results_view(results)[i].1 == results[i].1@,
{
}

/// A server runs where one of that name is among those that run, and nowhere else.
pub proof fn running_servers_are_known_by_name(
    servers: Seq<RunningView>,
    server: RunningView,
    name: Seq<char>,
)
    ensures
        !runs(Seq::empty(), name),
        runs(servers.push(server), name) <==> runs(servers, name) || server.config.name == name,
{
    let after = servers.push(server);
    if runs(servers, name) {
        let i = choose|i: int| 0 <= i < servers.len() && (#[trigger] servers[i]).config.name == name;
        assert(after[i].config.name == name);
    }
    if server.config.name == name {
        assert(after[servers.len() as int].config.name == name);
    }
    if runs(after, name) && server.config.name != name {
        let i = choose|i: int| 0 <= i < after.len() && (#[trigger] after[i]).config.name == name;
        assert(servers[i].config.name == name);
    }
}

/// The line about a server holds its name, its extensions, its command and its arguments,
/// each as it is.
pub proof fn status_lines_hold_the_server(config: ServerView)
    ensures
        ({
            let start = "- "@ + config.name + " ["@ + text::joined(config.extensions, ", "@)
                + "] -> "@ + config.command;
            let tail = text::joined(config.args, " "@);
            &&& tail.len() == 0 && config.command.len() > 0 && !text::is_space(
                config.command.last(),
            ) ==> status_line(config) == start
            &&& tail.len() > 0 && !text::is_space(tail.last()) ==> status_line(config) == start
                + " "@ + tail
            &&& status_line(config) == text::trimmed_end(start + " "@ + tail)
        }),
{
    reveal_strlit(" ");
    let start = "- "@ + config.name + " ["@ + text::joined(config.extensions, ", "@) + "] -> "@
        + config.command;
    let tail = text::joined(config.args, " "@);
    let none = Seq::<char>::empty();
    if tail.len() == 0 {
        assert(start + " "@ + tail =~= start + " "@);
        if config.command.len() > 0 && !text::is_space(config.command.last()) {
            assert(start.last() == config.command.last());
            lemma_end_is_trimmed(start, " "@);
        }
    } else if !text::is_space(tail.last()) {
        let whole = start + " "@ + tail;
        assert(whole.last() == tail.last());
        assert(whole + none =~= whole);
        lemma_end_is_trimmed(whole, none);
    }
}

proof fn lemma_end_is_trimmed(s: Seq<char>, end: Seq<char>)
    requires
        s.len() > 0,
        !text::is_space(s.last()),
        forall|i: int| 0 <= i < end.len() ==> text::is_space(#[trigger] end[i]),
    ensures
        text::trimmed_end(s + end) == s,
    decreases end.len(),
{
    if end.len() == 0 {
        assert(s + end =~= s);
    } else {
        assert((s + end).last() == end[end.len() - 1]);
        assert((s + end).drop_last() =~= s + end.drop_last());
        assert forall|i: int| 0 <= i < end.drop_last().len() implies text::is_space(
            #[trigger] end.drop_last()[i],
        ) by {
            assert(end.drop_last()[i] == end[i]);
        }
        lemma_end_is_trimmed(s, end.drop_last());
    }
}

/// The report has a line about each server, in order, or says that there is none.
pub proof fn reports_have_a_line_about_each_server(configs: Seq<ServerView>, config: ServerView)
    ensures
        status_report(Seq::empty()) == "LSP disabled or no language servers configured"@,
        configs.len() == 0 ==> status_report(configs.push(config)) == status_line(config),
        configs.len() > 0 ==> status_report(configs.push(config)) == status_report(configs) + "\n"@
            + status_line(config),
{
    let lines = Seq::new(configs.len(), |i: int| status_line(configs[i]));
    let after = configs.push(config);
    assert(Seq::new(after.len(), |i: int| status_line(after[i])) =~= lines.push(
        status_line(config),
    ));
    text::joined_parts_stay_as_they_are(lines, status_line(config), "\n"@);
}

/// A hint names the command that could not be found; an error of another kind gets none.
pub proof fn hints_name_the_command(message: Seq<char>, command: Seq<char>)
    ensures
        ({
            let missing = text::contains(message, "No such file or directory"@) || text::contains(
                message,
                "not found"@,
            );
            &&& missing ==> hinted(message, command) == message + ". Install '"@ + command
                + "' or override lsp.servers in .localcoder/settings.json"@
            &&& !missing ==> hinted(message, command) == message
        }),
{
}

/// A server serves a workspace where one of its extensions is there, or none is known to
/// be. All that do are asked, in order; where none does, all are.
pub proof fn servers_of_present_files_are_asked(
    configs: Seq<ServerView>,
    config: ServerView,
    present: Seq<Seq<char>>,
)
    ensures
        serves_workspace(config, present) <==> present.len() == 0 || exists|extension: Seq<char>|
            config.extensions.contains(extension) && #[trigger] present.contains(extension),
        serving_workspace(Seq::empty(), present).len() == 0,
        serves_workspace(config, present) ==> serving_workspace(configs.push(config), present)
            == serving_workspace(configs, present).push(config),
        !serves_workspace(config, present) ==> serving_workspace(configs.push(config), present)
            == serving_workspace(configs, present),
        workspace_servers(configs, present) == (if serving_workspace(configs, present).len() > 0 {
            serving_workspace(configs, present)
        } else {
            configs
        }),
{
    assert(configs.push(config).drop_last() =~= configs);
    if exists|extension: Seq<char>|
        config.extensions.contains(extension) && #[trigger] present.contains(extension) {
        let extension = choose|extension: Seq<char>|
            config.extensions.contains(extension) && #[trigger] present.contains(extension);
        let i = choose|i: int|
            0 <= i < config.extensions.len() && config.extensions[i] == extension;
        assert(present.contains(config.extensions[i]));
    }
    if serves_workspace(config, present) && present.len() > 0 {
        let i = choose|i: int|
            0 <= i < config.extensions.len() && present.contains(#[trigger] config.extensions[i]);
        assert(config.extensions.contains(config.extensions[i]));
    }
}

/// A workspace is named like its directory.
pub proof fn workspaces_are_named_like_their_directory(cwd: Seq<char>)
    ensures
        path::path_file_name(cwd) matches Some(name) ==> workspace_name(cwd) == name,
        path::path_file_name(cwd) is None ==> workspace_name(cwd) == "workspace"@,
{
}

proof fn lemma_initialization_names_differ()
    ensures
        "processId"@ != "rootUri"@,
        "processId"@ != "rootPath"@,
        "processId"@ != "workspaceFolders"@,
        "processId"@ != "capabilities"@,
        "rootUri"@ != "rootPath"@,
        "rootUri"@ != "workspaceFolders"@,
        "rootUri"@ != "capabilities"@,
        "rootPath"@ != "workspaceFolders"@,
        "rootPath"@ != "capabilities"@,
        "workspaceFolders"@ != "capabilities"@,
        "uri"@ != "name"@,
        "workspace"@ != "textDocument"@,
        "workspace"@ != "general"@,
        "textDocument"@ != "general"@,
        "configuration"@ != "workspaceFolders"@,
{
    reveal_strlit("processId");
    reveal_strlit("rootUri");
    reveal_strlit("rootPath");
    reveal_strlit("workspaceFolders");
    reveal_strlit("capabilities");
    reveal_strlit("uri");
    reveal_strlit("name");
    reveal_strlit("workspace");
    reveal_strlit("textDocument");
    reveal_strlit("general");
    reveal_strlit("configuration");
    assert("processId"@.len() == 9);
    assert("rootUri"@.len() == 7);
    assert("rootPath"@.len() == 8);
    assert("workspaceFolders"@.len() == 16);
    assert("capabilities"@.len() == 12);
    assert("uri"@.len() == 3);
    assert("name"@.len() == 4);
    assert("workspace"@.len() == 9);
    assert("textDocument"@.len() == 12);
    assert("general"@.len() == 7);
    assert("configuration"@.len() == 13);
}

/// A server that is started is told the process, the path and the address of the
/// workspace as they are, with the workspace as its only folder.
pub proof fn servers_are_told_the_workspace(process_id: u32, cwd: Seq<char>, root_uri: Seq<char>)
    ensures
        ({
            let told = initialization(process_id, cwd, root_uri);
            &&& json::member(told, "processId"@) == Some(
                JsonView::Number(json::json_integer(process_id as i64)),
            )
            &&& json::member(told, "rootUri"@) == Some(JsonView::Text(root_uri))
            &&& json::member(told, "rootPath"@) == Some(JsonView::Text(cwd))
            &&& json::member(told, "capabilities"@) == Some(client_capabilities())
            &&& json::member(told, "workspaceFolders"@) matches Some(JsonView::List(folders))
            &&& folders.len() == 1
            &&& json::member(folders[0], "uri"@) == Some(JsonView::Text(root_uri))
            &&& json::member(folders[0], "name"@) == Some(JsonView::Text(workspace_name(cwd)))
        }),
{
    lemma_initialization_names_differ();
}

/// A server is told that the client configures nothing, keeps no folders, and counts
/// positions in UTF-16.
pub proof fn servers_are_told_what_the_client_can_do()
    ensures
        ({
            let told = client_capabilities();
            let workspace = json::member(told, "workspace"@)->0;
            let general = json::member(told, "general"@)->0;
            &&& json::member(told, "textDocument"@) == Some(document_capabilities())
            &&& json::member(told, "workspace"@) is Some
            &&& json::member(workspace, "configuration"@) == Some(JsonView::Bool(false))
            &&& json::member(workspace, "workspaceFolders"@) == Some(JsonView::Bool(false))
            &&& json::member(told, "general"@) is Some
            &&& json::member(general, "positionEncodings"@) == Some(
                JsonView::List(seq![JsonView::Text("utf-16"@)]),
            )
        }),
{
    lemma_initialization_names_differ();
    assert(json::texts_view(seq!["utf-16"@])->List_0 =~= seq![JsonView::Text("utf-16"@)]);
}

proof fn lemma_capability_names_differ()
    ensures
        "synchronization"@ != "hover"@,
        "synchronization"@ != "definition"@,
        "synchronization"@ != "references"@,
        "synchronization"@ != "documentSymbol"@,
        "synchronization"@ != "callHierarchy"@,
        "hover"@ != "definition"@,
        "hover"@ != "references"@,
        "hover"@ != "documentSymbol"@,
        "hover"@ != "callHierarchy"@,
        "definition"@ != "references"@,
        "definition"@ != "documentSymbol"@,
        "definition"@ != "callHierarchy"@,
        "references"@ != "documentSymbol"@,
        "references"@ != "callHierarchy"@,
        "documentSymbol"@ != "callHierarchy"@,
        "dynamicRegistration"@ != "didSave"@,
        "dynamicRegistration"@ != "willSave"@,
        "dynamicRegistration"@ != "willSaveWaitUntil"@,
        "didSave"@ != "willSave"@,
        "didSave"@ != "willSaveWaitUntil"@,
        "willSave"@ != "willSaveWaitUntil"@,
        "dynamicRegistration"@ != "contentFormat"@,
        "dynamicRegistration"@ != "linkSupport"@,
        "dynamicRegistration"@ != "hierarchicalDocumentSymbolSupport"@,
{
    reveal_strlit("synchronization");
    reveal_strlit("hover");
    reveal_strlit("definition");
    reveal_strlit("references");
    reveal_strlit("documentSymbol");
    reveal_strlit("callHierarchy");
    reveal_strlit("dynamicRegistration");
    reveal_strlit("didSave");
    reveal_strlit("willSave");
    reveal_strlit("willSaveWaitUntil");
    reveal_strlit("contentFormat");
    reveal_strlit("linkSupport");
    reveal_strlit("hierarchicalDocumentSymbolSupport");
    assert("synchronization"@.len() == 15);
    assert("hover"@.len() == 5);
    assert("definition"@.len() == 10);
    assert("references"@.len() == 10);
    assert("definition"@[0] == 'd');
    assert("references"@[0] == 'r');
    assert("documentSymbol"@.len() == 14);
    assert("callHierarchy"@.len() == 13);
    assert("dynamicRegistration"@.len() == 19);
    assert("didSave"@.len() == 7);
    assert("willSave"@.len() == 8);
    assert("willSaveWaitUntil"@.len() == 17);
    assert("contentFormat"@.len() == 13);
    assert("linkSupport"@.len() == 11);
    assert("hierarchicalDocumentSymbolSupport"@.len() == 33);
}

/// A server is told what the client can do with files: that it tells of saved files, reads
/// Markdown and plain text, follows links and symbols within symbols, and registers nothing
/// later.
pub proof fn servers_are_told_what_is_done_with_files()
    ensures
        ({
            let told = document_capabilities();
            let off = Some(JsonView::Bool(false));
            let on = Some(JsonView::Bool(true));
            let synchronization = json::member(told, "synchronization"@)->0;
            let hover = json::member(told, "hover"@)->0;
            let definition = json::member(told, "definition"@)->0;
            let references = json::member(told, "references"@)->0;
            let symbols = json::member(told, "documentSymbol"@)->0;
            let calls = json::member(told, "callHierarchy"@)->0;
            &&& json::member(told, "synchronization"@) is Some
            &&& json::member(synchronization, "dynamicRegistration"@) == off
            &&& json::member(synchronization, "didSave"@) == on
            &&& json::member(synchronization, "willSave"@) == off
            &&& json::member(synchronization, "willSaveWaitUntil"@) == off
            &&& json::member(told, "hover"@) is Some
            &&& json::member(hover, "dynamicRegistration"@) == off
            &&& json::member(hover, "contentFormat"@) == Some(
                JsonView::List(seq![JsonView::Text("markdown"@), JsonView::Text("plaintext"@)]),
            )
            &&& json::member(told, "definition"@) is Some
            &&& json::member(definition, "dynamicRegistration"@) == off
            &&& json::member(definition, "linkSupport"@) == on
            &&& json::member(told, "references"@) is Some
            &&& json::member(references, "dynamicRegistration"@) == off
            &&& json::member(told, "documentSymbol"@) is Some
            &&& json::member(symbols, "dynamicRegistration"@) == off
            &&& json::member(symbols, "hierarchicalDocumentSymbolSupport"@) == on
            &&& json::member(told, "callHierarchy"@) is Some
            &&& json::member(calls, "dynamicRegistration"@) == off
        }),
{
    lemma_capability_names_differ();
    assert(json::texts_view(seq!["markdown"@, "plaintext"@])->List_0 =~= seq![
        JsonView::Text("markdown"@),
        JsonView::Text("plaintext"@),
    ]);
}

/// A server is asked for symbols with the query as it is.
pub proof fn queries_are_asked_as_they_are(query: Seq<char>)
    ensures
        json::member(symbol_query(query), "query"@) == Some(JsonView::Text(query)),
{
}

/// A server is told nothing else when it is started.
pub proof fn servers_are_told_nothing_else(
    process_id: u32,
    cwd: Seq<char>,
    root_uri: Seq<char>,
    key: Seq<char>,
)
    ensures
        ({
            let told = initialization(process_id, cwd, root_uri);
            let folder = json::member(told, "workspaceFolders"@)->0->List_0[0];
            let general = json::member(client_capabilities(), "general"@)->0;
            let workspace = json::member(client_capabilities(), "workspace"@)->0;
            &&& key != "processId"@ && key != "rootUri"@ && key != "rootPath"@ && key
                != "workspaceFolders"@ && key != "capabilities"@ ==> json::member(told, key) is None
            &&& key != "uri"@ && key != "name"@ ==> json::member(folder, key) is None
            &&& key != "workspace"@ && key != "textDocument"@ && key != "general"@
                ==> json::member(client_capabilities(), key) is None
            &&& key != "positionEncodings"@ ==> json::member(general, key) is None
            &&& key != "configuration"@ && key != "workspaceFolders"@ ==> json::member(
                workspace,
                key,
            ) is None
            &&& key != "query"@ ==> json::member(symbol_query(cwd), key) is None
        }),
{
    lemma_initialization_names_differ();
}

/// Of what is done with files a server is told nothing else.
pub proof fn servers_are_told_nothing_else_of_files(key: Seq<char>)
    requires
        key != "dynamicRegistration"@,
    ensures
        ({
            let told = document_capabilities();
            &&& key != "synchronization"@ && key != "hover"@ && key != "definition"@ && key
                != "references"@ && key != "documentSymbol"@ && key != "callHierarchy"@
                ==> json::member(told, key) is None
            &&& key != "didSave"@ && key != "willSave"@ && key != "willSaveWaitUntil"@
                ==> json::member(json::member(told, "synchronization"@)->0, key) is None
            &&& key != "contentFormat"@ ==> json::member(
                json::member(told, "hover"@)->0,
                key,
            ) is None
            &&& key != "linkSupport"@ ==> json::member(
                json::member(told, "definition"@)->0,
                key,
            ) is None
            &&& json::member(json::member(told, "references"@)->0, key) is None
            &&& key != "hierarchicalDocumentSymbolSupport"@ ==> json::member(
                json::member(told, "documentSymbol"@)->0,
                key,
            ) is None
            &&& json::member(json::member(told, "callHierarchy"@)->0, key) is None
        }),
{
    lemma_capability_names_differ();
}

}
