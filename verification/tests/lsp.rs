use localcoder::json::{json_string, parse_json, Json};
use localcoder::lsp::documents::{Notification, OpenDocuments};
use localcoder::lsp::manager::{
    initialization_params, symbol_query_params, with_install_hint, LspServerConfig,
    LspServerManager, ManagerState, WorkspaceSymbolBatch,
};

fn texts(items: &[&str]) -> Vec<String> {
    items.iter().map(|item| item.to_string()).collect()
}

fn config(name: &str, command: &str, args: &[&str], extensions: &[&str]) -> LspServerConfig {
    LspServerConfig {
        name: name.to_string(),
        command: command.to_string(),
        args: texts(args),
        extensions: texts(extensions),
    }
}

fn servers() -> Vec<LspServerConfig> {
    vec![
        config("rust", "rust-analyzer", &[], &["rs"]),
        config(
            "typescript",
            "typescript-language-server",
            &["--stdio", "-v"],
            &["ts", "tsx"],
        ),
    ]
}

fn manager(extensions: &[&str]) -> LspServerManager {
    LspServerManager::new(
        "/work/demo".to_string(),
        "file:///work/demo".to_string(),
        servers(),
        texts(extensions),
    )
}

fn told(notifications: Vec<Notification>) -> Vec<String> {
    notifications
        .iter()
        .map(|told| format!("{} {}", told.method, json_string(&told.params)))
        .collect()
}

#[test]
fn render_status_lists_servers() {
    let status = manager(&[]).render_status();
    assert!(status.contains("rust-analyzer"));
    assert!(status.contains("typescript-language-server"));
    assert_eq!(
        status,
        "- rust [rs] -> rust-analyzer\n- typescript [ts, tsx] -> typescript-language-server --stdio -v"
    );
}

#[test]
fn resolve_path_handles_relative_inputs() {
    let manager = manager(&[]);
    let resolved = manager.candidate_path("src/lib.rs");
    assert!(resolved.ends_with("src/lib.rs"));
    assert_eq!(resolved, "/work/demo/src/lib.rs");
    assert_eq!(manager.candidate_path("/abs/x.rs"), "/abs/x.rs");
}

#[test]
fn workspace_configs_fall_back_when_no_files_detected() {
    let manager = manager(&[]);
    assert_eq!(manager.workspace_configs().len(), manager.configs.len());
}

#[test]
fn a_workspace_is_served_for_its_files() {
    let names = |extensions: &[&str]| -> Vec<String> {
        manager(extensions)
            .workspace_configs()
            .into_iter()
            .map(|config| config.name)
            .collect()
    };
    assert_eq!(names(&["tsx", "md"]), texts(&["typescript"]));
    assert_eq!(names(&["ts", "rs"]), texts(&["rust", "typescript"]));
    assert_eq!(names(&["md"]), texts(&["rust", "typescript"]));
}

#[test]
fn the_first_server_of_an_extension_is_asked() {
    let mut manager = manager(&[]);
    manager.configs.push(config("other", "x", &[], &["rs", "py"]));
    assert_eq!(manager.config_for_extension("rs").unwrap().name, "rust");
    assert_eq!(manager.config_for_extension("py").unwrap().name, "other");
    assert!(manager.config_for_extension("md").is_none());
    assert!(manager.config_for_extension("").is_none());
}

#[test]
fn a_workspace_can_be_without_servers() {
    let manager = LspServerManager::new("/w".to_string(), String::new(), vec![], vec![]);
    assert!(!manager.has_servers());
    assert_eq!(manager.workspace_root(), "/w");
    assert_eq!(
        manager.render_status(),
        "LSP disabled or no language servers configured"
    );
    assert!(manager.workspace_configs().is_empty());
}

#[test]
fn errors_get_a_hint_where_the_server_is_missing() {
    let config = config("rust", "rust-analyzer", &[], &["rs"]);
    assert_eq!(
        with_install_hint("spawn: No such file or directory (os error 2)", &config),
        "spawn: No such file or directory (os error 2). Install 'rust-analyzer' or override lsp.servers in .localcoder/settings.json"
    );
    assert!(with_install_hint("x not found", &config).contains("Install 'rust-analyzer'"));
    assert_eq!(with_install_hint("timed out", &config), "timed out");
}

#[test]
fn servers_are_told_about_the_client() {
    let params = initialization_params(42, "/work/demo", "file:///work/demo");
    assert_eq!(
        json_string(&params),
        "{\"capabilities\":{\"general\":{\"positionEncodings\":[\"utf-16\"]},\
         \"textDocument\":{\
         \"callHierarchy\":{\"dynamicRegistration\":false},\
         \"definition\":{\"dynamicRegistration\":false,\"linkSupport\":true},\
         \"documentSymbol\":{\"dynamicRegistration\":false,\"hierarchicalDocumentSymbolSupport\":true},\
         \"hover\":{\"contentFormat\":[\"markdown\",\"plaintext\"],\"dynamicRegistration\":false},\
         \"references\":{\"dynamicRegistration\":false},\
         \"synchronization\":{\"didSave\":true,\"dynamicRegistration\":false,\"willSave\":false,\"willSaveWaitUntil\":false}},\
         \"workspace\":{\"configuration\":false,\"workspaceFolders\":false}},\
         \"processId\":42,\"rootPath\":\"/work/demo\",\"rootUri\":\"file:///work/demo\",\
         \"workspaceFolders\":[{\"name\":\"demo\",\"uri\":\"file:///work/demo\"}]}"
    );
    let params = initialization_params(1, "/", "file:///");
    assert!(json_string(&params).contains("\"name\":\"workspace\""));
}

#[test]
fn servers_are_told_of_a_file_once_and_of_its_changes() {
    let mut documents = OpenDocuments::new();
    let first = documents.sync("/a.rs", "file:///a.rs", "rust", "one");
    assert_eq!(
        told(first),
        vec![
            r#"textDocument/didOpen {"textDocument":{"languageId":"rust","text":"one","uri":"file:///a.rs","version":1}}"#,
            r#"textDocument/didSave {"text":"one","textDocument":{"uri":"file:///a.rs"}}"#,
        ]
    );
    assert_eq!(documents.version("/a.rs"), None);
    assert!(documents.can_sync("/a.rs", "one"));
    documents.record_opened("/a.rs", "file:///a.rs", "one");
    assert_eq!(documents.version("/a.rs"), Some(1));

    assert!(documents.sync("/a.rs", "file:///a.rs", "rust", "one").is_empty());
    assert_eq!(documents.version("/a.rs"), Some(1));

    let changed = documents.sync("/a.rs", "ignored", "rust", "two");
    assert_eq!(
        told(changed),
        vec![
            r#"textDocument/didChange {"contentChanges":[{"text":"two"}],"textDocument":{"uri":"file:///a.rs","version":2}}"#,
            r#"textDocument/didSave {"text":"two","textDocument":{"uri":"file:///a.rs"}}"#,
        ]
    );
    assert_eq!(documents.version("/a.rs"), Some(2));
    assert!(documents.sync("/a.rs", "ignored", "rust", "two").is_empty());
}

#[test]
fn a_file_is_known_however_its_path_is_written() {
    let mut documents = OpenDocuments::new();
    documents.record_opened("/a/b", "file:///a/b", "text");
    for path in ["/a/b", "/a//b", "/a/./b", "/a/b/", "//a/b/."] {
        assert_eq!(documents.version(path), Some(1));
        assert!(documents.sync(path, "x", "l", "text").is_empty());
    }
    for path in ["a/b", "/a/b/c", "/a/../a/b", "/a"] {
        assert_eq!(documents.version(path), None);
        assert_eq!(documents.sync(path, "x", "l", "text").len(), 2);
    }
    assert_eq!(documents.sync("/a//b", "x", "l", "new").len(), 2);
    assert_eq!(documents.version("/a/b"), Some(2));
    assert_eq!(documents.close_notifications().len(), 1);
}

#[test]
fn one_file_does_not_change_another() {
    let mut documents = OpenDocuments::new();
    documents.record_opened("/a", "file:///a", "a");
    documents.record_opened("/b", "file:///b", "b");
    assert_eq!(documents.sync("/b", "x", "l", "changed").len(), 2);
    assert_eq!(documents.version("/a"), Some(1));
    assert_eq!(documents.version("/b"), Some(2));
    assert!(documents.sync("/a", "x", "l", "a").is_empty());
    assert_eq!(
        told(documents.close_notifications()),
        vec![
            r#"textDocument/didClose {"textDocument":{"uri":"file:///a"}}"#,
            r#"textDocument/didClose {"textDocument":{"uri":"file:///b"}}"#,
        ]
    );
}

#[test]
fn servers_run_under_their_names() {
    let mut state = ManagerState::new();
    assert!(state.find("rust").is_none());
    for config in servers() {
        state.record_started(config);
    }
    assert_eq!(state.count(), 2);
    let at = state.find("typescript").unwrap();
    assert_eq!(at, 1);
    assert_eq!(state.name(at), "typescript");
    assert_eq!(state.sync_document(at, "/a.ts", "file:///a.ts", "typescript", "x").len(), 2);
    state.record_opened(at, "/a.ts", "file:///a.ts", "x");
    assert_eq!(state.version(at, "/a.ts"), Some(1));
    assert_eq!(state.version(0, "/a.ts"), None);
    assert!(state.can_sync(at, "/a.ts", "y"));
    assert_eq!(state.sync_document(at, "/a.ts", "", "", "y").len(), 2);
    assert_eq!(state.version(at, "/a.ts"), Some(2));
    assert_eq!(state.close_notifications(at).len(), 1);
    assert!(state.close_notifications(0).is_empty());
    state.clear();
    assert_eq!(state.count(), 0);
}

#[test]
fn symbols_are_gathered_server_by_server() {
    assert_eq!(json_string(&symbol_query_params("ma\"in")), r#"{"query":"ma\"in"}"#);
    let mut batch = WorkspaceSymbolBatch::new();
    batch.record_result("rust", parse_json("[1]").unwrap());
    batch.record_error("typescript", "timed out");
    batch.record_result("rust2", Json::Null);
    assert_eq!(batch.errors, texts(&["typescript: timed out"]));
    assert_eq!(batch.results.len(), 2);
    assert_eq!(batch.results[0].0, "rust");
    assert_eq!(json_string(&batch.results[0].1), "[1]");
    assert_eq!(batch.results[1].0, "rust2");
}
