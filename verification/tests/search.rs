use localcoder::json::{json_string, parse_json, Json};
use localcoder::tools::error::ToolError;
use localcoder::tools::search::{
    has_glob_magic, newest_first, static_search_root, EntryKind, FileWalk, GlobTool, MatchedFile,
    PathKind, MAX_RESULTS,
};

/// The answer for a directory that holds the files, each modified at its own time.
fn search(pattern: &str, directory: &str, files: &[&str]) -> Result<String, String> {
    let input = Json::object()
        .with("pattern", Json::text(pattern))
        .with("path", Json::text(directory));
    let request = GlobTool
        .read_input(&input)
        .map_err(|error| error.message())?;
    let full = GlobTool.full_pattern(&request, directory);
    let root = static_search_root(&full);
    let mut walk = FileWalk::start(&full, root.clone(), EntryKind::Directory)
        .map_err(|error| error.message())?;
    while let Some(dir) = walk.next_directory() {
        assert_eq!(dir, root);
        for (number, name) in files.iter().enumerate() {
            walk.visit(
                format!("{}/{}", dir, name),
                EntryKind::File { modified: Some(number as i128) },
            );
        }
    }
    Ok(GlobTool.render(walk.into_files(), "/elsewhere"))
}

#[test]
fn glob_finds_matching_files() {
    let result = search("**/*.rs", "/tmp/dir", &["a.rs", "b.ts", "c.rs"]).unwrap();
    assert!(result.contains("a.rs"));
    assert!(result.contains("c.rs"));
    assert!(!result.contains("b.ts"));
    assert_eq!(result, "/tmp/dir/c.rs\n/tmp/dir/a.rs");
}

#[test]
fn glob_no_matches_returns_not_found() {
    let result = search("**/*.py", "/tmp/dir", &["a.txt"]).unwrap();
    assert_eq!(result, "No files found");
}

#[test]
fn glob_errors_on_nonexistent_directory() {
    let path = "/tmp/__nonexistent_localcoder_glob__";
    let error = GlobTool.check_directory(path, PathKind::Missing).unwrap_err();
    assert_eq!(
        error.message(),
        "Glob: directory does not exist: /tmp/__nonexistent_localcoder_glob__"
    );
    let error = GlobTool.check_directory("/f", PathKind::Other).unwrap_err();
    assert_eq!(error.message(), "Glob: path is not a directory: /f");
    assert!(GlobTool.check_directory("/d", PathKind::Directory).is_ok());
}

#[test]
fn glob_missing_pattern_errors() {
    let error = GlobTool.read_input(&Json::object()).err().unwrap();
    assert_eq!(error.message(), "Glob: missing required field 'pattern'");
}

#[test]
fn glob_truncates_at_max_results() {
    let names: Vec<String> = (0..110).map(|i| format!("f{:03}.txt", i)).collect();
    let files: Vec<&str> = names.iter().map(|name| name.as_str()).collect();
    let result = search("*.txt", "/tmp/dir", &files).unwrap();

    assert!(result.contains("truncated"));
    let count = result.lines().filter(|l| !l.contains("truncated")).count();
    assert_eq!(count, MAX_RESULTS);
    assert!(result.starts_with("/tmp/dir/f109.txt\n"));
    assert!(result.ends_with(
        "/tmp/dir/f010.txt\n(Results are truncated. Consider using a more specific path or pattern.)"
    ));
}

#[test]
fn a_full_list_is_not_cut_off() {
    let names: Vec<String> = (0..100).map(|i| format!("f{:03}.txt", i)).collect();
    let files: Vec<&str> = names.iter().map(|name| name.as_str()).collect();
    let result = search("*.txt", "/tmp/dir", &files).unwrap();
    assert_eq!(result.lines().count(), 100);
    assert!(!result.contains("truncated"));
}

#[test]
fn an_empty_path_is_no_path() {
    let path = |raw: &str| GlobTool.read_input(&parse_json(raw).unwrap()).ok().unwrap().path;
    assert_eq!(path(r#"{"pattern":"*","path":""}"#), None);
    assert_eq!(path(r#"{"pattern":"*","path":1}"#), None);
    assert_eq!(path(r#"{"pattern":"*"}"#), None);
    assert_eq!(path(r#"{"pattern":"*","path":"d"}"#).as_deref(), Some("d"));
}

#[test]
fn patterns_are_seen_from_the_directory() {
    let full = |pattern: &str, directory: &str| {
        let input = Json::object().with("pattern", Json::text(pattern));
        GlobTool.full_pattern(&GlobTool.read_input(&input).ok().unwrap(), directory)
    };
    assert_eq!(full("*.rs", "/d"), "/d/*.rs");
    assert_eq!(full("*.rs", "/d/"), "/d/*.rs");
    assert_eq!(full("/abs/*.rs", "/d"), "/abs/*.rs");
}

#[test]
fn special_characters_are_known() {
    for text in ["*", "a?", "[a]", "x]", "é*"] {
        assert!(has_glob_magic(text), "{}", text);
    }
    for text in ["", "a.rs", "{a,b}", "!", "é"] {
        assert!(!has_glob_magic(text), "{}", text);
    }
}

#[test]
fn a_search_starts_at_the_plain_part_of_its_pattern() {
    for (pattern, root) in [
        ("/a/b/*.rs", "/a/b"),
        ("/a/b/c.rs", "/a/b/c.rs"),
        ("/*", "/"),
        ("/", "/"),
        ("**/*.rs", "."),
        ("", "."),
        ("a/b*/c", "a"),
        ("./a/*", "./a"),
        ("../x/[a]", "../x"),
        ("/a//b/./c/?", "/a/b/c"),
        ("/a/..", "/a/.."),
    ] {
        assert_eq!(static_search_root(pattern), root, "{}", pattern);
        assert!(!has_glob_magic(root));
        if root != "." {
            assert!(localcoder::path::strip_base(pattern, root).is_some());
        }
    }
}

#[test]
fn a_pattern_that_cannot_be_read_is_refused() {
    let error = FileWalk::start("/d/***", "/d".to_string(), EntryKind::Directory).err().unwrap();
    assert!(matches!(error, ToolError::InvalidPattern(_)));
    assert_eq!(
        error.message(),
        "Glob: invalid glob pattern: Pattern syntax error near position 5: wildcards are either regular `*` or recursive `**`"
    );
    assert!(FileWalk::start("[a", "/".to_string(), EntryKind::Other).is_err());
}

fn paths(files: Vec<MatchedFile>) -> Vec<String> {
    files.into_iter().map(|file| file.path).collect()
}

#[test]
fn a_plain_pattern_finds_its_own_file() {
    let kind = EntryKind::File { modified: None };
    let walk = FileWalk::start("/d/a.rs", "/d/a.rs".to_string(), kind).ok().unwrap();
    assert_eq!(paths(walk.into_files()), vec!["/d/a.rs".to_string()]);
    let mut walk = FileWalk::start("/d/a.rs", "/d/b.rs".to_string(), kind).ok().unwrap();
    assert!(walk.next_directory().is_none());
    walk.visit("/d/a.rs".to_string(), kind);
    walk.visit("/d/A.rs".to_string(), kind);
    assert_eq!(paths(walk.into_files()), vec!["/d/a.rs".to_string()]);
}

#[test]
fn what_is_neither_file_nor_directory_ends_the_walk() {
    let mut walk = FileWalk::start("/d/*", "/d".to_string(), EntryKind::Other).ok().unwrap();
    assert!(walk.next_directory().is_none());
    assert!(walk.into_files().is_empty());
}

#[test]
fn directories_are_read_in_turn() {
    let mut walk = FileWalk::start("/d/**/*.rs", "/d".to_string(), EntryKind::Directory)
        .ok()
        .unwrap();
    assert_eq!(walk.next_directory().unwrap(), "/d");
    walk.visit("/d/one".to_string(), EntryKind::Directory);
    walk.visit("/d/two.rs".to_string(), EntryKind::Directory);
    walk.visit("/d/x.rs".to_string(), EntryKind::File { modified: Some(1) });
    walk.visit("/d/link.rs".to_string(), EntryKind::Other);
    assert_eq!(walk.next_directory().unwrap(), "/d/two.rs");
    walk.visit("/d/two.rs/y.rs".to_string(), EntryKind::File { modified: None });
    walk.visit("/d/two.rs/z.ts".to_string(), EntryKind::File { modified: None });
    assert_eq!(walk.next_directory().unwrap(), "/d/one");
    assert!(walk.next_directory().is_none());
    assert_eq!(
        paths(walk.into_files()),
        vec!["/d/x.rs".to_string(), "/d/two.rs/y.rs".to_string()]
    );
}

#[test]
fn a_walk_can_be_told_what_matches() {
    let mut walk = FileWalk::start("/d/*", "/d".to_string(), EntryKind::Directory).ok().unwrap();
    walk.visit_with("/no".to_string(), EntryKind::File { modified: None }, false);
    walk.visit_with("/yes".to_string(), EntryKind::File { modified: None }, true);
    walk.visit_with("/dir".to_string(), EntryKind::Directory, false);
    assert_eq!(walk.next_directory().unwrap(), "/dir");
    assert_eq!(paths(walk.into_files()), vec!["/yes".to_string()]);
}

#[test]
fn the_newest_files_come_first_and_equals_keep_their_order() {
    let file = |path: &str, modified: Option<i128>| MatchedFile {
        path: path.to_string(),
        modified,
    };
    let sorted = newest_first(vec![
        file("none1", None),
        file("old", Some(-5)),
        file("same1", Some(3)),
        file("new", Some(9)),
        file("same2", Some(3)),
        file("none2", None),
    ]);
    assert_eq!(
        paths(sorted),
        vec!["new", "same1", "same2", "old", "none1", "none2"]
    );
}

#[test]
fn paths_are_listed_as_seen_from_the_current_directory() {
    let file = |path: &str| MatchedFile {
        path: path.to_string(),
        modified: Some(0),
    };
    let found = || vec![file("/home/me/src/a.rs"), file("/other/b.rs"), file("/home/me2/c")];
    assert_eq!(
        GlobTool.render(found(), "/home/me"),
        "src/a.rs\n/other/b.rs\n/home/me2/c"
    );
    assert_eq!(
        GlobTool.render(found(), ""),
        "/home/me/src/a.rs\n/other/b.rs\n/home/me2/c"
    );
}

#[test]
fn the_tool_describes_itself() {
    assert_eq!(GlobTool.name(), "Glob");
    assert!(GlobTool.description().contains("\"**/*.js\" or \"src/**/*.ts\""));
    assert_eq!(
        json_string(GlobTool.schema().get("required").unwrap()),
        r#"["pattern"]"#
    );
    assert_eq!(
        GlobTool.schema().get("properties").unwrap().get("pattern").unwrap().get_text("description").unwrap(),
        "The glob pattern to match files against (e.g. \"**/*.ts\", \"src/**/*.rs\")"
    );
}

#[test]
fn what_is_left_out_is_not_newer() {
    let found: Vec<MatchedFile> = (0..250)
        .map(|i: i128| MatchedFile {
            path: format!("/f{}", i),
            modified: Some((i * 7919) % 250),
        })
        .collect();
    let newest: Vec<String> = found
        .iter()
        .filter(|file| file.modified >= Some(150))
        .map(|file| file.path.clone())
        .collect();
    assert_eq!(newest.len(), MAX_RESULTS);
    let result = GlobTool.render(found, "/elsewhere");
    for path in newest {
        assert!(result.lines().any(|line| line == path));
    }
}
