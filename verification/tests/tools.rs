use localcoder::json::{json_string, parse_json, Json};
use localcoder::text;
use localcoder::tools::edit::{EditRequest, EditTool};
use localcoder::tools::error::{stat_failure, ToolError, ToolName};
use localcoder::tools::read::{ReadRequest, ReadTool};
use localcoder::tools::write::{WriteRequest, WriteTool};

fn edit_input(file_path: &str, old_string: &str, new_string: &str) -> Json {
    Json::object()
        .with("file_path", Json::text(file_path))
        .with("old_string", Json::text(old_string))
        .with("new_string", Json::text(new_string))
}

/// The content of the file after the edit.
fn edited(content: &str, input: Json) -> Result<String, String> {
    let request = EditTool
        .read_input(&input)
        .map_err(|error| error.message())?;
    let edit = EditTool
        .apply(&request, content)
        .map_err(|error| error.message())?;
    Ok(edit.content)
}

#[test]
fn edit_replaces_single_occurrence() {
    let result = edited("hello world\n", edit_input("/f", "world", "rust")).unwrap();
    assert_eq!(result, "hello rust\n");
}

#[test]
fn edit_errors_on_not_found() {
    let result = edited("hello world\n", edit_input("/f", "missing", "x"));
    assert!(result.is_err());
    assert!(result.unwrap_err().contains("not found"));
}

#[test]
fn edit_errors_on_multiple_matches_without_replace_all() {
    let result = edited("foo foo foo\n", edit_input("/f", "foo", "bar"));
    assert!(result.is_err());
    assert!(result.unwrap_err().contains("replace_all"));
}

#[test]
fn edit_replace_all() {
    let input = edit_input("/f", "foo", "bar").with("replace_all", Json::Bool(true));
    assert_eq!(edited("foo foo foo\n", input).unwrap(), "bar bar bar\n");
}

#[test]
fn edit_errors_if_same_string() {
    let result = edited("hello\n", edit_input("/f", "hello", "hello"));
    assert!(result.is_err());
    assert!(result.unwrap_err().contains("same"));
}

#[test]
fn edit_missing_file_path_errors() {
    assert!(edited("", Json::object()).is_err());
}

#[test]
fn edit_says_which_field_is_missing() {
    let missing = |raw: &str| edited("", parse_json(raw).unwrap()).unwrap_err();
    assert_eq!(missing("{}"), "Edit: missing required field 'file_path'");
    assert_eq!(
        missing(r#"{"file_path":1,"old_string":"a","new_string":"b"}"#),
        "Edit: missing required field 'file_path'"
    );
    assert_eq!(
        missing(r#"{"file_path":"f"}"#),
        "Edit: missing required field 'old_string'"
    );
    assert_eq!(
        missing(r#"{"file_path":"f","old_string":"a"}"#),
        "Edit: missing required field 'new_string'"
    );
    assert_eq!(missing("[]"), "Edit: missing required field 'file_path'");
}

#[test]
fn edits_say_how_much_they_replaced() {
    let request = |all: bool| EditRequest {
        file_path: "/tmp/f".to_string(),
        old_string: "a".to_string(),
        new_string: "bb".to_string(),
        replace_all: all,
    };
    let edit = EditTool.apply(&request(false), "xax").ok().unwrap();
    assert_eq!(edit.message, "Successfully edited /tmp/f (1 replacement)");
    assert_eq!(edit.content, "xbbx");
    let edit = EditTool.apply(&request(true), "xax").ok().unwrap();
    assert_eq!(edit.message, "Successfully edited /tmp/f (1 replacement)");
    let edit = EditTool.apply(&request(true), "aaa").ok().unwrap();
    assert_eq!(edit.message, "Successfully edited /tmp/f (3 replacements)");
    assert_eq!(edit.content, "bbbbbb");
    let error = EditTool.apply(&request(false), "aa").err().unwrap();
    assert_eq!(
        error.message(),
        "Edit: found 2 matches of the string to replace, but replace_all is false. To replace all occurrences, set replace_all to true. To replace only one occurrence, provide more context to uniquely identify the instance.\nString: a"
    );
    let error = EditTool.apply(&request(true), "x").err().unwrap();
    assert_eq!(
        error.message(),
        "Edit: string to replace not found in file.\nString: a"
    );
}

#[test]
fn an_empty_text_stands_everywhere() {
    let input = || edit_input("/f", "", "-");
    assert_eq!(edited("", input()).unwrap(), "-");
    assert!(edited("ab", input()).is_err());
    let input = input().with("replace_all", Json::Bool(true));
    assert_eq!(edited("ab", input).unwrap(), "-a-b-");
}

#[test]
fn the_length_accounts_for_every_match() {
    let content = "aXbXcX";
    let request = EditRequest {
        file_path: "/f".to_string(),
        old_string: "X".to_string(),
        new_string: "long".to_string(),
        replace_all: true,
    };
    let edit = EditTool.apply(&request, content).ok().unwrap();
    let count = text::count_matches(content, "X") as usize;
    assert_eq!(edit.content.len() + count, content.len() + count * 4);
}

/// What the tool answers for the content of a file.
fn read(content: &str, input: Json) -> Result<String, String> {
    let request = ReadTool
        .read_input(&input)
        .map_err(|error| error.message())?;
    ReadTool
        .render(&request, content)
        .map_err(|error| error.message())
}

fn read_input(file_path: &str) -> Json {
    Json::object().with("file_path", Json::text(file_path))
}

#[test]
fn read_full_file() {
    let result = read("hello\nworld\n", read_input("/f")).unwrap();
    assert!(result.contains("hello"));
    assert!(result.contains("world"));
    assert!(result.contains("     1\t"));
    assert!(result.contains("     2\t"));
    assert_eq!(result, "     1\thello\n     2\tworld");
}

#[test]
fn read_with_offset_and_limit() {
    let input = read_input("/f")
        .with("offset", Json::integer(2))
        .with("limit", Json::integer(2));
    let result = read("a\nb\nc\nd\ne\n", input).unwrap();
    let lines: Vec<&str> = result.lines().collect();
    assert_eq!(lines.len(), 2);
    assert!(lines[0].contains("b"));
    assert!(lines[1].contains("c"));
    assert!(lines[0].starts_with("     2\t"));
    assert!(lines[1].starts_with("     3\t"));
}

#[test]
fn read_missing_file_errors() {
    let request = ReadTool
        .read_input(&read_input("/tmp/__nonexistent_localcoder_test__.txt"))
        .unwrap_or_else(|_| panic!("a path is there"));
    let error = stat_failure(ToolName::Read, request.file_path, true, "gone".to_string());
    assert!(error.message().contains("not found"));
}

#[test]
fn read_missing_file_path_errors() {
    let result = read("", Json::object());
    assert_eq!(
        result.unwrap_err(),
        "Read: missing required field 'file_path'"
    );
}

#[test]
fn reading_behind_the_end_is_refused() {
    let input = read_input("/f").with("offset", Json::integer(4));
    assert_eq!(
        read("a\nb\nc", input).unwrap_err(),
        "Read: offset 4 exceeds file length (3 lines)"
    );
    let input = parse_json(r#"{"file_path":"f","offset":18446744073709551615}"#).unwrap();
    assert_eq!(
        read("a", input).unwrap_err(),
        "Read: offset 18446744073709551615 exceeds file length (1 lines)"
    );
}

#[test]
fn odd_offsets_start_at_the_first_line() {
    for raw in [
        r#"{"file_path":"f","offset":0}"#,
        r#"{"file_path":"f","offset":-3}"#,
        r#"{"file_path":"f","offset":"2"}"#,
        r#"{"file_path":"f","offset":1}"#,
    ] {
        assert_eq!(read("a\r\nb", parse_json(raw).unwrap()).unwrap(), "     1\ta\n     2\tb");
    }
}

#[test]
fn limits_are_not_passed() {
    let limited = |limit: i64| {
        read(
            "a\nb\nc",
            read_input("/f").with("limit", Json::integer(limit)),
        )
        .unwrap()
    };
    assert_eq!(limited(0), "");
    assert_eq!(limited(1), "     1\ta");
    assert_eq!(limited(3), limited(1000));
    let huge = parse_json(r#"{"file_path":"f","offset":3,"limit":18446744073709551615}"#).unwrap();
    assert_eq!(read("a\nb\nc", huge).unwrap(), "     3\tc");
}

#[test]
fn an_empty_file_has_no_lines() {
    assert_eq!(read("", read_input("/f")).unwrap(), "");
    for offset in [0, 1, 2, 3, i64::MAX] {
        for limit in [0, 5] {
            let input = read_input("/t/empty.txt")
                .with("offset", Json::integer(offset))
                .with("limit", Json::integer(limit));
            assert_eq!(read("", input).unwrap(), "");
        }
    }
    let input = read_input("/t/empty.txt").with("offset", Json::integer(3));
    assert_eq!(read("", input).unwrap(), "");
}

#[test]
fn windows_make_up_the_whole() {
    let content = "a\nb\n\nd\ne";
    let window = |offset: u64, limit: Option<u64>| {
        let request = ReadRequest {
            file_path: "/f".to_string(),
            offset: Some(offset),
            limit,
        };
        ReadTool.render(&request, content).ok().unwrap()
    };
    let whole = window(1, None);
    assert_eq!(format!("{}\n{}", window(1, Some(2)), window(3, None)), whole);
    assert_eq!(whole, "     1\ta\n     2\tb\n     3\t\n     4\td\n     5\te");
}

fn write_input(raw: &str) -> Result<WriteRequest, String> {
    WriteTool
        .read_input(&parse_json(raw).unwrap())
        .map_err(|error| error.message())
}

#[test]
fn write_creates_new_file() {
    let request = write_input(r#"{"file_path":"/tmp/d/new_file.txt","content":"hello\n"}"#)
        .unwrap_or_else(|error| panic!("{}", error));
    assert_eq!(request.content, "hello\n");
    let result = WriteTool.report(&request, false);
    assert!(result.contains("created"));
    assert_eq!(result, "Successfully created /tmp/d/new_file.txt");
}

#[test]
fn write_overwrites_existing_file() {
    let request = write_input(r#"{"file_path":"existing.txt","content":"new content"}"#)
        .unwrap_or_else(|error| panic!("{}", error));
    let result = WriteTool.report(&request, true);
    assert!(result.contains("overwrote"));
    assert_eq!(result, "Successfully overwrote existing.txt");
    assert_eq!(request.content, "new content");
}

#[test]
fn write_creates_parent_directories() {
    let request = write_input(r#"{"file_path":"/tmp/d/a/b/c/file.txt","content":"nested"}"#)
        .unwrap_or_else(|error| panic!("{}", error));
    assert_eq!(WriteTool.directory(&request).as_deref(), Some("/tmp/d/a/b/c"));
}

#[test]
fn write_missing_file_path_errors() {
    assert_eq!(
        write_input(r#"{"content":"x"}"#).err().unwrap(),
        "Write: missing required field 'file_path'"
    );
}

#[test]
fn write_missing_content_errors() {
    assert_eq!(
        write_input(r#"{"file_path":"/tmp/x"}"#).err().unwrap(),
        "Write: missing required field 'content'"
    );
}

#[test]
fn a_file_of_the_current_directory_needs_no_other() {
    let directory = |file_path: &str| {
        WriteTool.directory(&WriteRequest {
            file_path: file_path.to_string(),
            content: String::new(),
        })
    };
    assert_eq!(directory("file.txt"), None);
    assert_eq!(directory(""), None);
    assert_eq!(directory("/"), None);
    assert_eq!(directory("/file.txt").as_deref(), Some("/"));
    assert_eq!(directory("./file.txt").as_deref(), Some("."));
}

#[test]
fn failures_are_told_with_the_path() {
    let path = || "/f".to_string();
    let reason = || "denied".to_string();
    for (error, expected) in [
        (
            stat_failure(ToolName::Edit, path(), true, reason()),
            "Edit: file not found: /f",
        ),
        (
            stat_failure(ToolName::Read, path(), false, reason()),
            "Read: cannot stat '/f': denied",
        ),
        (ToolError::NotAFile(path()), "Read: path is not a file: /f"),
        (
            ToolError::CannotRead { tool: ToolName::Edit, path: path(), reason: reason() },
            "Edit: cannot read '/f': denied",
        ),
        (
            ToolError::CannotWrite { tool: ToolName::Write, path: path(), reason: reason() },
            "Write: cannot write '/f': denied",
        ),
        (
            ToolError::CannotCreateDirectories { path: path(), reason: reason() },
            "Write: cannot create directories for '/f': denied",
        ),
        (
            ToolError::NoChange,
            "Edit: no changes to make: old_string and new_string are exactly the same.",
        ),
        (ToolError::NoDirectory(path()), "Glob: directory does not exist: /f"),
        (ToolError::NotADirectory(path()), "Glob: path is not a directory: /f"),
        (ToolError::InvalidPattern(reason()), "Glob: invalid glob pattern: denied"),
    ] {
        assert_eq!(error.message(), expected);
    }
}

#[test]
fn tools_describe_themselves() {
    assert_eq!(EditTool.name(), "Edit");
    assert_eq!(ReadTool.name(), "Read");
    assert_eq!(WriteTool.name(), "Write");
    assert!(EditTool.description().starts_with("Performs exact string replacements in files. Fails if"));
    assert!(ReadTool.description().ends_with("in cat -n format. Use offset and limit to read specific portions of large files."));
    assert!(WriteTool.description().contains("existing files — use Write only"));
    assert_eq!(
        json_string(&WriteTool.schema()),
        "{\"properties\":{\"content\":{\"description\":\"The content to write to the file\",\"type\":\"string\"},\
         \"file_path\":{\"description\":\"The absolute path to the file to write (must be absolute, not relative)\",\"type\":\"string\"}},\
         \"required\":[\"file_path\",\"content\"],\"type\":\"object\"}"
    );
    let schema = EditTool.schema();
    assert_eq!(
        schema.get("properties").unwrap().get("replace_all").unwrap().get_text("type").unwrap(),
        "boolean"
    );
    assert_eq!(
        json_string(schema.get("required").unwrap()),
        r#"["file_path","old_string","new_string"]"#
    );
    let schema = ReadTool.schema();
    assert_eq!(json_string(schema.get("required").unwrap()), r#"["file_path"]"#);
    assert_eq!(
        schema.get("properties").unwrap().get("offset").unwrap().get_text("type").unwrap(),
        "integer"
    );
}
