//! Writing a whole file.
use crate::json;
use crate::json::{Json, JsonView};
use crate::path;
use crate::text;
use crate::tools::error::{ToolError, ToolName};
use crate::tools::schema;
use vstd::prelude::*;
use vstd::string::*;

verus! {

/// Creates a file, or replaces all that it holds.
pub struct WriteTool;

/// What is to be written where.
pub struct WriteRequest {
    pub file_path: String,
    pub content: String,
}

/// What is to be written where.
pub struct WriteView {
    pub file_path: Seq<char>,
    pub content: Seq<char>,
}

impl View for WriteRequest {
    type V = WriteView;

    open spec fn view(&self) -> WriteView {
        WriteView { file_path: self.file_path@, content: self.content@ }
    }
}

/// What an input asks for, or the reason why it is refused.
pub open spec fn write_request(input: JsonView) -> Result<WriteView, ToolError> {
    match (json::text_member(input, "file_path"@), json::text_member(input, "content"@)) {
        (None, _) => Err(ToolError::MissingField { tool: ToolName::Write, field: "file_path" }),
        (_, None) => Err(ToolError::MissingField { tool: ToolName::Write, field: "content" }),
        (Some(file_path), Some(content)) => Ok(WriteView { file_path, content }),
    }
}

/// The directory that must be there before a file is written, if any.
pub open spec fn directory_needed(file_path: Seq<char>) -> Option<Seq<char>> {
    match path::path_parent(file_path) {
        Some(dir) => if dir.len() > 0 {
            Some(dir)
        } else {
            None
        },
        None => None,
    }
}

/// What is reported of a file that was written.
pub open spec fn write_report(file_path: Seq<char>, existed: bool) -> Seq<char> {
    if existed {
        "Successfully overwrote "@ + file_path
    } else {
        "Successfully created "@ + file_path
    }
}

/// The description of the input.
pub open spec fn write_schema() -> JsonView {
    schema::input_view(
        schema::with_property(
            schema::with_property(
                json::empty_object(),
                "file_path"@,
                "string"@,
                "The absolute path to the file to write (must be absolute, not relative)"@,
            ),
            "content"@,
            "string"@,
            "The content to write to the file"@,
        ),
        seq!["file_path"@, "content"@],
    )
}

impl WriteTool {
    /// The name by which a model calls the tool.
    pub fn name(&self) -> (r: &'static str)
        ensures
            r@ == "Write"@,
    {
        "Write"
    }

    /// What the tool does, for a model.
    pub fn description(&self) -> (r: &'static str)
        ensures
            r@
                == "Writes content to a file, creating it if it doesn't exist or overwriting if it does. Creates parent directories as needed. Prefer Edit for modifying existing files — use Write only to create new files or for complete rewrites."@,
    {
        "Writes content to a file, creating it if it doesn't exist or overwriting if it does. Creates parent directories as needed. Prefer Edit for modifying existing files — use Write only to create new files or for complete rewrites."
    }

    /// The description of the input.
    pub fn schema(&self) -> (r: Json)
        ensures
            r@ == write_schema(),
    {
        let properties: Json = Json::object();
        let properties: Json = schema::add_property(
            properties,
            "file_path",
            "string",
            "The absolute path to the file to write (must be absolute, not relative)",
        );
        let properties: Json = schema::add_property(
            properties,
            "content",
            "string",
            "The content to write to the file",
        );
        let required: Vec<String> = vec!["file_path".to_owned(), "content".to_owned()];
        assert(text::strings(required@) =~= seq!["file_path"@, "content"@]);
        schema::input_schema(properties, required)
    }

    /// Reads what an input asks for.
    pub fn read_input(&self, input: &Json) -> (r: Result<WriteRequest, ToolError>)
        ensures
            match r {
                Ok(request) => write_request(input@) == Ok::<WriteView, ToolError>(request@),
                Err(error) => write_request(input@) == Err::<WriteView, ToolError>(error),
            },
    {
        let file_path: String = match input.get_text("file_path") {
            Some(text) => text.clone(),
            None => {
                return Err(ToolError::MissingField { tool: ToolName::Write, field: "file_path" });
            },
        };
        let content: String = match input.get_text("content") {
            Some(text) => text.clone(),
            None => {
                return Err(ToolError::MissingField { tool: ToolName::Write, field: "content" });
            },
        };
        Ok(WriteRequest { file_path, content })
    }

    /// The directory that must be there before the file is written, if any.
    pub fn directory(&self, request: &WriteRequest) -> (r: Option<String>)
        ensures
            json::opt_text(r) == directory_needed(request@.file_path),
    {
        match path::parent(request.file_path.as_str()) {
            Some(dir) => if dir.as_str().is_empty() {
                None
            } else {
                Some(dir)
            },
            None => None,
        }
    }

    /// What is reported of the file, once it is written.
    pub fn report(&self, request: &WriteRequest, existed: bool) -> (r: String)
        ensures
            r@ == write_report(request@.file_path, existed),
    {
        let mut out: String = if existed {
            "Successfully overwrote ".to_owned()
        } else {
            "Successfully created ".to_owned()
        };
        out.append(request.file_path.as_str());
        out
    }
}

// ---------------------------------------------------------------------------
// Laws
// ---------------------------------------------------------------------------

/// A request says what it holds.
pub proof fn requests_say_what_they_hold(request: WriteRequest)
    ensures
        request@.file_path == request.file_path@,
        request@.content == request.content@,
{
}

/// A request holds the path and the content that the input gives, character for
/// character. It is refused for the first of them that is missing.
pub proof fn requests_hold_what_is_given(input: JsonView)
    ensures
        match json::member(input, "file_path"@) {
            Some(JsonView::Text(file_path)) => match json::member(input, "content"@) {
                Some(JsonView::Text(content)) => write_request(input) matches Ok(request) && {
                    &&& request.file_path == file_path
                    &&& request.content == content
                },
                _ => write_request(input) == Err::<WriteView, ToolError>(
                    ToolError::MissingField { tool: ToolName::Write, field: "content" },
                ),
            },
            _ => write_request(input) == Err::<WriteView, ToolError>(
                ToolError::MissingField { tool: ToolName::Write, field: "file_path" },
            ),
        },
{
}

/// The directory that is needed is the parent of the file, where that is named.
pub proof fn the_parent_is_needed(file_path: Seq<char>)
    ensures
        path::path_parent(file_path) matches Some(dir) ==> (dir.len() > 0 ==> directory_needed(
            file_path,
        ) == Some(dir)),
        path::path_parent(file_path) is None || path::path_parent(file_path)->0.len() == 0
            ==> directory_needed(file_path) is None,
{
}

/// The report names the file, and says whether it was there before.
pub proof fn reports_name_the_file(file_path: Seq<char>)
    ensures
        write_report(file_path, true) == "Successfully overwrote "@ + file_path,
        write_report(file_path, false) == "Successfully created "@ + file_path,
{
}

/// The input is described field by field, with those that it must have.
pub proof fn the_input_is_described()
    ensures
        schema::describes(
            write_schema(),
            "file_path"@,
            "string"@,
            "The absolute path to the file to write (must be absolute, not relative)"@,
        ),
        schema::describes(
            write_schema(),
            "content"@,
            "string"@,
            "The content to write to the file"@,
        ),
        json::text_member(write_schema(), "type"@) == Some("object"@),
        json::member(write_schema(), "required"@) == Some(
            JsonView::List(seq![JsonView::Text("file_path"@), JsonView::Text("content"@)]),
        ),
{
    reveal_strlit("file_path");
    reveal_strlit("content");
    reveal_strlit("type");
    reveal_strlit("properties");
    reveal_strlit("required");
    reveal_strlit("description");
    assert("file_path"@.len() == 9);
    assert("content"@.len() == 7);
    assert("type"@.len() == 4);
    assert("properties"@.len() == 10);
    assert("required"@.len() == 8);
    assert("description"@.len() == 11);
    assert(json::texts_view(seq!["file_path"@, "content"@])->List_0 =~= seq![
        JsonView::Text("file_path"@),
        JsonView::Text("content"@),
    ]);
}

/// The input has no other field.
pub proof fn no_other_field_is_described(key: Seq<char>)
    requires
        key != "file_path"@,
        key != "content"@,
    ensures
        json::member(json::member(write_schema(), "properties"@)->0, key) is None,
{
    reveal_strlit("properties");
    reveal_strlit("required");
    reveal_strlit("type");
    assert("properties"@.len() == 10);
    assert("required"@.len() == 8);
    assert("type"@.len() == 4);
}

}
