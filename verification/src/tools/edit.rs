//! Replacing text in a file.
use crate::json;
use crate::json::{Json, JsonView};
use crate::text;
use crate::tools::error::{ToolError, ToolName};
use crate::tools::schema;
use vstd::prelude::*;
use vstd::string::*;

verus! {

/// Replaces text in a file. The text must be in the file exactly once, unless all
/// occurrences are to be replaced.
pub struct EditTool;

/// What is to be replaced where.
pub struct EditRequest {
    pub file_path: String,
    pub old_string: String,
    pub new_string: String,
    pub replace_all: bool,
}

/// What is to be replaced where.
pub struct EditView {
    pub file_path: Seq<char>,
    pub old_string: Seq<char>,
    pub new_string: Seq<char>,
    pub replace_all: bool,
}

impl View for EditRequest {
    type V = EditView;

    open spec fn view(&self) -> EditView {
        EditView {
            file_path: self.file_path@,
            old_string: self.old_string@,
            new_string: self.new_string@,
            replace_all: self.replace_all,
        }
    }
}

/// An edit that was made.
pub struct Edit {
    /// What the file holds now.
    pub content: String,
    /// What is reported.
    pub message: String,
}

/// What an input asks for, or the reason why it is refused.
pub open spec fn edit_request(input: JsonView) -> Result<EditView, ToolError> {
    match (
        json::text_member(input, "file_path"@),
        json::text_member(input, "old_string"@),
        json::text_member(input, "new_string"@),
    ) {
        (None, _, _) => Err(
            ToolError::MissingField { tool: ToolName::Edit, field: "file_path" },
        ),
        (_, None, _) => Err(
            ToolError::MissingField { tool: ToolName::Edit, field: "old_string" },
        ),
        (_, _, None) => Err(
            ToolError::MissingField { tool: ToolName::Edit, field: "new_string" },
        ),
        (Some(file_path), Some(old_string), Some(new_string)) => if old_string == new_string {
            Err(ToolError::NoChange)
        } else {
            Ok(
                EditView {
                    file_path,
                    old_string,
                    new_string,
                    replace_all: json::bool_member(input, "replace_all"@) == Some(true),
                },
            )
        },
    }
}

/// The content of a file with an edit made.
pub open spec fn edited(request: EditView, content: Seq<char>) -> Seq<char> {
    if request.replace_all {
        text::replaced(content, request.old_string, request.new_string)
    } else {
        text::replaced_first(content, request.old_string, request.new_string)
    }
}

/// What is reported of an edit.
pub open spec fn edit_report(path: Seq<char>, replacements: nat) -> Seq<char> {
    "Successfully edited "@ + path + " ("@ + text::decimal(replacements) + " replacement"@ + (
    if replacements == 1 {
        ""@
    } else {
        "s"@
    }) + ")"@
}

/// The description of the input.
pub open spec fn edit_schema() -> JsonView {
    schema::input_view(
        schema::with_property(
            schema::with_property(
                schema::with_property(
                    schema::with_property(
                        json::empty_object(),
                        "file_path"@,
                        "string"@,
                        "The absolute path to the file to modify"@,
                    ),
                    "old_string"@,
                    "string"@,
                    "The text to replace (must be unique in the file, or use replace_all)"@,
                ),
                "new_string"@,
                "string"@,
                "The replacement text"@,
            ),
            "replace_all"@,
            "boolean"@,
            "Replace all occurrences of old_string (default false)"@,
        ),
        seq!["file_path"@, "old_string"@, "new_string"@],
    )
}

impl EditTool {
    /// The name by which a model calls the tool.
    pub fn name(&self) -> (r: &'static str)
        ensures
            r@ == "Edit"@,
    {
        "Edit"
    }

    /// What the tool does, for a model.
    pub fn description(&self) -> (r: &'static str)
        ensures
            r@
                == "Performs exact string replacements in files. Fails if old_string is not found, or if multiple matches exist and replace_all is false. Use replace_all: true to replace every occurrence."@,
    {
        "Performs exact string replacements in files. Fails if old_string is not found, or if multiple matches exist and replace_all is false. Use replace_all: true to replace every occurrence."
    }

    /// The description of the input.
    pub fn schema(&self) -> (r: Json)
        ensures
            r@ == edit_schema(),
    {
        let properties: Json = Json::object();
        let properties: Json = schema::add_property(
            properties,
            "file_path",
            "string",
            "The absolute path to the file to modify",
        );
        let properties: Json = schema::add_property(
            properties,
            "old_string",
            "string",
            "The text to replace (must be unique in the file, or use replace_all)",
        );
        let properties: Json = schema::add_property(
            properties,
            "new_string",
            "string",
            "The replacement text",
        );
        let properties: Json = schema::add_property(
            properties,
            "replace_all",
            "boolean",
            "Replace all occurrences of old_string (default false)",
        );
        let required: Vec<String> = vec![
            "file_path".to_owned(),
            "old_string".to_owned(),
            "new_string".to_owned(),
        ];
        assert(text::strings(required@) =~= seq!["file_path"@, "old_string"@, "new_string"@]);
        schema::input_schema(properties, required)
    }

    /// Reads what an input asks for.
    pub fn read_input(&self, input: &Json) -> (r: Result<EditRequest, ToolError>)
        ensures
            match r {
                Ok(request) => edit_request(input@) == Ok::<EditView, ToolError>(request@),
                Err(error) => edit_request(input@) == Err::<EditView, ToolError>(error),
            },
    {
        let file_path: String = match input.get_text("file_path") {
            Some(text) => text.clone(),
            None => {
                return Err(ToolError::MissingField { tool: ToolName::Edit, field: "file_path" });
            },
        };
        let old_string: String = match input.get_text("old_string") {
            Some(text) => text.clone(),
            None => {
                return Err(ToolError::MissingField { tool: ToolName::Edit, field: "old_string" });
            },
        };
        let new_string: String = match input.get_text("new_string") {
            Some(text) => text.clone(),
            None => {
                return Err(ToolError::MissingField { tool: ToolName::Edit, field: "new_string" });
            },
        };
        let replace_all: bool = match input.get_bool("replace_all") {
            Some(all) => all,
            None => false,
        };
        if text::same_text(old_string.as_str(), new_string.as_str()) {
            return Err(ToolError::NoChange);
        }
        Ok(EditRequest { file_path, old_string, new_string, replace_all })
    }

    /// Makes an edit in the content of the file.
    pub fn apply(&self, request: &EditRequest, content: &str) -> (r: Result<Edit, ToolError>)
        ensures
            ({
                let count = text::match_count(content@, request@.old_string);
                match r {
                    Ok(edit) => {
                        &&& count == 1 || (count > 1 && request@.replace_all)
                        &&& edit.content@ == edited(request@, content@)
                        &&& edit.message@ == edit_report(request@.file_path, count)
                    },
                    Err(ToolError::NoMatch(old_string)) => count == 0 && old_string@
                        == request@.old_string,
                    Err(ToolError::ManyMatches { count: found, old_string }) => count > 1
                        && !request@.replace_all && found == count && old_string@
                        == request@.old_string,
                    Err(_) => false,
                }
            }),
    {
        let matches: u128 = text::count_matches(content, request.old_string.as_str());
        if matches == 0 {
            return Err(ToolError::NoMatch(request.old_string.clone()));
        }
        if matches > 1 && !request.replace_all {
            return Err(
                ToolError::ManyMatches { count: matches, old_string: request.old_string.clone() },
            );
        }
        let content: String = if request.replace_all {
            text::replace_all(content, request.old_string.as_str(), request.new_string.as_str())
        } else {
            text::replace_first(content, request.old_string.as_str(), request.new_string.as_str())
        };
        let mut message: String = "Successfully edited ".to_owned();
        message.append(request.file_path.as_str());
        message.append(" (");
        message.append(text::decimal_text(matches).as_str());
        message.append(" replacement");
        message.append(
            if matches == 1 {
                ""
            } else {
                "s"
            },
        );
        message.append(")");
        Ok(Edit { content, message })
    }
}

// ---------------------------------------------------------------------------
// Laws
// ---------------------------------------------------------------------------

/// What replacing from a place on leaves.
proof fn lemma_replaced_from(s: Seq<char>, pat: Seq<char>, new: Seq<char>, from: int)
    requires
        pat.len() > 0,
        0 <= from <= s.len(),
    ensures
        text::count_from(s, pat, from) == 0 ==> text::replaced_from(s, pat, new, from) == s.skip(
            from,
        ),
        text::replaced_from(s, pat, new, from).len() + text::count_from(s, pat, from) * pat.len()
            == s.len() - from + text::count_from(s, pat, from) * new.len(),
    decreases s.len() - from,
{
    text::first_from_is_the_least(s, pat, from);
    if let Some(i) = text::first_from(s, pat, from) {
        let next = i + pat.len();
        lemma_replaced_from(s, pat, new, next);
        let rest = text::count_from(s, pat, next);
        let p = pat.len();
        let n = new.len();
        assert((rest + 1) * p == rest * p + p) by (nonlinear_arith);
        assert((rest + 1) * n == rest * n + n) by (nonlinear_arith);
    } else {
        assert(0 * pat.len() == 0 && 0 * new.len() == 0) by (nonlinear_arith);
    }
}

proof fn lemma_interleaved(s: Seq<char>, new: Seq<char>)
    ensures
        text::interleaved(s, new).len() == s.len() + (s.len() + 1) * new.len(),
    decreases s.len(),
{
    let k = s.len();
    let n = new.len();
    if k == 0 {
        assert((0 + 1) * n == n) by (nonlinear_arith);
    } else {
        lemma_interleaved(s.drop_last(), new);
        assert((k + 1) * n == k * n + n) by (nonlinear_arith);
    }
}

/// A text that is there once is replaced the same way, whether all occurrences are to be
/// replaced or the only one.
pub proof fn one_match_is_replaced_either_way(s: Seq<char>, pat: Seq<char>, new: Seq<char>)
    requires
        text::match_count(s, pat) == 1,
    ensures
        text::replaced(s, pat, new) == text::replaced_first(s, pat, new),
{
    text::first_from_is_the_least(s, pat, 0);
    if pat.len() == 0 {
        assert(s.len() == 0);
        assert(s.subrange(0, 0) =~= pat);
        assert(text::occurs_at(s, pat, 0));
        assert(s.take(0) + new + s.skip(0) =~= new);
    } else {
        let i = text::first_from(s, pat, 0)->0;
        lemma_replaced_from(s, pat, new, i + pat.len());
        assert(s.subrange(0, i) =~= s.take(i));
    }
}

/// Every replacement, and nothing else, changes the length: the file grows by the
/// difference for each match.
pub proof fn edits_account_for_every_match(request: EditView, content: Seq<char>)
    requires
        request.replace_all || text::match_count(content, request.old_string) == 1,
    ensures
        ({
            let count = text::match_count(content, request.old_string);
            edited(request, content).len() + count * request.old_string.len() == content.len()
                + count * request.new_string.len()
        }),
{
    let pat = request.old_string;
    let new = request.new_string;
    if text::match_count(content, pat) == 1 {
        one_match_is_replaced_either_way(content, pat, new);
    }
    if pat.len() == 0 {
        lemma_interleaved(content, new);
        assert((content.len() + 1) * 0 == 0) by (nonlinear_arith);
    } else {
        lemma_replaced_from(content, pat, new, 0);
    }
}

/// A request says what it holds.
pub proof fn requests_say_what_they_hold(request: EditRequest)
    ensures
        request@.file_path == request.file_path@,
        request@.old_string == request.old_string@,
        request@.new_string == request.new_string@,
        request@.replace_all == request.replace_all,
{
}

/// A request holds the texts that the input gives, character for character, and asks for
/// all occurrences only where the input does.
pub proof fn requests_hold_what_is_given(
    input: JsonView,
    file_path: Seq<char>,
    old_string: Seq<char>,
    new_string: Seq<char>,
)
    requires
        json::member(input, "file_path"@) == Some(JsonView::Text(file_path)),
        json::member(input, "old_string"@) == Some(JsonView::Text(old_string)),
        json::member(input, "new_string"@) == Some(JsonView::Text(new_string)),
    ensures
        match edit_request(input) {
            Ok(request) => {
                &&& old_string != new_string
                &&& request.file_path == file_path
                &&& request.old_string == old_string
                &&& request.new_string == new_string
                &&& request.replace_all <==> json::member(input, "replace_all"@) == Some(
                    JsonView::Bool(true),
                )
            },
            Err(error) => old_string == new_string && error == ToolError::NoChange,
        },
{
}

/// An input is refused for the first field that it lacks.
pub proof fn incomplete_inputs_are_refused(input: JsonView)
    ensures
        ({
            let path = json::text_member(input, "file_path"@) is Some;
            let old_string = json::text_member(input, "old_string"@) is Some;
            let new_string = json::text_member(input, "new_string"@) is Some;
            let refusal = edit_request(input);
            &&& !path <==> refusal == Err::<EditView, ToolError>(
                ToolError::MissingField { tool: ToolName::Edit, field: "file_path" },
            )
            &&& path && !old_string <==> refusal == Err::<EditView, ToolError>(
                ToolError::MissingField { tool: ToolName::Edit, field: "old_string" },
            )
            &&& path && old_string && !new_string <==> refusal == Err::<EditView, ToolError>(
                ToolError::MissingField { tool: ToolName::Edit, field: "new_string" },
            )
        }),
{
    reveal_strlit("file_path");
    reveal_strlit("old_string");
    reveal_strlit("new_string");
    assert("file_path"@.len() == 9);
    assert("old_string"@.len() == 10);
    assert("new_string"@.len() == 10);
    assert("old_string"@[0] == 'o');
    assert("new_string"@[0] == 'n');
}

/// An edit puts the new text of the input in the place of the old one, as it was given,
/// and leaves what stands before and behind it.
pub proof fn edits_put_the_new_text_in_place(
    input: JsonView,
    front: Seq<char>,
    back: Seq<char>,
    old_string: Seq<char>,
    new_string: Seq<char>,
)
    requires
        edit_request(input) is Ok,
        json::text_member(input, "old_string"@) == Some(old_string),
        json::text_member(input, "new_string"@) == Some(new_string),
        old_string.len() > 0,
        forall|i: int|
            0 <= i < front.len() ==> !#[trigger] text::occurs_at(
                front + old_string + back,
                old_string,
                i,
            ),
    ensures
        ({
            let request = edit_request(input)->Ok_0;
            let after = edited(request, front + old_string + back);
            if json::bool_member(input, "replace_all"@) == Some(true) {
                after == front + new_string + edited(request, back)
            } else {
                after == front + new_string + back
            }
        }),
{
    text::matches_are_replaced_as_given(front, old_string, back, new_string);
}

/// A file without a match would be left as it is.
pub proof fn edits_change_matches_alone(request: EditView, content: Seq<char>)
    requires
        request.old_string.len() > 0,
        !text::contains(content, request.old_string),
    ensures
        edited(request, content) == content,
{
    text::without_a_match_nothing_changes(content, request.old_string, request.new_string);
}

/// The report names the file and says how many replacements were made.
pub proof fn reports_name_file_and_count(path: Seq<char>, replacements: nat)
    ensures
        edit_report(path, 1) == "Successfully edited "@ + path + " (1 replacement)"@,
        replacements != 1 ==> edit_report(path, replacements) == "Successfully edited "@ + path
            + " ("@ + text::decimal(replacements) + " replacements)"@,
{
    reveal_strlit("");
    reveal_strlit("s");
    reveal_strlit(" (");
    reveal_strlit(")");
    reveal_strlit(" replacement");
    reveal_strlit(" (1 replacement)");
    reveal_strlit(" replacements)");
    text::decimals_stand_for_their_number(1);
    assert(text::decimal(1) =~= seq!['1']);
    assert(" ("@ + seq!['1'] + " replacement"@ + ")"@ =~= " (1 replacement)"@);
    assert(edit_report(path, 1) =~= "Successfully edited "@ + path + (" ("@ + seq!['1']
        + " replacement"@ + ")"@));
    assert(" replacement"@ + "s"@ + ")"@ =~= " replacements)"@);
    if replacements != 1 {
        assert(edit_report(path, replacements) =~= "Successfully edited "@ + path + " ("@
            + text::decimal(replacements) + (" replacement"@ + "s"@ + ")"@));
    }
}

/// The input is described field by field, with those that it must have.
pub proof fn the_input_is_described()
    ensures
        schema::describes(
            edit_schema(),
            "file_path"@,
            "string"@,
            "The absolute path to the file to modify"@,
        ),
        schema::describes(
            edit_schema(),
            "old_string"@,
            "string"@,
            "The text to replace (must be unique in the file, or use replace_all)"@,
        ),
        schema::describes(edit_schema(), "new_string"@, "string"@, "The replacement text"@),
        schema::describes(
            edit_schema(),
            "replace_all"@,
            "boolean"@,
            "Replace all occurrences of old_string (default false)"@,
        ),
        json::text_member(edit_schema(), "type"@) == Some("object"@),
        json::member(edit_schema(), "required"@) == Some(
            JsonView::List(
                seq![
                    JsonView::Text("file_path"@),
                    JsonView::Text("old_string"@),
                    JsonView::Text("new_string"@),
                ],
            ),
        ),
{
    reveal_strlit("file_path");
    reveal_strlit("old_string");
    reveal_strlit("new_string");
    reveal_strlit("replace_all");
    reveal_strlit("type");
    reveal_strlit("properties");
    reveal_strlit("required");
    reveal_strlit("description");
    assert("file_path"@.len() == 9);
    assert("old_string"@.len() == 10);
    assert("new_string"@.len() == 10);
    assert("old_string"@[0] == 'o');
    assert("new_string"@[0] == 'n');
    assert("replace_all"@.len() == 11);
    assert("type"@.len() == 4);
    assert("properties"@.len() == 10);
    assert("required"@.len() == 8);
    assert("description"@.len() == 11);
    assert(json::texts_view(seq!["file_path"@, "old_string"@, "new_string"@])->List_0 =~= seq![
        JsonView::Text("file_path"@),
        JsonView::Text("old_string"@),
        JsonView::Text("new_string"@),
    ]);
}

/// All matches are replaced where the request asks for it, and else the first one.
pub proof fn requests_decide_what_is_replaced(request: EditView, content: Seq<char>)
    ensures
        request.replace_all ==> edited(request, content) == text::replaced(
            content,
            request.old_string,
            request.new_string,
        ),
        !request.replace_all ==> edited(request, content) == text::replaced_first(
            content,
            request.old_string,
            request.new_string,
        ),
{
}

/// The input has no other field.
pub proof fn no_other_field_is_described(key: Seq<char>)
    requires
        key != "file_path"@,
        key != "old_string"@,
        key != "new_string"@,
        key != "replace_all"@,
    ensures
        json::member(json::member(edit_schema(), "properties"@)->0, key) is None,
{
    reveal_strlit("properties");
    reveal_strlit("required");
    reveal_strlit("type");
    assert("properties"@.len() == 10);
    assert("required"@.len() == 8);
    assert("type"@.len() == 4);
}

}
