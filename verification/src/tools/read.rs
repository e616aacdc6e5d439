//! Reading a file with line numbers.
use crate::json;
use crate::json::{Json, JsonView};
use crate::text;
use crate::tools::error::{ToolError, ToolName};
use crate::tools::schema;
use vstd::prelude::*;
use vstd::string::*;

verus! {

/// Reads a file, or some of its lines, with line numbers.
pub struct ReadTool;

/// What is to be read.
pub struct ReadRequest {
    pub file_path: String,
    pub offset: Option<u64>,
    pub limit: Option<u64>,
}

/// What is to be read: the first line, counted from one, and how many lines.
pub struct ReadView {
    pub file_path: Seq<char>,
    pub offset: Option<u64>,
    pub limit: Option<u64>,
}

impl View for ReadRequest {
    type V = ReadView;

    open spec fn view(&self) -> ReadView {
        ReadView { file_path: self.file_path@, offset: self.offset, limit: self.limit }
    }
}

/// What an input asks for, or the reason why it is refused.
pub open spec fn read_request(input: JsonView) -> Result<ReadView, ToolError> {
    match json::text_member(input, "file_path"@) {
        Some(file_path) => Ok(
            ReadView {
                file_path,
                offset: json::u64_member(input, "offset"@),
                limit: json::u64_member(input, "limit"@),
            },
        ),
        None => Err(ToolError::MissingField { tool: ToolName::Read, field: "file_path" }),
    }
}

/// How many lines are passed over: an offset of one, or none, starts at the first line.
pub open spec fn lines_before(offset: Option<u64>) -> nat {
    match offset {
        Some(line) => if line >= 1 {
            (line - 1) as nat
        } else {
            0
        },
        None => 0,
    }
}

/// Where the lines to read end, of so many lines.
pub open spec fn lines_end(start: nat, limit: Option<u64>, total: nat) -> nat {
    match limit {
        Some(count) => if start + count < total {
            start + count as nat
        } else {
            total
        },
        None => total,
    }
}

/// A line with its number.
pub open spec fn numbered_line(number: nat, line: Seq<char>) -> Seq<char> {
    text::right_aligned(text::decimal(number), 6).push('\t') + line
}

/// The lines of a file with their numbers, counted from one.
pub open spec fn numbered_lines(content: Seq<char>) -> Seq<Seq<char>> {
    let lines = text::line_list(content);
    Seq::new(lines.len(), |i: int| numbered_line((i + 1) as nat, lines[i]))
}

/// Where the lines to read start, of so many lines: an offset behind the end leaves none.
pub open spec fn lines_start(offset: Option<u64>, total: nat) -> nat {
    if lines_before(offset) < total {
        lines_before(offset)
    } else {
        total
    }
}

/// The lines that are read of a file, with their numbers.
pub open spec fn lines_read(content: Seq<char>, offset: Option<u64>, limit: Option<u64>) -> Seq<
    Seq<char>,
> {
    let all = numbered_lines(content);
    let start = lines_start(offset, all.len());
    all.subrange(start as int, lines_end(start, limit, all.len()) as int)
}

/// The description of the input.
pub open spec fn read_schema() -> JsonView {
    schema::input_view(
        schema::with_property(
            schema::with_property(
                schema::with_property(
                    json::empty_object(),
                    "file_path"@,
                    "string"@,
                    "The absolute path to the file to read"@,
                ),
                "offset"@,
                "integer"@,
                "The line number to start reading from (1-based). Only provide if the file is too large to read at once."@,
            ),
            "limit"@,
            "integer"@,
            "The number of lines to read. Only provide if the file is too large to read at once."@,
        ),
        seq!["file_path"@],
    )
}

/// A line with its number.
fn number_line(number: u128, line: &str) -> (r: String)
    ensures
        r@ == numbered_line(number as nat, line@),
{
    let mut out: String = text::align_right(text::decimal_text(number).as_str(), 6);
    out.push('\t');
    out.append(line);
    out
}

impl ReadTool {
    /// The name by which a model calls the tool.
    pub fn name(&self) -> (r: &'static str)
        ensures
            r@ == "Read"@,
    {
        "Read"
    }

    /// What the tool does, for a model.
    pub fn description(&self) -> (r: &'static str)
        ensures
            r@
                == "Reads a file from the local filesystem. Returns content with line numbers in cat -n format. Use offset and limit to read specific portions of large files."@,
    {
        "Reads a file from the local filesystem. Returns content with line numbers in cat -n format. Use offset and limit to read specific portions of large files."
    }

    /// The description of the input.
    pub fn schema(&self) -> (r: Json)
        ensures
            r@ == read_schema(),
    {
        let properties: Json = Json::object();
        let properties: Json = schema::add_property(
            properties,
            "file_path",
            "string",
            "The absolute path to the file to read",
        );
        let properties: Json = schema::add_property(
            properties,
            "offset",
            "integer",
            "The line number to start reading from (1-based). Only provide if the file is too large to read at once.",
        );
        let properties: Json = schema::add_property(
            properties,
            "limit",
            "integer",
            "The number of lines to read. Only provide if the file is too large to read at once.",
        );
        let required: Vec<String> = vec!["file_path".to_owned()];
        assert(text::strings(required@) =~= seq!["file_path"@]);
        schema::input_schema(properties, required)
    }

    /// Reads what an input asks for.
    pub fn read_input(&self, input: &Json) -> (r: Result<ReadRequest, ToolError>)
        ensures
            match r {
                Ok(request) => read_request(input@) == Ok::<ReadView, ToolError>(request@),
                Err(error) => read_request(input@) == Err::<ReadView, ToolError>(error),
            },
    {
        match input.get_text("file_path") {
            Some(file_path) => Ok(
                ReadRequest {
                    file_path: file_path.clone(),
                    offset: input.get_u64("offset"),
                    limit: input.get_u64("limit"),
                },
            ),
            None => Err(ToolError::MissingField { tool: ToolName::Read, field: "file_path" }),
        }
    }

    /// The lines that a request asks for, with their numbers. Of a file without lines
    /// nothing is read, whatever the offset.
    pub fn render(&self, request: &ReadRequest, content: &str) -> (r: Result<String, ToolError>)
        ensures
            ({
                let total = text::line_list(content@).len();
                let start = lines_before(request@.offset);
                match r {
                    Ok(output) => (start < total || total == 0) && output@ == text::joined(
                        lines_read(content@, request@.offset, request@.limit),
                        "\n"@,
                    ),
                    Err(ToolError::OffsetTooLarge { line, lines }) => 0 < total <= start && line
                        == start + 1 && lines == total,
                    Err(_) => false,
                }
            }),
            text::line_list(content@).len() == 0 ==> r is Ok && r->Ok_0@.len() == 0,
    {
        let lines: Vec<String> = text::lines(content);
        let total: usize = lines.len();
        assert(text::strings(lines@).len() == total);
        let skipped: u64 = match request.offset {
            Some(line) => if line >= 1 {
                line - 1
            } else {
                0
            },
            None => 0,
        };
        if skipped as u128 >= total as u128 && total > 0 {
            return Err(ToolError::OffsetTooLarge { line: skipped + 1, lines: total });
        }
        let start: usize = if total == 0 {
            0
        } else {
            skipped as usize
        };
        let end: usize = match request.limit {
            Some(count) => if start as u128 + (count as u128) < total as u128 {
                start + count as usize
            } else {
                total
            },
            None => total,
        };
        let ghost all = numbered_lines(content@);
        let mut out: Vec<String> = Vec::new();
        let mut i: usize = start;
        assert(text::strings(out@) =~= all.subrange(start as int, start as int));
        while i < end
            invariant
                start <= i <= end <= total,
                total == lines@.len(),
                text::strings(lines@) == text::line_list(content@),
                all == numbered_lines(content@),
                text::strings(out@) == all.subrange(start as int, i as int),
            decreases end - i,
        {
            let line: String = number_line(i as u128 + 1, lines[i].as_str());
            proof {
                assert(text::strings(lines@)[i as int] == lines@[i as int]@);
                assert(all[i as int] == line@);
                text::lemma_strings_push(out@, line);
                assert(all.subrange(start as int, i + 1) =~= all.subrange(
                    start as int,
                    i as int,
                ).push(line@));
            }
            out.push(line);
            i += 1;
        }
        Ok(text::join(&out, "\n"))
    }
}

// ---------------------------------------------------------------------------
// Laws
// ---------------------------------------------------------------------------

/// A window of a file shows the same numbered lines as the whole file: an offset and a
/// limit only choose among them.
pub proof fn windows_show_the_same_lines(
    content: Seq<char>,
    offset: Option<u64>,
    limit: Option<u64>,
    i: int,
)
    requires
        0 <= i < lines_read(content, offset, limit).len(),
    ensures
        lines_read(content, offset, limit)[i] == lines_read(content, None, None)[lines_before(
            offset,
        ) + i],
{
    let all = numbered_lines(content);
    assert(all.subrange(0, all.len() as int) =~= all);
}

/// A limit is never passed, and only the end of the file makes a window shorter.
pub proof fn windows_are_as_long_as_asked(
    content: Seq<char>,
    offset: Option<u64>,
    limit: Option<u64>,
)
    ensures
        ({
            let total = text::line_list(content).len();
            let left = total - lines_start(offset, total);
            lines_read(content, offset, limit).len() == match limit {
                Some(count) => if count < left {
                    count as int
                } else {
                    left
                },
                None => left,
            }
        }),
{
}

/// Windows that follow each other show the file without a gap and without a repetition.
pub proof fn windows_follow_each_other(
    content: Seq<char>,
    line: u64,
    count: u64,
    rest: Option<u64>,
)
    requires
        1 <= line,
        line + count <= u64::MAX,
        line - 1 + count <= text::line_list(content).len(),
    ensures
        lines_read(content, Some(line), Some(count)) + lines_read(
            content,
            Some((line + count) as u64),
            rest,
        ) == numbered_lines(content).subrange(
            line - 1,
            lines_end(
                (line - 1 + count) as nat,
                rest,
                text::line_list(content).len(),
            ) as int,
        ),
{
    let all = numbered_lines(content);
    let first = lines_read(content, Some(line), Some(count));
    let second = lines_read(content, Some((line + count) as u64), rest);
    let end = lines_end((line - 1 + count) as nat, rest, all.len()) as int;
    assert(first =~= all.subrange(line - 1, line - 1 + count));
    assert(second =~= all.subrange(line - 1 + count, end));
    assert(first + second =~= all.subrange(line - 1, end));
}

/// A request says what it holds.
pub proof fn requests_say_what_they_hold(request: ReadRequest)
    ensures
        request@.file_path == request.file_path@,
        request@.offset == request.offset,
        request@.limit == request.limit,
{
}

/// A request holds the path that the input gives, character for character, and its offset
/// and limit where they are numbers. It is refused exactly where there is no path.
pub proof fn requests_hold_what_is_given(input: JsonView)
    ensures
        match json::member(input, "file_path"@) {
            Some(JsonView::Text(file_path)) => read_request(input) matches Ok(request) && {
                &&& request.file_path == file_path
                &&& request.offset == (match json::member(input, "offset"@) {
                    Some(JsonView::Number(n)) => json::number_u64(n),
                    _ => None,
                })
                &&& request.limit == (match json::member(input, "limit"@) {
                    Some(JsonView::Number(n)) => json::number_u64(n),
                    _ => None,
                })
            },
            _ => read_request(input) == Err::<ReadView, ToolError>(
                ToolError::MissingField { tool: ToolName::Read, field: "file_path" },
            ),
        },
{
}

/// A shown line is the number, on the right of at least six columns, a tab, and the line
/// as it is: what follows the first tab reads back as the line, and what stands before it
/// as the number.
pub proof fn shown_lines_read_back(number: nat, line: Seq<char>)
    ensures
        ({
            let shown = numbered_line(number, line);
            let digits = text::decimal(number);
            let at = shown.len() - line.len() - 1;
            &&& at == if digits.len() < 6 {
                6
            } else {
                digits.len() as int
            }
            &&& text::first_from(shown, "\t"@, 0) == Some(at)
            &&& shown.skip(at + 1) == line
            &&& shown.subrange(at - digits.len(), at) == digits
            &&& text::number_of(shown.subrange(at - digits.len(), at)) == number
            &&& forall|i: int| 0 <= i < at - digits.len() ==> #[trigger] shown[i] == ' '
        }),
{
    reveal_strlit("\t");
    let digits = text::decimal(number);
    let field = text::right_aligned(digits, 6);
    let shown = numbered_line(number, line);
    text::aligned_texts_have_spaces_in_front(digits, 6);
    text::decimals_stand_for_their_number(number);
    let at = field.len() as int;
    let gap = at - digits.len();
    assert(field.skip(gap) == digits);
    assert(shown.skip(at + 1) =~= line);
    assert(shown.subrange(gap, at) =~= field.skip(gap));
    assert forall|j: int| 0 <= j < at implies shown[j] != '\t' by {
        assert(shown[j] == field[j]);
        if j >= gap {
            assert(field[j] == field.skip(gap)[j - gap]);
            assert('0' <= digits[j - gap] <= '9');
        }
    }
    assert("\t"@ =~= seq!['\t']);
    text::lemma_first_char(shown, '\t', 0, Some(at));
    assert forall|i: int| 0 <= i < gap implies #[trigger] shown[i] == ' ' by {
        assert(shown[i] == field[i]);
    }
}

/// A window shows the lines of the file as they are, from the offset on: each one behind
/// its number and a tab.
pub proof fn windows_show_the_lines_of_the_file(
    content: Seq<char>,
    offset: Option<u64>,
    limit: Option<u64>,
    i: int,
)
    requires
        0 <= i < lines_read(content, offset, limit).len(),
    ensures
        ({
            let first: int = match offset {
                Some(line) => if line == 0 {
                    1
                } else {
                    line as int
                },
                None => 1,
            };
            let shown = lines_read(content, offset, limit)[i];
            let line = text::line_list(content)[first - 1 + i];
            let at = text::first_from(shown, "\t"@, 0);
            &&& first - 1 + i < text::line_list(content).len()
            &&& at is Some
            &&& shown.skip(at->0 + 1) == line
            &&& text::number_of(text::trimmed_start(shown.take(at->0))) == first + i
        }),
{
    let first: int = match offset {
        Some(line) => if line == 0 {
            1
        } else {
            line as int
        },
        None => 1,
    };
    let line = text::line_list(content)[first - 1 + i];
    let number = (first + i) as nat;
    let shown = numbered_line(number, line);
    assert(lines_read(content, offset, limit)[i] == shown);
    shown_lines_read_back(number, line);
    let digits = text::decimal(number);
    let at = text::first_from(shown, "\t"@, 0)->0;
    let gap = at - digits.len();
    let blank = shown.take(gap);
    text::decimals_stand_for_their_number(number);
    assert(shown.take(at) =~= blank + shown.subrange(gap, at));
    assert forall|j: int| 0 <= j < blank.len() implies text::is_space(#[trigger] blank[j]) by {
        assert(blank[j] == shown[j]);
    }
    assert('0' <= digits[0] <= '9');
    text::lemma_drop_front(blank, digits);
}

/// A window starts at its offset, counted from one, and holds as many lines as its limit
/// allows and the file has.
pub proof fn windows_start_where_asked(content: Seq<char>, offset: u64, limit: u64)
    ensures
        ({
            let total = text::line_list(content).len();
            let left: int = if offset == 0 {
                total as int
            } else if offset <= total {
                total - offset + 1
            } else {
                0
            };
            &&& lines_read(content, None, None).len() == total
            &&& lines_read(content, Some(offset), None).len() == left
            &&& lines_read(content, Some(offset), Some(limit)).len() == if limit < left {
                limit as int
            } else {
                left
            }
            &&& lines_read(content, None, Some(limit)).len() == if limit < total {
                limit as int
            } else {
                total as int
            }
        }),
{
}

/// The input is described field by field, with the one that it must have.
pub proof fn the_input_is_described()
    ensures
        schema::describes(
            read_schema(),
            "file_path"@,
            "string"@,
            "The absolute path to the file to read"@,
        ),
        schema::describes(
            read_schema(),
            "offset"@,
            "integer"@,
            "The line number to start reading from (1-based). Only provide if the file is too large to read at once."@,
        ),
        schema::describes(
            read_schema(),
            "limit"@,
            "integer"@,
            "The number of lines to read. Only provide if the file is too large to read at once."@,
        ),
        json::text_member(read_schema(), "type"@) == Some("object"@),
        json::member(read_schema(), "required"@) == Some(
            JsonView::List(seq![JsonView::Text("file_path"@)]),
        ),
{
    reveal_strlit("file_path");
    reveal_strlit("offset");
    reveal_strlit("limit");
    reveal_strlit("type");
    reveal_strlit("properties");
    reveal_strlit("required");
    reveal_strlit("description");
    assert("file_path"@.len() == 9);
    assert("offset"@.len() == 6);
    assert("limit"@.len() == 5);
    assert("type"@.len() == 4);
    assert("properties"@.len() == 10);
    assert("required"@.len() == 8);
    assert("description"@.len() == 11);
    assert(json::texts_view(seq!["file_path"@])->List_0 =~= seq![JsonView::Text("file_path"@)]);
}

/// Lines are counted from one: so many are passed over that the one of the offset comes
/// first.
pub proof fn offsets_count_from_one(line: u64)
    ensures
        lines_before(None) == 0,
        lines_before(Some(0)) == 0,
        line > 0 ==> lines_before(Some(line)) == line - 1,
{
}

/// The input has no other field.
pub proof fn no_other_field_is_described(key: Seq<char>)
    requires
        key != "file_path"@,
        key != "offset"@,
        key != "limit"@,
    ensures
        json::member(json::member(read_schema(), "properties"@)->0, key) is None,
{
    reveal_strlit("properties");
    reveal_strlit("required");
    reveal_strlit("type");
    assert("properties"@.len() == 10);
    assert("required"@.len() == 8);
    assert("type"@.len() == 4);
}

}
