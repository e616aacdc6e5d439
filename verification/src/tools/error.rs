//! Why a tool refused to work.
use crate::text;
use vstd::prelude::*;
use vstd::string::*;

verus! {

/// The tools.
#[derive(Debug, Clone, Copy, PartialEq, Eq, Structural)]
pub enum ToolName {
    Read,
    Write,
    Edit,
    Glob,
}

impl ToolName {
    /// The name by which a model calls the tool.
    pub open spec fn says(self) -> Seq<char> {
        match self {
            ToolName::Read => "Read"@,
            ToolName::Write => "Write"@,
            ToolName::Edit => "Edit"@,
            ToolName::Glob => "Glob"@,
        }
    }

    /// The name by which a model calls the tool.
    pub fn name(self) -> (r: &'static str)
        ensures
            r@ == self.says(),
    {
        match self {
            ToolName::Read => "Read",
            ToolName::Write => "Write",
            ToolName::Edit => "Edit",
            ToolName::Glob => "Glob",
        }
    }
}

/// Why a tool refused to work.
#[derive(Debug)]
pub enum ToolError {
    /// The input lacks a field, or the field is no text.
    MissingField { tool: ToolName, field: &'static str },
    /// There is no such file.
    FileNotFound { tool: ToolName, path: String },
    /// Nothing can be learned about the file.
    CannotStat { tool: ToolName, path: String, reason: String },
    /// The path leads to something else than a file.
    NotAFile(String),
    /// The file cannot be read.
    CannotRead { tool: ToolName, path: String, reason: String },
    /// The file cannot be written.
    CannotWrite { tool: ToolName, path: String, reason: String },
    /// The directories above the file cannot be created.
    CannotCreateDirectories { path: String, reason: String },
    /// The edit would change nothing.
    NoChange,
    /// The text to replace is not in the file.
    NoMatch(String),
    /// The text to replace is in the file more than once.
    ManyMatches { count: u128, old_string: String },
    /// The file has fewer lines.
    OffsetTooLarge { line: u64, lines: usize },
    /// The directory to search in does not exist.
    NoDirectory(String),
    /// The path to search in is no directory.
    NotADirectory(String),
    /// The pattern cannot be read.
    InvalidPattern(String),
}

impl ToolError {
    /// What the error says.
    pub open spec fn says(self) -> Seq<char> {
        match self {
            ToolError::MissingField { tool, field } => tool.says() + ": missing required field '"@
                + field@ + "'"@,
            ToolError::FileNotFound { tool, path } => tool.says() + ": file not found: "@ + path@,
            ToolError::CannotStat { tool, path, reason } => tool.says() + ": cannot stat '"@ + path@
                + "': "@ + reason@,
            ToolError::NotAFile(path) => "Read: path is not a file: "@ + path@,
            ToolError::CannotRead { tool, path, reason } => tool.says() + ": cannot read '"@ + path@
                + "': "@ + reason@,
            ToolError::CannotWrite { tool, path, reason } => tool.says() + ": cannot write '"@
                + path@ + "': "@ + reason@,
            ToolError::CannotCreateDirectories { path, reason } =>
            "Write: cannot create directories for '"@ + path@ + "': "@ + reason@,
            ToolError::NoChange =>
            "Edit: no changes to make: old_string and new_string are exactly the same."@,
            ToolError::NoMatch(old_string) =>
            "Edit: string to replace not found in file.\nString: "@ + old_string@,
            ToolError::ManyMatches { count, old_string } => "Edit: found "@ + text::decimal(
                count as nat,
            )
                + " matches of the string to replace, but replace_all is false. To replace all occurrences, set replace_all to true. To replace only one occurrence, provide more context to uniquely identify the instance.\nString: "@
                + old_string@,
            ToolError::OffsetTooLarge { line, lines } => "Read: offset "@ + text::decimal(
                line as nat,
            ) + " exceeds file length ("@ + text::decimal(lines as nat) + " lines)"@,
            ToolError::NoDirectory(path) => "Glob: directory does not exist: "@ + path@,
            ToolError::NotADirectory(path) => "Glob: path is not a directory: "@ + path@,
            ToolError::InvalidPattern(reason) => "Glob: invalid glob pattern: "@ + reason@,
        }
    }

    /// What the error says.
    pub fn message(&self) -> (r: String)
        ensures
            r@ == self.says(),
    {
        match self {
            ToolError::MissingField { tool, field } => quoted(
                tool.name(),
                ": missing required field '",
                field,
                "'",
                "",
            ),
            ToolError::FileNotFound { tool, path } => quoted(
                tool.name(),
                ": file not found: ",
                path.as_str(),
                "",
                "",
            ),
            ToolError::CannotStat { tool, path, reason } => quoted(
                tool.name(),
                ": cannot stat '",
                path.as_str(),
                "': ",
                reason.as_str(),
            ),
            ToolError::NotAFile(path) => quoted(
                "",
                "Read: path is not a file: ",
                path.as_str(),
                "",
                "",
            ),
            ToolError::CannotRead { tool, path, reason } => quoted(
                tool.name(),
                ": cannot read '",
                path.as_str(),
                "': ",
                reason.as_str(),
            ),
            ToolError::CannotWrite { tool, path, reason } => quoted(
                tool.name(),
                ": cannot write '",
                path.as_str(),
                "': ",
                reason.as_str(),
            ),
            ToolError::CannotCreateDirectories { path, reason } => quoted(
                "",
                "Write: cannot create directories for '",
                path.as_str(),
                "': ",
                reason.as_str(),
            ),
            ToolError::NoChange =>
            "Edit: no changes to make: old_string and new_string are exactly the same.".to_owned(),
            ToolError::NoMatch(old_string) => quoted(
                "",
                "Edit: string to replace not found in file.\nString: ",
                old_string.as_str(),
                "",
                "",
            ),
            ToolError::ManyMatches { count, old_string } => quoted(
                "Edit: found ",
                text::decimal_text(*count).as_str(),
                " matches of the string to replace, but replace_all is false. To replace all occurrences, set replace_all to true. To replace only one occurrence, provide more context to uniquely identify the instance.\nString: ",
                old_string.as_str(),
                "",
            ),
            ToolError::OffsetTooLarge { line, lines } => quoted(
                "Read: offset ",
                text::decimal_text(*line as u128).as_str(),
                " exceeds file length (",
                text::decimal_text(*lines as u128).as_str(),
                " lines)",
            ),
            ToolError::NoDirectory(path) => quoted(
                "",
                "Glob: directory does not exist: ",
                path.as_str(),
                "",
                "",
            ),
            ToolError::NotADirectory(path) => quoted(
                "",
                "Glob: path is not a directory: ",
                path.as_str(),
                "",
                "",
            ),
            ToolError::InvalidPattern(reason) => quoted(
                "",
                "Glob: invalid glob pattern: ",
                reason.as_str(),
                "",
                "",
            ),
        }
    }
}

/// What is reported when nothing can be learned about a file.
pub open spec fn stat_error(tool: ToolName, path: String, not_found: bool, reason: String) -> ToolError {
    if not_found {
        ToolError::FileNotFound { tool, path }
    } else {
        ToolError::CannotStat { tool, path, reason }
    }
}

/// What is reported when nothing can be learned about a file.
pub fn stat_failure(tool: ToolName, path: String, not_found: bool, reason: String) -> (r: ToolError)
    ensures
        r == stat_error(tool, path, not_found, reason),
{
    if not_found {
        ToolError::FileNotFound { tool, path }
    } else {
        ToolError::CannotStat { tool, path, reason }
    }
}

/// Five texts, one after another.
fn quoted(a: &str, b: &str, c: &str, d: &str, e: &str) -> (r: String)
    ensures
        r@ == a@ + b@ + c@ + d@ + e@,
        a@ == ""@ ==> r@ == b@ + c@ + d@ + e@,
        e@ == ""@ ==> r@ == a@ + b@ + c@ + d@,
        d@ == ""@ && e@ == ""@ ==> r@ == a@ + b@ + c@,
        a@ == ""@ && d@ == ""@ && e@ == ""@ ==> r@ == b@ + c@,
{
    let mut out: String = a.to_owned();
    out.append(b);
    out.append(c);
    out.append(d);
    out.append(e);
    proof {
        reveal_strlit("");
        if a@ == ""@ {
            assert(out@ =~= b@ + c@ + d@ + e@);
        }
        if e@ == ""@ {
            assert(out@ =~= a@ + b@ + c@ + d@);
            if d@ == ""@ {
                assert(out@ =~= a@ + b@ + c@);
                if a@ == ""@ {
                    assert(out@ =~= b@ + c@);
                }
            }
        }
    }
    out
}

// ---------------------------------------------------------------------------
// Laws
// ---------------------------------------------------------------------------

/// Tools are called by their names.
pub proof fn tools_are_called_by_their_names()
    ensures
        ToolName::Read.says() == "Read"@,
        ToolName::Write.says() == "Write"@,
        ToolName::Edit.says() == "Edit"@,
        ToolName::Glob.says() == "Glob"@,
{
}

/// What is said of a file names the tool, the file and the reason, as they are.
pub proof fn errors_name_the_file(tool: ToolName, path: String, reason: String)
    ensures
        (ToolError::FileNotFound { tool, path }).says() == tool.says() + ": file not found: "@
            + path@,
        (ToolError::CannotStat { tool, path, reason }).says() == tool.says() + ": cannot stat '"@
            + path@ + "': "@ + reason@,
        ToolError::NotAFile(path).says() == "Read: path is not a file: "@ + path@,
        (ToolError::CannotRead { tool, path, reason }).says() == tool.says() + ": cannot read '"@
            + path@ + "': "@ + reason@,
        (ToolError::CannotWrite { tool, path, reason }).says() == tool.says() + ": cannot write '"@
            + path@ + "': "@ + reason@,
        (ToolError::CannotCreateDirectories { path, reason }).says()
            == "Write: cannot create directories for '"@ + path@ + "': "@ + reason@,
        ToolError::NoDirectory(path).says() == "Glob: directory does not exist: "@ + path@,
        ToolError::NotADirectory(path).says() == "Glob: path is not a directory: "@ + path@,
        ToolError::InvalidPattern(reason).says() == "Glob: invalid glob pattern: "@ + reason@,
{
}

/// What is said of an input names the field, the text or the numbers that it is about.
pub proof fn errors_name_the_input(
    tool: ToolName,
    field: &'static str,
    old_string: String,
    count: u128,
    line: u64,
    lines: usize,
)
    ensures
        (ToolError::MissingField { tool, field }).says() == tool.says()
            + ": missing required field '"@ + field@ + "'"@,
        ToolError::NoChange.says()
            == "Edit: no changes to make: old_string and new_string are exactly the same."@,
        ToolError::NoMatch(old_string).says()
            == "Edit: string to replace not found in file.\nString: "@ + old_string@,
        (ToolError::ManyMatches { count, old_string }).says() == "Edit: found "@ + text::decimal(
            count as nat,
        )
            + " matches of the string to replace, but replace_all is false. To replace all occurrences, set replace_all to true. To replace only one occurrence, provide more context to uniquely identify the instance.\nString: "@
            + old_string@,
        (ToolError::OffsetTooLarge { line, lines }).says() == "Read: offset "@ + text::decimal(
            line as nat,
        ) + " exceeds file length ("@ + text::decimal(lines as nat) + " lines)"@,
{
}

/// A file of which nothing can be learned is not found, or cannot be looked at for a
/// reason.
pub proof fn missing_files_are_told_apart(tool: ToolName, path: String, reason: String)
    ensures
        stat_error(tool, path, true, reason) == (ToolError::FileNotFound { tool, path }),
        stat_error(tool, path, false, reason) == (ToolError::CannotStat { tool, path, reason }),
{
}

}
