//! Finding files by a pattern.
use crate::json;
use crate::json::{Json, JsonView};
use crate::list;
use crate::path;
use crate::text;
use crate::tools::error::{ToolError, ToolName};
use crate::tools::schema;
use vstd::prelude::*;
use vstd::string::*;

verus! {

/// How many files are listed at most.
pub const MAX_RESULTS: usize = 100;

/// Finds the files whose paths match a pattern, and lists the newest first.
pub struct GlobTool;

// ---------------------------------------------------------------------------
// Patterns
// ---------------------------------------------------------------------------

/// A compiled pattern of the crate `glob`.
#[verifier::external_type_specification]
#[verifier::external_body]
pub struct ExPattern(glob::Pattern);

/// The text from which a pattern was compiled.
pub uninterp spec fn pattern_source(pattern: glob::Pattern) -> Seq<char>;

/// What `glob::Pattern::new` objects to in a text, if anything.
pub uninterp spec fn pattern_error(source: Seq<char>) -> Option<Seq<char>>;

/// Whether `glob::Pattern::matches_path` finds that a path matches the pattern of a text.
pub uninterp spec fn glob_matches(source: Seq<char>, path: Seq<char>) -> bool;

/// Whether a character has a meaning of its own in a pattern.
pub open spec fn is_magic(c: char) -> bool {
    c == '*' || c == '?' || c == '[' || c == ']'
}

/// Whether a text has characters with a meaning of their own in a pattern.
pub open spec fn has_magic(s: Seq<char>) -> bool {
    exists|i: int| 0 <= i < s.len() && is_magic(#[trigger] s[i])
}

/// `glob::Pattern::new`: a function of the text alone, which the pattern keeps. A text
/// without special characters is a pattern.
#[verifier::external_body]
fn new_pattern(source: &str) -> (r: Result<glob::Pattern, String>)
    ensures
        match r {
            Ok(pattern) => pattern_error(source@) is None && pattern_source(pattern) == source@,
            Err(reason) => pattern_error(source@) == Some(reason@) && has_magic(source@),
        },
{
    match glob::Pattern::new(source) {
        Ok(pattern) => Ok(pattern),
        Err(error) => Err(error.to_string()),
    }
}

/// `glob::Pattern::matches_path`, where `/` is the only separator of paths: a function of
/// the pattern's text and the path. A pattern without special characters matches its own
/// text alone.
#[verifier::external_body]
fn matches_path(pattern: &glob::Pattern, path: &str) -> (r: bool)
    ensures
        r == glob_matches(pattern_source(*pattern), path@),
        !has_magic(pattern_source(*pattern)) ==> r == (path@ == pattern_source(*pattern)),
{
    pattern.matches_path(std::path::Path::new(path))
}

/// Whether a text has characters with a meaning of their own in a pattern.
pub fn has_glob_magic(component: &str) -> (r: bool)
    ensures
        r == has_magic(component@),
{
    let chars: Vec<char> = text::chars_of(component);
    let mut i: usize = 0;
    while i < chars.len()
        invariant
            chars@ == component@,
            i <= chars@.len(),
            forall|j: int| 0 <= j < i ==> !is_magic(#[trigger] chars@[j]),
        decreases chars@.len() - i,
    {
        let c: char = chars[i];
        if c == '*' || c == '?' || c == '[' || c == ']' {
            assert(is_magic(component@[i as int]));
            return true;
        }
        i += 1;
    }
    false
}

/// How many components stand before the first one with special characters.
pub open spec fn literal_count(parts: Seq<Seq<char>>) -> nat
    decreases parts.len(),
{
    if parts.len() == 0 || has_magic(parts[0]) {
        0
    } else {
        1 + literal_count(parts.drop_first())
    }
}

/// Where the search for a pattern starts: the path made of its components before the
/// first one with special characters.
pub open spec fn search_root(pattern: Seq<char>) -> Seq<char> {
    let parts = path::components(pattern);
    let lead = text::joined(parts.take(literal_count(parts) as int), "/"@);
    if path::is_absolute(pattern) {
        "/"@ + lead
    } else if literal_count(parts) == 0 {
        "."@
    } else {
        lead
    }
}

/// Where the search for a pattern starts.
pub fn static_search_root(pattern: &str) -> (r: String)
    ensures
        r@ == search_root(pattern@),
{
    let parts: Vec<String> = path::path_components(pattern);
    let ghost all = path::components(pattern@);
    assert(text::strings(parts@).len() == parts@.len());
    let mut lead: Vec<String> = Vec::new();
    let mut i: usize = 0;
    assert(all.skip(0) =~= all);
    assert(text::strings(lead@) =~= all.take(0));
    while i < parts.len() && !has_glob_magic(parts[i].as_str())
        invariant
            i <= parts@.len(),
            all == text::strings(parts@),
            text::strings(lead@) == all.take(i as int),
            literal_count(all) == i + literal_count(all.skip(i as int)),
        decreases parts@.len() - i,
    {
        let part: String = parts[i].clone();
        proof {
            text::lemma_strings_push(lead@, part);
            assert(all[i as int] == part@);
            assert(all.skip(i as int)[0] == part@);
            assert(all.skip(i as int).drop_first() =~= all.skip(i + 1));
            assert(all.take(i + 1) =~= all.take(i as int).push(part@));
        }
        lead.push(part);
        i += 1;
    }
    proof {
        if i < parts@.len() {
            assert(all.skip(i as int)[0] == all[i as int]);
        }
        assert(literal_count(all) == i);
    }
    let joined: String = text::join(&lead, "/");
    if path::is_absolute_path(pattern) {
        let mut root: String = "/".to_owned();
        root.append(joined.as_str());
        root
    } else if i == 0 {
        ".".to_owned()
    } else {
        joined
    }
}

// ---------------------------------------------------------------------------
// Input
// ---------------------------------------------------------------------------

/// What is to be found.
pub struct GlobRequest {
    pub pattern: String,
    pub path: Option<String>,
}

/// What is to be found, and where. Without a directory it is looked for in the current
/// one.
pub struct GlobView {
    pub pattern: Seq<char>,
    pub path: Option<Seq<char>>,
}

impl View for GlobRequest {
    type V = GlobView;

    open spec fn view(&self) -> GlobView {
        GlobView { pattern: self.pattern@, path: json::opt_text(self.path) }
    }
}

/// What an input asks for, or the reason why it is refused.
pub open spec fn glob_request(input: JsonView) -> Result<GlobView, ToolError> {
    match json::text_member(input, "pattern"@) {
        Some(pattern) => Ok(
            GlobView {
                pattern,
                path: match json::text_member(input, "path"@) {
                    Some(path) => if path.len() > 0 {
                        Some(path)
                    } else {
                        None
                    },
                    None => None,
                },
            },
        ),
        None => Err(ToolError::MissingField { tool: ToolName::Glob, field: "pattern" }),
    }
}

/// What a path leads to.
#[derive(Debug, Clone, Copy, PartialEq, Eq, Structural)]
pub enum PathKind {
    Missing,
    Directory,
    Other,
}

/// The description of the input.
pub open spec fn glob_schema() -> JsonView {
    schema::input_view(
        schema::with_property(
            schema::with_property(
                json::empty_object(),
                "pattern"@,
                "string"@,
                "The glob pattern to match files against (e.g. \"**/*.ts\", \"src/**/*.rs\")"@,
            ),
            "path"@,
            "string"@,
            "The directory to search in. If not specified, the current working directory is used."@,
        ),
        seq!["pattern"@],
    )
}

// ---------------------------------------------------------------------------
// Walking through directories
// ---------------------------------------------------------------------------

/// A file that matches, and when it was modified, in nanoseconds.
pub struct MatchedFile {
    pub path: String,
    pub modified: Option<i128>,
}

/// A file that matches.
pub struct FileView {
    pub path: Seq<char>,
    pub modified: Option<i128>,
}

impl View for MatchedFile {
    type V = FileView;

    open spec fn view(&self) -> FileView {
        FileView { path: self.path@, modified: self.modified }
    }
}

/// Files that match.
pub open spec fn files_view(files: Seq<MatchedFile>) -> Seq<FileView> {
    Seq::new(files.len(), |i: int| files[i]@)
}

/// What an entry of a directory is.
#[derive(Debug, Clone, Copy, PartialEq, Eq, Structural)]
pub enum EntryKind {
    /// A directory.
    Directory,
    /// A file, and when it was modified.
    File { modified: Option<i128> },
    /// Something else, or nothing that can be learned about.
    Other,
}

/// A walk through directories, looking for files that match a pattern.
pub struct FileWalk {
    pattern: glob::Pattern,
    waiting: Vec<String>,
    found: Vec<MatchedFile>,
}

/// How far a walk has come: the directories still to be read, and the files found.
pub struct WalkView {
    pub pattern: Seq<char>,
    pub waiting: Seq<Seq<char>>,
    pub found: Seq<FileView>,
}

impl View for FileWalk {
    type V = WalkView;

    closed spec fn view(&self) -> WalkView {
        WalkView {
            pattern: pattern_source(self.pattern),
            waiting: text::strings(self.waiting@),
            found: files_view(self.found@),
        }
    }
}

/// A walk that has come upon an entry, given whether its path matches.
pub open spec fn walked_with(
    walk: WalkView,
    path: Seq<char>,
    kind: EntryKind,
    matched: bool,
) -> WalkView {
    match kind {
        EntryKind::Directory => WalkView { waiting: walk.waiting.push(path), ..walk },
        EntryKind::File { modified } => if matched {
            WalkView { found: walk.found.push(FileView { path, modified }), ..walk }
        } else {
            walk
        },
        EntryKind::Other => walk,
    }
}

/// A walk that has come upon an entry.
pub open spec fn walked(walk: WalkView, path: Seq<char>, kind: EntryKind) -> WalkView {
    walked_with(walk, path, kind, glob_matches(walk.pattern, path))
}

/// The walk before anything is looked at.
pub open spec fn walk_for(pattern: Seq<char>) -> WalkView {
    WalkView { pattern, waiting: Seq::empty(), found: Seq::empty() }
}

impl FileWalk {
    /// The walk for a pattern, at the place where it starts. What is no file and no
    /// directory there ends it. A pattern without special characters finds the file that
    /// it names, and no other.
    pub fn start(pattern: &str, root: String, kind: EntryKind) -> (r: Result<FileWalk, ToolError>)
        ensures
            match r {
                Ok(walk) => pattern_error(pattern@) is None && walk@ == walked(
                    walk_for(pattern@),
                    root@,
                    kind,
                ),
                Err(ToolError::InvalidPattern(reason)) => pattern_error(pattern@) == Some(reason@)
                    && has_magic(pattern@),
                Err(_) => false,
            },
            !has_magic(pattern@) ==> r is Ok && r->Ok_0@ == walked_with(
                walk_for(pattern@),
                root@,
                kind,
                root@ == pattern@,
            ),
    {
        match new_pattern(pattern) {
            Ok(pattern) => {
                let mut walk: FileWalk = FileWalk { pattern, waiting: Vec::new(), found: Vec::new() };
                assert(walk@.waiting =~= Seq::<Seq<char>>::empty());
                assert(walk@.found =~= Seq::<FileView>::empty());
                walk.visit(root, kind);
                Ok(walk)
            },
            Err(reason) => Err(ToolError::InvalidPattern(reason)),
        }
    }

    /// The directory to read next: the one that was found last.
    pub fn next_directory(&mut self) -> (r: Option<String>)
        ensures
            match r {
                Some(directory) => {
                    &&& old(self)@.waiting.len() > 0
                    &&& directory@ == old(self)@.waiting.last()
                    &&& final(self)@ == (WalkView {
                        waiting: old(self)@.waiting.drop_last(),
                        ..old(self)@
                    })
                },
                None => old(self)@.waiting.len() == 0 && final(self)@ == old(self)@,
            },
    {
        let ghost before = self.waiting@;
        let next: Option<String> = self.waiting.pop();
        proof {
            if before.len() > 0 {
                assert(text::strings(self.waiting@) =~= text::strings(before).drop_last());
            }
        }
        next
    }

    /// Comes upon an entry, given whether its path matches.
    pub fn visit_with(&mut self, path: String, kind: EntryKind, matched: bool)
        ensures
            final(self)@ == walked_with(old(self)@, path@, kind, matched),
    {
        match kind {
            EntryKind::Directory => {
                proof {
                    text::lemma_strings_push(self.waiting@, path);
                }
                self.waiting.push(path);
            },
            EntryKind::File { modified } => {
                if matched {
                    let ghost before = self.found@;
                    let file: MatchedFile = MatchedFile { path, modified };
                    self.found.push(file);
                    assert(files_view(self.found@) =~= files_view(before).push(file@));
                }
            },
            EntryKind::Other => {},
        }
    }

    /// Comes upon an entry. A pattern without special characters matches its own text
    /// alone.
    pub fn visit(&mut self, path: String, kind: EntryKind)
        ensures
            final(self)@ == walked(old(self)@, path@, kind),
            !has_magic(old(self)@.pattern) ==> final(self)@ == walked_with(
                old(self)@,
                path@,
                kind,
                path@ == old(self)@.pattern,
            ),
    {
        let matched: bool = matches_path(&self.pattern, path.as_str());
        self.visit_with(path, kind, matched);
    }

    /// The files that were found.
    pub fn into_files(self) -> (r: Vec<MatchedFile>)
        ensures
            files_view(r@) == self@.found,
    {
        self.found
    }
}

// ---------------------------------------------------------------------------
// The newest first
// ---------------------------------------------------------------------------

/// Whether a time is at least as late as another one. No time is earlier than any time.
pub open spec fn as_late(a: Option<i128>, b: Option<i128>) -> bool {
    match (a, b) {
        (Some(x), Some(y)) => x >= y,
        (_, None) => true,
        (None, Some(_)) => false,
    }
}

/// The files that were modified at a time, in their order.
pub open spec fn files_of(files: Seq<FileView>, time: Option<i128>) -> Seq<FileView>
    decreases files.len(),
{
    if files.len() == 0 {
        Seq::empty()
    } else {
        let rest = files_of(files.drop_last(), time);
        if files.last().modified == time {
            rest.push(files.last())
        } else {
            rest
        }
    }
}

/// Whether a list holds its files with the newest first.
pub open spec fn newest_come_first(files: Seq<FileView>) -> bool {
    forall|i: int, j: int|
        0 <= i < j < files.len() ==> as_late(
            (#[trigger] files[i]).modified,
            (#[trigger] files[j]).modified,
        )
}

/// Whether a list is made of the files of another one with the newest first. Files that
/// were modified at the same time keep their order.
pub open spec fn is_newest_first(files: Seq<FileView>, sorted: Seq<FileView>) -> bool {
    newest_come_first(sorted) && forall|time: Option<i128>| #[trigger]
        files_of(sorted, time) == files_of(files, time)
}

proof fn lemma_files_of_add(a: Seq<FileView>, b: Seq<FileView>, time: Option<i128>)
    ensures
        files_of(a + b, time) == files_of(a, time) + files_of(b, time),
    decreases b.len(),
{
    if b.len() == 0 {
        assert(a + b =~= a);
        assert(files_of(a, time) + Seq::<FileView>::empty() =~= files_of(a, time));
    } else {
        assert((a + b).drop_last() =~= a + b.drop_last());
        assert((a + b).last() == b.last());
        lemma_files_of_add(a, b.drop_last(), time);
        assert(files_of(a + b, time) =~= files_of(a, time) + files_of(b, time));
    }
}

proof fn lemma_files_of_none(files: Seq<FileView>, time: Option<i128>)
    requires
        forall|i: int| 0 <= i < files.len() ==> (#[trigger] files[i]).modified != time,
    ensures
        files_of(files, time) == Seq::<FileView>::empty(),
    decreases files.len(),
{
    if files.len() > 0 {
        assert(files.last() == files[files.len() - 1]);
        assert forall|i: int| 0 <= i < files.drop_last().len() implies (
        #[trigger] files.drop_last()[i]).modified != time by {
            assert(files.drop_last()[i] == files[i]);
        }
        lemma_files_of_none(files.drop_last(), time);
    }
}

/// A file put behind all that are at least as new, and before all that are older.
proof fn lemma_insert(files: Seq<FileView>, sorted: Seq<FileView>, file: FileView, at: int)
    requires
        is_newest_first(files, sorted),
        0 <= at <= sorted.len(),
        forall|i: int| 0 <= i < at ==> as_late((#[trigger] sorted[i]).modified, file.modified),
        forall|i: int|
            at <= i < sorted.len() ==> !as_late((#[trigger] sorted[i]).modified, file.modified),
    ensures
        is_newest_first(files.push(file), sorted.insert(at, file)),
{
    let after = sorted.insert(at, file);
    assert forall|i: int, j: int| 0 <= i < j < after.len() implies as_late(
        (#[trigger] after[i]).modified,
        (#[trigger] after[j]).modified,
    ) by {
        let p = if i <= at {
            i
        } else {
            i - 1
        };
        let q = if j <= at {
            j
        } else {
            j - 1
        };
        if i != at && j != at {
            assert(after[i] == sorted[p]);
            assert(after[j] == sorted[q]);
        } else if i == at {
            assert(after[j] == sorted[j - 1]);
        } else {
            assert(after[i] == sorted[i]);
        }
    }
    assert forall|time: Option<i128>| #[trigger]
        files_of(after, time) == files_of(files.push(file), time) by {
        let front = sorted.take(at);
        let back = sorted.skip(at);
        assert(sorted =~= front + back);
        assert(after =~= front.push(file) + back);
        assert(front.push(file).drop_last() =~= front);
        assert(files.push(file).drop_last() =~= files);
        lemma_files_of_add(front, back, time);
        lemma_files_of_add(front.push(file), back, time);
        assert(files_of(sorted, time) == files_of(files, time));
        if file.modified == time {
            assert forall|i: int| 0 <= i < back.len() implies (#[trigger] back[i]).modified
                != time by {
                assert(back[i] == sorted[at + i]);
            }
            lemma_files_of_none(back, time);
            assert(files_of(front, time) + Seq::<FileView>::empty() =~= files_of(front, time));
            assert(files_of(front, time).push(file) + Seq::<FileView>::empty() =~= files_of(
                front,
                time,
            ).push(file));
        }
    }
}

/// Whether a time is at least as late as another one.
fn is_as_late(a: Option<i128>, b: Option<i128>) -> (r: bool)
    ensures
        r == as_late(a, b),
{
    match (a, b) {
        (Some(x), Some(y)) => x >= y,
        (_, None) => true,
        (None, Some(_)) => false,
    }
}

/// The files with the newest first.
pub fn newest_first(files: Vec<MatchedFile>) -> (r: Vec<MatchedFile>)
    ensures
        is_newest_first(files_view(files@), files_view(r@)),
{
    let ghost all = files@;
    let ghost views = files_view(all);
    let mut waiting: Vec<MatchedFile> = list::reversed(files);
    let mut out: Vec<MatchedFile> = Vec::new();
    assert(files_view(out@) =~= Seq::<FileView>::empty());
    assert(views.take(0) =~= Seq::<FileView>::empty());
    while 0 < waiting.len()
        invariant
            views == files_view(all),
            waiting@.len() <= all.len(),
            forall|i: int|
                0 <= i < waiting@.len() ==> #[trigger] waiting@[i] == all[all.len() - 1 - i],
            is_newest_first(views.take(all.len() - waiting@.len()), files_view(out@)),
        decreases waiting@.len(),
    {
        let ghost done = all.len() - waiting@.len();
        if let Some(file) = waiting.pop() {
            let ghost before = files_view(out@);
            let mut at: usize = out.len();
            while 0 < at && !is_as_late(out[at - 1].modified, file.modified)
                invariant
                    at <= out@.len(),
                    before == files_view(out@),
                    forall|i: int|
                        at <= i < before.len() ==> !as_late(
                            (#[trigger] before[i]).modified,
                            file.modified,
                        ),
                decreases at,
            {
                assert(before[at - 1] == out@[at - 1]@);
                at -= 1;
            }
            proof {
                assert forall|i: int| 0 <= i < at implies as_late(
                    (#[trigger] before[i]).modified,
                    file.modified,
                ) by {
                    assert(before[at - 1] == out@[at - 1]@);
                    if i < at - 1 {
                        assert(as_late(before[i].modified, before[at - 1].modified));
                    }
                }
                assert(file == all[done]);
                lemma_insert(views.take(done), before, file@, at as int);
                assert(views.take(done + 1) =~= views.take(done).push(file@));
            }
            out.insert(at, file);
            assert(files_view(out@) =~= before.insert(at as int, file@));
        }
    }
    assert(views.take(all.len() as int) =~= views);
    out
}

// ---------------------------------------------------------------------------
// The answer
// ---------------------------------------------------------------------------

/// A path as it is listed: seen from the current directory, where it lies in it.
pub open spec fn shown_path(path: Seq<char>, current: Seq<char>) -> Seq<char> {
    match path::path_within(path, current) {
        Some(rest) => rest,
        None => path,
    }
}

/// The paths of files as they are listed.
pub open spec fn shown_paths(files: Seq<FileView>, current: Seq<char>) -> Seq<Seq<char>> {
    Seq::new(files.len(), |i: int| shown_path(files[i].path, current))
}

/// The files that are listed: the first ones, as many as are listed at most.
pub open spec fn listed(files: Seq<FileView>) -> Seq<FileView> {
    if files.len() > MAX_RESULTS {
        files.take(MAX_RESULTS as int)
    } else {
        files
    }
}

/// The list of files, in their order, with a note where it is cut off.
pub open spec fn listing(files: Seq<FileView>, current: Seq<char>) -> Seq<char> {
    let paths = text::joined(shown_paths(listed(files), current), "\n"@);
    if files.len() > MAX_RESULTS {
        paths + "\n(Results are truncated. Consider using a more specific path or pattern.)"@
    } else {
        paths
    }
}

/// The list of files, in their order, with a note where it is cut off.
fn list_files(files: &Vec<MatchedFile>, current: &str) -> (r: String)
    ensures
        r@ == listing(files_view(files@), current@),
{
    let ghost views = files_view(files@);
    let end: usize = if files.len() > MAX_RESULTS {
        MAX_RESULTS
    } else {
        files.len()
    };
    let mut shown: Vec<String> = Vec::new();
    let mut i: usize = 0;
    while i < end
        invariant
            i <= end <= files@.len(),
            views == files_view(files@),
            shown@.len() == i,
            forall|j: int|
                0 <= j < i ==> (#[trigger] shown@[j])@ == shown_path(views[j].path, current@),
        decreases end - i,
    {
        assert(views[i as int] == files@[i as int]@);
        let path: String = match path::strip_base(files[i].path.as_str(), current) {
            Some(rest) => rest,
            None => files[i].path.clone(),
        };
        shown.push(path);
        i += 1;
    }
    assert(text::strings(shown@) =~= shown_paths(views.take(end as int), current@));
    let mut out: String = text::join(&shown, "\n");
    if files.len() > MAX_RESULTS {
        out.append("\n(Results are truncated. Consider using a more specific path or pattern.)");
    } else {
        assert(views.take(end as int) =~= views);
    }
    out
}

impl GlobTool {
    /// The name by which a model calls the tool.
    pub fn name(&self) -> (r: &'static str)
        ensures
            r@ == "Glob"@,
    {
        "Glob"
    }

    /// What the tool does, for a model.
    pub fn description(&self) -> (r: &'static str)
        ensures
            r@
                == "Fast file pattern matching tool. Supports glob patterns like \"**/*.js\" or \"src/**/*.ts\". Returns matching file paths sorted by modification time. Use this to find files by name patterns."@,
    {
        "Fast file pattern matching tool. Supports glob patterns like \"**/*.js\" or \"src/**/*.ts\". Returns matching file paths sorted by modification time. Use this to find files by name patterns."
    }

    /// The description of the input.
    pub fn schema(&self) -> (r: Json)
        ensures
            r@ == glob_schema(),
    {
        let properties: Json = Json::object();
        let properties: Json = schema::add_property(
            properties,
            "pattern",
            "string",
            "The glob pattern to match files against (e.g. \"**/*.ts\", \"src/**/*.rs\")",
        );
        let properties: Json = schema::add_property(
            properties,
            "path",
            "string",
            "The directory to search in. If not specified, the current working directory is used.",
        );
        let required: Vec<String> = vec!["pattern".to_owned()];
        assert(text::strings(required@) =~= seq!["pattern"@]);
        schema::input_schema(properties, required)
    }

    /// Reads what an input asks for.
    pub fn read_input(&self, input: &Json) -> (r: Result<GlobRequest, ToolError>)
        ensures
            match r {
                Ok(request) => glob_request(input@) == Ok::<GlobView, ToolError>(request@),
                Err(error) => glob_request(input@) == Err::<GlobView, ToolError>(error),
            },
    {
        let pattern: String = match input.get_text("pattern") {
            Some(text) => text.clone(),
            None => {
                return Err(ToolError::MissingField { tool: ToolName::Glob, field: "pattern" });
            },
        };
        let path: Option<String> = match input.get_text("path") {
            Some(text) => if text.as_str().is_empty() {
                None
            } else {
                Some(text.clone())
            },
            None => None,
        };
        Ok(GlobRequest { pattern, path })
    }

    /// Whether a path can be searched in, given what it leads to.
    pub fn check_directory(&self, path: &str, kind: PathKind) -> (r: Result<(), ToolError>)
        ensures
            match r {
                Ok(_) => kind == PathKind::Directory,
                Err(ToolError::NoDirectory(named)) => kind == PathKind::Missing && named@ == path@,
                Err(ToolError::NotADirectory(named)) => kind == PathKind::Other && named@ == path@,
                Err(_) => false,
            },
    {
        match kind {
            PathKind::Directory => Ok(()),
            PathKind::Missing => Err(ToolError::NoDirectory(path.to_owned())),
            PathKind::Other => Err(ToolError::NotADirectory(path.to_owned())),
        }
    }

    /// The pattern, seen from the directory that is searched in.
    pub fn full_pattern(&self, request: &GlobRequest, directory: &str) -> (r: String)
        ensures
            r@ == path::path_join(directory@, request@.pattern),
    {
        path::join_path(directory, request.pattern.as_str())
    }

    /// The list of the files that were found, the newest first.
    pub fn render(&self, found: Vec<MatchedFile>, current: &str) -> (r: String)
        ensures
            found@.len() == 0 ==> r@ == "No files found"@,
            found@.len() > 0 ==> exists|sorted: Seq<FileView>| #[trigger]
                is_newest_first(files_view(found@), sorted) && r@ == listing(sorted, current@),
    {
        if found.len() == 0 {
            return "No files found".to_owned();
        }
        let sorted: Vec<MatchedFile> = newest_first(found);
        assert(is_newest_first(files_view(found@), files_view(sorted@)));
        list_files(&sorted, current)
    }
}

// ---------------------------------------------------------------------------
// Laws
// ---------------------------------------------------------------------------

proof fn lemma_joined_has_no_magic(parts: Seq<Seq<char>>)
    requires
        forall|i: int| 0 <= i < parts.len() ==> !has_magic(#[trigger] parts[i]),
    ensures
        !has_magic(text::joined(parts, "/"@)),
    decreases parts.len(),
{
    reveal_strlit("/");
    if parts.len() > 1 {
        let rest = parts.drop_last();
        assert forall|i: int| 0 <= i < rest.len() implies !has_magic(#[trigger] rest[i]) by {
            assert(rest[i] == parts[i]);
        }
        lemma_joined_has_no_magic(rest);
        let lead = text::joined(rest, "/"@);
        let whole = text::joined(parts, "/"@);
        assert(!has_magic(parts[parts.len() - 1]));
        assert forall|i: int| 0 <= i < whole.len() implies !is_magic(#[trigger] whole[i]) by {
            if i < lead.len() {
                assert(whole[i] == lead[i]);
            } else if i > lead.len() {
                assert(whole[i] == parts.last()[i - lead.len() - 1]);
            }
        }
    }
}

proof fn lemma_literal_count(parts: Seq<Seq<char>>)
    ensures
        literal_count(parts) <= parts.len(),
        forall|i: int| 0 <= i < literal_count(parts) ==> !has_magic(#[trigger] parts[i]),
    decreases parts.len(),
{
    if parts.len() > 0 && !has_magic(parts[0]) {
        let rest = parts.drop_first();
        lemma_literal_count(rest);
        assert forall|i: int| 0 <= i < literal_count(parts) implies !has_magic(
            #[trigger] parts[i],
        ) by {
            if i > 0 {
                assert(rest[i - 1] == parts[i]);
            }
        }
    }
}

/// A search starts at a plain path: it has no characters with a meaning of their own in
/// a pattern.
pub proof fn searches_start_at_a_plain_path(pattern: Seq<char>)
    ensures
        !has_magic(search_root(pattern)),
{
    let parts = path::components(pattern);
    let lead = parts.take(literal_count(parts) as int);
    lemma_literal_count(parts);
    lemma_joined_has_no_magic(lead);
    reveal_strlit("/");
    reveal_strlit(".");
    let root = search_root(pattern);
    if path::is_absolute(pattern) {
        assert forall|i: int| 0 <= i < root.len() implies !is_magic(#[trigger] root[i]) by {
            if i > 0 {
                assert(root[i] == text::joined(lead, "/"@)[i - 1]);
            }
        }
    }
}

/// A search starts above all that the pattern names: the pattern lies within the path at
/// which it starts, unless that is the current directory.
pub proof fn searches_start_above_their_pattern(pattern: Seq<char>)
    requires
        path::is_absolute(pattern) || literal_count(path::components(pattern)) > 0,
    ensures
        path::path_within(pattern, search_root(pattern)) is Some,
{
    let parts = path::components(pattern);
    let lead = parts.take(literal_count(parts) as int);
    lemma_literal_count(parts);
    path::leading_components_read_back(pattern, literal_count(parts) as int);
    assert(lead.is_prefix_of(parts));
}

/// Whether every file that a walk has found matches its pattern.
pub open spec fn found_match(walk: WalkView) -> bool {
    forall|i: int|
        0 <= i < walk.found.len() ==> glob_matches(walk.pattern, (#[trigger] walk.found[i]).path)
}

/// A walk starts with no file that does not match its pattern, and never finds one.
pub proof fn found_files_match(walk: WalkView, path: Seq<char>, kind: EntryKind)
    requires
        found_match(walk),
    ensures
        found_match(walk_for(walk.pattern)),
        found_match(walked(walk, path, kind)),
{
}

/// A walk forgets nothing: what it has found and what it has still to read stay as they
/// are when it comes upon an entry.
pub proof fn walks_forget_nothing(walk: WalkView, path: Seq<char>, kind: EntryKind)
    ensures
        walk.found.is_prefix_of(walked(walk, path, kind).found),
        walk.waiting.is_prefix_of(walked(walk, path, kind).waiting),
        walked(walk, path, kind).pattern == walk.pattern,
{
    let after = walked(walk, path, kind);
    assert(walk.found =~= after.found.take(walk.found.len() as int));
    assert(walk.waiting =~= after.waiting.take(walk.waiting.len() as int));
}

/// A walk that has come upon entries, one after another.
pub open spec fn walked_through(walk: WalkView, entries: Seq<(Seq<char>, EntryKind)>) -> WalkView
    decreases entries.len(),
{
    if entries.len() == 0 {
        walk
    } else {
        walked(walked_through(walk, entries.drop_last()), entries.last().0, entries.last().1)
    }
}

/// The files among entries that match a pattern, in order.
pub open spec fn matching_files(pattern: Seq<char>, entries: Seq<(Seq<char>, EntryKind)>) -> Seq<
    FileView,
>
    decreases entries.len(),
{
    if entries.len() == 0 {
        Seq::empty()
    } else {
        let rest = matching_files(pattern, entries.drop_last());
        let path = entries.last().0;
        match entries.last().1 {
            EntryKind::File { modified } => if glob_matches(pattern, path) {
                rest.push(FileView { path, modified })
            } else {
                rest
            },
            _ => rest,
        }
    }
}

/// The directories among entries, in order.
pub open spec fn directories_among(entries: Seq<(Seq<char>, EntryKind)>) -> Seq<Seq<char>>
    decreases entries.len(),
{
    if entries.len() == 0 {
        Seq::empty()
    } else {
        let rest = directories_among(entries.drop_last());
        if entries.last().1 == EntryKind::Directory {
            rest.push(entries.last().0)
        } else {
            rest
        }
    }
}

/// A walk finds the files that it comes upon and that match its pattern, all of them and
/// no others, and has still to read the directories that it comes upon.
pub proof fn walks_find_exactly_the_matches(
    walk: WalkView,
    entries: Seq<(Seq<char>, EntryKind)>,
)
    ensures
        walked_through(walk, entries) == (WalkView {
            pattern: walk.pattern,
            waiting: walk.waiting + directories_among(entries),
            found: walk.found + matching_files(walk.pattern, entries),
        }),
    decreases entries.len(),
{
    let after = walked_through(walk, entries);
    if entries.len() > 0 {
        walks_find_exactly_the_matches(walk, entries.drop_last());
    }
    assert(after.waiting =~= walk.waiting + directories_among(entries));
    assert(after.found =~= walk.found + matching_files(walk.pattern, entries));
}

proof fn lemma_files_of_member(files: Seq<FileView>, i: int)
    requires
        0 <= i < files.len(),
    ensures
        files_of(files, files[i].modified).len() > 0,
        i == 0 ==> files_of(files, files[0].modified)[0] == files[0],
    decreases files.len(),
{
    let time = files[i].modified;
    if i < files.len() - 1 {
        assert(files.drop_last()[i] == files[i]);
        lemma_files_of_member(files.drop_last(), i);
    } else if i == 0 {
        assert(files_of(files.drop_last(), time) =~= Seq::<FileView>::empty());
    }
}

proof fn lemma_files_of_time(files: Seq<FileView>, time: Option<i128>)
    ensures
        files_of(files, time).len() > 0 ==> exists|i: int|
            0 <= i < files.len() && (#[trigger] files[i]).modified == time,
    decreases files.len(),
{
    if files_of(files, time).len() > 0 {
        if files.last().modified == time {
            assert(files[files.len() - 1].modified == time);
        } else {
            lemma_files_of_time(files.drop_last(), time);
            let i = choose|i: int|
                0 <= i < files.drop_last().len() && (#[trigger] files.drop_last()[i]).modified
                    == time;
            assert(files[i].modified == time);
        }
    }
}

proof fn lemma_files_of_first(files: Seq<FileView>, time: Option<i128>)
    requires
        files.len() > 0,
    ensures
        files_of(files, time) == (if files[0].modified == time {
            seq![files[0]]
        } else {
            Seq::empty()
        }) + files_of(files.drop_first(), time),
{
    let first = seq![files[0]];
    assert(files =~= first + files.drop_first());
    lemma_files_of_add(first, files.drop_first(), time);
    assert(first.drop_last() =~= Seq::<FileView>::empty());
    assert(files_of(first.drop_last(), time) =~= Seq::<FileView>::empty());
    assert(Seq::<FileView>::empty().push(files[0]) =~= first);
}

/// No more than the allowed number of files is listed. Every file is, where there are no
/// more, and none that is left out is newer than one that is listed.
pub proof fn listings_are_capped(sorted: Seq<FileView>)
    requires
        newest_come_first(sorted),
    ensures
        listed(sorted).len() <= MAX_RESULTS,
        sorted.len() <= MAX_RESULTS ==> listed(sorted) == sorted,
        listed(sorted).is_prefix_of(sorted),
        forall|i: int, j: int|
            0 <= i < listed(sorted).len() <= j < sorted.len() ==> as_late(
                (#[trigger] listed(sorted)[i]).modified,
                (#[trigger] sorted[j]).modified,
            ),
{
    assert(listed(sorted) =~= sorted.take(listed(sorted).len() as int));
    assert forall|i: int, j: int|
        0 <= i < listed(sorted).len() <= j < sorted.len() implies as_late(
        (#[trigger] listed(sorted)[i]).modified,
        (#[trigger] sorted[j]).modified,
    ) by {
        assert(listed(sorted)[i] == sorted[i]);
    }
}

/// There is one way only to list files with the newest first.
pub proof fn files_are_listed_one_way(a: Seq<FileView>, b: Seq<FileView>)
    requires
        newest_come_first(a),
        newest_come_first(b),
        forall|time: Option<i128>| #[trigger] files_of(a, time) == files_of(b, time),
    ensures
        a == b,
    decreases a.len(),
{
    if a.len() == 0 {
        if b.len() > 0 {
            lemma_files_of_member(b, 0);
            assert(files_of(a, b[0].modified) == files_of(b, b[0].modified));
        }
        assert(a =~= b);
    } else {
        let t = a[0].modified;
        lemma_files_of_member(a, 0);
        assert(files_of(a, t) == files_of(b, t));
        lemma_files_of_time(b, t);
        let i = choose|i: int| 0 <= i < b.len() && (#[trigger] b[i]).modified == t;
        let u = b[0].modified;
        lemma_files_of_member(b, 0);
        assert(files_of(a, u) == files_of(b, u));
        lemma_files_of_time(a, u);
        let j = choose|j: int| 0 <= j < a.len() && (#[trigger] a[j]).modified == u;
        assert(as_late(t, u)) by {
            if j > 0 {
                assert(as_late(a[0].modified, a[j].modified));
            }
        }
        assert(as_late(u, t)) by {
            if i > 0 {
                assert(as_late(b[0].modified, b[i].modified));
            }
        }
        assert(t == u);
        assert(a[0] == b[0]);
        let rest_a = a.drop_first();
        let rest_b = b.drop_first();
        assert forall|time: Option<i128>| #[trigger]
            files_of(rest_a, time) == files_of(rest_b, time) by {
            lemma_files_of_first(a, time);
            lemma_files_of_first(b, time);
            assert(files_of(a, time) == files_of(b, time));
            let front: Seq<FileView> = if t == time {
                seq![a[0]]
            } else {
                Seq::empty()
            };
            assert((front + files_of(rest_a, time)).skip(front.len() as int) =~= files_of(
                rest_a,
                time,
            ));
            assert((front + files_of(rest_b, time)).skip(front.len() as int) =~= files_of(
                rest_b,
                time,
            ));
        }
        files_are_listed_one_way(rest_a, rest_b);
        assert(a =~= seq![a[0]] + rest_a);
        assert(b =~= seq![b[0]] + rest_b);
    }
}

/// How many files are listed at most.
pub proof fn a_hundred_files_are_listed()
    ensures
        MAX_RESULTS == 100,
{
}

/// A request says what it holds.
pub proof fn requests_say_what_they_hold(request: GlobRequest)
    ensures
        request@.pattern == request.pattern@,
        request.path matches Some(path) ==> request@.path == Some(path@),
        request.path is None ==> request@.path is None,
{
}

/// A found file says what it holds, and so does a list of them, in order.
pub proof fn files_say_what_they_hold(files: Seq<MatchedFile>, i: int)
    requires
        0 <= i < files.len(),
    ensures
        files_view(files).len() == files.len(),
        files_view(files)[i].path == files[i].path@,
        files_view(files)[i].modified == files[i].modified,
{
}

// A walk says what it holds.
proof fn lemma_walk(walk: FileWalk)
    ensures
        walk@.pattern == pattern_source(walk.pattern),
        walk@.waiting == text::strings(walk.waiting@),
        walk@.found == files_view(walk.found@),
{
}

/// A request holds the pattern and the directory that the input gives, character for
/// character; an empty directory is none. It is refused exactly where there is no pattern.
pub proof fn requests_hold_what_is_given(input: JsonView)
    ensures
        match json::member(input, "pattern"@) {
            Some(JsonView::Text(pattern)) => glob_request(input) matches Ok(request) && {
                &&& request.pattern == pattern
                &&& match json::member(input, "path"@) {
                    Some(JsonView::Text(path)) => if path.len() > 0 {
                        request.path == Some(path)
                    } else {
                        request.path is None
                    },
                    _ => request.path is None,
                }
            },
            _ => glob_request(input) == Err::<GlobView, ToolError>(
                ToolError::MissingField { tool: ToolName::Glob, field: "pattern" },
            ),
        },
{
}

/// The characters with a meaning of their own are the asterisk, the question mark and the
/// two brackets: a text has such a character exactly where one of these is in it.
pub proof fn four_characters_are_special(front: Seq<char>, c: char, back: Seq<char>, s: Seq<char>)
    ensures
        c == '*' || c == '?' || c == '[' || c == ']' ==> has_magic(front.push(c) + back),
        !s.contains('*') && !s.contains('?') && !s.contains('[') && !s.contains(']') ==> !has_magic(
            s,
        ),
{
    let whole = front.push(c) + back;
    assert(whole[front.len() as int] == c);
}

/// A search starts at the path of the parts before the first one with special characters,
/// and at the current directory where the pattern starts with that.
pub proof fn searches_start_before_the_first_special_part(
    lead: Seq<Seq<char>>,
    special: Seq<char>,
    rest: Seq<Seq<char>>,
    rooted: bool,
)
    requires
        forall|k: int|
            0 <= k < lead.len() ==> path::is_plain(#[trigger] lead[k]) && lead[k] != seq!['.']
                && !has_magic(lead[k]),
        path::is_plain(special),
        has_magic(special),
        forall|k: int|
            0 <= k < rest.len() ==> path::is_plain(#[trigger] rest[k]) && rest[k] != seq!['.'],
    ensures
        search_root(path::path_of(lead.push(special) + rest, rooted)) == (if rooted || lead.len()
            > 0 {
            path::path_of(lead, rooted)
        } else {
            seq!['.']
        }),
        rooted || lead.len() > 0 ==> search_root(path::path_of(lead, rooted)) == path::path_of(
            lead,
            rooted,
        ),
{
    reveal_strlit("/");
    reveal_strlit(".");
    assert("/"@ =~= seq!['/']);
    assert("."@ =~= seq!['.']);
    let parts = lead.push(special) + rest;
    assert(special != seq!['.']) by {
        let k = choose|k: int| 0 <= k < special.len() && is_magic(#[trigger] special[k]);
        if special == seq!['.'] {
            assert(special[k] == '.');
        }
    }
    assert forall|k: int| 0 <= k < parts.len() implies path::is_plain(#[trigger] parts[k])
        && parts[k] != seq!['.'] by {
        if k < lead.len() {
            assert(parts[k] == lead[k]);
        } else if k > lead.len() {
            assert(parts[k] == rest[k - lead.len() - 1]);
        }
    }
    path::paths_read_back_as_their_parts(parts, rooted);
    assert(parts[lead.len() as int] == special);
    assert forall|k: int| 0 <= k < lead.len() implies !has_magic(#[trigger] parts[k]) by {
        assert(parts[k] == lead[k]);
    }
    lemma_literal_count_is(parts, lead.len());
    assert(parts.take(lead.len() as int) =~= lead);
    if rooted || lead.len() > 0 {
        path::paths_read_back_as_their_parts(lead, rooted);
        lemma_literal_count_is(lead, lead.len());
        assert(lead.take(lead.len() as int) =~= lead);
    }
}

proof fn lemma_literal_count_is(parts: Seq<Seq<char>>, count: nat)
    requires
        count <= parts.len(),
        forall|k: int| 0 <= k < count ==> !has_magic(#[trigger] parts[k]),
        count < parts.len() ==> has_magic(parts[count as int]),
    ensures
        literal_count(parts) == count,
    decreases parts.len(),
{
    if count > 0 {
        assert(!has_magic(parts[0]));
        let rest = parts.drop_first();
        assert forall|k: int| 0 <= k < count - 1 implies !has_magic(#[trigger] rest[k]) by {
            assert(rest[k] == parts[k + 1]);
        }
        lemma_literal_count_is(rest, (count - 1) as nat);
    }
}

/// A walk has still to read a directory that it comes upon, has found a file that matches,
/// with its path and its time as they are, and passes over all else.
pub proof fn walks_note_what_they_come_upon(
    walk: WalkView,
    path: Seq<char>,
    modified: Option<i128>,
    matched: bool,
    kind: EntryKind,
)
    ensures
        ({
            let read = walked_with(walk, path, EntryKind::Directory, matched);
            &&& read.waiting == walk.waiting.push(path)
            &&& read.found == walk.found
            &&& read.pattern == walk.pattern
        }),
        ({
            let found = walked_with(walk, path, EntryKind::File { modified }, true);
            &&& found.found.len() == walk.found.len() + 1
            &&& found.found.last().path == path
            &&& found.found.last().modified == modified
            &&& found.found.drop_last() == walk.found
            &&& found.waiting == walk.waiting
            &&& found.pattern == walk.pattern
        }),
        walked_with(walk, path, EntryKind::File { modified }, false) == walk,
        walked_with(walk, path, EntryKind::Other, matched) == walk,
        walked(walk, path, kind) == walked_with(walk, path, kind, glob_matches(walk.pattern, path)),
        walk_for(path).pattern == path,
        walk_for(path).waiting.len() == 0,
        walk_for(path).found.len() == 0,
{
    let found = walked_with(walk, path, EntryKind::File { modified }, true);
    assert(found.found.drop_last() =~= walk.found);
}

/// A later time is at least as late, and no time is earlier than any.
pub proof fn times_are_ordered(a: i128, b: i128, c: Option<i128>)
    ensures
        as_late(Some(a), Some(b)) <==> a >= b,
        as_late(c, None),
        !as_late(None, Some(a)),
{
}

/// The files of a time are those that were modified then, all of them, in their order.
pub proof fn files_of_a_time_keep_their_order(
    files: Seq<FileView>,
    file: FileView,
    time: Option<i128>,
)
    ensures
        files_of(Seq::empty(), time).len() == 0,
        file.modified == time ==> files_of(files.push(file), time) == files_of(files, time).push(
            file,
        ),
        file.modified != time ==> files_of(files.push(file), time) == files_of(files, time),
{
    assert(files.push(file).drop_last() =~= files);
}

/// In a list with the newest first no file stands before one that is later.
pub proof fn the_newest_stand_first(files: Seq<FileView>, sorted: Seq<FileView>, i: int, j: int)
    requires
        is_newest_first(files, sorted),
        0 <= i < j < sorted.len(),
    ensures
        as_late(sorted[i].modified, sorted[j].modified),
        files_of(sorted, sorted[i].modified) == files_of(files, sorted[i].modified),
{
}

/// A file below the current directory is listed by the rest of its path, another one by
/// its whole path.
pub proof fn paths_are_shown_from_the_current_directory(
    lead: Seq<Seq<char>>,
    rest: Seq<Seq<char>>,
    path: Seq<char>,
    current: Seq<char>,
)
    requires
        forall|k: int|
            0 <= k < lead.len() ==> path::is_plain(#[trigger] lead[k]) && lead[k] != seq!['.'],
        forall|k: int|
            0 <= k < rest.len() ==> path::is_plain(#[trigger] rest[k]) && rest[k] != seq!['.'],
    ensures
        shown_path(path::path_of(lead + rest, true), path::path_of(lead, true)) == text::joined(
            rest,
            seq!['/'],
        ),
        path::path_within(path, current) is None ==> shown_path(path, current) == path,
        path::path_within(path, current) matches Some(within) ==> shown_path(path, current)
            == within,
{
    path::the_rest_follows_the_base(lead, rest, true, current, path);
}

/// Files are listed one on a line, in their order, up to the hundredth. Where there are
/// more, a note says so.
pub proof fn files_are_listed_line_by_line(
    files: Seq<FileView>,
    file: FileView,
    current: Seq<char>,
)
    ensures
        listing(Seq::empty(), current).len() == 0,
        files.len() == 0 ==> listing(files.push(file), current) == shown_path(file.path, current),
        0 < files.len() < 100 ==> listing(files.push(file), current) == listing(files, current)
            + "\n"@ + shown_path(file.path, current),
        files.len() == 100 ==> listing(files.push(file), current) == listing(files, current)
            + "\n(Results are truncated. Consider using a more specific path or pattern.)"@,
        files.len() > 100 ==> listing(files.push(file), current) == listing(files, current),
{
    let after = files.push(file);
    assert(shown_paths(Seq::<FileView>::empty(), current) =~= Seq::<Seq<char>>::empty());
    if files.len() < 100 {
        assert(shown_paths(after, current) =~= shown_paths(files, current).push(
            shown_path(file.path, current),
        ));
        text::joined_parts_stay_as_they_are(
            shown_paths(files, current),
            shown_path(file.path, current),
            "\n"@,
        );
    } else {
        assert(after.take(100) =~= files.take(100));
        if files.len() == 100 {
            assert(files.take(100) =~= files);
        }
    }
}

/// The input is described field by field, with the one that it must have.
pub proof fn the_input_is_described()
    ensures
        schema::describes(
            glob_schema(),
            "pattern"@,
            "string"@,
            "The glob pattern to match files against (e.g. \"**/*.ts\", \"src/**/*.rs\")"@,
        ),
        schema::describes(
            glob_schema(),
            "path"@,
            "string"@,
            "The directory to search in. If not specified, the current working directory is used."@,
        ),
        json::text_member(glob_schema(), "type"@) == Some("object"@),
        json::member(glob_schema(), "required"@) == Some(
            JsonView::List(seq![JsonView::Text("pattern"@)]),
        ),
{
    reveal_strlit("pattern");
    reveal_strlit("path");
    reveal_strlit("type");
    reveal_strlit("properties");
    reveal_strlit("required");
    reveal_strlit("description");
    assert("pattern"@.len() == 7);
    assert("path"@.len() == 4);
    assert("type"@.len() == 4);
    assert("properties"@.len() == 10);
    assert("required"@.len() == 8);
    assert("description"@.len() == 11);
    assert(json::texts_view(seq!["pattern"@])->List_0 =~= seq![JsonView::Text("pattern"@)]);
}

/// Wherever the first part with special characters stands, a search starts at the path of
/// the parts before it.
pub proof fn searches_start_at_the_plain_parts(pattern: Seq<char>, count: nat)
    requires
        count <= path::components(pattern).len(),
        forall|k: int|
            0 <= k < count ==> !has_magic(#[trigger] path::components(pattern)[k]),
        count < path::components(pattern).len() ==> has_magic(
            path::components(pattern)[count as int],
        ),
    ensures
        ({
            let lead = text::joined(path::components(pattern).take(count as int), "/"@);
            &&& path::is_absolute(pattern) ==> search_root(pattern) == "/"@ + lead
            &&& !path::is_absolute(pattern) && count > 0 ==> search_root(pattern) == lead
            &&& !path::is_absolute(pattern) && count == 0 ==> search_root(pattern) == "."@
        }),
{
    lemma_literal_count_is(path::components(pattern), count);
}

/// The input has no other field.
pub proof fn no_other_field_is_described(key: Seq<char>)
    requires
        key != "pattern"@,
        key != "path"@,
    ensures
        json::member(json::member(glob_schema(), "properties"@)->0, key) is None,
{
    reveal_strlit("properties");
    reveal_strlit("required");
    reveal_strlit("type");
    assert("properties"@.len() == 10);
    assert("required"@.len() == 8);
    assert("type"@.len() == 4);
}

}
