//! Text as a sequence of characters: trimming, searching, splitting, joining,
//! replacing and number formatting.
//!
//! Every specification speaks of the characters of a string (`s@`), never of its
//! UTF-8 bytes.
use vstd::prelude::*;
use vstd::string::*;

verus! {

/// `String::push` appends the character to the end of the string.
pub assume_specification[ String::push ](s: &mut String, c: char)
    ensures
        final(s)@ == old(s)@.push(c),
;

/// The characters of a string, in order.
pub fn chars_of(s: &str) -> (r: Vec<char>)
    ensures
        r@ == s@,
{
    let mut out: Vec<char> = Vec::new();
    for c in it: s.chars()
        invariant
            it.seq() == s@,
            out@ == s@.take(it.index() as int),
    {
        out.push(c);
        assert(out@ == s@.take(it.index() + 1));
    }
    assert(s@.take(s@.len() as int) == s@);
    out
}

/// The string made of the characters at `from..to`.
pub fn text_of(chars: &Vec<char>, from: usize, to: usize) -> (r: String)
    requires
        from <= to <= chars@.len(),
    ensures
        r@ == chars@.subrange(from as int, to as int),
{
    let mut out: String = String::new();
    let mut i: usize = from;
    while i < to
        invariant
            from <= i <= to <= chars@.len(),
            out@ == chars@.subrange(from as int, i as int),
        decreases to - i,
    {
        out.push(chars[i]);
        i += 1;
        assert(out@ =~= chars@.subrange(from as int, i as int));
    }
    out
}

/// The views of a list of strings.
pub open spec fn strings(v: Seq<String>) -> Seq<Seq<char>> {
    Seq::new(v.len(), |i: int| v[i]@)
}

pub(crate) proof fn lemma_strings_push(v: Seq<String>, s: String)
    ensures
        strings(v.push(s)) == strings(v).push(s@),
{
    assert(strings(v.push(s)) =~= strings(v).push(s@));
}

/// Whether two strings hold the same characters.
pub fn same_text(a: &str, b: &str) -> (r: bool)
    ensures
        r == (a@ == b@),
{
    a.to_owned() == b.to_owned()
}

// ---------------------------------------------------------------------------
// White space and trimming
// ---------------------------------------------------------------------------

/// Whether a character has the Unicode property `White_Space`.
pub open spec fn is_space(c: char) -> bool {
    let u = c as u32;
    ||| 0x9 <= u <= 0xd
    ||| u == 0x20
    ||| u == 0x85
    ||| u == 0xa0
    ||| u == 0x1680
    ||| 0x2000 <= u <= 0x200a
    ||| u == 0x2028
    ||| u == 0x2029
    ||| u == 0x202f
    ||| u == 0x205f
    ||| u == 0x3000
}

/// Whether a character has the Unicode property `White_Space`.
pub fn is_space_char(c: char) -> (r: bool)
    ensures
        r == is_space(c),
{
    let u: u32 = c as u32;
    (0x9 <= u && u <= 0xd) || u == 0x20 || u == 0x85 || u == 0xa0 || u == 0x1680 || (0x2000 <= u
        && u <= 0x200a) || u == 0x2028 || u == 0x2029 || u == 0x202f || u == 0x205f || u == 0x3000
}

/// `s` without its leading white space.
pub open spec fn trimmed_start(s: Seq<char>) -> Seq<char>
    decreases s.len(),
{
    if s.len() > 0 && is_space(s[0]) {
        trimmed_start(s.drop_first())
    } else {
        s
    }
}

/// `s` without its trailing white space.
pub open spec fn trimmed_end(s: Seq<char>) -> Seq<char>
    decreases s.len(),
{
    if s.len() > 0 && is_space(s.last()) {
        trimmed_end(s.drop_last())
    } else {
        s
    }
}

/// `s` without its leading and trailing white space.
pub open spec fn trimmed(s: Seq<char>) -> Seq<char> {
    trimmed_end(trimmed_start(s))
}

/// `s` without its trailing run of the character `c`.
pub open spec fn without_trailing(s: Seq<char>, c: char) -> Seq<char>
    decreases s.len(),
{
    if s.len() > 0 && s.last() == c {
        without_trailing(s.drop_last(), c)
    } else {
        s
    }
}

/// The index of the first character at or after `from` that is not white space.
fn skip_space(chars: &Vec<char>, from: usize) -> (r: usize)
    requires
        from <= chars@.len(),
    ensures
        from <= r <= chars@.len(),
        trimmed_start(chars@.skip(from as int)) == chars@.skip(r as int),
{
    let mut i: usize = from;
    while i < chars.len() && is_space_char(chars[i])
        invariant
            from <= i <= chars@.len(),
            trimmed_start(chars@.skip(from as int)) == trimmed_start(chars@.skip(i as int)),
        decreases chars@.len() - i,
    {
        assert(chars@.skip(i as int).drop_first() =~= chars@.skip(i + 1));
        i += 1;
    }
    i
}

/// The end of what is left of `from..` once trailing white space is dropped.
fn drop_trailing_space(chars: &Vec<char>, from: usize) -> (r: usize)
    requires
        from <= chars@.len(),
    ensures
        from <= r <= chars@.len(),
        trimmed_end(chars@.skip(from as int)) == chars@.subrange(from as int, r as int),
{
    let mut end: usize = chars.len();
    assert(chars@.subrange(from as int, end as int) =~= chars@.skip(from as int));
    while from < end && is_space_char(chars[end - 1])
        invariant
            from <= end <= chars@.len(),
            trimmed_end(chars@.skip(from as int)) == trimmed_end(
                chars@.subrange(from as int, end as int),
            ),
        decreases end,
    {
        assert(chars@.subrange(from as int, end as int).drop_last() =~= chars@.subrange(
            from as int,
            end - 1,
        ));
        end -= 1;
    }
    end
}

/// The string without leading white space.
pub fn trim_start(s: &str) -> (r: String)
    ensures
        r@ == trimmed_start(s@),
{
    let chars: Vec<char> = chars_of(s);
    let from: usize = skip_space(&chars, 0);
    assert(chars@.skip(0) =~= s@);
    assert(chars@.skip(from as int) =~= chars@.subrange(from as int, chars@.len() as int));
    text_of(&chars, from, chars.len())
}

/// The string without trailing white space.
pub fn trim_end(s: &str) -> (r: String)
    ensures
        r@ == trimmed_end(s@),
{
    let chars: Vec<char> = chars_of(s);
    let end: usize = drop_trailing_space(&chars, 0);
    assert(chars@.skip(0) =~= s@);
    text_of(&chars, 0, end)
}

/// The string without leading and trailing white space.
pub fn trim(s: &str) -> (r: String)
    ensures
        r@ == trimmed(s@),
{
    let chars: Vec<char> = chars_of(s);
    let from: usize = skip_space(&chars, 0);
    assert(chars@.skip(0) =~= s@);
    let end: usize = drop_trailing_space(&chars, from);
    text_of(&chars, from, end)
}

/// Whether nothing but white space is in the string.
pub fn is_blank(s: &str) -> (r: bool)
    ensures
        r == (trimmed(s@).len() == 0),
{
    trim(s).as_str().is_empty()
}

/// The string without its trailing run of the character `c`.
pub fn trim_end_matches(s: &str, c: char) -> (r: String)
    ensures
        r@ == without_trailing(s@, c),
{
    let chars: Vec<char> = chars_of(s);
    let mut end: usize = chars.len();
    assert(chars@.subrange(0, end as int) =~= s@);
    while 0 < end && chars[end - 1] == c
        invariant
            end <= chars@.len(),
            without_trailing(s@, c) == without_trailing(chars@.subrange(0, end as int), c),
        decreases end,
    {
        assert(chars@.subrange(0, end as int).drop_last() =~= chars@.subrange(0, end - 1));
        end -= 1;
    }
    text_of(&chars, 0, end)
}

/// Trimming is done after one pass: what it leaves neither starts nor ends with
/// white space, and trimming it again changes nothing.
pub proof fn trimming_settles(s: Seq<char>)
    ensures
        trimmed(s).len() > 0 ==> !is_space(trimmed(s)[0]) && !is_space(trimmed(s).last()),
        trimmed(trimmed(s)) == trimmed(s),
{
    lemma_trimmed_start(s);
    lemma_trimmed_end(trimmed_start(s));
}

/// Nothing is trimmed where there is no white space at the ends.
pub(crate) proof fn lemma_trimmed_is(s: Seq<char>)
    requires
        s.len() > 0,
        !is_space(s[0]),
        !is_space(s.last()),
    ensures
        trimmed(s) == s,
{
}

proof fn lemma_trimmed_start(s: Seq<char>)
    ensures
        trimmed_start(s).len() <= s.len(),
        trimmed_start(s).len() > 0 ==> !is_space(trimmed_start(s)[0]),
    decreases s.len(),
{
    if s.len() > 0 && is_space(s[0]) {
        lemma_trimmed_start(s.drop_first());
    }
}

proof fn lemma_trimmed_end(s: Seq<char>)
    ensures
        trimmed_end(s).len() <= s.len(),
        trimmed_end(s) == s.take(trimmed_end(s).len() as int),
        trimmed_end(s).len() > 0 ==> !is_space(trimmed_end(s).last()),
    decreases s.len(),
{
    if s.len() > 0 && is_space(s.last()) {
        lemma_trimmed_end(s.drop_last());
        assert(s.drop_last().take(trimmed_end(s).len() as int) =~= s.take(
            trimmed_end(s).len() as int,
        ));
    } else {
        assert(s.take(s.len() as int) =~= s);
    }
}

// ---------------------------------------------------------------------------
// Searching
// ---------------------------------------------------------------------------

/// Whether `pat` stands in `s` at index `i`.
pub open spec fn occurs_at(s: Seq<char>, pat: Seq<char>, i: int) -> bool {
    0 <= i && i + pat.len() <= s.len() && s.subrange(i, i + pat.len()) == pat
}

/// The first index at or after `from` at which `pat` stands in `s`.
pub open spec fn first_from(s: Seq<char>, pat: Seq<char>, from: int) -> Option<int>
    decreases s.len() + 1 - from,
{
    if from < 0 || from + pat.len() > s.len() {
        None
    } else if occurs_at(s, pat, from) {
        Some(from)
    } else {
        first_from(s, pat, from + 1)
    }
}

/// Whether `pat` stands in `s` at some index.
pub open spec fn contains(s: Seq<char>, pat: Seq<char>) -> bool {
    exists|i: int| occurs_at(s, pat, i)
}

/// Whether `s` ends with `pat`.
pub open spec fn ends_with(s: Seq<char>, pat: Seq<char>) -> bool {
    occurs_at(s, pat, s.len() - pat.len())
}

/// `first_from` is the least index at or after `from` at which the pattern stands.
pub proof fn first_from_is_the_least(s: Seq<char>, pat: Seq<char>, from: int)
    requires
        0 <= from,
    ensures
        match first_from(s, pat, from) {
            Some(i) => from <= i && occurs_at(s, pat, i) && forall|j: int|
                from <= j < i ==> !#[trigger] occurs_at(s, pat, j),
            None => forall|j: int| from <= j ==> !#[trigger] occurs_at(s, pat, j),
        },
    decreases s.len() + 1 - from,
{
    if from + pat.len() > s.len() {
    } else if occurs_at(s, pat, from) {
    } else {
        first_from_is_the_least(s, pat, from + 1);
    }
}

/// An index that is the least one at which the pattern stands is `first_from`.
pub(crate) proof fn lemma_first_from_is(s: Seq<char>, pat: Seq<char>, from: int, i: int)
    requires
        0 <= from <= i,
        occurs_at(s, pat, i),
        forall|j: int| from <= j < i ==> !#[trigger] occurs_at(s, pat, j),
    ensures
        first_from(s, pat, from) == Some(i),
{
    first_from_is_the_least(s, pat, from);
}

/// Whether `pat` stands in `chars` at index `i`.
fn occurs_here(chars: &Vec<char>, pat: &Vec<char>, i: usize) -> (r: bool)
    requires
        i <= chars@.len(),
    ensures
        r == occurs_at(chars@, pat@, i as int),
{
    let total: usize = chars.len();
    if total - i < pat.len() {
        return false;
    }
    let mut k: usize = 0;
    while k < pat.len()
        invariant
            k <= pat@.len(),
            total == chars@.len(),
            i + pat@.len() <= total,
            forall|j: int| 0 <= j < k ==> chars@[i + j] == pat@[j],
        decreases pat@.len() - k,
    {
        if chars[i + k] != pat[k] {
            assert(chars@.subrange(i as int, i + pat@.len())[k as int] != pat@[k as int]);
            return false;
        }
        k += 1;
    }
    assert(chars@.subrange(i as int, i + pat@.len()) =~= pat@);
    true
}

/// The first index at or after `from` at which `pat` stands in `chars`.
pub fn find_from(chars: &Vec<char>, pat: &Vec<char>, from: usize) -> (r: Option<usize>)
    requires
        from <= chars@.len(),
    ensures
        match r {
            Some(i) => first_from(chars@, pat@, from as int) == Some(i as int) && from <= i && i
                + pat@.len() <= chars@.len() && i + pat@.len() <= usize::MAX,
            None => first_from(chars@, pat@, from as int) is None,
        },
{
    let total: usize = chars.len();
    let mut i: usize = from;
    while pat.len() <= total - i
        invariant
            total == chars@.len(),
            from <= i <= total,
            first_from(chars@, pat@, from as int) == first_from(chars@, pat@, i as int),
        decreases chars@.len() - i,
    {
        if occurs_here(chars, pat, i) {
            return Some(i);
        }
        if pat.len() == 0 {
            assert(chars@.subrange(i as int, i as int) =~= pat@);
        }
        i += 1;
    }
    None
}

/// Whether `pat` stands somewhere in `s`.
pub fn contains_text(s: &str, pat: &str) -> (r: bool)
    ensures
        r == contains(s@, pat@),
{
    let chars: Vec<char> = chars_of(s);
    let wanted: Vec<char> = chars_of(pat);
    proof {
        first_from_is_the_least(s@, pat@, 0);
    }
    find_from(&chars, &wanted, 0).is_some()
}

/// Whether `s` ends with `pat`.
pub fn ends_with_text(s: &str, pat: &str) -> (r: bool)
    ensures
        r == ends_with(s@, pat@),
{
    let chars: Vec<char> = chars_of(s);
    let wanted: Vec<char> = chars_of(pat);
    wanted.len() <= chars.len() && occurs_here(&chars, &wanted, chars.len() - wanted.len())
}

/// What follows `prefix` in `s`, where `s` starts with it.
pub open spec fn after_prefix(s: Seq<char>, prefix: Seq<char>) -> Option<Seq<char>> {
    if occurs_at(s, prefix, 0) {
        Some(s.skip(prefix.len() as int))
    } else {
        None
    }
}

/// What follows `prefix` in `s`, where `s` starts with it.
pub fn strip_prefix(s: &str, prefix: &str) -> (r: Option<String>)
    ensures
        match r {
            Some(rest) => after_prefix(s@, prefix@) == Some(rest@),
            None => after_prefix(s@, prefix@) is None,
        },
{
    let chars: Vec<char> = chars_of(s);
    let wanted: Vec<char> = chars_of(prefix);
    if occurs_here(&chars, &wanted, 0) {
        assert(chars@.subrange(wanted@.len() as int, chars@.len() as int) =~= s@.skip(
            wanted@.len() as int,
        ));
        Some(text_of(&chars, wanted.len(), chars.len()))
    } else {
        None
    }
}

// ---------------------------------------------------------------------------
// Lines and joining
// ---------------------------------------------------------------------------

/// `s` without one carriage return at its end.
pub open spec fn without_carriage_return(s: Seq<char>) -> Seq<char> {
    if s.len() > 0 && s.last() == '\r' {
        s.drop_last()
    } else {
        s
    }
}

/// The lines of `s`: each ends at a line feed, with the carriage return before
/// it, or at the end of `s`. An end of line at the end of `s` starts no new line.
pub open spec fn line_list(s: Seq<char>) -> Seq<Seq<char>>
    decreases s.len(),
{
    if s.len() == 0 {
        Seq::empty()
    } else {
        match first_from(s, seq!['\n'], 0) {
            Some(i) => if 0 <= i < s.len() {
                seq![without_carriage_return(s.take(i))] + line_list(s.skip(i + 1))
            } else {
                seq![s]
            },
            None => seq![s],
        }
    }
}

/// The index of the first `c` at or after `from`.
pub fn find_char(chars: &Vec<char>, c: char, from: usize) -> (r: Option<usize>)
    requires
        from <= chars@.len(),
    ensures
        match r {
            Some(i) => from <= i < chars@.len() && chars@[i as int] == c && forall|j: int|
                from <= j < i ==> chars@[j] != c,
            None => forall|j: int| from <= j < chars@.len() ==> chars@[j] != c,
        },
{
    let mut i: usize = from;
    while i < chars.len()
        invariant
            from <= i <= chars@.len(),
            forall|j: int| from <= j < i ==> chars@[j] != c,
        decreases chars@.len() - i,
    {
        if chars[i] == c {
            return Some(i);
        }
        i += 1;
    }
    None
}

/// A one-character pattern stands where that character is.
pub(crate) proof fn lemma_occurs_char(s: Seq<char>, c: char, i: int)
    ensures
        occurs_at(s, seq![c], i) <==> 0 <= i < s.len() && s[i] == c,
{
    if 0 <= i < s.len() {
        assert(s.subrange(i, i + 1) =~= seq![s[i]]);
        assert(seq![s[i]][0] == s[i]);
        assert(seq![c][0] == c);
    }
}

/// The first place of a one-character pattern.
pub(crate) proof fn lemma_first_char(s: Seq<char>, c: char, from: int, r: Option<int>)
    requires
        0 <= from <= s.len(),
        match r {
            Some(i) => from <= i < s.len() && s[i] == c && forall|j: int|
                from <= j < i ==> s[j] != c,
            None => forall|j: int| from <= j < s.len() ==> s[j] != c,
        },
    ensures
        first_from(s, seq![c], from) == r,
{
    let pat = seq![c];
    assert forall|j: int| #[trigger] occurs_at(s, pat, j) <==> 0 <= j < s.len() && s[j] == c by {
        lemma_occurs_char(s, c, j);
    }
    match r {
        Some(i) => {
            lemma_first_from_is(s, pat, from, i);
        },
        None => {
            first_from_is_the_least(s, pat, from);
        },
    }
}

/// The lines of `s`.
pub fn lines(s: &str) -> (r: Vec<String>)
    ensures
        strings(r@) == line_list(s@),
{
    let chars: Vec<char> = chars_of(s);
    let mut out: Vec<String> = Vec::new();
    let mut start: usize = 0;
    assert(s@.skip(0) =~= s@);
    assert(strings(out@) =~= Seq::<Seq<char>>::empty());
    assert(strings(out@) + line_list(s@.skip(0)) =~= line_list(s@));
    while start < chars.len()
        invariant
            chars@ == s@,
            start <= chars@.len(),
            strings(out@) + line_list(s@.skip(start as int)) == line_list(s@),
        decreases chars@.len() - start,
    {
        let ghost rest = s@.skip(start as int);
        let ghost before = strings(out@);
        match find_char(&chars, '\n', start) {
            Some(i) => {
                let end: usize = if start < i && chars[i - 1] == '\r' {
                    i - 1
                } else {
                    i
                };
                let line: String = text_of(&chars, start, end);
                proof {
                    let k = i - start;
                    lemma_first_char(rest, '\n', 0, Some(k));
                    let piece = rest.take(k);
                    assert(piece =~= s@.subrange(start as int, i as int));
                    if start < i && s@[i - 1] == '\r' {
                        assert(piece.last() == '\r');
                        assert(piece.drop_last() =~= s@.subrange(start as int, i - 1));
                    } else if start < i {
                        assert(piece.last() == s@[i - 1]);
                    }
                    assert(line@ == without_carriage_return(piece));
                    assert(rest.skip(k + 1) =~= s@.skip(i + 1));
                    lemma_strings_push(out@, line);
                    assert(before + (seq![line@] + line_list(s@.skip(i + 1))) =~= before.push(line@)
                        + line_list(s@.skip(i + 1)));
                }
                out.push(line);
                start = i + 1;
            },
            None => {
                let line: String = text_of(&chars, start, chars.len());
                proof {
                    lemma_first_char(rest, '\n', 0, None);
                    assert(line@ =~= rest);
                    lemma_strings_push(out@, line);
                    assert(before + seq![line@] =~= before.push(line@));
                    assert(s@.skip(s@.len() as int) =~= Seq::<char>::empty());
                    assert(before.push(line@) + Seq::<Seq<char>>::empty() =~= before.push(line@));
                }
                out.push(line);
                start = chars.len();
            },
        }
    }
    proof {
        assert(s@.skip(start as int) =~= Seq::<char>::empty());
        assert(strings(out@) + Seq::<Seq<char>>::empty() =~= strings(out@));
    }
    out
}

/// The parts, one after another, with `sep` between neighbours.
pub open spec fn joined(parts: Seq<Seq<char>>, sep: Seq<char>) -> Seq<char>
    decreases parts.len(),
{
    if parts.len() == 0 {
        Seq::empty()
    } else if parts.len() == 1 {
        parts[0]
    } else {
        joined(parts.drop_last(), sep) + sep + parts.last()
    }
}

/// The parts, one after another, with `sep` between neighbours.
pub fn join(parts: &Vec<String>, sep: &str) -> (r: String)
    ensures
        r@ == joined(strings(parts@), sep@),
{
    let mut out: String = String::new();
    let mut i: usize = 0;
    let ghost all = strings(parts@);
    while i < parts.len()
        invariant
            i <= parts@.len(),
            all == strings(parts@),
            out@ == joined(all.take(i as int), sep@),
        decreases parts@.len() - i,
    {
        assert(all.take(i + 1).drop_last() =~= all.take(i as int));
        assert(all.take(i + 1).last() == parts@[i as int]@);
        if i > 0 {
            out.append(sep);
        }
        out.append(parts[i].as_str());
        if i == 0 {
            assert(out@ =~= parts@[0]@);
        }
        i += 1;
    }
    assert(all.take(parts@.len() as int) =~= all);
    out
}

// ---------------------------------------------------------------------------
// Counting and replacing
// ---------------------------------------------------------------------------

/// How many times `pat` stands in `s` at or after `from`, counted from the left
/// without overlaps. `pat` is not empty.
pub open spec fn count_from(s: Seq<char>, pat: Seq<char>, from: int) -> nat
    recommends
        pat.len() > 0,
    decreases s.len() - from,
{
    match first_from(s, pat, from) {
        Some(i) => if pat.len() > 0 && from <= i && i + pat.len() <= s.len() {
            1 + count_from(s, pat, i + pat.len())
        } else {
            0
        },
        None => 0,
    }
}

/// How many times `pat` stands in `s`, counted from the left without overlaps.
/// An empty pattern stands before each character and at the end.
pub open spec fn match_count(s: Seq<char>, pat: Seq<char>) -> nat {
    if pat.len() == 0 {
        s.len() + 1
    } else {
        count_from(s, pat, 0)
    }
}

/// `s` from `from` on, with every match of `pat` replaced. `pat` is not empty.
pub open spec fn replaced_from(s: Seq<char>, pat: Seq<char>, new: Seq<char>, from: int) -> Seq<
    char,
>
    recommends
        pat.len() > 0,
    decreases s.len() - from,
{
    match first_from(s, pat, from) {
        Some(i) => if pat.len() > 0 && from <= i && i + pat.len() <= s.len() {
            s.subrange(from, i) + new + replaced_from(s, pat, new, i + pat.len())
        } else {
            s.skip(from)
        },
        None => s.skip(from),
    }
}

/// `new` before each character of `s` and at its end.
pub open spec fn interleaved(s: Seq<char>, new: Seq<char>) -> Seq<char>
    decreases s.len(),
{
    if s.len() == 0 {
        new
    } else {
        interleaved(s.drop_last(), new).push(s.last()) + new
    }
}

/// `s` with every match of `pat` replaced by `new`.
pub open spec fn replaced(s: Seq<char>, pat: Seq<char>, new: Seq<char>) -> Seq<char> {
    if pat.len() == 0 {
        interleaved(s, new)
    } else {
        replaced_from(s, pat, new, 0)
    }
}

/// `s` with the first match of `pat` replaced by `new`.
pub open spec fn replaced_first(s: Seq<char>, pat: Seq<char>, new: Seq<char>) -> Seq<char> {
    match first_from(s, pat, 0) {
        Some(i) => s.take(i) + new + s.skip(i + pat.len()),
        None => s,
    }
}

/// How many times `pat` stands in `s`, counted from the left without overlaps.
pub fn count_matches(s: &str, pat: &str) -> (r: u128)
    ensures
        r == match_count(s@, pat@),
{
    let chars: Vec<char> = chars_of(s);
    let wanted: Vec<char> = chars_of(pat);
    if wanted.len() == 0 {
        return chars.len() as u128 + 1;
    }
    let mut count: u128 = 0;
    let mut start: usize = 0;
    loop
        invariant
            wanted@.len() > 0,
            wanted@ == pat@,
            chars@ == s@,
            start <= chars@.len(),
            count <= start,
            count + count_from(s@, pat@, start as int) == match_count(s@, pat@),
        decreases chars@.len() - start,
    {
        match find_from(&chars, &wanted, start) {
            Some(i) => {
                count += 1;
                start = i + wanted.len();
            },
            None => {
                return count;
            },
        }
    }
}

/// The string with every match of `pat` replaced by `new`.
pub fn replace_all(s: &str, pat: &str, new: &str) -> (r: String)
    ensures
        r@ == replaced(s@, pat@, new@),
{
    let chars: Vec<char> = chars_of(s);
    let wanted: Vec<char> = chars_of(pat);
    let mut out: String = String::new();
    if wanted.len() == 0 {
        out.append(new);
        let mut k: usize = 0;
        assert(s@.take(0) =~= Seq::<char>::empty());
        assert(out@ =~= new@);
        while k < chars.len()
            invariant
                chars@ == s@,
                k <= chars@.len(),
                out@ == interleaved(s@.take(k as int), new@),
            decreases chars@.len() - k,
        {
            assert(s@.take(k + 1).drop_last() =~= s@.take(k as int));
            out.push(chars[k]);
            out.append(new);
            k += 1;
        }
        assert(s@.take(s@.len() as int) =~= s@);
        return out;
    }
    let mut start: usize = 0;
    assert(out@ + replaced_from(s@, pat@, new@, 0) =~= replaced(s@, pat@, new@));
    loop
        invariant
            wanted@.len() > 0,
            wanted@ == pat@,
            chars@ == s@,
            start <= chars@.len(),
            out@ + replaced_from(s@, pat@, new@, start as int) == replaced(s@, pat@, new@),
        decreases chars@.len() - start,
    {
        match find_from(&chars, &wanted, start) {
            Some(i) => {
                let ghost before = out@;
                let piece: String = text_of(&chars, start, i);
                out.append(piece.as_str());
                out.append(new);
                start = i + wanted.len();
                assert(out@ + replaced_from(s@, pat@, new@, start as int) =~= before + (piece@
                    + new@ + replaced_from(s@, pat@, new@, start as int)));
            },
            None => {
                let piece: String = text_of(&chars, start, chars.len());
                assert(piece@ =~= s@.skip(start as int));
                out.append(piece.as_str());
                return out;
            },
        }
    }
}

/// The string with the first match of `pat` replaced by `new`.
pub fn replace_first(s: &str, pat: &str, new: &str) -> (r: String)
    ensures
        r@ == replaced_first(s@, pat@, new@),
{
    let chars: Vec<char> = chars_of(s);
    let wanted: Vec<char> = chars_of(pat);
    match find_from(&chars, &wanted, 0) {
        Some(i) => {
            let mut out: String = text_of(&chars, 0, i);
            out.append(new);
            let tail: String = text_of(&chars, i + wanted.len(), chars.len());
            out.append(tail.as_str());
            assert(s@.take(i as int) =~= s@.subrange(0, i as int));
            assert(s@.skip(i + wanted@.len()) =~= tail@);
            out
        },
        None => text_of(&chars, 0, chars.len()),
    }
}

// ---------------------------------------------------------------------------
// Numbers
// ---------------------------------------------------------------------------

/// The decimal digit `d`.
pub open spec fn digit(d: nat) -> char {
    if d == 0 {
        '0'
    } else if d == 1 {
        '1'
    } else if d == 2 {
        '2'
    } else if d == 3 {
        '3'
    } else if d == 4 {
        '4'
    } else if d == 5 {
        '5'
    } else if d == 6 {
        '6'
    } else if d == 7 {
        '7'
    } else if d == 8 {
        '8'
    } else {
        '9'
    }
}

/// The decimal notation of `n`, without leading zeros.
pub open spec fn decimal(n: nat) -> Seq<char>
    decreases n,
{
    if n < 10 {
        seq![digit(n)]
    } else {
        decimal(n / 10).push(digit(n % 10))
    }
}

fn digit_char(d: u8) -> (r: char)
    requires
        d < 10,
    ensures
        r == digit(d as nat),
{
    match d {
        0 => '0',
        1 => '1',
        2 => '2',
        3 => '3',
        4 => '4',
        5 => '5',
        6 => '6',
        7 => '7',
        8 => '8',
        _ => '9',
    }
}

/// The decimal notation of `n`, without leading zeros.
pub fn decimal_text(n: u128) -> (r: String)
    ensures
        r@ == decimal(n as nat),
    decreases n,
{
    let last: char = digit_char((n % 10) as u8);
    let mut out: String = if n < 10 {
        String::new()
    } else {
        decimal_text(n / 10)
    };
    out.push(last);
    if n < 10 {
        assert(out@ =~= seq![digit(n as nat)]);
    }
    out
}

/// Different numbers are written differently.
pub proof fn decimals_differ(n: nat, m: nat)
    requires
        decimal(n) == decimal(m),
    ensures
        n == m,
    decreases n,
{
    lemma_decimal_digits(n / 10);
    lemma_decimal_digits(m / 10);
    assert(digit(n % 10) == decimal(n).last());
    assert(digit(m % 10) == decimal(m).last());
    if n >= 10 {
        assert(decimal(n).drop_last() =~= decimal(n / 10));
        assert(decimal(m).drop_last() =~= decimal(m / 10));
        decimals_differ(n / 10, m / 10);
    }
}

/// A number is written with digits, at least one.
pub(crate) proof fn lemma_decimal_digits(n: nat)
    ensures
        decimal(n).len() > 0,
        forall|i: int| 0 <= i < decimal(n).len() ==> #[trigger] decimal(n)[i] != '_',
    decreases n,
{
    if n >= 10 {
        lemma_decimal_digits(n / 10);
    }
}

/// `s`, with spaces before it up to the width.
pub open spec fn right_aligned(s: Seq<char>, width: nat) -> Seq<char>
    decreases width - s.len(),
{
    if s.len() >= width {
        s
    } else {
        right_aligned(seq![' '] + s, width)
    }
}

/// `s`, with spaces before it up to the width.
pub fn align_right(s: &str, width: usize) -> (r: String)
    ensures
        r@ == right_aligned(s@, width as nat),
{
    let chars: Vec<char> = chars_of(s);
    let mut out: String = s.to_owned();
    let mut len: usize = chars.len();
    while len < width
        invariant
            len == out@.len(),
            right_aligned(out@, width as nat) == right_aligned(s@, width as nat),
        decreases width - len,
    {
        let mut wider: String = " ".to_owned();
        wider.append(out.as_str());
        proof {
            reveal_strlit(" ");
            assert(" "@ =~= seq![' ']);
        }
        out = wider;
        len += 1;
    }
    out
}

// ---------------------------------------------------------------------------
// Laws
// ---------------------------------------------------------------------------

/// A list of strings says what each string holds, in order.
pub proof fn strings_say_what_they_hold(v: Seq<String>, i: int)
    requires
        0 <= i < v.len(),
    ensures
        strings(v).len() == v.len(),
        strings(v)[i] == v[i]@,
{
}

/// Trimming takes white space from the two ends, all of it and nothing else: a text is
/// what is taken from its front, what is left, and what is taken from its end.
pub proof fn trimming_takes_white_space_alone(front: Seq<char>, s: Seq<char>, end: Seq<char>)
    requires
        forall|i: int| 0 <= i < front.len() ==> is_space(#[trigger] front[i]),
        forall|i: int| 0 <= i < end.len() ==> is_space(#[trigger] end[i]),
        s.len() > 0 ==> !is_space(s[0]) && !is_space(s.last()),
    ensures
        trimmed_start(front + s) == s,
        trimmed_end(s + end) == s,
        trimmed(front + s + end) == s,
{
    lemma_drop_front(front, s);
    lemma_drop_end(s, end);
    let whole = front + s + end;
    assert(whole =~= front + (s + end));
    if s.len() > 0 {
        lemma_drop_front(front, s + end);
    } else {
        let blank = front + end;
        assert(whole =~= blank + Seq::<char>::empty());
        assert forall|i: int| 0 <= i < blank.len() implies is_space(#[trigger] blank[i]) by {
            if i >= front.len() {
                assert(blank[i] == end[i - front.len()]);
            }
        }
        lemma_drop_front(blank, Seq::empty());
        assert(s =~= Seq::<char>::empty());
        assert(trimmed_end(Seq::<char>::empty()) =~= Seq::<char>::empty());
    }
}

pub(crate) proof fn lemma_drop_front(front: Seq<char>, s: Seq<char>)
    requires
        forall|i: int| 0 <= i < front.len() ==> is_space(#[trigger] front[i]),
        s.len() > 0 ==> !is_space(s[0]),
    ensures
        trimmed_start(front + s) == s,
    decreases front.len(),
{
    if front.len() == 0 {
        assert(front + s =~= s);
    } else {
        assert((front + s)[0] == front[0]);
        assert((front + s).drop_first() =~= front.drop_first() + s);
        assert forall|i: int| 0 <= i < front.drop_first().len() implies is_space(
            #[trigger] front.drop_first()[i],
        ) by {
            assert(front.drop_first()[i] == front[i + 1]);
        }
        lemma_drop_front(front.drop_first(), s);
    }
}

proof fn lemma_drop_end(s: Seq<char>, end: Seq<char>)
    requires
        forall|i: int| 0 <= i < end.len() ==> is_space(#[trigger] end[i]),
        s.len() > 0 ==> !is_space(s.last()),
    ensures
        trimmed_end(s + end) == s,
    decreases end.len(),
{
    if end.len() == 0 {
        assert(s + end =~= s);
    } else {
        assert((s + end).last() == end[end.len() - 1]);
        assert((s + end).drop_last() =~= s + end.drop_last());
        assert forall|i: int| 0 <= i < end.drop_last().len() implies is_space(
            #[trigger] end.drop_last()[i],
        ) by {
            assert(end.drop_last()[i] == end[i]);
        }
        lemma_drop_end(s, end.drop_last());
    }
}

/// A trailing run of a character is dropped whole, and nothing before it.
pub proof fn trailing_runs_are_dropped(s: Seq<char>, c: char, count: nat)
    requires
        s.len() > 0 ==> s.last() != c,
    ensures
        without_trailing(s + Seq::new(count, |i: int| c), c) == s,
    decreases count,
{
    let run = Seq::new(count, |i: int| c);
    if count == 0 {
        assert(s + run =~= s);
    } else {
        trailing_runs_are_dropped(s, c, (count - 1) as nat);
        assert((s + run).last() == c);
        assert((s + run).drop_last() =~= s + Seq::new((count - 1) as nat, |i: int| c));
    }
}

/// A pattern is in a text exactly where the text is made of something, the pattern and
/// something else.
pub proof fn containing_is_being_made_of(s: Seq<char>, pat: Seq<char>)
    ensures
        contains(s, pat) <==> exists|front: Seq<char>, back: Seq<char>|
            s == #[trigger] (front + pat + back),
        ends_with(s, pat) <==> exists|front: Seq<char>| s == #[trigger] (front + pat),
{
    if contains(s, pat) {
        let i = choose|i: int| occurs_at(s, pat, i);
        let front = s.take(i);
        let back = s.skip(i + pat.len());
        assert(s =~= front + s.subrange(i, i + pat.len()) + back);
        assert(s == front + pat + back);
    }
    if exists|front: Seq<char>, back: Seq<char>| s == #[trigger] (front + pat + back) {
        let (front, back) = choose|front: Seq<char>, back: Seq<char>|
            s == #[trigger] (front + pat + back);
        assert(s.subrange(front.len() as int, (front.len() + pat.len()) as int) =~= pat);
        assert(occurs_at(s, pat, front.len() as int));
    }
    if ends_with(s, pat) {
        let front = s.take(s.len() - pat.len());
        assert(s =~= front + s.subrange(s.len() - pat.len(), s.len() as int));
        assert(s == front + pat);
    }
    if exists|front: Seq<char>| s == #[trigger] (front + pat) {
        let front = choose|front: Seq<char>| s == #[trigger] (front + pat);
        assert(s.subrange(front.len() as int, (front.len() + pat.len()) as int) =~= pat);
    }
}

/// What follows a prefix makes up the text with it.
pub proof fn prefixes_make_up_the_text(s: Seq<char>, prefix: Seq<char>, rest: Seq<char>)
    ensures
        after_prefix(prefix + rest, prefix) == Some(rest),
        after_prefix(s, prefix) matches Some(left) ==> s == prefix + left,
{
    let whole = prefix + rest;
    assert(whole.subrange(0, prefix.len() as int) =~= prefix);
    assert(whole.skip(prefix.len() as int) =~= rest);
    if occurs_at(s, prefix, 0) {
        assert(s =~= s.subrange(0, prefix.len() as int) + s.skip(prefix.len() as int));
    }
}

/// The lines of a text are what stands between its line feeds, as it stands there but for
/// one carriage return at the end of a line. What follows the last line feed is a line
/// where it is not empty.
pub proof fn lines_are_what_stands_between_line_feeds(line: Seq<char>, rest: Seq<char>)
    requires
        forall|i: int| 0 <= i < line.len() ==> #[trigger] line[i] != '\n',
    ensures
        line_list(line) == (if line.len() == 0 {
            Seq::empty()
        } else {
            seq![line]
        }),
        line_list(line.push('\n') + rest) == seq![
            if line.len() > 0 && line.last() == '\r' {
                line.drop_last()
            } else {
                line
            },
        ] + line_list(rest),
{
    let s = line.push('\n') + rest;
    assert forall|j: int| 0 <= j < line.len() implies s[j] != '\n' by {
        assert(s[j] == line[j]);
    }
    assert(s[line.len() as int] == '\n');
    lemma_first_char(s, '\n', 0, Some(line.len() as int));
    assert(s.take(line.len() as int) =~= line);
    assert(s.skip(line.len() as int + 1) =~= rest);
    lemma_first_char(line, '\n', 0, None);
}

/// Joined parts stand one after another as they are, with the separator between two
/// neighbours.
pub proof fn joined_parts_stay_as_they_are(parts: Seq<Seq<char>>, part: Seq<char>, sep: Seq<char>)
    ensures
        joined(Seq::empty(), sep) == Seq::<char>::empty(),
        joined(parts.push(part), sep) == (if parts.len() == 0 {
            part
        } else {
            joined(parts, sep) + sep + part
        }),
{
    assert(parts.push(part).drop_last() =~= parts);
}

// What is counted and replaced from an index on is what is counted and replaced in the
// rest of the text.
proof fn lemma_rest(s: Seq<char>, pat: Seq<char>, new: Seq<char>, from: int)
    requires
        pat.len() > 0,
        0 <= from <= s.len(),
    ensures
        count_from(s, pat, from) == count_from(s.skip(from), pat, 0),
        replaced_from(s, pat, new, from) == replaced_from(s.skip(from), pat, new, 0),
    decreases s.len() - from,
{
    let rest = s.skip(from);
    first_from_is_the_least(s, pat, from);
    first_from_is_the_least(rest, pat, 0);
    assert forall|j: int| 0 <= j implies #[trigger] occurs_at(rest, pat, j) == occurs_at(
        s,
        pat,
        from + j,
    ) by {
        if j + pat.len() <= rest.len() {
            assert(rest.subrange(j, j + pat.len()) =~= s.subrange(from + j, from + j + pat.len()));
        }
    }
    match first_from(s, pat, from) {
        Some(i) => {
            let k = i - from;
            assert(occurs_at(rest, pat, k));
            assert forall|j: int| 0 <= j < k implies !#[trigger] occurs_at(rest, pat, j) by {
                assert(!occurs_at(s, pat, from + j));
            }
            lemma_first_from_is(rest, pat, 0, k);
            let next = i + pat.len();
            lemma_rest(s, pat, new, next);
            lemma_rest(rest, pat, new, k + pat.len());
            assert(rest.skip(k + pat.len()) =~= s.skip(next));
            assert(rest.subrange(0, k) =~= s.subrange(from, i));
        },
        None => {
            if let Some(k) = first_from(rest, pat, 0) {
                assert(occurs_at(s, pat, from + k));
            }
            assert(rest.skip(0) =~= rest);
        },
    }
}

/// A match is counted once and replaced by the new text as it is. What stands before it
/// stays as it is, and the search goes on behind it.
pub proof fn matches_are_replaced_as_given(
    front: Seq<char>,
    pat: Seq<char>,
    back: Seq<char>,
    new: Seq<char>,
)
    requires
        pat.len() > 0,
        forall|i: int| 0 <= i < front.len() ==> !#[trigger] occurs_at(front + pat + back, pat, i),
    ensures
        match_count(front + pat + back, pat) == 1 + match_count(back, pat),
        replaced(front + pat + back, pat, new) == front + new + replaced(back, pat, new),
        replaced_first(front + pat + back, pat, new) == front + new + back,
{
    let s = front + pat + back;
    let i = front.len() as int;
    assert(s.subrange(i, i + pat.len()) =~= pat);
    assert(occurs_at(s, pat, i));
    lemma_first_from_is(s, pat, 0, i);
    lemma_rest(s, pat, new, i + pat.len());
    assert(s.skip(i + pat.len()) =~= back);
    assert(s.subrange(0, i) =~= front);
    assert(s.take(i) =~= front);
}

/// A text without a match is left as it is.
pub proof fn without_a_match_nothing_changes(s: Seq<char>, pat: Seq<char>, new: Seq<char>)
    requires
        pat.len() > 0,
        !contains(s, pat),
    ensures
        match_count(s, pat) == 0,
        replaced(s, pat, new) == s,
        replaced_first(s, pat, new) == s,
{
    first_from_is_the_least(s, pat, 0);
    assert(s.skip(0) =~= s);
}

/// The empty text stands before each character and at the end.
pub proof fn the_empty_text_stands_everywhere(s: Seq<char>, c: char, new: Seq<char>)
    ensures
        match_count(s, Seq::empty()) == s.len() + 1,
        replaced(Seq::empty(), Seq::empty(), new) == new,
        replaced(s.push(c), Seq::empty(), new) == replaced(s, Seq::empty(), new).push(c) + new,
        replaced_first(s, Seq::empty(), new) == new + s,
{
    assert(s.push(c).drop_last() =~= s);
    assert(s.subrange(0, 0) =~= Seq::<char>::empty());
    assert(occurs_at(s, Seq::empty(), 0));
    assert(s.take(0) + new + s.skip(0) =~= new + s);
}

/// The number that digits stand for.
pub open spec fn number_of(digits: Seq<char>) -> int
    decreases digits.len(),
{
    if digits.len() == 0 {
        0
    } else {
        10 * number_of(digits.drop_last()) + (digits.last() as int - '0' as int)
    }
}

/// The notation of a number is made of digits, stands for that number, and has no zero in
/// front.
pub proof fn decimals_stand_for_their_number(n: nat)
    ensures
        decimal(n).len() > 0,
        forall|i: int| 0 <= i < decimal(n).len() ==> '0' <= #[trigger] decimal(n)[i] <= '9',
        number_of(decimal(n)) == n,
        n > 0 ==> decimal(n)[0] != '0',
    decreases n,
{
    if n < 10 {
        let one = seq![digit(n)];
        assert(one.drop_last() =~= Seq::<char>::empty());
        assert(number_of(one.drop_last()) == 0);
        assert(one.last() == digit(n));
    } else {
        decimals_stand_for_their_number(n / 10);
        assert(decimal(n).drop_last() =~= decimal(n / 10));
        assert(decimal(n).last() == digit(n % 10));
        assert(decimal(n)[0] == decimal(n / 10)[0]);
    }
}

/// A text is aligned by spaces in front of it and by nothing else.
pub proof fn aligned_texts_have_spaces_in_front(s: Seq<char>, width: nat)
    ensures
        ({
            let shown = right_aligned(s, width);
            let gap = shown.len() - s.len();
            &&& shown.len() == if s.len() < width {
                width
            } else {
                s.len()
            }
            &&& shown.skip(gap) == s
            &&& forall|i: int| 0 <= i < gap ==> #[trigger] shown[i] == ' '
        }),
    decreases width - s.len(),
{
    let shown = right_aligned(s, width);
    if s.len() < width {
        let wider = seq![' '] + s;
        aligned_texts_have_spaces_in_front(wider, width);
        let gap = shown.len() - s.len();
        assert(shown.skip(gap - 1) == wider);
        assert(shown.skip(gap) =~= wider.skip(1));
        assert(wider.skip(1) =~= s);
        assert forall|i: int| 0 <= i < gap implies #[trigger] shown[i] == ' ' by {
            if i == gap - 1 {
                assert(shown[i] == shown.skip(gap - 1)[0]);
            }
        }
    } else {
        assert(shown.skip(0) =~= s);
    }
}

/// A pattern stands at an index where that many characters come before it, and nowhere
/// else.
pub proof fn occurring_is_standing_there(
    front: Seq<char>,
    pat: Seq<char>,
    back: Seq<char>,
    s: Seq<char>,
    i: int,
)
    ensures
        occurs_at(front + pat + back, pat, front.len() as int),
        occurs_at(s, pat, i) ==> 0 <= i && s == s.take(i) + pat + s.skip(i + pat.len()),
{
    let whole = front + pat + back;
    assert(whole.subrange(front.len() as int, (front.len() + pat.len()) as int) =~= pat);
    if occurs_at(s, pat, i) {
        assert(s =~= s.take(i) + s.subrange(i, i + pat.len()) + s.skip(i + pat.len()));
    }
}

/// A text is trimmed to nothing exactly where it is white space throughout.
pub proof fn blank_is_white_space_throughout(s: Seq<char>)
    ensures
        trimmed(s).len() == 0 <==> forall|i: int| 0 <= i < s.len() ==> is_space(#[trigger] s[i]),
{
    if forall|i: int| 0 <= i < s.len() ==> is_space(#[trigger] s[i]) {
        lemma_drop_front(s, Seq::empty());
        assert(s + Seq::<char>::empty() =~= s);
    } else {
        let k = choose|k: int| 0 <= k < s.len() && !is_space(#[trigger] s[k]);
        lemma_trimmed_keeps(s, k);
    }
}

proof fn lemma_trimmed_keeps(s: Seq<char>, k: int)
    requires
        0 <= k < s.len(),
        !is_space(s[k]),
    ensures
        trimmed(s).len() > 0,
    decreases s.len(),
{
    if is_space(s[0]) {
        assert(s.drop_first()[k - 1] == s[k]);
        lemma_trimmed_keeps(s.drop_first(), k - 1);
    } else {
        assert(trimmed_start(s) == s);
        lemma_end_keeps_first(s);
    }
}

proof fn lemma_end_keeps_first(s: Seq<char>)
    requires
        s.len() > 0,
        !is_space(s[0]),
    ensures
        trimmed_end(s).len() > 0,
    decreases s.len(),
{
    if is_space(s.last()) {
        assert(s.drop_last()[0] == s[0]);
        lemma_end_keeps_first(s.drop_last());
    }
}

/// White space is what Unicode counts as such, and nothing else.
pub proof fn white_space_is_that_of_unicode(c: char)
    ensures
        is_space(c) <==> ({
            ||| c == '\t'
            ||| c == '\n'
            ||| c == '\u{b}'
            ||| c == '\u{c}'
            ||| c == '\r'
            ||| c == ' '
            ||| c == '\u{85}'
            ||| c == '\u{a0}'
            ||| c == '\u{1680}'
            ||| c == '\u{2000}'
            ||| c == '\u{2001}'
            ||| c == '\u{2002}'
            ||| c == '\u{2003}'
            ||| c == '\u{2004}'
            ||| c == '\u{2005}'
            ||| c == '\u{2006}'
            ||| c == '\u{2007}'
            ||| c == '\u{2008}'
            ||| c == '\u{2009}'
            ||| c == '\u{200a}'
            ||| c == '\u{2028}'
            ||| c == '\u{2029}'
            ||| c == '\u{202f}'
            ||| c == '\u{205f}'
            ||| c == '\u{3000}'
        }),
{
}

}
