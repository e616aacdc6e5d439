//! Cutting a stream of text into events and lines.
//!
//! An event of a server-sent event stream ends with an empty line; a line of a
//! line-delimited JSON stream ends with a line feed. What has not ended yet stays in
//! the buffer.
use crate::text;
use vstd::prelude::*;
use vstd::string::*;

verus! {

/// Where the first event of a buffer ends, and how long the empty line behind it is.
pub open spec fn event_end(buffer: Seq<char>) -> Option<(int, int)> {
    let lf = text::first_from(buffer, "\n\n"@, 0);
    let crlf = text::first_from(buffer, "\r\n\r\n"@, 0);
    match (lf, crlf) {
        (Some(a), Some(b)) => if a <= b {
            Some((a, 2))
        } else {
            Some((b, 4))
        },
        (Some(a), None) => Some((a, 2)),
        (None, Some(b)) => Some((b, 4)),
        (None, None) => None,
    }
}

/// The first event of a buffer, and what follows it.
pub open spec fn first_event(buffer: Seq<char>) -> Option<(Seq<char>, Seq<char>)> {
    match event_end(buffer) {
        Some((at, len)) => Some((buffer.take(at), buffer.skip(at + len))),
        None => None,
    }
}

/// The first line of a buffer, without its end, and what follows it.
pub open spec fn first_line(buffer: Seq<char>) -> Option<(Seq<char>, Seq<char>)> {
    match text::first_from(buffer, "\n"@, 0) {
        Some(at) => Some(
            (text::without_carriage_return(buffer.take(at)), buffer.skip(at + 1)),
        ),
        None => None,
    }
}

proof fn lemma_separators()
    ensures
        "\n"@ == seq!['\n'],
        "\n\n"@ == seq!['\n', '\n'],
        "\r\n\r\n"@ == seq!['\r', '\n', '\r', '\n'],
{
    reveal_strlit("\n");
    reveal_strlit("\n\n");
    reveal_strlit("\r\n\r\n");
    assert("\n"@ =~= seq!['\n']);
    assert("\n\n"@ =~= seq!['\n', '\n']);
    assert("\r\n\r\n"@ =~= seq!['\r', '\n', '\r', '\n']);
}

/// Takes the first event out of a buffer, where it is complete.
pub fn next_sse_event(buffer: &mut String) -> (r: Option<String>)
    ensures
        match first_event(old(buffer)@) {
            Some((event, rest)) => r is Some && r->0@ == event && final(buffer)@ == rest,
            None => r is None && final(buffer)@ == old(buffer)@,
        },
{
    let chars: Vec<char> = text::chars_of(buffer.as_str());
    let blank: Vec<char> = text::chars_of("\n\n");
    let wide: Vec<char> = text::chars_of("\r\n\r\n");
    proof {
        lemma_separators();
    }
    let lf: Option<usize> = text::find_from(&chars, &blank, 0);
    let crlf: Option<usize> = text::find_from(&chars, &wide, 0);
    let (at, len): (usize, usize) = match (lf, crlf) {
        (Some(a), Some(b)) => if a <= b {
            (a, 2)
        } else {
            (b, 4)
        },
        (Some(a), None) => (a, 2),
        (None, Some(b)) => (b, 4),
        (None, None) => {
            return None;
        },
    };
    let event: String = text::text_of(&chars, 0, at);
    let rest: String = text::text_of(&chars, at + len, chars.len());
    assert(event@ =~= buffer@.take(at as int));
    assert(rest@ =~= buffer@.skip(at + len));
    *buffer = rest;
    Some(event)
}

/// Takes the first line out of a buffer, where it is complete.
pub fn next_ndjson_line(buffer: &mut String) -> (r: Option<String>)
    ensures
        match first_line(old(buffer)@) {
            Some((line, rest)) => r is Some && r->0@ == line && final(buffer)@ == rest,
            None => r is None && final(buffer)@ == old(buffer)@,
        },
{
    let chars: Vec<char> = text::chars_of(buffer.as_str());
    let total: usize = chars.len();
    proof {
        lemma_separators();
    }
    match text::find_char(&chars, '\n', 0) {
        Some(at) => {
            let end: usize = if 0 < at && chars[at - 1] == '\r' {
                at - 1
            } else {
                at
            };
            let line: String = text::text_of(&chars, 0, end);
            let rest: String = text::text_of(&chars, at + 1, total);
            proof {
                text::lemma_first_char(buffer@, '\n', 0, Some(at as int));
                assert(line@ =~= text::without_carriage_return(buffer@.take(at as int)));
                assert(rest@ =~= buffer@.skip(at + 1));
            }
            *buffer = rest;
            Some(line)
        },
        None => {
            proof {
                text::lemma_first_char(buffer@, '\n', 0, None);
            }
            None
        },
    }
}

// ---------------------------------------------------------------------------
// Laws
// ---------------------------------------------------------------------------

/// A pattern stands in the front part of a text exactly where it stands in the text
/// and ends within that part.
proof fn lemma_occurs_in_front(s: Seq<char>, more: Seq<char>, pat: Seq<char>, i: int)
    ensures
        text::occurs_at(s, pat, i) <==> text::occurs_at(s + more, pat, i) && i + pat.len()
            <= s.len(),
{
    if 0 <= i && i + pat.len() <= s.len() {
        assert((s + more).subrange(i, i + pat.len()) =~= s.subrange(i, i + pat.len()));
    }
}

/// Where a pattern stands in a text, it stands first at the same place when more text
/// follows.
proof fn lemma_first_stays(s: Seq<char>, more: Seq<char>, pat: Seq<char>)
    ensures
        text::first_from(s, pat, 0) is Some ==> text::first_from(s + more, pat, 0)
            == text::first_from(s, pat, 0),
        text::first_from(s, pat, 0) is None ==> (text::first_from(s + more, pat, 0) is None
            || text::first_from(s + more, pat, 0)->0 + pat.len() > s.len()),
{
    text::first_from_is_the_least(s, pat, 0);
    text::first_from_is_the_least(s + more, pat, 0);
    match text::first_from(s, pat, 0) {
        Some(i) => {
            lemma_occurs_in_front(s, more, pat, i);
            assert forall|j: int| 0 <= j < i implies !#[trigger] text::occurs_at(
                s + more,
                pat,
                j,
            ) by {
                lemma_occurs_in_front(s, more, pat, j);
                assert(!text::occurs_at(s, pat, j));
            }
            text::lemma_first_from_is(s + more, pat, 0, i);
        },
        None => {
            if let Some(j) = text::first_from(s + more, pat, 0) {
                lemma_occurs_in_front(s, more, pat, j);
                assert(!text::occurs_at(s, pat, j));
            }
        },
    }
}

/// What arrives later does not change an event that is complete: it only adds to what
/// follows it.
pub proof fn complete_events_stay(buffer: Seq<char>, more: Seq<char>)
    requires
        first_event(buffer) is Some,
    ensures
        ({
            let (event, rest) = first_event(buffer)->0;
            first_event(buffer + more) == Some((event, rest + more))
        }),
{
    let whole = buffer + more;
    let lf = "\n\n"@;
    let crlf = "\r\n\r\n"@;
    lemma_separators();
    lemma_first_stays(buffer, more, lf);
    lemma_first_stays(buffer, more, crlf);
    text::first_from_is_the_least(buffer, lf, 0);
    text::first_from_is_the_least(buffer, crlf, 0);
    text::first_from_is_the_least(whole, lf, 0);
    text::first_from_is_the_least(whole, crlf, 0);
    let (at, len) = event_end(buffer)->0;
    if text::first_from(buffer, lf, 0) is None && text::first_from(whole, lf, 0) is Some {
        let j = text::first_from(whole, lf, 0)->0;
        assert(j + 2 > buffer.len());
    }
    if text::first_from(buffer, crlf, 0) is None && text::first_from(whole, crlf, 0) is Some {
        let j = text::first_from(whole, crlf, 0)->0;
        assert(j + 4 > buffer.len());
        // The event ends with two line feeds, at or after the carriage return.
        if j < at {
            assert(whole.subrange(j, j + 4) == crlf);
            assert(whole.subrange(at, at + 2) == lf) by {
                lemma_occurs_in_front(buffer, more, lf, at);
            }
            assert(whole[at] == whole.subrange(at, at + 2)[0]);
            assert(whole[at + 1] == whole.subrange(at, at + 2)[1]);
            assert(whole[j] == whole.subrange(j, j + 4)[0]);
            assert(whole[j + 1] == whole.subrange(j, j + 4)[1]);
            assert(whole[j + 2] == whole.subrange(j, j + 4)[2]);
            assert(whole[j + 3] == whole.subrange(j, j + 4)[3]);
            assert(at == j + 1 || at == j + 2 || at == j + 3);
            assert(false);
        }
    }
    assert(event_end(whole) == Some((at, len)));
    assert(whole.take(at) =~= buffer.take(at));
    assert(whole.skip(at + len) =~= buffer.skip(at + len) + more);
}

/// What arrives later does not change a line that is complete: it only adds to what
/// follows it.
pub proof fn complete_lines_stay(buffer: Seq<char>, more: Seq<char>)
    requires
        first_line(buffer) is Some,
    ensures
        ({
            let (line, rest) = first_line(buffer)->0;
            first_line(buffer + more) == Some((line, rest + more))
        }),
{
    lemma_separators();
    lemma_first_stays(buffer, more, "\n"@);
    text::first_from_is_the_least(buffer, "\n"@, 0);
    let at = text::first_from(buffer, "\n"@, 0)->0;
    assert((buffer + more).take(at) =~= buffer.take(at));
    assert((buffer + more).skip(at + 1) =~= buffer.skip(at + 1) + more);
}

/// Nothing is lost when an event is taken out: the buffer was the event, an empty line
/// and what is left.
pub proof fn events_lose_nothing(buffer: Seq<char>)
    requires
        first_event(buffer) is Some,
    ensures
        ({
            let (event, rest) = first_event(buffer)->0;
            &&& buffer == event + "\n\n"@ + rest || buffer == event + "\r\n\r\n"@ + rest
            &&& rest.len() < buffer.len()
        }),
{
    lemma_separators();
    text::first_from_is_the_least(buffer, "\n\n"@, 0);
    text::first_from_is_the_least(buffer, "\r\n\r\n"@, 0);
    let (at, len) = event_end(buffer)->0;
    let (event, rest) = first_event(buffer)->0;
    if len == 2 {
        assert(buffer =~= event + buffer.subrange(at, at + 2) + rest);
    } else {
        assert(buffer =~= event + buffer.subrange(at, at + 4) + rest);
    }
}

/// Nothing is lost when a line is taken out, but the end of the line.
pub proof fn lines_lose_nothing(buffer: Seq<char>)
    requires
        first_line(buffer) is Some,
    ensures
        ({
            let (line, rest) = first_line(buffer)->0;
            &&& buffer == line + "\n"@ + rest || buffer == line + seq!['\r'] + "\n"@ + rest
            &&& rest.len() < buffer.len()
        }),
{
    lemma_separators();
    text::first_from_is_the_least(buffer, "\n"@, 0);
    let at = text::first_from(buffer, "\n"@, 0)->0;
    let (line, rest) = first_line(buffer)->0;
    let raw = buffer.take(at);
    assert(buffer =~= raw + buffer.subrange(at, at + 1) + rest);
    if raw.len() > 0 && raw.last() == '\r' {
        assert(raw =~= line + seq!['\r']);
    }
}

/// An event holds no empty line, and a line holds no line feed: the first end that is
/// there is the one that counts.
pub proof fn pieces_hold_no_end(buffer: Seq<char>)
    ensures
        first_event(buffer) matches Some((event, rest)) ==> !text::contains(event, "\n\n"@)
            && !text::contains(event, "\r\n\r\n"@),
        first_line(buffer) matches Some((line, rest)) ==> !text::contains(line, "\n"@),
{
    lemma_separators();
    text::first_from_is_the_least(buffer, "\n\n"@, 0);
    text::first_from_is_the_least(buffer, "\r\n\r\n"@, 0);
    text::first_from_is_the_least(buffer, "\n"@, 0);
    if let Some((at, len)) = event_end(buffer) {
        let event = buffer.take(at);
        let rest = buffer.skip(at);
        assert(buffer =~= event + rest);
        assert forall|i: int| !text::occurs_at(event, "\n\n"@, i) by {
            lemma_occurs_in_front(event, rest, "\n\n"@, i);
        }
        assert forall|i: int| !text::occurs_at(event, "\r\n\r\n"@, i) by {
            lemma_occurs_in_front(event, rest, "\r\n\r\n"@, i);
        }
    }
    if let Some(at) = text::first_from(buffer, "\n"@, 0) {
        let line = text::without_carriage_return(buffer.take(at));
        let rest = buffer.skip(line.len() as int);
        assert(line =~= buffer.take(line.len() as int));
        assert(buffer =~= line + rest);
        assert forall|i: int| !text::occurs_at(line, "\n"@, i) by {
            lemma_occurs_in_front(line, rest, "\n"@, i);
        }
    }
}

/// A buffer has an event exactly where it has an empty line, and a line exactly where it
/// has a line feed.
pub proof fn ended_pieces_are_taken(buffer: Seq<char>)
    ensures
        first_event(buffer) is Some <==> text::contains(buffer, "\n\n"@) || text::contains(
            buffer,
            "\r\n\r\n"@,
        ),
        first_line(buffer) is Some <==> text::contains(buffer, "\n"@),
{
    lemma_separators();
    text::first_from_is_the_least(buffer, "\n\n"@, 0);
    text::first_from_is_the_least(buffer, "\r\n\r\n"@, 0);
    text::first_from_is_the_least(buffer, "\n"@, 0);
}

/// An event is all that stands before the first empty line, and what is left is all that
/// stands behind it.
pub proof fn events_reach_to_the_first_empty_line(event: Seq<char>, rest: Seq<char>)
    requires
        !text::contains(event.push('\n'), "\n\n"@),
        !text::contains(event.push('\n'), "\r\n\r\n"@),
    ensures
        first_event(event + "\n\n"@ + rest) == Some((event, rest)),
{
    lemma_separators();
    let lf = "\n\n"@;
    let crlf = "\r\n\r\n"@;
    let whole = event + lf + rest;
    let at = event.len() as int;
    let front = event.push('\n');
    let back = whole.skip(at + 1);
    assert(whole =~= front + back);
    assert(whole.subrange(at, at + 2) =~= lf);
    assert forall|j: int| 0 <= j < at implies !#[trigger] text::occurs_at(whole, lf, j) by {
        lemma_occurs_in_front(front, back, lf, j);
        assert(!text::occurs_at(front, lf, j));
    }
    text::lemma_first_from_is(whole, lf, 0, at);
    text::first_from_is_the_least(whole, crlf, 0);
    if let Some(j) = text::first_from(whole, crlf, 0) {
        if j < at {
            lemma_occurs_in_front(front, back, crlf, j);
            assert(!text::occurs_at(front, crlf, j));
            assert(whole.subrange(j, j + 4) == crlf);
            assert(whole[j + 1] == whole.subrange(j, j + 4)[1]);
            assert(whole[j + 2] == whole.subrange(j, j + 4)[2]);
            assert(whole[at] == '\n' && whole[at + 1] == '\n');
            assert(false);
        }
    }
    assert(whole.take(at) =~= event);
    assert(whole.skip(at + 2) =~= rest);
}

/// The same holds of an empty line with carriage returns.
pub proof fn events_reach_to_the_first_wide_empty_line(event: Seq<char>, rest: Seq<char>)
    requires
        !text::contains(event, "\n\n"@),
        !text::contains(event + seq!['\r', '\n', '\r'], "\r\n\r\n"@),
    ensures
        first_event(event + "\r\n\r\n"@ + rest) == Some((event, rest)),
{
    lemma_separators();
    let lf = "\n\n"@;
    let crlf = "\r\n\r\n"@;
    let whole = event + crlf + rest;
    let at = event.len() as int;
    let front = event + seq!['\r', '\n', '\r'];
    let back = whole.skip(at + 3);
    assert(whole =~= front + back);
    assert(whole.subrange(at, at + 4) =~= crlf);
    assert forall|j: int| 0 <= j < at implies !#[trigger] text::occurs_at(whole, crlf, j) by {
        lemma_occurs_in_front(front, back, crlf, j);
        assert(!text::occurs_at(front, crlf, j));
    }
    text::lemma_first_from_is(whole, crlf, 0, at);
    text::first_from_is_the_least(whole, lf, 0);
    if let Some(j) = text::first_from(whole, lf, 0) {
        assert(whole.subrange(j, j + 2) == lf);
        assert(whole[j] == whole.subrange(j, j + 2)[0]);
        assert(whole[j + 1] == whole.subrange(j, j + 2)[1]);
        if j + 2 <= at {
            let tail = whole.skip(at);
            assert(whole =~= event + tail);
            lemma_occurs_in_front(event, tail, lf, j);
            assert(!text::occurs_at(event, lf, j));
        }
        assert(whole[at] == '\r');
        assert(whole[at + 2] == '\r');
        assert(j > at);
    }
    assert(whole.take(at) =~= event);
    assert(whole.skip(at + 4) =~= rest);
}

/// A line is all that stands before the first line feed, but for one carriage return at
/// its end, and what is left is all that stands behind it.
pub proof fn lines_reach_to_the_first_line_feed(line: Seq<char>, rest: Seq<char>)
    requires
        forall|i: int| 0 <= i < line.len() ==> #[trigger] line[i] != '\n',
    ensures
        first_line(line.push('\n') + rest) == Some(
            (
                if line.len() > 0 && line.last() == '\r' {
                    line.drop_last()
                } else {
                    line
                },
                rest,
            ),
        ),
{
    lemma_separators();
    let whole = line.push('\n') + rest;
    let at = line.len() as int;
    assert forall|j: int| 0 <= j < at implies whole[j] != '\n' by {
        assert(whole[j] == line[j]);
    }
    text::lemma_first_char(whole, '\n', 0, Some(at));
    assert(whole.take(at) =~= line);
    assert(whole.skip(at + 1) =~= rest);
}

}
