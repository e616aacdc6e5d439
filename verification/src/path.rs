//! File paths as text, with `/` as the only separator.
//!
//! A path is read as the components between its separators. Empty components and
//! `.` components are passed over, except a `.` at the start of a relative path.
use crate::text;
use vstd::prelude::*;
use vstd::string::*;

verus! {

/// Whether a path starts at the root.
pub open spec fn is_absolute(p: Seq<char>) -> bool {
    p.len() > 0 && p[0] == '/'
}

/// The end of the piece that starts at `from`: the next separator, or the end.
pub open spec fn piece_end(p: Seq<char>, from: int) -> int {
    match text::first_from(p, seq!['/'], from) {
        Some(i) => i,
        None => p.len() as int,
    }
}

/// Whether the piece at `from..to` counts as a component.
pub open spec fn is_component(p: Seq<char>, from: int, to: int) -> bool {
    from < to && (from == 0 || p.subrange(from, to) != seq!['.'])
}

/// Where the components at or after the start of a piece stand.
pub open spec fn spans_from(p: Seq<char>, from: int) -> Seq<(int, int)>
    decreases p.len() + 1 - from,
{
    if from < 0 || from >= p.len() {
        Seq::empty()
    } else {
        let end = piece_end(p, from);
        proof {
            text::first_from_is_the_least(p, seq!['/'], from);
        }
        let rest = spans_from(p, end + 1);
        if is_component(p, from, end) {
            seq![(from, end)] + rest
        } else {
            rest
        }
    }
}

/// Where the components of a path stand.
pub open spec fn spans(p: Seq<char>) -> Seq<(int, int)> {
    spans_from(p, 0)
}

/// The components of a path, without the root.
pub open spec fn components(p: Seq<char>) -> Seq<Seq<char>> {
    Seq::new(spans(p).len(), |i: int| p.subrange(spans(p)[i].0, spans(p)[i].1))
}

pub open spec fn span_views(v: Seq<(usize, usize)>) -> Seq<(int, int)> {
    Seq::new(v.len(), |i: int| (v[i].0 as int, v[i].1 as int))
}

/// Where the components of a path stand.
fn find_spans(p: &Vec<char>) -> (r: Vec<(usize, usize)>)
    ensures
        span_views(r@) == spans(p@),
        forall|i: int|
            0 <= i < r@.len() ==> (#[trigger] r@[i]).0 < r@[i].1 && r@[i].1 <= p@.len(),
        forall|i: int, j: int|
            0 <= i < j < r@.len() ==> (#[trigger] r@[i]).1 < (#[trigger] r@[j]).0,
{
    let total: usize = p.len();
    let mut out: Vec<(usize, usize)> = Vec::new();
    let mut from: usize = 0;
    assert(span_views(out@) + spans_from(p@, 0) =~= spans(p@));
    loop
        invariant
            total == p@.len(),
            from <= total,
            span_views(out@) + spans_from(p@, from as int) == spans(p@),
            forall|i: int|
                0 <= i < out@.len() ==> (#[trigger] out@[i]).0 < out@[i].1 && out@[i].1 <= p@.len()
                    && out@[i].1 < from,
            forall|i: int, j: int|
                0 <= i < j < out@.len() ==> (#[trigger] out@[i]).1 < (#[trigger] out@[j]).0,
        decreases total - from,
    {
        if from == total {
            assert(span_views(out@) + spans_from(p@, from as int) =~= span_views(out@));
            return out;
        }
        let found: Option<usize> = text::find_char(p, '/', from);
        let end: usize = match found {
            Some(i) => i,
            None => total,
        };
        proof {
            text::lemma_first_char(
                p@,
                '/',
                from as int,
                match found {
                    Some(i) => Some(i as int),
                    None => None,
                },
            );
            assert(piece_end(p@, from as int) == end);
        }
        let dot: bool = end - from == 1 && p[from] == '.';
        proof {
            let piece = p@.subrange(from as int, end as int);
            if dot {
                assert(piece =~= seq!['.']);
            } else if piece == seq!['.'] {
                assert(piece.len() == 1);
                assert(piece[0] == p@[from as int]);
            }
        }
        let ghost before = span_views(out@);
        if from < end && (from == 0 || !dot) {
            out.push((from, end));
            proof {
                assert(span_views(out@) =~= before.push((from as int, end as int)));
                assert(before + (seq![(from as int, end as int)] + spans_from(p@, end + 1))
                    =~= span_views(out@) + spans_from(p@, end + 1));
            }
        }
        if end == total {
            assert(spans_from(p@, end + 1) =~= Seq::<(int, int)>::empty());
            assert(span_views(out@) + Seq::<(int, int)>::empty() =~= span_views(out@));
            return out;
        }
        from = end + 1;
    }
}

/// Whether a path starts at the root.
pub fn is_absolute_path(path: &str) -> (r: bool)
    ensures
        r == is_absolute(path@),
{
    let chars: Vec<char> = text::chars_of(path);
    chars.len() > 0 && chars[0] == '/'
}

/// `p` seen from `base`: `p` itself where it is absolute, else appended to `base`.
pub open spec fn path_join(base: Seq<char>, p: Seq<char>) -> Seq<char> {
    if is_absolute(p) || base.len() == 0 {
        p
    } else if base.last() == '/' {
        base + p
    } else {
        base.push('/') + p
    }
}

/// `path` seen from `base`: `path` itself where it is absolute, else appended to
/// `base`.
pub fn join_path(base: &str, path: &str) -> (r: String)
    ensures
        r@ == path_join(base@, path@),
{
    let chars: Vec<char> = text::chars_of(base);
    if is_absolute_path(path) || chars.len() == 0 {
        return path.to_owned();
    }
    let mut out: String = base.to_owned();
    if chars[chars.len() - 1] != '/' {
        out.push('/');
    }
    out.append(path);
    out
}

/// The last component of a path, where it names something: `.` and `..` do not.
pub open spec fn path_file_name(p: Seq<char>) -> Option<Seq<char>> {
    let parts = components(p);
    if parts.len() == 0 || parts.last() == seq!['.'] || parts.last() == seq!['.', '.'] {
        None
    } else {
        Some(parts.last())
    }
}

/// The last component of a path, where it names something: `.` and `..` do not.
pub fn file_name(path: &str) -> (r: Option<String>)
    ensures
        match r {
            Some(name) => path_file_name(path@) == Some(name@),
            None => path_file_name(path@) is None,
        },
{
    let chars: Vec<char> = text::chars_of(path);
    let found: Vec<(usize, usize)> = find_spans(&chars);
    proof {
        assert(spans(path@).len() == found@.len());
    }
    if found.len() == 0 {
        return None;
    }
    let span: (usize, usize) = found[found.len() - 1];
    assert(span_views(found@)[found@.len() - 1] == (span.0 as int, span.1 as int));
    let ghost last = path@.subrange(span.0 as int, span.1 as int);
    assert(components(path@).last() == last);
    if span.1 - span.0 == 1 && chars[span.0] == '.' {
        assert(last =~= seq!['.']);
        return None;
    }
    if span.1 - span.0 == 2 && chars[span.0] == '.' && chars[span.0 + 1] == '.' {
        assert(last =~= seq!['.', '.']);
        return None;
    }
    proof {
        if last == seq!['.'] {
            assert(last.len() == 1 && last[0] == path@[span.0 as int]);
        }
        if last == seq!['.', '.'] {
            assert(last.len() == 2 && last[0] == path@[span.0 as int] && last[1] == path@[span.0
                + 1]);
        }
    }
    Some(text::text_of(&chars, span.0, span.1))
}

/// The path without its last component: nothing where it has none.
pub open spec fn path_parent(p: Seq<char>) -> Option<Seq<char>> {
    let n = spans(p).len() as int;
    if n == 0 {
        None
    } else if n == 1 {
        Some(
            if is_absolute(p) {
                seq!['/']
            } else {
                Seq::empty()
            },
        )
    } else {
        Some(p.take(spans(p)[n - 2].1))
    }
}

/// The path without its last component: nothing where it has none.
pub fn parent(path: &str) -> (r: Option<String>)
    ensures
        match r {
            Some(dir) => path_parent(path@) == Some(dir@),
            None => path_parent(path@) is None,
        },
{
    let chars: Vec<char> = text::chars_of(path);
    let found: Vec<(usize, usize)> = find_spans(&chars);
    assert(spans(path@).len() == found@.len());
    if found.len() == 0 {
        None
    } else if found.len() == 1 {
        let mut dir: String = String::new();
        if is_absolute_path(path) {
            dir.push('/');
            assert(dir@ =~= seq!['/']);
        }
        Some(dir)
    } else {
        let span: (usize, usize) = found[found.len() - 2];
        assert(span_views(found@)[found@.len() - 2] == (span.0 as int, span.1 as int));
        assert(path@.take(span.1 as int) =~= path@.subrange(0, span.1 as int));
        Some(text::text_of(&chars, 0, span.1))
    }
}

/// `p` up to the end of its last component.
pub open spec fn up_to_last(p: Seq<char>) -> Seq<char> {
    let n = spans(p).len() as int;
    if n > 0 {
        p.take(spans(p)[n - 1].1)
    } else if is_absolute(p) {
        seq!['/']
    } else {
        Seq::empty()
    }
}

/// What follows `base` in `p`, where the components of `base` are the first ones of
/// `p`: the text from the next component of `p` to its last.
pub open spec fn path_within(p: Seq<char>, base: Seq<char>) -> Option<Seq<char>> {
    let parts = components(p);
    let lead = components(base);
    if !is_absolute(base) && lead.len() == 0 {
        Some(up_to_last(p))
    } else if is_absolute(p) == is_absolute(base) && lead.is_prefix_of(parts) {
        Some(
            if lead.len() < parts.len() {
                p.subrange(spans(p)[lead.len() as int].0, spans(p)[parts.len() - 1].1)
            } else {
                Seq::empty()
            },
        )
    } else {
        None
    }
}

/// Whether two stretches of text are the same.
fn same_stretch(a: &Vec<char>, from: (usize, usize), b: &Vec<char>, to: (usize, usize)) -> (r: bool)
    requires
        from.0 <= from.1 <= a@.len(),
        to.0 <= to.1 <= b@.len(),
    ensures
        r == (a@.subrange(from.0 as int, from.1 as int) == b@.subrange(to.0 as int, to.1 as int)),
{
    if from.1 - from.0 != to.1 - to.0 {
        assert(a@.subrange(from.0 as int, from.1 as int).len() != b@.subrange(
            to.0 as int,
            to.1 as int,
        ).len());
        return false;
    }
    let len: usize = from.1 - from.0;
    let mut k: usize = 0;
    while k < len
        invariant
            k <= len,
            len == from.1 - from.0,
            len == to.1 - to.0,
            from.1 <= a@.len(),
            to.1 <= b@.len(),
            forall|j: int|
                0 <= j < k ==> #[trigger] a@.subrange(from.0 as int, from.1 as int)[j]
                    == b@.subrange(to.0 as int, to.1 as int)[j],
        decreases len - k,
    {
        if a[from.0 + k] != b[to.0 + k] {
            assert(a@.subrange(from.0 as int, from.1 as int)[k as int] != b@.subrange(
                to.0 as int,
                to.1 as int,
            )[k as int]);
            return false;
        }
        k += 1;
    }
    assert(a@.subrange(from.0 as int, from.1 as int) =~= b@.subrange(to.0 as int, to.1 as int));
    true
}

/// What follows `base` in `path`, where the components of `base` are the first ones
/// of `path`.
pub fn strip_base(path: &str, base: &str) -> (r: Option<String>)
    ensures
        match r {
            Some(rest) => path_within(path@, base@) == Some(rest@),
            None => path_within(path@, base@) is None,
        },
{
    let p: Vec<char> = text::chars_of(path);
    let b: Vec<char> = text::chars_of(base);
    let parts: Vec<(usize, usize)> = find_spans(&p);
    let lead: Vec<(usize, usize)> = find_spans(&b);
    assert(spans(path@).len() == parts@.len());
    assert(spans(base@).len() == lead@.len());
    let base_absolute: bool = is_absolute_path(base);
    if !base_absolute && lead.len() == 0 {
        if parts.len() > 0 {
            let span: (usize, usize) = parts[parts.len() - 1];
            assert(span_views(parts@)[parts@.len() - 1] == (span.0 as int, span.1 as int));
            assert(path@.take(span.1 as int) =~= path@.subrange(0, span.1 as int));
            return Some(text::text_of(&p, 0, span.1));
        }
        let mut root: String = String::new();
        if is_absolute_path(path) {
            root.push('/');
            assert(root@ =~= seq!['/']);
        }
        return Some(root);
    }
    if is_absolute_path(path) != base_absolute || parts.len() < lead.len() {
        return None;
    }
    let mut k: usize = 0;
    while k < lead.len()
        invariant
            k <= lead@.len() <= parts@.len(),
            p@ == path@,
            b@ == base@,
            span_views(parts@) == spans(path@),
            span_views(lead@) == spans(base@),
            forall|i: int|
                0 <= i < parts@.len() ==> (#[trigger] parts@[i]).0 < parts@[i].1 && parts@[i].1
                    <= p@.len(),
            forall|i: int|
                0 <= i < lead@.len() ==> (#[trigger] lead@[i]).0 < lead@[i].1 && lead@[i].1
                    <= b@.len(),
            is_absolute(base@) || lead@.len() > 0,
            forall|i: int| 0 <= i < k ==> components(base@)[i] == components(path@)[i],
        decreases lead@.len() - k,
    {
        assert(span_views(parts@)[k as int] == (parts@[k as int].0 as int, parts@[k as int].1 as int));
        assert(span_views(lead@)[k as int] == (lead@[k as int].0 as int, lead@[k as int].1 as int));
        if !same_stretch(&b, lead[k], &p, parts[k]) {
            assert(components(base@)[k as int] != components(path@)[k as int]);
            assert(!components(base@).is_prefix_of(components(path@)));
            return None;
        }
        k += 1;
    }
    assert(components(base@) =~= components(path@).take(lead@.len() as int));
    if lead.len() < parts.len() {
        let first: (usize, usize) = parts[lead.len()];
        let last: (usize, usize) = parts[parts.len() - 1];
        assert(span_views(parts@)[lead@.len() as int] == (first.0 as int, first.1 as int));
        assert(span_views(parts@)[parts@.len() - 1] == (last.0 as int, last.1 as int));
        Some(text::text_of(&p, first.0, last.1))
    } else {
        Some(String::new())
    }
}

/// The components of a path, without the root.
pub fn path_components(path: &str) -> (r: Vec<String>)
    ensures
        text::strings(r@) == components(path@),
{
    let chars: Vec<char> = text::chars_of(path);
    let found: Vec<(usize, usize)> = find_spans(&chars);
    assert(spans(path@).len() == found@.len());
    let mut out: Vec<String> = Vec::new();
    let mut k: usize = 0;
    while k < found.len()
        invariant
            k <= found@.len(),
            chars@ == path@,
            span_views(found@) == spans(path@),
            forall|i: int|
                0 <= i < found@.len() ==> (#[trigger] found@[i]).0 < found@[i].1 && found@[i].1
                    <= chars@.len(),
            out@.len() == k,
            forall|i: int| 0 <= i < k ==> (#[trigger] out@[i])@ == components(path@)[i],
        decreases found@.len() - k,
    {
        let span: (usize, usize) = found[k];
        assert(span_views(found@)[k as int] == (span.0 as int, span.1 as int));
        out.push(text::text_of(&chars, span.0, span.1));
        k += 1;
    }
    assert(text::strings(out@) =~= components(path@));
    out
}

/// Whether two paths are the same: separators that are repeated or stand at the end, and
/// `.` components that are passed over, make no difference.
pub open spec fn same_path(a: Seq<char>, b: Seq<char>) -> bool {
    is_absolute(a) == is_absolute(b) && components(a) == components(b)
}

/// Whether two paths are the same.
pub fn is_same_path(a: &str, b: &str) -> (r: bool)
    ensures
        r == same_path(a@, b@),
{
    let left: Vec<String> = path_components(a);
    let right: Vec<String> = path_components(b);
    assert(components(a@).len() == text::strings(left@).len());
    assert(components(b@).len() == text::strings(right@).len());
    if is_absolute_path(a) != is_absolute_path(b) || left.len() != right.len() {
        return false;
    }
    let mut i: usize = 0;
    while i < left.len()
        invariant
            i <= left@.len(),
            left@.len() == right@.len(),
            text::strings(left@) == components(a@),
            text::strings(right@) == components(b@),
            forall|j: int| 0 <= j < i ==> #[trigger] components(a@)[j] == components(b@)[j],
        decreases left@.len() - i,
    {
        assert(components(a@)[i as int] == left@[i as int]@);
        assert(components(b@)[i as int] == right@[i as int]@);
        if !text::same_text(left[i].as_str(), right[i].as_str()) {
            return false;
        }
        i += 1;
    }
    assert(components(a@) =~= components(b@));
    true
}

// ---------------------------------------------------------------------------
// Laws
// ---------------------------------------------------------------------------

/// Whether a text is a component by itself.
pub open spec fn is_plain(part: Seq<char>) -> bool {
    part.len() > 0 && forall|i: int| 0 <= i < part.len() ==> #[trigger] part[i] != '/'
}

/// What the components at or after the start of a piece say.
spec fn pieces_from(p: Seq<char>, from: int) -> Seq<Seq<char>> {
    let found = spans_from(p, from);
    Seq::new(found.len(), |i: int| p.subrange(found[i].0, found[i].1))
}

/// The components of a path are plain, and only the first one of a relative path can be
/// `.`.
proof fn lemma_pieces_are_plain(p: Seq<char>, from: int)
    requires
        0 <= from,
    ensures
        forall|i: int| 0 <= i < pieces_from(p, from).len() ==> is_plain(#[trigger] pieces_from(p, from)[i]),
        forall|i: int|
            0 <= i < pieces_from(p, from).len() && (i > 0 || from > 0 || is_absolute(p))
                ==> #[trigger] pieces_from(p, from)[i] != seq!['.'],
    decreases p.len() + 1 - from,
{
    if from < p.len() {
        let end = piece_end(p, from);
        let slash = seq!['/'];
        text::first_from_is_the_least(p, slash, from);
        assert(from <= end <= p.len()) by {
            if let Some(i) = text::first_from(p, slash, from) {
                text::lemma_occurs_char(p, '/', i);
            }
        }
        lemma_pieces_are_plain(p, end + 1);
        let rest = pieces_from(p, end + 1);
        let whole = pieces_from(p, from);
        let piece = p.subrange(from, end);
        assert forall|i: int| 0 <= i < piece.len() implies #[trigger] piece[i] != '/' by {
            assert(piece[i] == p[from + i]);
            if p[from + i] == '/' {
                text::lemma_occurs_char(p, '/', from + i);
                assert(text::occurs_at(p, slash, from + i));
            }
        }
        if is_component(p, from, end) {
            assert(whole =~= seq![piece] + rest);
            if from == 0 && is_absolute(p) {
                text::lemma_occurs_char(p, '/', 0);
                text::lemma_first_from_is(p, slash, 0, 0);
            }
        } else {
            assert(whole =~= rest);
        }
        assert forall|i: int| 0 <= i < whole.len() implies is_plain(#[trigger] whole[i]) by {
            if is_component(p, from, end) && i > 0 {
                assert(whole[i] == rest[i - 1]);
            }
        }
        assert forall|i: int|
            0 <= i < whole.len() && (i > 0 || from > 0 || is_absolute(p)) implies #[trigger] whole[i]
            != seq!['.'] by {
            if is_component(p, from, end) && i > 0 {
                assert(whole[i] == rest[i - 1]);
            } else if !is_component(p, from, end) {
                assert(whole[i] == rest[i]);
            }
        }
    }
}

/// A joined list starts with its first part.
pub(crate) proof fn lemma_joined_first(parts: Seq<Seq<char>>, sep: Seq<char>)
    requires
        parts.len() > 1,
    ensures
        text::joined(parts, sep) == parts[0] + sep + text::joined(parts.drop_first(), sep),
    decreases parts.len(),
{
    let rest = parts.drop_first();
    if parts.len() == 2 {
        assert(parts.drop_last() =~= seq![parts[0]]);
        assert(text::joined(parts.drop_last(), sep) == parts[0]);
        assert(text::joined(rest, sep) == parts[1]);
    } else {
        lemma_joined_first(parts.drop_last(), sep);
        assert(parts.drop_last().drop_first() =~= rest.drop_last());
        assert(text::joined(parts, sep) =~= parts[0] + sep + text::joined(rest, sep));
    }
}

/// Joined parts are read as the same parts.
proof fn lemma_joined_reads_back(p: Seq<char>, from: int, parts: Seq<Seq<char>>)
    requires
        0 <= from <= p.len(),
        p.skip(from) == text::joined(parts, seq!['/']),
        forall|i: int| 0 <= i < parts.len() ==> is_plain(#[trigger] parts[i]),
        forall|i: int|
            0 <= i < parts.len() && (i > 0 || from > 0) ==> #[trigger] parts[i] != seq!['.'],
    ensures
        pieces_from(p, from) == parts,
    decreases parts.len(),
{
    let slash = seq!['/'];
    if parts.len() == 0 {
        assert(p.skip(from).len() == 0);
        assert(pieces_from(p, from) =~= parts);
    } else {
        let first = parts[0];
        let end = from + first.len();
        let rest = parts.drop_first();
        let tail = p.skip(from);
        if parts.len() > 1 {
            lemma_joined_first(parts, slash);
            assert(tail =~= first + slash + text::joined(rest, slash));
            assert(p.skip(end + 1) =~= tail.skip(first.len() as int + 1));
            assert(tail.skip(first.len() as int + 1) =~= text::joined(rest, slash));
            assert(p[end] == tail[first.len() as int]);
        }
        assert forall|j: int| 0 <= j < first.len() implies p[from + j] == first[j] by {
            assert(p[from + j] == tail[j]);
        }
        assert(p.subrange(from, end) =~= first);
        assert forall|j: int| from <= j < end implies p[j] != '/' by {
            assert(p[j] == first[j - from]);
        }
        text::lemma_first_char(
            p,
            '/',
            from,
            if parts.len() > 1 {
                Some(end)
            } else {
                None
            },
        );
        assert(piece_end(p, from) == end);
        assert(is_component(p, from, end));
        let later = pieces_from(p, end + 1);
        if parts.len() > 1 {
            assert forall|i: int| 0 <= i < rest.len() implies is_plain(#[trigger] rest[i]) by {
                assert(rest[i] == parts[i + 1]);
            }
            assert forall|i: int|
                0 <= i < rest.len() && (i > 0 || end + 1 > 0) implies #[trigger] rest[i] != seq![
                '.',
            ] by {
                assert(rest[i] == parts[i + 1]);
            }
            lemma_joined_reads_back(p, end + 1, rest);
        } else {
            assert(rest =~= Seq::<Seq<char>>::empty());
            assert(later =~= rest);
        }
        assert(pieces_from(p, from) =~= seq![first] + later);
        assert(parts =~= seq![first] + rest);
    }
}

/// The first components of a path, joined again, are a path of these components: it
/// starts at the root exactly where the whole path does.
pub proof fn leading_components_read_back(p: Seq<char>, count: int)
    requires
        0 <= count <= components(p).len(),
        is_absolute(p) || count > 0,
    ensures
        ({
            let lead = text::joined(components(p).take(count), "/"@);
            let again = if is_absolute(p) {
                "/"@ + lead
            } else {
                lead
            };
            &&& components(again) == components(p).take(count)
            &&& is_absolute(again) == is_absolute(p)
        }),
{
    reveal_strlit("/");
    assert("/"@ =~= seq!['/']);
    let slash = seq!['/'];
    let parts = components(p);
    let lead = parts.take(count);
    assert(parts =~= pieces_from(p, 0));
    lemma_pieces_are_plain(p, 0);
    assert forall|i: int| 0 <= i < lead.len() implies is_plain(#[trigger] lead[i]) by {
        assert(lead[i] == pieces_from(p, 0)[i]);
    }
    assert forall|i: int| 0 <= i < lead.len() && (i > 0 || is_absolute(p)) implies #[trigger] lead[i]
        != seq!['.'] by {
        assert(lead[i] == pieces_from(p, 0)[i]);
    }
    let text = text::joined(lead, slash);
    if is_absolute(p) {
        let again = slash + text;
        assert(again.skip(1) =~= text);
        lemma_joined_reads_back(again, 1, lead);
        assert(again[0] == '/');
        text::lemma_first_char(again, '/', 0, Some(0int));
        assert(piece_end(again, 0) == 0);
        assert(components(again) =~= pieces_from(again, 1));
    } else {
        assert(text.skip(0) =~= text);
        lemma_joined_reads_back(text, 0, lead);
        assert(components(text) =~= pieces_from(text, 0));
        assert(is_plain(lead[0]));
        if count > 1 {
            lemma_joined_first(lead, slash);
        }
        assert(text[0] == lead[0][0]);
    }
}

// What the components of a piece and of those behind it say depends on the text from
// there on alone.
proof fn lemma_pieces_shift(p: Seq<char>, a: int, q: Seq<char>, b: int)
    requires
        0 < a <= p.len(),
        0 < b <= q.len(),
        p.skip(a) == q.skip(b),
    ensures
        pieces_from(p, a) == pieces_from(q, b),
    decreases p.len() - a,
{
    let slash = seq!['/'];
    assert(p.skip(a).len() == p.len() - a);
    assert(q.skip(b).len() == q.len() - b);
    if a < p.len() {
        assert forall|j: int| a <= j < p.len() implies p[j] == q[j - a + b] by {
            assert(p[j] == p.skip(a)[j - a]);
            assert(q[j - a + b] == q.skip(b)[j - a]);
        }
        text::first_from_is_the_least(p, slash, a);
        let end = piece_end(p, a);
        let other = end - a + b;
        assert forall|j: int| a <= j < end implies p[j] != '/' by {
            if p[j] == '/' {
                text::lemma_occurs_char(p, '/', j);
                assert(text::occurs_at(p, slash, j));
            }
        }
        assert forall|j: int| b <= j < other implies q[j] != '/' by {
            assert(p[j - b + a] == q[j]);
        }
        match text::first_from(p, slash, a) {
            Some(i) => {
                text::lemma_occurs_char(p, '/', i);
                text::lemma_first_char(q, '/', b, Some(other));
                assert(p.skip(end + 1) =~= p.skip(a).skip(end + 1 - a));
                assert(q.skip(other + 1) =~= q.skip(b).skip(end + 1 - a));
                lemma_pieces_shift(p, end + 1, q, other + 1);
            },
            None => {
                text::lemma_first_char(q, '/', b, None);
                assert(pieces_from(p, end + 1) =~= pieces_from(q, other + 1));
            },
        }
        assert(piece_end(q, b) == other);
        let piece = p.subrange(a, end);
        assert(piece =~= q.subrange(b, other));
        let rest = pieces_from(p, end + 1);
        if is_component(p, a, end) {
            assert(pieces_from(p, a) =~= seq![piece] + rest);
            assert(pieces_from(q, b) =~= seq![piece] + rest);
        } else {
            assert(pieces_from(p, a) =~= rest);
            assert(pieces_from(q, b) =~= rest);
        }
    } else {
        assert(pieces_from(p, a) =~= pieces_from(q, b));
    }
}

// What is read of a piece that stands before a separator, or at the end.
proof fn lemma_piece_is_read(p: Seq<char>, from: int, piece: Seq<char>, last: bool)
    requires
        0 <= from,
        from + piece.len() + (if last {
            0int
        } else {
            1int
        }) <= p.len(),
        last ==> from + piece.len() == p.len(),
        p.subrange(from, from + piece.len()) == piece,
        forall|i: int| 0 <= i < piece.len() ==> #[trigger] piece[i] != '/',
        !last ==> p[from + piece.len()] == '/',
    ensures
        pieces_from(p, from) == (if piece.len() > 0 && (from == 0 || piece != seq!['.']) {
            seq![piece]
        } else {
            Seq::<Seq<char>>::empty()
        }) + pieces_from(p, from + piece.len() + 1),
{
    let end = from + piece.len();
    let rest = pieces_from(p, end + 1);
    if from < p.len() {
        assert forall|j: int| from <= j < end implies p[j] != '/' by {
            assert(p[j] == p.subrange(from, end)[j - from]);
            assert(piece[j - from] != '/');
        }
        text::lemma_first_char(
            p,
            '/',
            from,
            if last {
                None
            } else {
                Some(end)
            },
        );
        assert(piece_end(p, from) == end);
        if is_component(p, from, end) {
            assert(pieces_from(p, from) =~= seq![piece] + rest);
        } else {
            assert(pieces_from(p, from) =~= Seq::<Seq<char>>::empty() + rest);
        }
    } else {
        assert(pieces_from(p, from) =~= Seq::<Seq<char>>::empty() + rest);
    }
}

proof fn lemma_rooted(rest: Seq<char>)
    ensures
        components(seq!['/'] + rest) == pieces_from(seq!['/'] + rest, 1),
{
    let p = seq!['/'] + rest;
    assert(p[0] == '/');
    text::lemma_first_char(p, '/', 0, Some(0int));
    assert(piece_end(p, 0) == 0);
    assert(components(p) =~= pieces_from(p, 1));
}

/// The components of a path are what stands between its separators, as it stands there.
/// Separators that are repeated, and `.` behind a separator, are passed over.
pub proof fn components_stand_between_separators(part: Seq<char>, rest: Seq<char>)
    requires
        is_plain(part),
    ensures
        components(Seq::empty()).len() == 0,
        components(part) == seq![part],
        components(part.push('/') + rest) == seq![part] + components(seq!['/'] + rest),
        components(seq!['/']).len() == 0,
        components(seq!['/'] + part) == (if part == seq!['.'] {
            Seq::empty()
        } else {
            seq![part]
        }),
        components(seq!['/'] + (part.push('/') + rest)) == (if part == seq!['.'] {
            components(seq!['/'] + rest)
        } else {
            seq![part] + components(seq!['/'] + rest)
        }),
        components(seq!['/'] + (seq!['/'] + rest)) == components(seq!['/'] + rest),
{
    let none = Seq::<Seq<char>>::empty();
    let root = seq!['/'];
    let rooted = root + rest;
    assert(components(Seq::<char>::empty()) =~= none);
    assert(rooted.skip(1) =~= rest);
    lemma_rooted(rest);
    // A part alone.
    assert(part.subrange(0, part.len() as int) =~= part);
    lemma_piece_is_read(part, 0, part, true);
    assert(pieces_from(part, part.len() as int + 1) =~= none);
    assert(components(part) =~= pieces_from(part, 0));
    assert(seq![part] + none =~= seq![part]);
    // A part and what follows.
    let first = part.push('/') + rest;
    let next = part.len() as int + 1;
    assert(first.subrange(0, part.len() as int) =~= part);
    lemma_piece_is_read(first, 0, part, false);
    assert(first.skip(next) =~= rest);
    lemma_pieces_shift(first, next, rooted, 1);
    assert(components(first) =~= pieces_from(first, 0));
    // The root alone.
    assert(root + Seq::<char>::empty() =~= root);
    lemma_rooted(Seq::empty());
    assert(pieces_from(root, 1) =~= none);
    // A part behind the root.
    let alone = root + part;
    lemma_rooted(part);
    assert(alone.subrange(1, 1int + part.len()) =~= part);
    lemma_piece_is_read(alone, 1, part, true);
    assert(pieces_from(alone, part.len() as int + 2) =~= none);
    assert(none + none =~= none);
    // A part behind the root and what follows.
    let deep = root + first;
    lemma_rooted(first);
    assert(deep.subrange(1, 1int + part.len()) =~= part);
    lemma_piece_is_read(deep, 1, part, false);
    assert(deep.skip(next + 1) =~= rest);
    lemma_pieces_shift(deep, next + 1, rooted, 1);
    assert(none + components(rooted) =~= components(rooted));
    // Two separators.
    let twice = root + rooted;
    lemma_rooted(rooted);
    assert(twice.subrange(1, 1) =~= Seq::<char>::empty());
    lemma_piece_is_read(twice, 1, Seq::empty(), false);
    assert(twice.skip(2) =~= rest);
    lemma_pieces_shift(twice, 2, rooted, 1);
}

/// A path is absolute where it starts with a separator.
pub proof fn absolute_paths_start_at_the_root(c: char, rest: Seq<char>)
    ensures
        is_absolute(seq![c] + rest) <==> c == '/',
        !is_absolute(Seq::empty()),
{
    assert((seq![c] + rest)[0] == c);
}

/// A path that is absolute is itself, wherever it is seen from. Another one stands behind
/// the base and one separator.
pub proof fn joined_paths_stand_behind_their_base(base: Seq<char>, p: Seq<char>)
    ensures
        path_join(base, seq!['/'] + p) == seq!['/'] + p,
        path_join(Seq::empty(), p) == p,
        !is_absolute(p) && base.len() > 0 && base.last() != '/' ==> path_join(base, p) == base
            + seq!['/'] + p,
        !is_absolute(p) ==> path_join(base.push('/'), p) == base + seq!['/'] + p,
{
    assert((seq!['/'] + p)[0] == '/');
    assert(base.push('/') =~= base + seq!['/']);
}

/// Paths are the same exactly where both or none start at the root and their components
/// are the same, in order.
pub proof fn same_paths_have_the_same_components(a: Seq<char>, b: Seq<char>)
    ensures
        same_path(a, b) <==> is_absolute(a) == is_absolute(b) && components(a).len() == components(
            b,
        ).len() && forall|i: int|
            0 <= i < components(a).len() ==> #[trigger] components(a)[i] == components(b)[i],
{
    if components(a).len() == components(b).len() && forall|i: int|
        0 <= i < components(a).len() ==> #[trigger] components(a)[i] == components(b)[i] {
        assert(components(a) =~= components(b));
    }
}

// A path up to the end of a component has the components up to that one.
proof fn lemma_spans_of_front(p: Seq<char>, from: int, k: int)
    requires
        0 <= from,
        0 <= k < spans_from(p, from).len(),
    ensures
        ({
            let end = spans_from(p, from)[k].1;
            &&& from < end <= p.len()
            &&& p[end - 1] != '/'
            &&& spans_from(p.take(end), from) == spans_from(p, from).take(k + 1)
        }),
    decreases p.len() + 1 - from,
{
    let slash = seq!['/'];
    text::first_from_is_the_least(p, slash, from);
    let stop = piece_end(p, from);
    assert forall|j: int| from <= j < stop implies p[j] != '/' by {
        if p[j] == '/' {
            text::lemma_occurs_char(p, '/', j);
            assert(text::occurs_at(p, slash, j));
        }
    }
    if let Some(i) = text::first_from(p, slash, from) {
        text::lemma_occurs_char(p, '/', i);
    }
    let all = spans_from(p, from);
    let rest = spans_from(p, stop + 1);
    let own = is_component(p, from, stop);
    if own && k == 0 {
        let q = p.take(stop);
        assert(all[0] == (from, stop));
        text::lemma_first_char(q, '/', from, None);
        assert(q.subrange(from, stop) =~= p.subrange(from, stop));
        assert(spans_from(q, stop + 1) =~= Seq::<(int, int)>::empty());
        assert(spans_from(q, from) =~= all.take(1));
    } else {
        let m = if own {
            k - 1
        } else {
            k
        };
        assert(all[k] == rest[m]);
        lemma_spans_of_front(p, stop + 1, m);
        let end = all[k].1;
        let q = p.take(end);
        text::lemma_first_char(q, '/', from, Some(stop));
        assert(q.subrange(from, stop) =~= p.subrange(from, stop));
        if own {
            assert(all.take(k + 1) =~= seq![(from, stop)] + rest.take(m + 1));
        } else {
            assert(all.take(k + 1) =~= rest.take(m + 1));
        }
    }
}

/// The parent of a path is its front: it has all components but the last, starts at the
/// root where the path does, and ends with its own last component. A path without
/// components has no parent.
pub proof fn parents_lack_the_last_component(p: Seq<char>)
    ensures
        components(p).len() == 0 <==> path_parent(p) is None,
        path_parent(p) matches Some(dir) ==> {
            &&& dir.is_prefix_of(p)
            &&& components(dir) == components(p).drop_last()
            &&& is_absolute(dir) == is_absolute(p)
            &&& dir.len() > 1 ==> dir.last() != '/'
        },
{
    let n = spans(p).len() as int;
    if n == 1 {
        let root = seq!['/'];
        assert(root + Seq::<char>::empty() =~= root);
        lemma_rooted(Seq::empty());
        assert(pieces_from(root, 1) =~= Seq::<Seq<char>>::empty());
        assert(components(p).drop_last() =~= Seq::<Seq<char>>::empty());
        assert(components(Seq::<char>::empty()) =~= Seq::<Seq<char>>::empty());
        if is_absolute(p) {
            assert(root =~= p.take(1));
        }
    } else if n > 1 {
        lemma_spans_of_front(p, 0, n - 2);
        let end = spans(p)[n - 2].1;
        let dir = p.take(end);
        assert(spans(dir) == spans(p).take(n - 1));
        assert forall|i: int| 0 <= i < n - 1 implies #[trigger] components(dir)[i]
            == components(p)[i] by {
            lemma_spans_of_front(p, 0, i);
            lemma_spans_end_in_order(p, 0, i, n - 2);
            let span = spans(p)[i];
            assert(dir.subrange(span.0, span.1) =~= p.subrange(span.0, span.1));
        }
        assert(components(dir) =~= components(p).drop_last());
        assert(dir[0] == p[0]);
    }
}

proof fn lemma_spans_end_in_order(p: Seq<char>, from: int, i: int, j: int)
    requires
        0 <= from,
        0 <= i <= j < spans_from(p, from).len(),
    ensures
        from <= spans_from(p, from)[i].0 <= spans_from(p, from)[i].1 <= spans_from(p, from)[j].1,
    decreases p.len() + 1 - from,
{
    let slash = seq!['/'];
    text::first_from_is_the_least(p, slash, from);
    let stop = piece_end(p, from);
    let rest = spans_from(p, stop + 1);
    if is_component(p, from, stop) {
        assert(spans_from(p, from)[0] == (from, stop));
        if i > 0 {
            lemma_spans_end_in_order(p, stop + 1, i - 1, j - 1);
            assert(spans_from(p, from)[i] == rest[i - 1]);
            assert(spans_from(p, from)[j] == rest[j - 1]);
        } else if j > 0 {
            lemma_spans_end_in_order(p, stop + 1, j - 1, j - 1);
            assert(spans_from(p, from)[j] == rest[j - 1]);
        }
    } else {
        lemma_spans_end_in_order(p, stop + 1, i, j);
    }
}

/// The name of a file is the last component of its path, where that names something.
pub proof fn file_names_come_last(p: Seq<char>)
    ensures
        path_file_name(p) == (if components(p).len() > 0 && components(p).last() != seq!['.']
            && components(p).last() != seq!['.', '.'] {
            Some(components(p).last())
        } else {
            None
        }),
{
}

// Joined parts stand where their components are read.
proof fn lemma_joined_spans(p: Seq<char>, from: int, parts: Seq<Seq<char>>, i: int)
    requires
        0 <= from <= p.len(),
        p.skip(from) == text::joined(parts, seq!['/']),
        0 <= i < parts.len(),
        forall|k: int| 0 <= k < parts.len() ==> is_plain(#[trigger] parts[k]),
        forall|k: int| 0 <= k < parts.len() ==> #[trigger] parts[k] != seq!['.'],
    ensures
        spans_from(p, from).len() == parts.len(),
        spans_from(p, from).last().1 == p.len(),
        p.subrange(spans_from(p, from)[i].0, p.len() as int) == text::joined(
            parts.skip(i),
            seq!['/'],
        ),
    decreases parts.len(),
{
    let slash = seq!['/'];
    let first = parts[0];
    let end = from + first.len();
    let rest = parts.drop_first();
    let tail = p.skip(from);
    if parts.len() > 1 {
        lemma_joined_first(parts, slash);
        assert(tail =~= first + slash + text::joined(rest, slash));
        assert(p.skip(end + 1) =~= tail.skip(first.len() as int + 1));
        assert(tail.skip(first.len() as int + 1) =~= text::joined(rest, slash));
        assert(p[end] == tail[first.len() as int]);
    }
    assert forall|j: int| from <= j < end implies p[j] == first[j - from] by {
        assert(p[j] == tail[j - from]);
    }
    assert(p.subrange(from, end) =~= first);
    assert(is_plain(parts[0]));
    text::lemma_first_char(
        p,
        '/',
        from,
        if parts.len() > 1 {
            Some(end)
        } else {
            None
        },
    );
    assert(piece_end(p, from) == end);
    assert(is_component(p, from, end));
    let later = spans_from(p, end + 1);
    assert(spans_from(p, from) == seq![(from, end)] + later);
    assert(p.subrange(from, p.len() as int) =~= tail);
    assert(parts.skip(0) =~= parts);
    if parts.len() > 1 {
        assert forall|k: int| 0 <= k < rest.len() implies is_plain(#[trigger] rest[k]) && rest[k]
            != seq!['.'] by {
            assert(rest[k] == parts[k + 1]);
        }
        let m = if i > 0 {
            i - 1
        } else {
            0
        };
        lemma_joined_spans(p, end + 1, rest, m);
        if i > 0 {
            assert(rest.skip(m) =~= parts.skip(i));
            assert(spans_from(p, from)[i] == later[m]);
        }
    } else {
        assert(later =~= Seq::<(int, int)>::empty());
    }
}

proof fn lemma_parts_make_a_path(parts: Seq<Seq<char>>, rooted: bool)
    requires
        rooted || parts.len() > 0,
        forall|k: int| 0 <= k < parts.len() ==> is_plain(#[trigger] parts[k]),
        forall|k: int| 0 <= k < parts.len() ==> #[trigger] parts[k] != seq!['.'],
    ensures
        ({
            let p = path_of(parts, rooted);
            &&& components(p) == parts
            &&& is_absolute(p) == rooted
            &&& spans(p) == spans_from(
                p,
                if rooted {
                    1
                } else {
                    0
                },
            )
        }),
{
    let slash = seq!['/'];
    let text = text::joined(parts, slash);
    let p = path_of(parts, rooted);
    if rooted {
        assert(p.skip(1) =~= text);
        lemma_joined_reads_back(p, 1, parts);
        lemma_rooted(text);
        assert(p[0] == '/');
        text::lemma_first_char(p, '/', 0, Some(0int));
        assert(piece_end(p, 0) == 0);
    } else {
        assert(p.skip(0) =~= p);
        lemma_joined_reads_back(p, 0, parts);
        assert(components(p) =~= pieces_from(p, 0));
        assert(is_plain(parts[0]));
        if parts.len() > 1 {
            lemma_joined_first(parts, slash);
        } else {
            assert(parts.drop_last().len() == 0);
            assert(text == parts[0]);
        }
        assert(p[0] == parts[0][0]);
    }
}

/// The path of parts, at the root or not.
pub open spec fn path_of(parts: Seq<Seq<char>>, rooted: bool) -> Seq<char> {
    if rooted {
        seq!['/'] + text::joined(parts, seq!['/'])
    } else {
        text::joined(parts, seq!['/'])
    }
}

/// Parts that are put together with separators are read as the same parts.
pub proof fn paths_read_back_as_their_parts(parts: Seq<Seq<char>>, rooted: bool)
    requires
        rooted || parts.len() > 0,
        forall|k: int| 0 <= k < parts.len() ==> is_plain(#[trigger] parts[k]),
        forall|k: int| 0 <= k < parts.len() ==> #[trigger] parts[k] != seq!['.'],
    ensures
        components(path_of(parts, rooted)) == parts,
        is_absolute(path_of(parts, rooted)) == rooted,
{
    lemma_parts_make_a_path(parts, rooted);
}

/// What follows a base in a path is the rest of the path, as it is written there. Nothing
/// follows a base that the path does not start with.
pub proof fn the_rest_follows_the_base(
    lead: Seq<Seq<char>>,
    rest: Seq<Seq<char>>,
    rooted: bool,
    base: Seq<char>,
    p: Seq<char>,
)
    requires
        rooted || lead.len() > 0,
        forall|k: int| 0 <= k < lead.len() ==> is_plain(#[trigger] lead[k]),
        forall|k: int| 0 <= k < lead.len() ==> #[trigger] lead[k] != seq!['.'],
        forall|k: int| 0 <= k < rest.len() ==> is_plain(#[trigger] rest[k]),
        forall|k: int| 0 <= k < rest.len() ==> #[trigger] rest[k] != seq!['.'],
    ensures
        path_within(path_of(lead + rest, rooted), path_of(lead, rooted)) == Some(
            text::joined(rest, seq!['/']),
        ),
        lead.len() + rest.len() > 0 ==> path_within(path_of(lead + rest, rooted), Seq::empty())
            == Some(path_of(lead + rest, rooted)),
        path_within(p, base) is None <==> (is_absolute(base) || components(base).len() > 0) && !(
        is_absolute(p) == is_absolute(base) && components(base).is_prefix_of(components(p))),
{
    let parts = lead + rest;
    assert forall|k: int| 0 <= k < parts.len() implies is_plain(#[trigger] parts[k]) && parts[k]
        != seq!['.'] by {
        if k < lead.len() {
            assert(parts[k] == lead[k]);
        } else {
            assert(parts[k] == rest[k - lead.len()]);
        }
    }
    let whole = path_of(parts, rooted);
    let from: int = if rooted {
        1
    } else {
        0
    };
    lemma_parts_make_a_path(parts, rooted);
    lemma_parts_make_a_path(lead, rooted);
    assert(whole.skip(from) =~= text::joined(parts, seq!['/']));
    assert(lead =~= parts.take(lead.len() as int));
    assert(components(Seq::<char>::empty()).len() == 0);
    if parts.len() > 0 {
        lemma_joined_spans(whole, from, parts, 0);
        assert(whole.take(whole.len() as int) =~= whole);
    }
    if rest.len() > 0 {
        lemma_joined_spans(whole, from, parts, lead.len() as int);
        assert(parts.skip(lead.len() as int) =~= rest);
    } else {
        assert(text::joined(rest, seq!['/']) =~= Seq::<char>::empty());
    }
}

// From the start of a component on, the components are that one and those behind it.
proof fn lemma_spans_of_back(p: Seq<char>, from: int, k: int)
    requires
        0 <= from,
        0 <= k < spans_from(p, from).len(),
    ensures
        ({
            let start = spans_from(p, from)[k].0;
            &&& from <= start < p.len()
            &&& p[start] != '/'
            &&& spans_from(p, start) == spans_from(p, from).skip(k)
        }),
    decreases p.len() + 1 - from,
{
    let slash = seq!['/'];
    text::first_from_is_the_least(p, slash, from);
    let stop = piece_end(p, from);
    let all = spans_from(p, from);
    let rest = spans_from(p, stop + 1);
    let own = is_component(p, from, stop);
    if own && k == 0 {
        assert(all[0] == (from, stop));
        assert(all.skip(0) =~= all);
        if p[from] == '/' {
            text::lemma_occurs_char(p, '/', from);
            assert(text::occurs_at(p, slash, from));
        }
    } else {
        let m = if own {
            k - 1
        } else {
            k
        };
        assert(all[k] == rest[m]);
        lemma_spans_of_back(p, stop + 1, m);
        assert(rest.skip(m) =~= all.skip(k));
    }
}

/// What follows a base in a path is a stretch of the path, as it is written there: it
/// starts with the first component behind the base and ends with the last component.
pub proof fn the_rest_is_a_stretch_of_the_path(p: Seq<char>, base: Seq<char>, rest: Seq<char>)
    requires
        path_within(p, base) == Some(rest),
        is_absolute(base) || components(base).len() > 0,
    ensures
        ({
            let lead = components(base).len() as int;
            &&& components(p).len() == lead ==> rest.len() == 0
            &&& components(p).len() > lead ==> {
                &&& exists|front: Seq<char>, back: Seq<char>| #[trigger] (front + rest + back) == p
                &&& components(seq!['/'] + rest) == components(p).skip(lead)
                &&& rest.len() > 0
                &&& rest[0] != '/'
                &&& rest.last() != '/'
            }
        }),
{
    let lead = components(base).len() as int;
    let n = spans(p).len() as int;
    if n > lead {
        let start = spans(p)[lead].0;
        let end = spans(p)[n - 1].1;
        lemma_spans_of_back(p, 0, lead);
        lemma_spans_of_front(p, 0, n - 1);
        lemma_spans_end_in_order(p, 0, lead, n - 1);
        assert(spans(p)[n - 1] == spans_from(p, start)[n - 1 - lead]);
        lemma_spans_of_front(p, start, n - 1 - lead);
        let q = p.take(end);
        assert(spans_from(p, start).take(n - lead) =~= spans_from(p, start));
        assert(spans_from(q, start) == spans(p).skip(lead));
        assert(p =~= p.take(start) + rest + p.skip(end));
        assert(start > 0) by {
            if start == 0 {
                lemma_spans_start(p, lead);
            }
        }
        let again = seq!['/'] + rest;
        assert(again.skip(1) =~= rest);
        assert(q.skip(start) =~= rest);
        lemma_pieces_shift(q, start, again, 1);
        lemma_rooted(rest);
        assert forall|i: int| 0 <= i < n - lead implies #[trigger] pieces_from(q, start)[i]
            == components(p)[lead + i] by {
            let span = spans(p)[lead + i];
            assert(spans_from(q, start)[i] == span);
            lemma_spans_end_in_order(p, 0, lead + i, n - 1);
            assert(q.subrange(span.0, span.1) =~= p.subrange(span.0, span.1));
        }
        assert(pieces_from(q, start) =~= components(p).skip(lead));
        assert(rest[0] == p[start]);
        assert(rest.last() == p[end - 1]);
    }
}

// Only the first component of a relative path stands at its start.
proof fn lemma_spans_start(p: Seq<char>, k: int)
    requires
        0 <= k < spans(p).len(),
    ensures
        spans(p)[k].0 == 0 ==> k == 0 && !is_absolute(p),
{
    let slash = seq!['/'];
    text::first_from_is_the_least(p, slash, 0);
    let stop = piece_end(p, 0);
    let rest = spans_from(p, stop + 1);
    if is_absolute(p) {
        text::lemma_first_char(p, '/', 0, Some(0int));
    }
    if is_component(p, 0, stop) {
        if k > 0 {
            assert(spans(p)[k] == rest[k - 1]);
            lemma_spans_of_back(p, stop + 1, k - 1);
        }
    } else {
        lemma_spans_of_back(p, stop + 1, k);
    }
}

/// Seen from nowhere, a path is itself, up to the end of its last component.
pub proof fn paths_are_whole_from_nowhere(p: Seq<char>)
    ensures
        path_within(p, Seq::empty()) matches Some(rest) && {
            &&& rest.is_prefix_of(p)
            &&& components(rest) == components(p)
            &&& is_absolute(rest) == is_absolute(p)
            &&& rest.len() > 1 ==> rest.last() != '/'
        },
{
    let n = spans(p).len() as int;
    assert(components(Seq::<char>::empty()).len() == 0);
    let rest = up_to_last(p);
    if n > 0 {
        lemma_spans_of_front(p, 0, n - 1);
        assert(spans(p).take(n) =~= spans(p));
        assert forall|i: int| 0 <= i < n implies #[trigger] components(rest)[i] == components(
            p,
        )[i] by {
            let span = spans(p)[i];
            lemma_spans_end_in_order(p, 0, i, n - 1);
            assert(rest.subrange(span.0, span.1) =~= p.subrange(span.0, span.1));
        }
        assert(components(rest) =~= components(p));
        assert(rest[0] == p[0]);
    } else {
        let root = seq!['/'];
        assert(root + Seq::<char>::empty() =~= root);
        lemma_rooted(Seq::empty());
        assert(pieces_from(root, 1) =~= Seq::<Seq<char>>::empty());
        assert(components(p) =~= Seq::<Seq<char>>::empty());
        assert(components(rest) =~= Seq::<Seq<char>>::empty());
        if is_absolute(p) {
            assert(root =~= p.take(1));
        } else {
            assert(rest =~= p.take(0));
        }
    }
}

}
