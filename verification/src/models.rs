//! The models that a provider offers.
use crate::text;
use vstd::prelude::*;
use vstd::string::*;

verus! {

// ---------------------------------------------------------------------------
// The order of texts
// ---------------------------------------------------------------------------

/// Whether `a` comes before `b`: at the first place where they differ it has the
/// smaller character, or it ends there.
pub open spec fn precedes(a: Seq<char>, b: Seq<char>) -> bool
    decreases a.len(),
{
    if b.len() == 0 {
        false
    } else if a.len() == 0 {
        true
    } else if a[0] == b[0] {
        precedes(a.drop_first(), b.drop_first())
    } else {
        (a[0] as int) < (b[0] as int)
    }
}

/// Whether texts stand in order, none of them twice.
pub open spec fn ascending(names: Seq<Seq<char>>) -> bool {
    forall|i: int, j: int|
        0 <= i < j < names.len() ==> precedes(#[trigger] names[i], #[trigger] names[j])
}

/// Of two different texts one comes before the other.
pub proof fn order_is_total(a: Seq<char>, b: Seq<char>)
    ensures
        a != b ==> precedes(a, b) != precedes(b, a),
        !precedes(a, a),
    decreases a.len(),
{
    if a.len() > 0 {
        order_is_total(a.drop_first(), a.drop_first());
    }
    if a.len() > 0 && b.len() > 0 && a[0] == b[0] {
        order_is_total(a.drop_first(), b.drop_first());
        if a.drop_first() == b.drop_first() {
            assert(a =~= seq![a[0]] + a.drop_first());
            assert(b =~= seq![b[0]] + b.drop_first());
        }
    } else if a.len() == 0 && b.len() == 0 {
        assert(a =~= b);
    }
}

/// What comes before a text comes before all that come after it.
pub proof fn order_carries_on(a: Seq<char>, b: Seq<char>, c: Seq<char>)
    requires
        precedes(a, b),
        precedes(b, c),
    ensures
        precedes(a, c),
    decreases a.len(),
{
    if a.len() > 0 && a[0] == b[0] && b[0] == c[0] {
        order_carries_on(a.drop_first(), b.drop_first(), c.drop_first());
    }
}

/// Whether `a` comes before `b`.
fn comes_before(a: &str, b: &str) -> (r: bool)
    ensures
        r == precedes(a@, b@),
{
    let left: Vec<char> = text::chars_of(a);
    let right: Vec<char> = text::chars_of(b);
    let mut i: usize = 0;
    assert(a@.skip(0) =~= a@);
    assert(b@.skip(0) =~= b@);
    while i < left.len() && i < right.len()
        invariant
            left@ == a@,
            right@ == b@,
            i <= left@.len(),
            i <= right@.len(),
            precedes(a@, b@) == precedes(a@.skip(i as int), b@.skip(i as int)),
        decreases left@.len() - i,
    {
        if left[i] != right[i] {
            return left[i] < right[i];
        }
        assert(a@.skip(i as int).drop_first() =~= a@.skip(i + 1));
        assert(b@.skip(i as int).drop_first() =~= b@.skip(i + 1));
        i += 1;
    }
    i < right.len()
}

/// Puts a name in its place, unless it is there already.
fn insert_name(names: &mut Vec<String>, name: String)
    requires
        ascending(text::strings(old(names)@)),
    ensures
        ascending(text::strings(final(names)@)),
        forall|s: Seq<char>| #[trigger]
            text::strings(final(names)@).contains(s) <==> s == name@ || text::strings(
                old(names)@,
            ).contains(s),
{
    let ghost before = text::strings(names@);
    let mut at: usize = 0;
    while at < names.len() && comes_before(names[at].as_str(), name.as_str())
        invariant
            at <= names@.len(),
            names@ == old(names)@,
            before == text::strings(names@),
            forall|i: int| 0 <= i < at ==> precedes(#[trigger] before[i], name@),
        decreases names@.len() - at,
    {
        at += 1;
    }
    if at < names.len() && text::same_text(names[at].as_str(), name.as_str()) {
        proof {
            assert(before[at as int] == name@);
            assert(before.contains(name@));
        }
        return;
    }
    names.insert(at, name);
    proof {
        let after = text::strings(names@);
        assert(after =~= before.insert(at as int, name@));
        assert forall|i: int, j: int| 0 <= i < j < after.len() implies precedes(
            #[trigger] after[i],
            #[trigger] after[j],
        ) by {
            if at < before.len() {
                order_is_total(before[at as int], name@);
            }
            if i == at {
                if j - 1 > at {
                    assert(precedes(before[at as int], before[j - 1]));
                    order_carries_on(name@, before[at as int], before[j - 1]);
                }
            } else if j == at {
                assert(after[i] == before[i]);
            } else {
                let p = if i < at {
                    i
                } else {
                    i - 1
                };
                let q = if j < at {
                    j
                } else {
                    j - 1
                };
                assert(after[i] == before[p]);
                assert(after[j] == before[q]);
                assert(precedes(before[p], before[q]));
            }
        }
        assert forall|s: Seq<char>| #[trigger] after.contains(s) <==> s == name@
            || before.contains(s) by {
            if after.contains(s) {
                let k = choose|k: int| 0 <= k < after.len() && after[k] == s;
                if k < at {
                    assert(before[k] == s);
                } else if k > at {
                    assert(before[k - 1] == s);
                }
            }
            if s == name@ {
                assert(after[at as int] == s);
            }
            if before.contains(s) {
                let k = choose|k: int| 0 <= k < before.len() && before[k] == s;
                if k < at {
                    assert(after[k] == s);
                } else {
                    assert(after[k + 1] == s);
                }
            }
        }
    }
}

/// The names in order, each once.
pub fn sorted_models(names: Vec<String>) -> (r: Vec<String>)
    ensures
        ascending(text::strings(r@)),
        forall|s: Seq<char>| #[trigger]
            text::strings(r@).contains(s) <==> text::strings(names@).contains(s),
{
    let ghost all = text::strings(names@);
    let mut out: Vec<String> = Vec::new();
    let mut i: usize = 0;
    while i < names.len()
        invariant
            i <= names@.len(),
            all == text::strings(names@),
            ascending(text::strings(out@)),
            forall|s: Seq<char>| #[trigger]
                text::strings(out@).contains(s) <==> all.take(i as int).contains(s),
        decreases names@.len() - i,
    {
        let ghost done = text::strings(out@);
        let name: String = names[i].clone();
        insert_name(&mut out, name);
        i += 1;
        proof {
            let taken = all.take(i as int);
            let before = all.take(i - 1);
            assert(taken =~= before.push(name@));
            assert forall|s: Seq<char>| #[trigger]
                text::strings(out@).contains(s) <==> taken.contains(s) by {
                if taken.contains(s) && s != name@ {
                    let k = choose|k: int| 0 <= k < taken.len() && taken[k] == s;
                    assert(before[k] == s);
                    assert(done.contains(s));
                }
                if s == name@ {
                    assert(taken[i - 1] == s);
                }
                if before.contains(s) {
                    let k = choose|k: int| 0 <= k < before.len() && before[k] == s;
                    assert(taken[k] == s);
                }
                assert(done.contains(s) <==> before.contains(s));
            }
        }
    }
    assert(all.take(names@.len() as int) =~= all);
    out
}

// ---------------------------------------------------------------------------
// LM Studio
// ---------------------------------------------------------------------------

/// A model of LM Studio.
pub struct LMStudioModelEntry {
    pub key: String,
    pub model_type: Option<String>,
}

/// Whether a model is one to chat with: embedding models are not.
pub open spec fn is_chat_model(entry: LMStudioModelEntry) -> bool {
    match entry.model_type {
        Some(kind) => kind@ != "embedding"@,
        None => true,
    }
}

/// The keys of the models to chat with.
pub open spec fn chat_models(entries: Seq<LMStudioModelEntry>) -> Seq<Seq<char>>
    decreases entries.len(),
{
    if entries.len() == 0 {
        Seq::empty()
    } else {
        let rest = chat_models(entries.drop_last());
        if is_chat_model(entries.last()) {
            rest.push(entries.last().key@)
        } else {
            rest
        }
    }
}

/// The keys of the models to chat with, in order, each once.
pub fn lmstudio_models(entries: Vec<LMStudioModelEntry>) -> (r: Vec<String>)
    ensures
        ascending(text::strings(r@)),
        forall|s: Seq<char>| #[trigger]
            text::strings(r@).contains(s) <==> chat_models(entries@).contains(s),
{
    let mut keys: Vec<String> = Vec::new();
    let mut i: usize = 0;
    assert(text::strings(keys@) =~= chat_models(entries@.take(0)));
    while i < entries.len()
        invariant
            i <= entries@.len(),
            text::strings(keys@) == chat_models(entries@.take(i as int)),
        decreases entries@.len() - i,
    {
        let embedding: bool = match &entries[i].model_type {
            Some(kind) => text::same_text(kind.as_str(), "embedding"),
            None => false,
        };
        proof {
            assert(entries@.take(i + 1).drop_last() =~= entries@.take(i as int));
            assert(entries@.take(i + 1).last() == entries@[i as int]);
        }
        if !embedding {
            let key: String = entries[i].key.clone();
            proof {
                text::lemma_strings_push(keys@, key);
            }
            keys.push(key);
        }
        i += 1;
    }
    assert(entries@.take(entries@.len() as int) =~= entries@);
    sorted_models(keys)
}

// ---------------------------------------------------------------------------
// Laws
// ---------------------------------------------------------------------------

/// Order and names fix a list of models: two ascending lists of the same names are the
/// same list.
pub proof fn models_are_listed_one_way(a: Seq<Seq<char>>, b: Seq<Seq<char>>)
    requires
        ascending(a),
        ascending(b),
        forall|s: Seq<char>| #[trigger] a.contains(s) <==> b.contains(s),
    ensures
        a == b,
    decreases a.len(),
{
    if a.len() == 0 {
        if b.len() > 0 {
            assert(b.contains(b[0]));
            assert(a.contains(b[0]));
        }
        assert(a =~= b);
    } else {
        assert(a.contains(a.last()));
        let k = choose|k: int| 0 <= k < b.len() && b[k] == a.last();
        assert(b.contains(b.last()));
        assert(a.contains(b.last()));
        let m = choose|m: int| 0 <= m < a.len() && a[m] == b.last();
        if k < b.len() - 1 {
            assert(precedes(b[k], b[b.len() - 1]));
            if m < a.len() - 1 {
                assert(precedes(a[m], a[a.len() - 1]));
                order_is_total(a.last(), b.last());
            } else {
                order_is_total(a.last(), a.last());
            }
            assert(false);
        }
        let rest_a = a.drop_last();
        let rest_b = b.drop_last();
        assert forall|s: Seq<char>| #[trigger] rest_a.contains(s) <==> rest_b.contains(s) by {
            if rest_a.contains(s) {
                let i = choose|i: int| 0 <= i < rest_a.len() && rest_a[i] == s;
                assert(a[i] == s);
                assert(a.contains(s));
                assert(precedes(a[i], a[a.len() - 1]));
                order_is_total(s, s);
                let j = choose|j: int| 0 <= j < b.len() && b[j] == s;
                assert(rest_b[j] == s);
            }
            if rest_b.contains(s) {
                let i = choose|i: int| 0 <= i < rest_b.len() && rest_b[i] == s;
                assert(b[i] == s);
                assert(b.contains(s));
                assert(a.contains(s));
                assert(precedes(b[i], b[b.len() - 1]));
                order_is_total(s, s);
                let j = choose|j: int| 0 <= j < a.len() && a[j] == s;
                assert(rest_a[j] == s);
            }
        }
        models_are_listed_one_way(rest_a, rest_b);
        assert(a =~= rest_a.push(a.last()));
        assert(b =~= rest_b.push(b.last()));
    }
}

/// Of two texts that differ at a place, the one with the smaller character there comes
/// first, whatever follows. A text comes before those that go on behind it.
pub proof fn the_first_difference_decides(
    common: Seq<char>,
    a: char,
    left: Seq<char>,
    b: char,
    right: Seq<char>,
)
    ensures
        a != b ==> (precedes(common.push(a) + left, common.push(b) + right) <==> (a as u32) < (
        b as u32)),
        precedes(common, common.push(b) + right),
        !precedes(common + left, common),
    decreases common.len(),
{
    let x = common.push(a) + left;
    let y = common.push(b) + right;
    let z = common + left;
    if common.len() == 0 {
        assert(x[0] == a);
        assert(y[0] == b);
    } else {
        let rest = common.drop_first();
        the_first_difference_decides(rest, a, left, b, right);
        assert(x.drop_first() =~= rest.push(a) + left);
        assert(y.drop_first() =~= rest.push(b) + right);
        assert(z.drop_first() =~= rest + left);
        assert(x[0] == common[0]);
        assert(y[0] == common[0]);
        assert(z[0] == common[0]);
    }
}

/// Texts stand in order exactly where each comes before all that follow it.
pub proof fn order_holds_throughout(names: Seq<Seq<char>>, i: int, j: int)
    requires
        0 <= i < j < names.len(),
    ensures
        ascending(names) ==> precedes(names[i], names[j]),
        !precedes(names[i], names[j]) ==> !ascending(names),
{
}

/// Each model but an embedding one is offered, under its key as it is, in the order in
/// which the server lists them.
pub proof fn chat_models_are_offered(entries: Seq<LMStudioModelEntry>, entry: LMStudioModelEntry)
    ensures
        chat_models(Seq::empty()).len() == 0,
        chat_models(entries.push(entry)) == (match entry.model_type {
            Some(kind) => if kind@ == "embedding"@ {
                chat_models(entries)
            } else {
                chat_models(entries).push(entry.key@)
            },
            None => chat_models(entries).push(entry.key@),
        }),
{
    assert(entries.push(entry).drop_last() =~= entries);
}

}
