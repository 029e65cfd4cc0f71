//! The item catalog: the records that carry a non-empty display name,
//! stably sorted by that name in ordinal order, and the query engine that
//! selects entries by case-insensitive substring match.

use crate::text::chars_le;
use crate::text::contains_seq;
use crate::text::contains_sub;
use crate::text::lemma_contains_empty;
use crate::text::lemma_lex_le_refl;
use crate::text::lemma_lex_le_total;
use crate::text::lemma_lex_le_trans;
use crate::text::lex_le;
use crate::text::lower_of;
use crate::text::lowercase;
use crate::text::to_chars;
use crate::get_name;
use crate::name_of;
use crate::spec_named;
use crate::JsonValue;
use vstd::pervasive::unreached;
use vstd::prelude::*;

verus! {

/// Holds of the records whose display name is exactly `n`; the catalog
/// keeps those subsequences of the input intact (stability).
pub open spec fn named_pred(n: Seq<char>) -> spec_fn(JsonValue) -> bool {
    |r: JsonValue| spec_named(r) && name_of(r) == n
}

/// Holds of every record with a usable display name.
pub open spec fn any_named_pred() -> spec_fn(JsonValue) -> bool {
    |r: JsonValue| spec_named(r)
}

/// Every record of the sequence carries a non-empty display name.
pub open spec fn all_named(s: Seq<JsonValue>) -> bool {
    forall|i: int| 0 <= i < s.len() ==> spec_named(#[trigger] s[i])
}

/// The sequence is non-decreasing by display name in ordinal order.
pub open spec fn sorted_by_name(s: Seq<JsonValue>) -> bool {
    forall|i: int, j: int|
        #![trigger s[i], s[j]]
        0 <= i < j < s.len() ==> lex_le(name_of(s[i]), name_of(s[j]))
}

proof fn lemma_filter_singleton<A>(x: A, p: spec_fn(A) -> bool)
    ensures
        seq![x].filter(p) == (if p(x) {
            seq![x]
        } else {
            Seq::<A>::empty()
        }),
{
    reveal(Seq::filter);
    assert(seq![x].drop_last() =~= Seq::<A>::empty());
    assert(seq![x].drop_last().filter(p) == seq![x].drop_last());
    assert(seq![x].last() == x);
    if p(x) {
        assert(seq![x].drop_last().filter(p).push(x) =~= seq![x]);
    } else {
        assert(seq![x].drop_last().filter(p) =~= Seq::<A>::empty());
    }
}

proof fn lemma_filter_none<A>(s: Seq<A>, p: spec_fn(A) -> bool)
    requires
        forall|i: int| 0 <= i < s.len() ==> !p(#[trigger] s[i]),
    ensures
        s.filter(p) == Seq::<A>::empty(),
    decreases s.len(),
{
    reveal(Seq::filter);
    if s.len() > 0 {
        lemma_filter_none(s.drop_last(), p);
    }
}

/// A sequence whose every element satisfies the predicate is unchanged by
/// filtering with it.
pub proof fn lemma_filter_all<A>(s: Seq<A>, p: spec_fn(A) -> bool)
    requires
        forall|i: int| 0 <= i < s.len() ==> p(#[trigger] s[i]),
    ensures
        s.filter(p) == s,
    decreases s.len(),
{
    reveal(Seq::filter);
    if s.len() > 0 {
        lemma_filter_all(s.drop_last(), p);
        assert(s.drop_last().push(s.last()) =~= s);
    }
}

/// The browsable catalog: an immutable, name-filtered, stably sorted
/// sequence of item records.
pub struct Catalog {
    entries: Vec<JsonValue>,
}

impl View for Catalog {
    type V = Seq<JsonValue>;

    closed spec fn view(&self) -> Seq<JsonValue> {
        self.entries@
    }
}

/// Where a record named `name_chars` must be inserted to keep the sequence
/// sorted and the insertion stable: after every entry that compares
/// less-or-equal.
fn find_insert_pos(entries: &Vec<JsonValue>, name_chars: &Vec<char>) -> (p: usize)
    requires
        all_named(entries@),
        sorted_by_name(entries@),
    ensures
        p <= entries.len(),
        forall|k: int| 0 <= k < p ==> lex_le(name_of(#[trigger] entries@[k]), name_chars@),
        forall|k: int|
            p <= k < entries@.len() ==> !lex_le(name_of(#[trigger] entries@[k]), name_chars@),
{
    let mut j: usize = entries.len();
    while j > 0
        invariant
            j <= entries.len(),
            all_named(entries@),
            sorted_by_name(entries@),
            forall|k: int|
                j <= k < entries@.len() ==> !lex_le(name_of(#[trigger] entries@[k]), name_chars@),
        decreases j,
    {
        let prev = match get_name(&entries[j - 1]) {
            Some(s) => s,
            None => unreached(),
        };
        let prev_chars = to_chars(prev.as_str());
        if chars_le(&prev_chars, name_chars) {
            proof {
                assert forall|k: int| 0 <= k < j implies lex_le(
                    name_of(#[trigger] entries@[k]),
                    name_chars@,
                ) by {
                    if k < j - 1 {
                        lemma_lex_le_trans(
                            name_of(entries@[k]),
                            name_of(entries@[j - 1]),
                            name_chars@,
                        );
                    }
                }
            }
            return j;
        }
        j -= 1;
    }
    0
}

/// Insert a named record among sorted, named entries, after every entry
/// whose name compares less-or-equal: the order stays sorted and, per
/// display name, the record lands at the end of its name class.
fn insert_sorted(entries: &mut Vec<JsonValue>, rec: JsonValue)
    requires
        all_named(old(entries)@),
        sorted_by_name(old(entries)@),
        spec_named(rec),
    ensures
        all_named(final(entries)@),
        sorted_by_name(final(entries)@),
        final(entries)@.len() == old(entries)@.len() + 1,
        forall|n: Seq<char>|
            #[trigger] final(entries)@.filter(named_pred(n)) == (if n == name_of(rec) {
                old(entries)@.filter(named_pred(n)).push(rec)
            } else {
                old(entries)@.filter(named_pred(n))
            }),
{
    let name_s = match get_name(&rec) {
        Some(s) => s,
        None => unreached(),
    };
    let name_chars = to_chars(name_s.as_str());
    let p = find_insert_pos(entries, &name_chars);
    let ghost before = entries@;
    entries.insert(p, rec);
    proof {
        let new_seq = entries@;
        assert(new_seq =~= before.take(p as int) + seq![rec] + before.skip(p as int));
        // every element is still named
        assert forall|i: int| 0 <= i < new_seq.len() implies spec_named(#[trigger] new_seq[i]) by {
            if i < p {
                assert(new_seq[i] == before[i]);
            } else if i > p {
                assert(new_seq[i] == before[i - 1]);
            }
        }
        // the order is still sorted
        assert forall|a: int, b: int|
            #![trigger new_seq[a], new_seq[b]]
            0 <= a < b < new_seq.len() implies lex_le(
            name_of(new_seq[a]),
            name_of(new_seq[b]),
        ) by {
            if a < p && b == p {
            } else if a == p && b > p {
                lemma_lex_le_total(name_of(rec), name_of(before[b - 1]));
            } else if a < p && b > p {
                assert(lex_le(name_of(before[a]), name_of(before[b - 1])));
            }
        }
        // per display name, the filtered subsequences change only by `rec`
        assert forall|n: Seq<char>| #[trigger] new_seq.filter(named_pred(n)) == (if n == name_of(
            rec,
        ) {
            before.filter(named_pred(n)).push(rec)
        } else {
            before.filter(named_pred(n))
        }) by {
            let pred = named_pred(n);
            let front = before.take(p as int);
            let back = before.skip(p as int);
            Seq::filter_distributes_over_add(front + seq![rec], back, pred);
            Seq::filter_distributes_over_add(front, seq![rec], pred);
            Seq::filter_distributes_over_add(front, back, pred);
            lemma_filter_singleton(rec, pred);
            assert(front + back =~= before);
            if n == name_of(rec) {
                assert forall|i: int| 0 <= i < back.len() implies !pred(#[trigger] back[i]) by {
                    if pred(back[i]) {
                        lemma_lex_le_refl(name_of(back[i]));
                    }
                }
                lemma_filter_none(back, pred);
                assert(front.filter(pred) + seq![rec] =~= front.filter(pred).push(rec));
                assert(front.filter(pred) + Seq::<JsonValue>::empty() =~= front.filter(pred));
            } else {
                assert(front.filter(pred) + Seq::<JsonValue>::empty() =~= front.filter(pred));
            }
        }
    }
}

/// Build the catalog from loaded records: drop every record without a
/// usable display name, then sort the rest by name, stably.
///
/// The contract pins the result down completely: the entries are all named
/// and sorted, and for every display name the subsequence of records with
/// that name is exactly the input's, in input order.
pub fn build(records: Vec<JsonValue>) -> (r: Catalog)
    ensures
        r.wf(),
        forall|n: Seq<char>|
            #[trigger] r@.filter(named_pred(n)) == records@.filter(named_pred(n)),
        r@.len() == records@.filter(any_named_pred()).len(),
{
    let ghost orig = records@;
    let mut records = records;
    let mut entries: Vec<JsonValue> = Vec::new();
    let ghost mut done: int = 0;
    proof {
        assert(orig.take(0) =~= Seq::<JsonValue>::empty());
        lemma_filter_none(orig.take(0), any_named_pred());
        assert forall|n: Seq<char>| #[trigger] entries@.filter(named_pred(n)) == orig.take(
            0,
        ).filter(named_pred(n)) by {
            lemma_filter_none(orig.take(0), named_pred(n));
            lemma_filter_none(entries@, named_pred(n));
        }
    }
    while records.len() > 0
        invariant
            0 <= done <= orig.len(),
            records@ == orig.skip(done),
            all_named(entries@),
            sorted_by_name(entries@),
            forall|n: Seq<char>|
                #[trigger] entries@.filter(named_pred(n)) == orig.take(done).filter(named_pred(n)),
            entries@.len() == orig.take(done).filter(any_named_pred()).len(),
        decreases records@.len(),
    {
        let rec = records.remove(0);
        proof {
            assert(rec == orig[done]);
            assert(records@ =~= orig.skip(done + 1));
        }
        let ghost old_entries = entries@;
        let named = match get_name(&rec) {
            Some(s) => !s.as_str().is_empty(),
            None => false,
        };
        if named {
            insert_sorted(&mut entries, rec);
        }
        proof {
            let x = orig[done];
            assert(orig.take(done + 1) =~= orig.take(done) + seq![x]);
            Seq::filter_distributes_over_add(orig.take(done), seq![x], any_named_pred());
            lemma_filter_singleton(x, any_named_pred());
            assert forall|n: Seq<char>| #[trigger] entries@.filter(named_pred(n)) == orig.take(
                done + 1,
            ).filter(named_pred(n)) by {
                Seq::filter_distributes_over_add(orig.take(done), seq![x], named_pred(n));
                lemma_filter_singleton(x, named_pred(n));
                if named && n == name_of(x) {
                    assert(old_entries.filter(named_pred(n)).push(x) =~= old_entries.filter(
                        named_pred(n),
                    ) + seq![x]);
                } else {
                    assert(orig.take(done).filter(named_pred(n)) + Seq::<JsonValue>::empty()
                        =~= orig.take(done).filter(named_pred(n)));
                }
            }
            if named {
                assert(orig.take(done).filter(any_named_pred()) + seq![x] =~= orig.take(
                    done,
                ).filter(any_named_pred()).push(x));
            } else {
                assert(orig.take(done).filter(any_named_pred()) + Seq::<JsonValue>::empty()
                    =~= orig.take(done).filter(any_named_pred()));
            }
            done = done + 1;
        }
    }
    proof {
        assert(orig.take(done) =~= orig);
    }
    Catalog { entries }
}

impl Catalog {
    /// The catalog's invariant: every entry named, the order sorted.
    pub open spec fn wf(&self) -> bool {
        all_named(self@) && sorted_by_name(self@)
    }

    /// How many records are browsable.
    pub fn len(&self) -> (r: usize)
        ensures
            r == self@.len(),
    {
        self.entries.len()
    }

    /// The record at one catalog position.
    pub fn get(&self, index: usize) -> (r: &JsonValue)
        requires
            index < self@.len(),
        ensures
            *r == self@[index as int],
    {
        &self.entries[index]
    }

    /// The positions of the catalog entries whose lower-cased display name
    /// contains the lower-cased query as a substring, in catalog order.
    ///
    /// An empty query selects the whole catalog, position by position.
    pub fn filter_indices(&self, query: &str) -> (r: Vec<usize>)
        requires
            self.wf(),
        ensures
            forall|k: int|
                0 <= k < r@.len() ==> (#[trigger] r@[k]) < self@.len() && spec_matches(
                    name_of(self@[r@[k] as int]),
                    query@,
                ),
            forall|k1: int, k2: int| 0 <= k1 < k2 < r@.len() ==> r@[k1] < r@[k2],
            forall|i: int|
                0 <= i < self@.len() && spec_matches(name_of(#[trigger] self@[i]), query@)
                    ==> r@.contains(i as usize),
            query@.len() == 0 ==> r@.len() == self@.len() && (forall|k: int|
                0 <= k < r@.len() ==> r@[k] == k),
    {
        let lq = lowercase(query);
        let lq_chars = to_chars(lq.as_str());
        let mut r: Vec<usize> = Vec::new();
        let mut i: usize = 0;
        while i < self.entries.len()
            invariant
                i <= self.entries.len(),
                self.wf(),
                self@ == self.entries@,
                lq_chars@ == lower_of(query@),
                query@.len() == 0 ==> lq_chars@.len() == 0,
                forall|k: int|
                    0 <= k < r@.len() ==> (#[trigger] r@[k]) < i && spec_matches(
                        name_of(self@[r@[k] as int]),
                        query@,
                    ),
                forall|k1: int, k2: int| 0 <= k1 < k2 < r@.len() ==> r@[k1] < r@[k2],
                forall|ii: int|
                    0 <= ii < i && spec_matches(name_of(#[trigger] self@[ii]), query@)
                        ==> r@.contains(ii as usize),
                query@.len() == 0 ==> r@.len() == i && (forall|k: int|
                    0 <= k < r@.len() ==> r@[k] == k),
            decreases self.entries.len() - i,
        {
            let name_s = match get_name(&self.entries[i]) {
                Some(s) => s,
                None => unreached(),
            };
            let lname = lowercase(name_s.as_str());
            let name_chars = to_chars(lname.as_str());
            let ghost old_r = r@;
            if contains_sub(&name_chars, &lq_chars) {
                r.push(i);
                proof {
                    assert forall|ii: int|
                        0 <= ii < i + 1 && spec_matches(
                            name_of(#[trigger] self@[ii]),
                            query@,
                        ) implies r@.contains(ii as usize) by {
                        if ii < i {
                            let w = choose|w: int| 0 <= w < old_r.len() && old_r[w] == ii as usize;
                            assert(r@[w] == ii as usize);
                        } else {
                            assert(r@[old_r.len() as int] == i as usize);
                        }
                    }
                }
            } else {
                proof {
                    if query@.len() == 0 {
                        lemma_contains_empty(name_chars@, lq_chars@);
                        assert(false);
                    }
                }
            }
            i += 1;
        }
        r
    }
}

/// The match rule of the query engine: the lower-cased display name must
/// contain the lower-cased query as a contiguous substring.
pub open spec fn spec_matches(name: Seq<char>, query: Seq<char>) -> bool {
    contains_seq(lower_of(name), lower_of(query))
}

/// Holds of the display names a query selects.
pub open spec fn match_pred(query: Seq<char>) -> spec_fn(Seq<char>) -> bool {
    |n: Seq<char>| spec_matches(n, query)
}

/// Matching is case-insensitive: two queries with the same lowercase
/// equivalent — as `"Axe"` and `"axe"` — select exactly the same names.
pub proof fn lemma_match_case_insensitive(name: Seq<char>, q1: Seq<char>, q2: Seq<char>)
    requires
        lower_of(q1) == lower_of(q2),
    ensures
        spec_matches(name, q1) == spec_matches(name, q2),
{
}

/// Filtering is idempotent: the names a query selects are all selected
/// again when the already-filtered result set is filtered with the same
/// query, so the result set does not change.
pub proof fn lemma_filter_idempotent(names: Seq<Seq<char>>, query: Seq<char>)
    ensures
        names.filter(match_pred(query)).filter(match_pred(query)) == names.filter(
            match_pred(query),
        ),
{
    let once = names.filter(match_pred(query));
    assert forall|i: int| 0 <= i < once.len() implies match_pred(query)(#[trigger] once[i]) by {
        names.lemma_filter_pred(match_pred(query), i);
    }
    lemma_filter_all(once, match_pred(query));
}

} // verus!
