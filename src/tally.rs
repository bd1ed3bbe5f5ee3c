use vstd::prelude::*;

use crate::models::{text_lt, CountEntry};
use crate::query::{lemma_text_lt_total, text_less};

verus! {

/// How many of `names` read `x`.
pub open spec fn occurrences(names: Seq<String>, x: Seq<char>) -> int
    decreases names.len(),
{
    if names.len() == 0 {
        0
    } else {
        occurrences(names.drop_last(), x) + if names.last()@ == x { 1int } else { 0int }
    }
}

/// Some entry has the name `x`.
pub open spec fn has_entry(entries: Seq<CountEntry>, x: Seq<char>) -> bool {
    exists|k: int| 0 <= k < entries.len() && #[trigger] entries[k].name@ == x
}

/// `entries` counts `names`: each name once, each with its number of
/// occurrences (at least one), and every name present.
pub open spec fn counts_names(entries: Seq<CountEntry>, names: Seq<String>) -> bool {
    &&& forall|k: int| 0 <= k < entries.len() ==> #[trigger] entries[k].count >= 1
    &&& forall|k: int| 0 <= k < entries.len() ==> #[trigger] entries[k].count == occurrences(names, entries[k].name@)
    &&& forall|k: int, l: int| 0 <= k < entries.len() && 0 <= l < entries.len() && k != l
        ==> entries[k].name@ != entries[l].name@
    &&& forall|j: int| 0 <= j < names.len() ==> has_entry(entries, #[trigger] names[j]@)
}

/// `a` ranks before `b`: a larger count, or an equal count and a name that
/// comes first.
pub open spec fn ranks_before(a: CountEntry, b: CountEntry) -> bool {
    a.count > b.count || (a.count == b.count && text_lt(a.name@, b.name@))
}

/// Counts kept while tallying: the largest counts first.
pub open spec fn is_counted(entries: Seq<CountEntry>, names: Seq<String>) -> bool {
    &&& counts_names(entries, names)
    &&& forall|k: int| 0 <= k < entries.len() - 1 ==> #[trigger] entries[k].count >= entries[k + 1].count
}

/// `entries` counts `names`, ranked: the largest counts first, equal counts by name.
pub open spec fn is_tally(entries: Seq<CountEntry>, names: Seq<String>) -> bool {
    &&& counts_names(entries, names)
    &&& forall|k: int| 0 <= k < entries.len() - 1 ==> ranks_before(#[trigger] entries[k], entries[k + 1])
}

/// `entries` is the first `cap` entries (or all, where fewer) of a tally of `names`.
pub open spec fn is_top_tally(entries: Seq<CountEntry>, names: Seq<String>, cap: nat) -> bool {
    exists|full: Seq<CountEntry>| #[trigger] is_tally(full, names) && entries == full.take(
        if full.len() < cap { full.len() as int } else { cap as int },
    )
}

proof fn lemma_occurrences_push(names: Seq<String>, n: String, x: Seq<char>)
    ensures
        occurrences(names.push(n), x) == occurrences(names, x) + if n@ == x { 1int } else { 0int },
{
    assert(names.push(n).drop_last() =~= names);
}

pub proof fn lemma_occurrences_bound(names: Seq<String>, x: Seq<char>)
    ensures
        0 <= occurrences(names, x) <= names.len(),
    decreases names.len(),
{
    if names.len() > 0 {
        lemma_occurrences_bound(names.drop_last(), x);
    }
}

pub proof fn lemma_occurrences_positive(names: Seq<String>, j: int)
    requires
        0 <= j < names.len(),
    ensures
        occurrences(names, names[j]@) >= 1,
    decreases names.len(),
{
    lemma_occurrences_bound(names.drop_last(), names[j]@);
    if j < names.len() - 1 {
        lemma_occurrences_positive(names.drop_last(), j);
    }
}

/// Counts each distinct name, the largest counts first.
fn count_names(names: &Vec<String>) -> (r: Vec<CountEntry>)
    ensures
        is_counted(r@, names@),
{
    let mut entries: Vec<CountEntry> = Vec::new();
    let mut i: usize = 0;
    while i < names.len()
        invariant
            0 <= i <= names@.len(),
            is_counted(entries@, names@.take(i as int)),
        decreases names@.len() - i,
    {
        let ghost pre = names@.take(i as int);
        let ghost post = names@.take(i + 1);
        proof {
            assert(pre.push(names@[i as int]) =~= post);
            assert forall|x: Seq<char>| #[trigger] occurrences(post, x) == occurrences(pre, x) + if names@[i as int]@ == x { 1int } else { 0int } by {
                lemma_occurrences_push(pre, names@[i as int], x);
            }
        }
        let name = &names[i];
        let mut k: usize = 0;
        while k < entries.len() && entries[k].name != *name
            invariant
                0 <= k <= entries@.len(),
                forall|q: int| 0 <= q < k ==> entries@[q].name@ != name@,
            decreases entries@.len() - k,
        {
            k = k + 1;
        }
        let ghost old_entries = entries@;
        if k == entries.len() {
            entries.push(CountEntry { name: name.clone(), count: 1 });
            proof {
                lemma_occurrences_bound(pre, name@);
                assert forall|j: int| 0 <= j < post.len() implies has_entry(entries@, #[trigger] post[j]@) by {
                    if j < pre.len() {
                        assert(post[j] == pre[j]);
                        assert(has_entry(old_entries, pre[j]@));
                        let q = choose|q: int| 0 <= q < old_entries.len() && #[trigger] old_entries[q].name@ == pre[j]@;
                        assert(entries@[q] == old_entries[q]);
                    } else {
                        assert(entries@[k as int].name@ == post[j]@);
                    }
                }
                assert(occurrences(pre, name@) == 0) by {
                    if occurrences(pre, name@) != 0 {
                        lemma_no_occurrence(pre, name@, old_entries);
                    }
                }
                assert forall|q: int| 0 <= q < entries@.len() implies #[trigger] entries@[q].count == occurrences(post, entries@[q].name@) by {
                    if q < old_entries.len() {
                        assert(entries@[q] == old_entries[q]);
                    }
                }
            }
        } else {
            // the entry moves to the front of its run of equal counts, then grows by one
            let c = entries[k].count;
            let mut p: usize = k;
            while p > 0 && entries[p - 1].count == c
                invariant
                    0 <= p <= k < entries@.len(),
                    entries@[k as int].count == c,
                    forall|q: int| p <= q <= k ==> #[trigger] entries@[q].count == c,
                decreases p,
            {
                p = p - 1;
            }
            proof {
                lemma_occurrences_bound(pre, name@);
                assert(entries@[k as int].name@ == name@);
                assert(old_entries[p as int].count == c);
            }
            let moved = CountEntry { name: entries[p].name.clone(), count: entries[p].count };
            let grown = CountEntry { name: entries[k].name.clone(), count: c + 1 };
            entries.set(k, moved);
            entries.set(p, grown);
            proof {
                assert forall|q: int| 0 <= q < entries@.len() implies #[trigger] entries@[q].count == occurrences(post, entries@[q].name@) by {
                    if q == p {
                        assert(entries@[q].name@ == old_entries[k as int].name@);
                    } else if q == k {
                        assert(entries@[q] == old_entries[p as int]);
                    } else {
                        assert(entries@[q] == old_entries[q]);
                    }
                }
                assert forall|q: int, l: int| 0 <= q < entries@.len() && 0 <= l < entries@.len() && q != l
                    implies entries@[q].name@ != entries@[l].name@ by {
                    let oq = if q == p { k as int } else if q == k { p as int } else { q };
                    let ol = if l == p { k as int } else if l == k { p as int } else { l };
                    assert(entries@[q].name@ == old_entries[oq].name@);
                    assert(entries@[l].name@ == old_entries[ol].name@);
                }
                assert forall|j: int| 0 <= j < post.len() implies has_entry(entries@, #[trigger] post[j]@) by {
                    if j < pre.len() {
                        assert(post[j] == pre[j]);
                        assert(has_entry(old_entries, pre[j]@));
                        let o = choose|o: int| 0 <= o < old_entries.len() && #[trigger] old_entries[o].name@ == pre[j]@;
                        let q = if o == p { k as int } else if o == k { p as int } else { o };
                        assert(entries@[q].name@ == old_entries[o].name@);
                    } else {
                        assert(entries@[p as int].name@ == post[j]@);
                    }
                }
                assert forall|q: int| 0 <= q < entries@.len() - 1 implies #[trigger] entries@[q].count >= entries@[q + 1].count by {
                    if q == p - 1 {
                        assert(old_entries[q].count >= old_entries[q + 1].count);
                        assert(old_entries[q].count != c);
                    }
                    if q + 1 == k && q != p && k != p {
                        assert(entries@[q + 1].count == c);
                        assert(old_entries[q].count == c);
                    }
                    if q == k && k != p {
                        assert(entries@[q].count == c);
                    }
                    if q == p && q + 1 != k {
                        assert(old_entries[q + 1].count <= c);
                    }
                }
            }
        }
        i = i + 1;
    }
    proof {
        assert(names@.take(names@.len() as int) =~= names@);
    }
    entries
}

proof fn lemma_no_occurrence(names: Seq<String>, x: Seq<char>, entries: Seq<CountEntry>)
    requires
        forall|j: int| 0 <= j < names.len() ==> has_entry(entries, #[trigger] names[j]@),
        forall|k: int| 0 <= k < entries.len() ==> entries[k].name@ != x,
    ensures
        occurrences(names, x) == 0,
    decreases names.len(),
{
    if names.len() > 0 {
        assert forall|j: int| 0 <= j < names.drop_last().len() implies has_entry(entries, #[trigger] names.drop_last()[j]@) by {
            assert(names.drop_last()[j] == names[j]);
            assert(has_entry(entries, names[j]@));
        }
        lemma_no_occurrence(names.drop_last(), x, entries);
        assert(has_entry(entries, names[names.len() - 1]@));
    }
}

fn copy_entry(e: &CountEntry) -> (c: CountEntry)
    ensures
        c == *e,
{
    CountEntry { name: e.name.clone(), count: e.count }
}

/// Counts each distinct name, ranked: the largest counts first, equal counts by name.
pub fn tally(names: &Vec<String>) -> (r: Vec<CountEntry>)
    ensures
        is_tally(r@, names@),
{
    let full = count_names(names);
    let mut r: Vec<CountEntry> = Vec::new();
    let mut i: usize = 0;
    proof {
        assert(full@.take(0) =~= Seq::<CountEntry>::empty());
    }
    while i < full.len()
        invariant
            0 <= i <= full@.len(),
            is_counted(full@, names@),
            r@.to_multiset() == full@.take(i as int).to_multiset(),
            forall|k: int| 0 <= k < r@.len() - 1 ==> ranks_before(#[trigger] r@[k], r@[k + 1]),
        decreases full@.len() - i,
    {
        let e = copy_entry(&full[i]);
        let mut p: usize = 0;
        while p < r.len() && (r[p].count > e.count || (r[p].count == e.count && text_less(
            r[p].name.as_str(),
            e.name.as_str(),
        )))
            invariant
                0 <= p <= r@.len(),
                p > 0 ==> ranks_before(r@[p - 1], e),
            decreases r@.len() - p,
        {
            p = p + 1;
        }
        proof {
            if p < r@.len() {
                // the entry at p comes from the first i, so its name differs
                let x = r@[p as int];
                assert(r@.contains(x));
                vstd::seq_lib::to_multiset_contains(r@, x);
                vstd::seq_lib::to_multiset_contains(full@.take(i as int), x);
                assert(full@.take(i as int).contains(x));
                let j = choose|j: int| 0 <= j < i && full@.take(i as int)[j] == r@[p as int];
                assert(full@[j] == r@[p as int]);
                assert(full@[j].name@ != full@[i as int].name@);
                lemma_text_lt_total(r@[p as int].name@, e.name@);
            }
        }
        let ghost before = r@;
        r.insert(p, e);
        proof {
            assert(full@.take(i + 1) =~= full@.take(i as int).push(full@[i as int]));
            vstd::seq_lib::to_multiset_insert(before, p as int, e);
            vstd::seq_lib::to_multiset_build(full@.take(i as int), full@[i as int]);
            lemma_insert_ranked(before, r@, p as int, e);
        }
        i = i + 1;
    }
    proof {
        assert(full@.take(full@.len() as int) =~= full@);
        lemma_same_entries(r@, full@, names@);
    }
    r
}

proof fn lemma_insert_ranked(before: Seq<CountEntry>, after: Seq<CountEntry>, p: int, e: CountEntry)
    requires
        0 <= p <= before.len(),
        after == before.insert(p, e),
        forall|k: int| 0 <= k < before.len() - 1 ==> ranks_before(#[trigger] before[k], before[k + 1]),
        p > 0 ==> ranks_before(before[p - 1], e),
        p < before.len() ==> ranks_before(e, before[p]),
    ensures
        forall|k: int| 0 <= k < after.len() - 1 ==> ranks_before(#[trigger] after[k], after[k + 1]),
{
    assert forall|k: int| 0 <= k < after.len() - 1 implies ranks_before(#[trigger] after[k], after[k + 1]) by {
        if k < p - 1 {
            assert(after[k] == before[k] && after[k + 1] == before[k + 1]);
        } else if k == p - 1 {
            assert(after[k] == before[k]);
        } else if k == p {
            assert(after[k + 1] == before[k]);
        } else {
            assert(after[k] == before[k - 1] && after[k + 1] == before[k]);
        }
    }
}

/// Entries that are a rearrangement of a count of `names` count `names` too.
proof fn lemma_same_entries(r: Seq<CountEntry>, full: Seq<CountEntry>, names: Seq<String>)
    requires
        r.to_multiset() == full.to_multiset(),
        counts_names(full, names),
    ensures
        counts_names(r, names),
{
    assert forall|k: int| 0 <= k < r.len() implies exists|j: int| 0 <= j < full.len() && full[j] == #[trigger] r[k] by {
        assert(r.contains(r[k]));
        vstd::seq_lib::to_multiset_contains(r, r[k]);
        vstd::seq_lib::to_multiset_contains(full, r[k]);
    }
    assert forall|k: int| 0 <= k < r.len() implies #[trigger] r[k].count == occurrences(names, r[k].name@) && r[k].count >= 1 by {
        let j = choose|j: int| 0 <= j < full.len() && full[j] == r[k];
        assert(full[j].count >= 1);
    }
    assert forall|k: int, l: int| 0 <= k < r.len() && 0 <= l < r.len() && k != l implies r[k].name@ != r[l].name@ by {
        let a = choose|j: int| 0 <= j < full.len() && full[j] == r[k];
        let b = choose|j: int| 0 <= j < full.len() && full[j] == r[l];
        if a == b {
            // the same entry twice in r would occur twice in full
            let m = r.to_multiset();
            assert(r.remove(k).contains(r[l])) by {
                let l2 = if l < k { l } else { l - 1 };
                assert(r.remove(k)[l2] == r[l]);
            }
            vstd::seq_lib::to_multiset_remove(r, k);
            vstd::seq_lib::to_multiset_contains(r.remove(k), r[l]);
            assert(r.remove(k).to_multiset().count(r[l]) > 0);
            assert(m.count(r[k]) >= 2);
            assert(full.remove(a).to_multiset().count(full[a]) == full.to_multiset().count(full[a]) - 1) by {
                vstd::seq_lib::to_multiset_remove(full, a);
            }
            assert(full.remove(a).contains(full[a])) by {
                vstd::seq_lib::to_multiset_contains(full.remove(a), full[a]);
            }
            let c = choose|c: int| 0 <= c < full.remove(a).len() && full.remove(a)[c] == full[a];
            let c2 = if c < a { c } else { c + 1 };
            assert(full[c2] == full[a]);
            assert(c2 != a);
        }
    }
    assert forall|j: int| 0 <= j < names.len() implies has_entry(r, #[trigger] names[j]@) by {
        assert(has_entry(full, names[j]@));
        let o = choose|o: int| 0 <= o < full.len() && #[trigger] full[o].name@ == names[j]@;
        assert(full.contains(full[o]));
        vstd::seq_lib::to_multiset_contains(full, full[o]);
        vstd::seq_lib::to_multiset_contains(r, full[o]);
        let k = choose|k: int| 0 <= k < r.len() && r[k] == full[o];
        assert(r[k].name@ == names[j]@);
    }
}

/// A tally of no names has no entry.
pub proof fn lemma_tally_of_nothing(entries: Seq<CountEntry>, names: Seq<String>, cap: nat)
    requires
        names.len() == 0,
        is_top_tally(entries, names, cap),
    ensures
        entries.len() == 0,
{
    let full = choose|full: Seq<CountEntry>| #[trigger] is_tally(full, names) && entries == full.take(
        if full.len() < cap { full.len() as int } else { cap as int },
    );
    if full.len() > 0 {
        assert(full[0].count >= 1);
        assert(occurrences(names, full[0].name@) == 0);
    }
}

/// The first `cap` entries of a tally of `names`, or all of them where fewer.
pub fn top_tally(names: &Vec<String>, cap: usize) -> (r: Vec<CountEntry>)
    ensures
        is_top_tally(r@, names@, cap as nat),
{
    let mut full = tally(names);
    let ghost whole = full@;
    full.truncate(cap);
    proof {
        assert(full@ =~= whole.take(if whole.len() < cap { whole.len() as int } else { cap as int }));
    }
    full
}

/// Some text of `s` reads `x`.
pub open spec fn has_name(s: Seq<String>, x: Seq<char>) -> bool {
    exists|k: int| 0 <= k < s.len() && #[trigger] s[k]@ == x
}

/// `r` holds the texts of `names`, each once, in ascending order.
pub open spec fn is_sorted_set_of(r: Seq<String>, names: Seq<String>) -> bool {
    &&& forall|k: int| 0 <= k < r.len() - 1 ==> text_lt(#[trigger] r[k]@, r[k + 1]@)
    &&& forall|k: int| 0 <= k < r.len() ==> has_name(names, #[trigger] r[k]@)
    &&& forall|j: int| 0 <= j < names.len() ==> has_name(r, #[trigger] names[j]@)
}

proof fn lemma_insert_keeps_sorted_set(
    before: Seq<String>,
    after: Seq<String>,
    p: int,
    pre: Seq<String>,
    post: Seq<String>,
)
    requires
        is_sorted_set_of(before, pre),
        0 <= p <= before.len(),
        post.len() == pre.len() + 1,
        forall|k: int| 0 <= k < pre.len() ==> post[k] == pre[k],
        after == before.insert(p, post.last()),
        p > 0 ==> text_lt(before[p - 1]@, post.last()@),
        p < before.len() ==> text_lt(post.last()@, before[p]@),
    ensures
        is_sorted_set_of(after, post),
{
    lemma_insert_ascending(before, after, p, post.last());
    lemma_insert_names_from(before, after, p, pre, post);
    lemma_insert_names_kept(before, after, p, pre, post);
}

proof fn lemma_insert_ascending(before: Seq<String>, after: Seq<String>, p: int, x: String)
    requires
        0 <= p <= before.len(),
        after == before.insert(p, x),
        forall|k: int| 0 <= k < before.len() - 1 ==> text_lt(#[trigger] before[k]@, before[k + 1]@),
        p > 0 ==> text_lt(before[p - 1]@, x@),
        p < before.len() ==> text_lt(x@, before[p]@),
    ensures
        forall|k: int| 0 <= k < after.len() - 1 ==> text_lt(#[trigger] after[k]@, after[k + 1]@),
{
    assert forall|k: int| 0 <= k < after.len() - 1 implies text_lt(#[trigger] after[k]@, after[k + 1]@) by {
        if k < p - 1 {
            assert(after[k] == before[k] && after[k + 1] == before[k + 1]);
        } else if k == p - 1 {
            assert(after[k] == before[k]);
        } else if k == p {
            assert(after[k + 1] == before[k]);
        } else {
            assert(after[k] == before[k - 1] && after[k + 1] == before[k]);
        }
    }
}

proof fn lemma_insert_names_from(before: Seq<String>, after: Seq<String>, p: int, pre: Seq<String>, post: Seq<String>)
    requires
        forall|k: int| 0 <= k < before.len() ==> has_name(pre, #[trigger] before[k]@),
        0 <= p <= before.len(),
        post.len() == pre.len() + 1,
        forall|k: int| 0 <= k < pre.len() ==> post[k] == pre[k],
        after == before.insert(p, post.last()),
    ensures
        forall|k: int| 0 <= k < after.len() ==> has_name(post, #[trigger] after[k]@),
{
    assert forall|k: int| 0 <= k < after.len() implies has_name(post, #[trigger] after[k]@) by {
        if k == p {
            assert(post[post.len() - 1]@ == after[k]@);
        } else {
            let o = if k < p { k } else { k - 1 };
            assert(after[k] == before[o]);
            assert(has_name(pre, before[o]@));
            let j = choose|j: int| 0 <= j < pre.len() && #[trigger] pre[j]@ == before[o]@;
            assert(post[j] == pre[j]);
        }
    }
}

proof fn lemma_insert_names_kept(before: Seq<String>, after: Seq<String>, p: int, pre: Seq<String>, post: Seq<String>)
    requires
        forall|j: int| 0 <= j < pre.len() ==> has_name(before, #[trigger] pre[j]@),
        0 <= p <= before.len(),
        post.len() == pre.len() + 1,
        forall|k: int| 0 <= k < pre.len() ==> post[k] == pre[k],
        after == before.insert(p, post.last()),
    ensures
        forall|j: int| 0 <= j < post.len() ==> has_name(after, #[trigger] post[j]@),
{
    assert forall|j: int| 0 <= j < post.len() implies has_name(after, #[trigger] post[j]@) by {
        if j < pre.len() {
            assert(post[j] == pre[j]);
            assert(has_name(before, pre[j]@));
            let o = choose|o: int| 0 <= o < before.len() && #[trigger] before[o]@ == pre[j]@;
            let k = if o < p { o } else { o + 1 };
            assert(after[k] == before[o]);
        } else {
            assert(after[p]@ == post[j]@);
        }
    }
}

/// The distinct texts of `names`, in ascending order.
pub fn distinct_sorted(names: &Vec<String>) -> (r: Vec<String>)
    ensures
        is_sorted_set_of(r@, names@),
{
    let mut r: Vec<String> = Vec::new();
    let mut i: usize = 0;
    while i < names.len()
        invariant
            0 <= i <= names@.len(),
            is_sorted_set_of(r@, names@.take(i as int)),
        decreases names@.len() - i,
    {
        let ghost pre = names@.take(i as int);
        let ghost post = names@.take(i + 1);
        let x = &names[i];
        let mut p: usize = 0;
        while p < r.len() && text_less(r[p].as_str(), x.as_str())
            invariant
                0 <= p <= r@.len(),
                p > 0 ==> text_lt(r@[p - 1]@, x@),
            decreases r@.len() - p,
        {
            p = p + 1;
        }
        proof {
            assert(post[i as int] == x);
            assert forall|k: int| 0 <= k < pre.len() implies post[k] == pre[k] by {}
        }
        if p < r.len() && r[p] == *x {
            proof {
                assert forall|k: int| 0 <= k < r@.len() implies has_name(post, #[trigger] r@[k]@) by {
                    let j = choose|j: int| 0 <= j < pre.len() && #[trigger] pre[j]@ == r@[k]@;
                    assert(post[j] == pre[j]);
                }
                assert forall|j: int| 0 <= j < post.len() implies has_name(r@, #[trigger] post[j]@) by {
                    if j < pre.len() {
                        assert(has_name(r@, pre[j]@));
                    } else {
                        assert(r@[p as int]@ == post[j]@);
                    }
                }
            }
        } else {
            let ghost before = r@;
            proof {
                if p < r@.len() {
                    lemma_text_lt_total(r@[p as int]@, x@);
                    assert(r@[p as int]@ != x@);
                }
            }
            r.insert(p, x.clone());
            proof {
                lemma_insert_keeps_sorted_set(before, r@, p as int, pre, post);
            }
        }
        i = i + 1;
    }
    proof {
        assert(names@.take(names@.len() as int) =~= names@);
    }
    r
}

} // verus!
