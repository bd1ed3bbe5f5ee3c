use vstd::prelude::*;

use crate::models::{text_lt, Game, GameView, SearchFilter, SortField};

verus! {

/// `needle` occurs in `hay` as a contiguous run of characters.
pub open spec fn contains_text(hay: Seq<char>, needle: Seq<char>) -> bool {
    exists|i: int| 0 <= i <= hay.len() - needle.len() && #[trigger] hay.subrange(i, i + needle.len()) == needle
}

/// An optional text that is present and holds `needle`.
pub open spec fn opt_contains(o: Option<String>, needle: Seq<char>) -> bool {
    match o {
        Some(s) => contains_text(s@, needle),
        None => false,
    }
}

/// A game passes a filter when it meets every condition that the filter sets:
/// the query occurs in the title, franchise or notes; the status and platform are
/// equal; the franchise holds the given text; one of the genres is equal; the
/// rating is present and at least the minimum.
pub open spec fn matches_filter(f: SearchFilter, g: GameView) -> bool {
    &&& match f.query {
        Some(q) => contains_text(g.title@, q@) || opt_contains(g.franchise, q@) || opt_contains(g.notes, q@),
        None => true,
    }
    &&& match f.status {
        Some(s) => g.status == s,
        None => true,
    }
    &&& match f.platform {
        Some(p) => g.platform@ == p@,
        None => true,
    }
    &&& match f.franchise {
        Some(x) => opt_contains(g.franchise, x@),
        None => true,
    }
    &&& match f.genre {
        Some(x) => exists|k: int| 0 <= k < g.genres.len() && (#[trigger] g.genres[k])@ == x@,
        None => true,
    }
    &&& match f.min_rating {
        Some(m) => match g.rating {
            Some(r) => r >= m,
            None => false,
        },
        None => true,
    }
}

/// The field a filter orders by: the time of last update where it names none.
pub open spec fn sort_field_of(f: SearchFilter) -> SortField {
    match f.sort_by {
        Some(s) => s,
        None => SortField::UpdatedAt,
    }
}

/// The direction a filter orders in: ascending where it names none.
pub open spec fn ascending_of(f: SearchFilter) -> bool {
    match f.sort_asc {
        Some(b) => b,
        None => true,
    }
}

/// Two optional numbers may stand in this order: absent values come last in
/// either direction.
pub open spec fn num_in_order(a: Option<int>, b: Option<int>, asc: bool) -> bool {
    match (a, b) {
        (None, None) => true,
        (None, Some(_)) => false,
        (Some(_), None) => true,
        (Some(x), Some(y)) => if asc { x <= y } else { y <= x },
    }
}

/// Two optional texts may stand in this order: absent values come last in
/// either direction.
pub open spec fn text_in_order(a: Option<Seq<char>>, b: Option<Seq<char>>, asc: bool) -> bool {
    match (a, b) {
        (None, None) => true,
        (None, Some(_)) => false,
        (Some(_), None) => true,
        (Some(x), Some(y)) => if asc { !text_lt(y, x) } else { !text_lt(x, y) },
    }
}

pub open spec fn text_key(o: Option<String>) -> Option<Seq<char>> {
    match o {
        Some(s) => Some(s@),
        None => None,
    }
}

pub open spec fn hundredths_key(o: Option<u32>) -> Option<int> {
    match o {
        Some(v) => Some(v as int),
        None => None,
    }
}

pub open spec fn position_key(o: Option<i32>) -> Option<int> {
    match o {
        Some(v) => Some(v as int),
        None => None,
    }
}

/// Game `a` may stand before game `b` when ordering by `field`.
pub open spec fn in_order(field: SortField, asc: bool, a: GameView, b: GameView) -> bool {
    match field {
        SortField::Title => text_in_order(Some(a.title@), Some(b.title@), asc),
        SortField::ReleaseDate => text_in_order(text_key(a.release_date), text_key(b.release_date), asc),
        SortField::Rating => num_in_order(hundredths_key(a.rating), hundredths_key(b.rating), asc),
        SortField::PlaytimeHours => num_in_order(
            hundredths_key(a.playtime_hours),
            hundredths_key(b.playtime_hours),
            asc,
        ),
        SortField::ProgressPercent => num_in_order(
            hundredths_key(a.progress_percent),
            hundredths_key(b.progress_percent),
            asc,
        ),
        SortField::UpdatedAt => text_in_order(Some(a.updated_at@), Some(b.updated_at@), asc),
        SortField::SequenceInFranchise => num_in_order(
            position_key(a.sequence_in_franchise),
            position_key(b.sequence_in_franchise),
            asc,
        ),
    }
}

pub proof fn lemma_text_lt_asymmetric(a: Seq<char>, b: Seq<char>)
    ensures
        text_lt(a, b) ==> !text_lt(b, a),
    decreases a.len(),
{
    if a.len() > 0 && b.len() > 0 && a[0] == b[0] {
        lemma_text_lt_asymmetric(a.drop_first(), b.drop_first());
    }
}

pub proof fn lemma_text_lt_total(a: Seq<char>, b: Seq<char>)
    ensures
        !text_lt(a, a),
        a != b ==> text_lt(a, b) || text_lt(b, a),
    decreases a.len(),
{
    if a.len() > 0 {
        lemma_text_lt_total(a.drop_first(), a.drop_first());
        if b.len() > 0 && a[0] != b[0] {
            assert((a[0] as int) != (b[0] as int));
        }
        if b.len() > 0 && a[0] == b[0] {
            lemma_text_lt_total(a.drop_first(), b.drop_first());
            if a.drop_first() == b.drop_first() {
                assert(a =~= seq![a[0]] + a.drop_first());
                assert(b =~= seq![b[0]] + b.drop_first());
            }
        }
    } else if b.len() == 0 {
        assert(a =~= b);
    }
}

/// Where `a` may not stand before `b`, `b` may stand before `a`.
pub proof fn lemma_in_order_total(field: SortField, asc: bool, a: GameView, b: GameView)
    ensures
        !in_order(field, asc, a, b) ==> in_order(field, asc, b, a),
{
    lemma_text_lt_asymmetric(a.title@, b.title@);
    lemma_text_lt_asymmetric(b.title@, a.title@);
    lemma_text_lt_asymmetric(a.updated_at@, b.updated_at@);
    lemma_text_lt_asymmetric(b.updated_at@, a.updated_at@);
    match (a.release_date, b.release_date) {
        (Some(x), Some(y)) => {
            lemma_text_lt_asymmetric(x@, y@);
            lemma_text_lt_asymmetric(y@, x@);
        },
        _ => {},
    }
}

/// Whether `needle` occurs in `hay`.
pub fn find_text(hay: &str, needle: &str) -> (r: bool)
    ensures
        r == contains_text(hay@, needle@),
{
    let n = hay.unicode_len();
    let m = needle.unicode_len();
    if m > n {
        return false;
    }
    let last = n - m;
    let mut i: usize = 0;
    loop
        invariant
            n == hay@.len(),
            m == needle@.len(),
            last == n - m,
            0 <= i <= last,
            forall|p: int| 0 <= p < i ==> #[trigger] hay@.subrange(p, p + m) != needle@,
        decreases last - i,
    {
        let mut j: usize = 0;
        let mut same = true;
        while j < m
            invariant
                n == hay@.len(),
                m == needle@.len(),
                i + m <= n,
                0 <= j <= m,
                same ==> forall|q: int| 0 <= q < j ==> hay@[i + q] == needle@[q],
                !same ==> hay@.subrange(i as int, i + m) != needle@,
            decreases m - j,
        {
            if same && hay.get_char(i + j) != needle.get_char(j) {
                same = false;
                proof {
                    assert(hay@.subrange(i as int, i + m)[j as int] == hay@[i + j]);
                }
            }
            j = j + 1;
        }
        if same {
            proof {
                assert(hay@.subrange(i as int, i + m) =~= needle@);
            }
            return true;
        }
        if i == last {
            proof {
                assert forall|p: int| 0 <= p <= hay@.len() - needle@.len() implies #[trigger] hay@.subrange(p, p + needle@.len()) != needle@ by {}
            }
            return false;
        }
        i = i + 1;
    }
}

/// Whether an optional text is present and holds `needle`.
fn opt_find(o: &Option<String>, needle: &str) -> (r: bool)
    ensures
        r == opt_contains(*o, needle@),
{
    match o {
        Some(s) => find_text(s.as_str(), needle),
        None => false,
    }
}

/// Strict lexicographic comparison of two texts.
pub fn text_less(a: &str, b: &str) -> (r: bool)
    ensures
        r == text_lt(a@, b@),
{
    let n = a.unicode_len();
    let m = b.unicode_len();
    let mut i: usize = 0;
    proof {
        assert(a@.skip(0) =~= a@);
        assert(b@.skip(0) =~= b@);
    }
    while i < n && i < m
        invariant
            n == a@.len(),
            m == b@.len(),
            0 <= i <= n,
            i <= m,
            text_lt(a@, b@) == text_lt(a@.skip(i as int), b@.skip(i as int)),
        decreases n - i,
    {
        let x = a.get_char(i);
        let y = b.get_char(i);
        if x != y {
            return (x as u32) < (y as u32);
        }
        proof {
            assert(a@.skip(i as int).drop_first() =~= a@.skip(i + 1));
            assert(b@.skip(i as int).drop_first() =~= b@.skip(i + 1));
        }
        i = i + 1;
    }
    i < m && i >= n
}

fn opt_text_in_order(a: &Option<String>, b: &Option<String>, asc: bool) -> (r: bool)
    ensures
        r == text_in_order(text_key(*a), text_key(*b), asc),
{
    match (a, b) {
        (None, None) => true,
        (None, Some(_)) => false,
        (Some(_), None) => true,
        (Some(x), Some(y)) => if asc {
            !text_less(y.as_str(), x.as_str())
        } else {
            !text_less(x.as_str(), y.as_str())
        },
    }
}

fn opt_num_in_order(a: Option<i64>, b: Option<i64>, asc: bool) -> (r: bool)
    ensures
        r == num_in_order(
            match a { Some(v) => Some(v as int), None => None },
            match b { Some(v) => Some(v as int), None => None },
            asc,
        ),
{
    match (a, b) {
        (None, None) => true,
        (None, Some(_)) => false,
        (Some(_), None) => true,
        (Some(x), Some(y)) => if asc { x <= y } else { y <= x },
    }
}

fn widen_u32(o: Option<u32>) -> (r: Option<i64>)
    ensures
        match r { Some(v) => Some(v as int), None => None } == hundredths_key(o),
{
    match o {
        Some(v) => Some(v as i64),
        None => None,
    }
}

fn widen_i32(o: Option<i32>) -> (r: Option<i64>)
    ensures
        match r { Some(v) => Some(v as int), None => None } == position_key(o),
{
    match o {
        Some(v) => Some(v as i64),
        None => None,
    }
}

/// Whether game `a` may stand before game `b` when ordering by `field`.
pub fn precedes(field: SortField, asc: bool, a: &Game, b: &Game) -> (r: bool)
    ensures
        r == in_order(field, asc, a@, b@),
{
    match field {
        SortField::Title => asc && !text_less(b.title.as_str(), a.title.as_str())
            || !asc && !text_less(a.title.as_str(), b.title.as_str()),
        SortField::ReleaseDate => opt_text_in_order(&a.release_date, &b.release_date, asc),
        SortField::Rating => opt_num_in_order(widen_u32(a.rating), widen_u32(b.rating), asc),
        SortField::PlaytimeHours => opt_num_in_order(
            widen_u32(a.playtime_hours),
            widen_u32(b.playtime_hours),
            asc,
        ),
        SortField::ProgressPercent => opt_num_in_order(
            widen_u32(a.progress_percent),
            widen_u32(b.progress_percent),
            asc,
        ),
        SortField::UpdatedAt => asc && !text_less(b.updated_at.as_str(), a.updated_at.as_str())
            || !asc && !text_less(a.updated_at.as_str(), b.updated_at.as_str()),
        SortField::SequenceInFranchise => opt_num_in_order(
            widen_i32(a.sequence_in_franchise),
            widen_i32(b.sequence_in_franchise),
            asc,
        ),
    }
}

/// Whether a game passes every condition that the filter sets.
pub fn game_matches(f: &SearchFilter, g: &Game) -> (r: bool)
    ensures
        r == matches_filter(*f, g@),
{
    let q_ok = match &f.query {
        Some(q) => find_text(g.title.as_str(), q.as_str()) || opt_find(&g.franchise, q.as_str())
            || opt_find(&g.notes, q.as_str()),
        None => true,
    };
    let s_ok = match f.status {
        Some(s) => g.status == s,
        None => true,
    };
    let p_ok = match &f.platform {
        Some(p) => g.platform == *p,
        None => true,
    };
    let f_ok = match &f.franchise {
        Some(x) => opt_find(&g.franchise, x.as_str()),
        None => true,
    };
    let g_ok = match &f.genre {
        Some(x) => {
            let mut found = false;
            let mut k: usize = 0;
            while k < g.genres.len()
                invariant
                    0 <= k <= g.genres@.len(),
                    found == exists|j: int| 0 <= j < k && (#[trigger] g.genres@[j])@ == x@,
                decreases g.genres@.len() - k,
            {
                if g.genres[k] == *x {
                    found = true;
                }
                proof {
                    if !found {
                        assert forall|j: int| 0 <= j < k + 1 implies (#[trigger] g.genres@[j])@ != x@ by {}
                    }
                }
                k = k + 1;
            }
            proof {
                if found {
                    let j = choose|j: int| 0 <= j < k && (#[trigger] g.genres@[j])@ == x@;
                    assert(g@.genres[j]@ == x@);
                } else {
                    assert forall|j: int| 0 <= j < g@.genres.len() implies (#[trigger] g@.genres[j])@ != x@ by {
                        assert(g.genres@[j]@ != x@);
                    }
                }
            }
            found
        },
        None => true,
    };
    let r_ok = match f.min_rating {
        Some(m) => match g.rating {
            Some(r) => r >= m,
            None => false,
        },
        None => true,
    };
    q_ok && s_ok && p_ok && f_ok && g_ok && r_ok
}

} // verus!
