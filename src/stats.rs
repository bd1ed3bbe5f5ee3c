use vstd::prelude::*;

use crate::models::{text_lt, valid_record, GameStatus, GameView, Ratio, StatusBreakdown};

verus! {

/// How many games have status `st`.
pub open spec fn status_count(s: Seq<GameView>, st: GameStatus) -> int
    decreases s.len(),
{
    if s.len() == 0 {
        0
    } else {
        status_count(s.drop_last(), st) + if s.last().status == st { 1int } else { 0int }
    }
}

/// The sum of the playtimes, an absent one counting as zero.
pub open spec fn playtime_total(s: Seq<GameView>) -> int
    decreases s.len(),
{
    if s.len() == 0 {
        0
    } else {
        playtime_total(s.drop_last()) + match s.last().playtime_hours {
            Some(h) => h as int,
            None => 0int,
        }
    }
}

/// The sum of the ratings that are present.
pub open spec fn rating_total(s: Seq<GameView>) -> int
    decreases s.len(),
{
    if s.len() == 0 {
        0
    } else {
        rating_total(s.drop_last()) + match s.last().rating {
            Some(r) => r as int,
            None => 0int,
        }
    }
}

/// How many games have a rating.
pub open spec fn rated_count(s: Seq<GameView>) -> int
    decreases s.len(),
{
    if s.len() == 0 {
        0
    } else {
        rated_count(s.drop_last()) + if s.last().rating is Some { 1int } else { 0int }
    }
}

pub open spec fn breakdown_of(s: Seq<GameView>) -> StatusBreakdown {
    StatusBreakdown {
        not_started: status_count(s, GameStatus::NotStarted) as u64,
        playing: status_count(s, GameStatus::Playing) as u64,
        completed: status_count(s, GameStatus::Completed) as u64,
        dropped: status_count(s, GameStatus::Dropped) as u64,
        backlog: status_count(s, GameStatus::Backlog) as u64,
        wishlist: status_count(s, GameStatus::Wishlist) as u64,
    }
}

/// The mean of the ratings that are present, in hundredths; absent where none is.
pub open spec fn average_rating_of(s: Seq<GameView>) -> Option<Ratio> {
    if rated_count(s) > 0 {
        Some(Ratio { numer: rating_total(s) as u128, denom: rated_count(s) as u128 })
    } else {
        None
    }
}

/// The share of completed games among those not on the wishlist, as a
/// percentage; zero where every game is on the wishlist or there is none.
pub open spec fn completion_rate_of(s: Seq<GameView>) -> Ratio {
    let owned = s.len() - status_count(s, GameStatus::Wishlist);
    if owned > 0 {
        Ratio { numer: (status_count(s, GameStatus::Completed) * 100) as u128, denom: owned as u128 }
    } else {
        Ratio { numer: 0, denom: 1 }
    }
}

/// The platform of each game.
pub open spec fn platforms_of(s: Seq<GameView>) -> Seq<String> {
    s.map_values(|g: GameView| g.platform)
}

/// The franchise of each game that has one.
pub open spec fn franchises_of(s: Seq<GameView>) -> Seq<String>
    decreases s.len(),
{
    if s.len() == 0 {
        Seq::empty()
    } else {
        match s.last().franchise {
            Some(f) => franchises_of(s.drop_last()).push(f),
            None => franchises_of(s.drop_last()),
        }
    }
}

/// The genres of every game, game by game.
pub open spec fn all_genres(s: Seq<GameView>) -> Seq<String>
    decreases s.len(),
{
    if s.len() == 0 {
        Seq::empty()
    } else {
        all_genres(s.drop_last()) + s.last().genres
    }
}

/// Where every rating lies in `100..=1000`, so does their mean.
pub proof fn lemma_rating_total_range(s: Seq<GameView>)
    requires
        forall|i: int| 0 <= i < s.len() ==> valid_record(#[trigger] s[i]),
    ensures
        100 * rated_count(s) <= rating_total(s) <= 1000 * rated_count(s),
    decreases s.len(),
{
    if s.len() > 0 {
        assert(valid_record(s[s.len() - 1]));
        lemma_rating_total_range(s.drop_last());
    }
}

/// A label is among all the genres exactly when one game lists it.
pub proof fn lemma_all_genres_contains(s: Seq<GameView>, x: String)
    ensures
        all_genres(s).contains(x) <==> exists|i: int| 0 <= i < s.len() && (#[trigger] s[i]).genres.contains(x),
    decreases s.len(),
{
    if s.len() > 0 {
        let pre = all_genres(s.drop_last());
        let last = s.last().genres;
        lemma_all_genres_contains(s.drop_last(), x);
        if all_genres(s).contains(x) {
            let k = choose|k: int| 0 <= k < all_genres(s).len() && all_genres(s)[k] == x;
            if k < pre.len() {
                assert(pre[k] == x);
                let i = choose|i: int| 0 <= i < s.drop_last().len() && (#[trigger] s.drop_last()[i]).genres.contains(x);
                assert(s[i] == s.drop_last()[i]);
            } else {
                assert(last[k - pre.len()] == x);
                assert(s[s.len() - 1].genres.contains(x));
            }
        }
        if exists|i: int| 0 <= i < s.len() && (#[trigger] s[i]).genres.contains(x) {
            let i = choose|i: int| 0 <= i < s.len() && (#[trigger] s[i]).genres.contains(x);
            let k = choose|k: int| 0 <= k < s[i].genres.len() && s[i].genres[k] == x;
            if i < s.len() - 1 {
                assert(s.drop_last()[i] == s[i]);
                assert(pre.contains(x));
                let j = choose|j: int| 0 <= j < pre.len() && pre[j] == x;
                assert(all_genres(s)[j] == x);
            } else {
                assert(all_genres(s)[pre.len() + k] == x);
            }
        }
    }
}

/// The titles of the first `n` completed games of `s`, in order.
pub open spec fn first_completed(s: Seq<GameView>, n: nat) -> Seq<String>
    decreases s.len(),
{
    if s.len() == 0 || n == 0 {
        Seq::empty()
    } else if s[0].status == GameStatus::Completed {
        seq![s[0].title] + first_completed(s.drop_first(), (n - 1) as nat)
    } else {
        first_completed(s.drop_first(), n)
    }
}

/// Games in order of update time, the latest first.
pub open spec fn newest_first(s: Seq<GameView>) -> bool {
    forall|k: int| 0 <= k < s.len() - 1 ==> !text_lt((#[trigger] s[k]).updated_at@, s[k + 1].updated_at@)
}

/// `titles` are those of the `n` most recently updated completed games of
/// `recs`, the latest first.
pub open spec fn is_recent_completions(titles: Seq<String>, recs: Seq<GameView>, n: nat) -> bool {
    exists|s: Seq<GameView>|
        #[trigger] s.to_multiset() == recs.to_multiset() && newest_first(s) && titles == first_completed(s, n)
}

pub proof fn lemma_counts_bounded(s: Seq<GameView>)
    ensures
        0 <= status_count(s, GameStatus::NotStarted) <= s.len(),
        0 <= status_count(s, GameStatus::Playing) <= s.len(),
        0 <= status_count(s, GameStatus::Completed) <= s.len(),
        0 <= status_count(s, GameStatus::Dropped) <= s.len(),
        0 <= status_count(s, GameStatus::Backlog) <= s.len(),
        0 <= status_count(s, GameStatus::Wishlist) <= s.len(),
        0 <= playtime_total(s) <= s.len() * 0xffff_ffff,
        0 <= rating_total(s) <= s.len() * 0xffff_ffff,
        0 <= rated_count(s) <= s.len(),
    decreases s.len(),
{
    if s.len() > 0 {
        lemma_counts_bounded(s.drop_last());
    }
}

} // verus!
