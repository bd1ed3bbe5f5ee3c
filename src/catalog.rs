use vstd::prelude::*;

use crate::models::{
    valid_record, record_of, text_lt, valid_input, views, CountEntry, Game, GameInput, GameStats, GameStatus, GameView,
    Ratio, SearchFilter, SortField, StatusBreakdown,
};
use crate::stats::{
    average_rating_of, breakdown_of, lemma_rating_total_range, completion_rate_of, franchises_of, lemma_counts_bounded,
    all_genres, platforms_of, playtime_total, rated_count, rating_total, first_completed, newest_first,
    is_recent_completions, status_count,
};
use crate::tally::{
    distinct_sorted, is_sorted_set_of, is_tally, is_top_tally, lemma_tally_of_nothing, tally,
    top_tally,
};
use crate::query::{
    ascending_of, game_matches, in_order, lemma_in_order_total, matches_filter, precedes,
    sort_field_of,
};
use crate::rows::{
    append_children, children_of, collect_children, lemma_children_concat,
    lemma_children_rows_for, lemma_children_without, lemma_no_children, lemma_without_owners,
    remove_children, rows_for, rows_without, ChildRow,
};

verus! {

/// Why a write was refused.
#[derive(Debug, Clone, Copy, PartialEq, Eq, Structural)]
pub enum StoreError {
    /// A required field is empty or a number is out of its range.
    Validation,
    /// No game has the id.
    NotFound,
    /// No id is left to assign.
    Full,
    /// A game already has the id.
    Conflict,
}

/// The catalog: one table of games and two child tables, screenshots and genres,
/// whose rows point at their game. Games are kept in the order in which they were
/// last written, the most recent last.
pub struct Catalog {
    games: Vec<Game>,
    screenshots: Vec<ChildRow>,
    genres: Vec<ChildRow>,
    next_id: i64,
}

pub closed spec fn has_id_in(games: Seq<Game>, id: i64) -> bool {
    exists|i: int| 0 <= i < games.len() && games[i].id == id
}

proof fn lemma_has_id_after_remove(games: Seq<Game>, idx: int, id: i64)
    requires
        0 <= idx < games.len(),
        has_id_in(games, id),
        games[idx].id != id,
    ensures
        has_id_in(games.remove(idx), id),
{
    let j = choose|j: int| 0 <= j < games.len() && games[j].id == id;
    if j < idx {
        assert(games.remove(idx)[j] == games[j]);
    } else {
        assert(games.remove(idx)[j - 1] == games[j]);
    }
}

proof fn lemma_has_id_after_push(games: Seq<Game>, g: Game, id: i64)
    requires
        has_id_in(games, id) || g.id == id,
    ensures
        has_id_in(games.push(g), id),
{
    if g.id == id {
        assert(games.push(g)[games.len() as int] == g);
    } else {
        let j = choose|j: int| 0 <= j < games.len() && games[j].id == id;
        assert(games.push(g)[j] == games[j]);
    }
}

/// Relies on chrono's `Utc::now` and `DateTime::to_rfc3339`: the current time as an
/// RFC 3339 text. Nothing is stated of the value, which depends on the clock.
#[verifier::external_body]
fn now_rfc3339() -> (r: String) {
    chrono::Utc::now().to_rfc3339()
}

/// A copy of an optional string.
fn copy_opt(o: &Option<String>) -> (r: Option<String>)
    ensures
        r == *o,
{
    match o {
        Some(s) => Some(s.clone()),
        None => None,
    }
}

/// Whether the input has its required fields and its numbers in range.
pub fn check_input(input: &GameInput) -> (r: bool)
    ensures
        r == valid_input(*input),
{
    if input.title.as_str().unicode_len() == 0 || input.platform.as_str().unicode_len() == 0 {
        return false;
    }
    let progress_ok = match input.progress_percent {
        Some(p) => p <= 10000,
        None => true,
    };
    let rating_ok = match input.rating {
        Some(r) => 100 <= r && r <= 1000,
        None => true,
    };
    progress_ok && rating_ok
}

impl Catalog {
    /// A game row together with its children.
    pub closed spec fn hydrate(&self, row: Game) -> GameView {
        GameView {
            screenshots: children_of(self.screenshots@, row.id),
            genres: children_of(self.genres@, row.id),
            ..row@
        }
    }

    /// Every game with its children, in the order of last write (most recent last).
    pub closed spec fn records(&self) -> Seq<GameView> {
        Seq::new(self.games@.len(), |i: int| self.hydrate(self.games@[i]))
    }

    /// The id that the next added game receives.
    pub closed spec fn next_free(&self) -> i64 {
        self.next_id
    }

    /// Every id has been handed out.
    pub open spec fn ids_exhausted(&self) -> bool {
        self.next_free() == i64::MAX
    }

    pub closed spec fn has_id(&self, id: i64) -> bool {
        has_id_in(self.games@, id)
    }

    pub closed spec fn index_of(&self, id: i64) -> int {
        choose|i: int| 0 <= i < self.games@.len() && self.games@[i].id == id
    }

    /// The stored record of `id`, meaningful where `has_id(id)`.
    pub closed spec fn record(&self, id: i64) -> GameView {
        self.records()[self.index_of(id)]
    }

    /// Ids are positive, distinct and below the next one to assign; every child
    /// row belongs to a stored game.
    pub closed spec fn wf(&self) -> bool {
        &&& 0 < self.next_id
        &&& forall|i: int|
            0 <= i < self.games@.len() ==> 0 < #[trigger] self.games@[i].id < self.next_id
        &&& forall|i: int, j: int|
            0 <= i < self.games@.len() && 0 <= j < self.games@.len() && i != j
                ==> self.games@[i].id != self.games@[j].id
        &&& forall|k: int|
            0 <= k < self.screenshots@.len() ==> self.has_id(#[trigger] self.screenshots@[k].game_id)
        &&& forall|k: int|
            0 <= k < self.genres@.len() ==> self.has_id(#[trigger] self.genres@[k].game_id)
        &&& forall|i: int| 0 <= i < self.games@.len() ==> valid_record((#[trigger] self.games@[i])@)
    }

    proof fn lemma_index_of(&self, i: int)
        requires
            self.wf(),
            0 <= i < self.games@.len(),
        ensures
            self.has_id(self.games@[i].id),
            self.index_of(self.games@[i].id) == i,
            self.record(self.games@[i].id) == self.records()[i],
    {
        let id = self.games@[i].id;
        assert(self.has_id(id));
    }

    /// The titles of the first `limit` completed games.
fn recent_completions(games: &Vec<Game>, limit: usize) -> (r: Vec<String>)
    ensures
        r@ == first_completed(views(games@), limit as nat),
{
    let ghost s = views(games@);
    let mut r: Vec<String> = Vec::new();
    let mut i: usize = 0;
    proof {
        assert(s.skip(0) =~= s);
        assert(r@ + first_completed(s.skip(0), limit as nat) =~= first_completed(s, limit as nat));
    }
    while i < games.len() && r.len() < limit
        invariant
            s == views(games@),
            0 <= i <= games@.len(),
            r@.len() <= limit,
            r@ + first_completed(s.skip(i as int), (limit - r@.len()) as nat) == first_completed(s, limit as nat),
        decreases games@.len() - i,
    {
        proof {
            assert(s.skip(i as int).drop_first() =~= s.skip(i + 1));
            assert(s.skip(i as int)[0] == games@[i as int]@);
        }
        if games[i].status == GameStatus::Completed {
            let ghost before = r@;
            r.push(games[i].title.clone());
            proof {
                assert(before.push(games@[i as int].title) + first_completed(s.skip(i + 1), (limit - r@.len()) as nat)
                    =~= before + (seq![games@[i as int].title] + first_completed(s.skip(i + 1), (limit - before.len() - 1) as nat)));
            }
        }
        i = i + 1;
    }
    proof {
        assert(r@ + Seq::<String>::empty() =~= r@);
    }
    r
}

/// What a row appended to the games, with its children appended to the child
    /// tables, does to the records.
    proof fn lemma_after_insert(before: Catalog, after: Catalog, shots: Seq<String>, genres: Seq<String>)
        requires
            before.wf(),
            after.games@.len() == before.games@.len() + 1,
            after.games@.drop_last() == before.games@,
            !before.has_id(after.games@.last().id),
            0 < after.games@.last().id < after.next_id,
            before.next_id <= after.next_id,
            valid_record(after.games@.last()@),
            after.screenshots@ == before.screenshots@ + rows_for(after.games@.last().id, shots),
            after.genres@ == before.genres@ + rows_for(after.games@.last().id, genres),
        ensures
            after.wf(),
            after.records() == before.records().push(after.records().last()),
            after.records().last() == (GameView { screenshots: shots, genres, ..after.games@.last()@ }),
            forall|x: i64| #[trigger] after.has_id(x) <==> before.has_id(x) || x == after.games@.last().id,
    {
        let id = after.games@.last().id;
        let n = before.games@.len() as int;
        assert(after.games@ =~= before.games@.push(after.games@.last()));
        assert forall|i: int| 0 <= i < after.games@.len() implies valid_record((#[trigger] after.games@[i])@) by {
            if i < n {
                assert(after.games@[i] == before.games@[i]);
            }
        }
        assert forall|k: int| 0 <= k < before.screenshots@.len() implies before.screenshots@[k].game_id != id by {
            assert(before.has_id(before.screenshots@[k].game_id));
        }
        assert forall|k: int| 0 <= k < before.genres@.len() implies before.genres@[k].game_id != id by {
            assert(before.has_id(before.genres@[k].game_id));
        }
        lemma_no_children(before.screenshots@, id);
        lemma_no_children(before.genres@, id);
        assert forall|j: int| 0 <= j <= n implies after.records()[j] == (if j < n {
            before.records()[j]
        } else {
            GameView { screenshots: shots, genres, ..after.games@.last()@ }
        }) by {
            let gid = after.games@[j].id;
            lemma_children_concat(before.screenshots@, rows_for(id, shots), gid);
            lemma_children_concat(before.genres@, rows_for(id, genres), gid);
            lemma_children_rows_for(id, shots, gid);
            lemma_children_rows_for(id, genres, gid);
            if j < n {
                assert(after.games@[j] == before.games@[j]);
                assert(gid != id);
                assert(children_of(before.screenshots@, gid) + Seq::<String>::empty() =~= children_of(before.screenshots@, gid));
                assert(children_of(before.genres@, gid) + Seq::<String>::empty() =~= children_of(before.genres@, gid));
            } else {
                assert(Seq::<String>::empty() + shots =~= shots);
                assert(Seq::<String>::empty() + genres =~= genres);
            }
        }
        assert(after.records() =~= before.records().push(after.records().last()));
        assert forall|x: i64| #[trigger] after.has_id(x) <==> before.has_id(x) || x == id by {
            if before.has_id(x) || x == id {
                lemma_has_id_after_push(before.games@, after.games@.last(), x);
            }
            if after.has_id(x) && x != id {
                let j = choose|j: int| 0 <= j < after.games@.len() && after.games@[j].id == x;
                assert(before.games@[j].id == x);
            }
        }
        assert forall|k: int| 0 <= k < after.screenshots@.len() implies after.has_id(#[trigger] after.screenshots@[k].game_id) by {
            if k < before.screenshots@.len() {
                assert(after.screenshots@[k] == before.screenshots@[k]);
            } else {
                assert(after.screenshots@[k] == rows_for(id, shots)[k - before.screenshots@.len()]);
            }
        }
        assert forall|k: int| 0 <= k < after.genres@.len() implies after.has_id(#[trigger] after.genres@[k].game_id) by {
            if k < before.genres@.len() {
                assert(after.genres@[k] == before.genres@[k]);
            } else {
                assert(after.genres@[k] == rows_for(id, genres)[k - before.genres@.len()]);
            }
        }
        assert forall|i: int, j: int|
            0 <= i < after.games@.len() && 0 <= j < after.games@.len() && i != j
                implies after.games@[i].id != after.games@[j].id by {
            if i == n {
                assert(before.has_id(after.games@[j].id));
            } else if j == n {
                assert(before.has_id(after.games@[i].id));
            }
        }
    }

    /// What removing the row at `i`, with its children, does to the records.
    proof fn lemma_after_removal(before: Catalog, after: Catalog, i: int)
        requires
            before.wf(),
            0 <= i < before.games@.len(),
            after.games@ == before.games@.remove(i),
            after.screenshots@ == rows_without(before.screenshots@, before.games@[i].id),
            after.genres@ == rows_without(before.genres@, before.games@[i].id),
            after.next_id == before.next_id,
        ensures
            after.wf(),
            after.records() == before.records().remove(i),
            forall|x: i64| #[trigger] after.has_id(x) <==> before.has_id(x) && x != before.games@[i].id,
    {
        let id = before.games@[i].id;
        assert forall|j: int| 0 <= j < after.games@.len() implies after.games@[j] == before.games@[if j < i { j } else { j + 1 }] by {}
        assert forall|j: int| 0 <= j < after.games@.len() implies valid_record((#[trigger] after.games@[j])@) by {
            assert(after.games@[j] == before.games@[if j < i { j } else { j + 1 }]);
        }
        assert forall|x: i64| #[trigger] after.has_id(x) <==> before.has_id(x) && x != id by {
            if before.has_id(x) && x != id {
                lemma_has_id_after_remove(before.games@, i, x);
            }
            if after.has_id(x) {
                let j = choose|j: int| 0 <= j < after.games@.len() && after.games@[j].id == x;
                let k = if j < i { j } else { j + 1 };
                assert(before.games@[k].id == x);
                assert(k != i);
            }
        }
        lemma_without_owners(before.screenshots@, id);
        lemma_without_owners(before.genres@, id);
        assert forall|k: int| 0 <= k < after.screenshots@.len() implies after.has_id(#[trigger] after.screenshots@[k].game_id) by {
            let r = after.screenshots@[k];
            let m = choose|m: int| 0 <= m < before.screenshots@.len() && before.screenshots@[m] == r;
            assert(before.has_id(before.screenshots@[m].game_id));
        }
        assert forall|k: int| 0 <= k < after.genres@.len() implies after.has_id(#[trigger] after.genres@[k].game_id) by {
            let r = after.genres@[k];
            let m = choose|m: int| 0 <= m < before.genres@.len() && before.genres@[m] == r;
            assert(before.has_id(before.genres@[m].game_id));
        }
        assert forall|j: int| 0 <= j < after.games@.len() implies after.records()[j] == before.records().remove(i)[j] by {
            let gid = after.games@[j].id;
            let k = if j < i { j } else { j + 1 };
            assert(gid != id);
            lemma_children_without(before.screenshots@, id, gid);
            lemma_children_without(before.genres@, id, gid);
        }
        assert(after.records() =~= before.records().remove(i));
    }

    /// The rows of the screenshot table.
    pub closed spec fn screenshot_rows(&self) -> Seq<ChildRow> {
        self.screenshots@
    }

    /// The rows of the genre table.
    pub closed spec fn genre_rows(&self) -> Seq<ChildRow> {
        self.genres@
    }

    /// The last record of a catalog is the one found under its id.
    proof fn lemma_last_record(&self)
        requires
            self.wf(),
            self.games@.len() > 0,
        ensures
            self.records().last().id == self.games@.last().id,
            self.has_id(self.records().last().id),
            self.record(self.records().last().id) == self.records().last(),
    {
        self.lemma_index_of(self.games@.len() - 1);
    }

    /// An empty catalog.
    pub fn new() -> (c: Catalog)
        ensures
            c.wf(),
            c.records() == Seq::<GameView>::empty(),
            c.next_free() == 1,
    {
        let c = Catalog { games: Vec::new(), screenshots: Vec::new(), genres: Vec::new(), next_id: 1 };
        assert(c.records() =~= Seq::<GameView>::empty());
        c
    }

    fn find_index(&self, id: i64) -> (r: Option<usize>)
        requires
            self.wf(),
        ensures
            r is None <==> !self.has_id(id),
            r matches Some(i) ==> i < self.games@.len() && self.games@[i as int].id == id
                && self.index_of(id) == i,
    {
        let mut i: usize = 0;
        while i < self.games.len()
            invariant
                self.wf(),
                0 <= i <= self.games@.len(),
                forall|k: int| 0 <= k < i ==> self.games@[k].id != id,
            decreases self.games@.len() - i,
        {
            if self.games[i].id == id {
                proof {
                    self.lemma_index_of(i as int);
                }
                return Some(i);
            }
            i = i + 1;
        }
        None
    }

    /// The game row at `i` with its children.
    fn hydrate_at(&self, i: usize) -> (g: Game)
        requires
            i < self.games@.len(),
        ensures
            g@ == self.records()[i as int],
    {
        let row = &self.games[i];
        Game {
            id: row.id,
            title: row.title.clone(),
            franchise: copy_opt(&row.franchise),
            sequence_in_franchise: row.sequence_in_franchise,
            release_date: copy_opt(&row.release_date),
            platform: row.platform.clone(),
            status: row.status,
            progress_percent: row.progress_percent,
            playtime_hours: row.playtime_hours,
            rating: row.rating,
            notes: copy_opt(&row.notes),
            cover_art_path: copy_opt(&row.cover_art_path),
            screenshots: collect_children(&self.screenshots, row.id),
            developer: copy_opt(&row.developer),
            publisher: copy_opt(&row.publisher),
            genres: collect_children(&self.genres, row.id),
            created_at: row.created_at.clone(),
            updated_at: row.updated_at.clone(),
        }
    }

    /// The game with `id` and its children, or `None` where no game has it.
    pub fn get_game(&self, id: i64) -> (r: Option<Game>)
        requires
            self.wf(),
        ensures
            r is Some <==> self.has_id(id),
            r matches Some(g) ==> g@ == self.record(id),
    {
        match self.find_index(id) {
            Some(i) => Some(self.hydrate_at(i)),
            None => None,
        }
    }

    /// Every game with its children, the most recently updated first.
    pub fn get_all_games(&self) -> (r: Vec<Game>)
        requires
            self.wf(),
        ensures
            views(r@).to_multiset() == self.records().to_multiset(),
            newest_first(views(r@)),
    {
        let f = SearchFilter {
            query: None,
            status: None,
            platform: None,
            franchise: None,
            genre: None,
            min_rating: None,
            sort_by: Some(SortField::UpdatedAt),
            sort_asc: Some(false),
        };
        let r = self.search_games(f);
        proof {
            lemma_filter_all(self.records(), f);
            assert forall|k: int| 0 <= k < views(r@).len() - 1 implies !text_lt(
                (#[trigger] views(r@)[k]).updated_at@,
                views(r@)[k + 1].updated_at@,
            ) by {
                assert(in_order(SortField::UpdatedAt, false, r@[k]@, r@[k + 1]@));
            }
        }
        r
    }

    /// The genres of every game, game by game in the order of last write.
    pub open spec fn genre_labels(&self) -> Seq<String> {
        all_genres(self.records())
    }

    /// Figures over the whole catalog, computed afresh: the number of games, of
    /// each status, the total playtime, the mean rating where any game has one,
    /// the completion rate, the counts by platform, by franchise and by genre
    /// (the last two the twenty largest), and the titles of the five most recently
    /// written completed games.
    #[verifier::rlimit(60)]
    pub fn get_stats(&self) -> (r: GameStats)
        requires
            self.wf(),
        ensures
            r.total_games == self.records().len(),
            r.by_status == breakdown_of(self.records()),
            r.total_playtime_hours == playtime_total(self.records()),
            r.average_rating == average_rating_of(self.records()),
            r.completion_rate == completion_rate_of(self.records()),
            is_tally(r.games_by_platform@, platforms_of(self.records())),
            is_top_tally(r.games_by_franchise@, franchises_of(self.records()), 20),
            is_top_tally(r.games_by_genre@, self.genre_labels(), 20),
            is_recent_completions(r.recent_completions@, self.records(), 5),
    {
        let ghost recs = self.records();
        let n = self.games.len();
        let mut not_started: u64 = 0;
        let mut playing: u64 = 0;
        let mut completed: u64 = 0;
        let mut dropped: u64 = 0;
        let mut backlog: u64 = 0;
        let mut wishlist: u64 = 0;
        let mut playtime: u128 = 0;
        let mut rating_sum: u128 = 0;
        let mut rated: u128 = 0;
        let mut i: usize = 0;
        while i < n
            invariant
                n == self.games@.len(),
                recs == self.records(),
                0 <= i <= n,
                not_started == status_count(recs.take(i as int), GameStatus::NotStarted),
                playing == status_count(recs.take(i as int), GameStatus::Playing),
                completed == status_count(recs.take(i as int), GameStatus::Completed),
                dropped == status_count(recs.take(i as int), GameStatus::Dropped),
                backlog == status_count(recs.take(i as int), GameStatus::Backlog),
                wishlist == status_count(recs.take(i as int), GameStatus::Wishlist),
                playtime == playtime_total(recs.take(i as int)),
                rating_sum == rating_total(recs.take(i as int)),
                rated == rated_count(recs.take(i as int)),
            decreases n - i,
        {
            let row = &self.games[i];
            proof {
                let pre = recs.take(i as int);
                let post = recs.take(i + 1);
                assert(post.drop_last() =~= pre);
                assert(post.last() == self.hydrate(*row));
                lemma_counts_bounded(pre);
            }
            match row.status {
                GameStatus::NotStarted => not_started = not_started + 1,
                GameStatus::Playing => playing = playing + 1,
                GameStatus::Completed => completed = completed + 1,
                GameStatus::Dropped => dropped = dropped + 1,
                GameStatus::Backlog => backlog = backlog + 1,
                GameStatus::Wishlist => wishlist = wishlist + 1,
            }
            match row.playtime_hours {
                Some(h) => playtime = playtime + h as u128,
                None => {},
            }
            match row.rating {
                Some(v) => {
                    rating_sum = rating_sum + v as u128;
                    rated = rated + 1;
                },
                None => {},
            }
            i = i + 1;
        }
        proof {
            assert(recs.take(n as int) =~= recs);
            lemma_counts_bounded(recs);
        }
        let average_rating = if rated > 0 {
            Some(Ratio { numer: rating_sum, denom: rated })
        } else {
            None
        };
        let owned: u64 = n as u64 - wishlist;
        let completion_rate = if owned > 0 {
            Ratio { numer: completed as u128 * 100, denom: owned as u128 }
        } else {
            Ratio { numer: 0, denom: 1 }
        };
        let platforms = self.platform_list();
        let franchises = self.franchise_list();
        let labels = self.genre_list();
        let recent = self.recent_titles();
        GameStats {
            total_games: n as u64,
            by_status: StatusBreakdown { not_started, playing, completed, dropped, backlog, wishlist },
            total_playtime_hours: playtime,
            average_rating,
            completion_rate,
            games_by_platform: tally(&platforms),
            games_by_genre: top_tally(&labels, 20),
            games_by_franchise: top_tally(&franchises, 20),
            recent_completions: recent,
        }
    }

    /// The titles of the five most recently updated completed games.
    fn recent_titles(&self) -> (r: Vec<String>)
        requires
            self.wf(),
        ensures
            is_recent_completions(r@, self.records(), 5),
    {
        let all = self.get_all_games();
        let recent = Catalog::recent_completions(&all, 5);
        proof {
            let w = views(all@);
            assert(w.to_multiset() == self.records().to_multiset() && newest_first(w)
                && recent@ == first_completed(w, 5));
        }
        recent
    }

    /// The platform of each game, in the order of last write.
    fn platform_list(&self) -> (r: Vec<String>)
        ensures
            r@ == platforms_of(self.records()),
    {
        let ghost recs = self.records();
        let mut r: Vec<String> = Vec::new();
        let mut i: usize = 0;
        while i < self.games.len()
            invariant
                recs == self.records(),
                0 <= i <= self.games@.len(),
                r@ == platforms_of(recs.take(i as int)),
            decreases self.games@.len() - i,
        {
            proof {
                assert(recs.take(i + 1)[i as int] == self.hydrate(self.games@[i as int]));
                assert(platforms_of(recs.take(i + 1)) =~= platforms_of(recs.take(i as int)).push(self.games@[i as int].platform));
            }
            r.push(self.games[i].platform.clone());
            i = i + 1;
        }
        proof {
            assert(recs.take(i as int) =~= recs);
        }
        r
    }

    /// The franchise of each game that has one, in the order of last write.
    fn franchise_list(&self) -> (r: Vec<String>)
        ensures
            r@ == franchises_of(self.records()),
    {
        let ghost recs = self.records();
        let mut r: Vec<String> = Vec::new();
        let mut i: usize = 0;
        while i < self.games.len()
            invariant
                recs == self.records(),
                0 <= i <= self.games@.len(),
                r@ == franchises_of(recs.take(i as int)),
            decreases self.games@.len() - i,
        {
            proof {
                assert(recs.take(i + 1).drop_last() =~= recs.take(i as int));
                assert(recs.take(i + 1).last() == self.hydrate(self.games@[i as int]));
            }
            match &self.games[i].franchise {
                Some(f) => r.push(f.clone()),
                None => {},
            }
            i = i + 1;
        }
        proof {
            assert(recs.take(i as int) =~= recs);
        }
        r
    }

    /// The genres of every game, game by game in the order of last write.
    fn genre_list(&self) -> (r: Vec<String>)
        ensures
            r@ == self.genre_labels(),
    {
        let ghost recs = self.records();
        let mut r: Vec<String> = Vec::new();
        let mut i: usize = 0;
        while i < self.games.len()
            invariant
                recs == self.records(),
                0 <= i <= self.games@.len(),
                r@ == all_genres(recs.take(i as int)),
            decreases self.games@.len() - i,
        {
            let gs = collect_children(&self.genres, self.games[i].id);
            let ghost start = r@;
            let mut k: usize = 0;
            while k < gs.len()
                invariant
                    0 <= k <= gs@.len(),
                    r@ == start + gs@.take(k as int),
                decreases gs@.len() - k,
            {
                r.push(gs[k].clone());
                proof {
                    assert(gs@.take(k + 1) =~= gs@.take(k as int).push(gs@[k as int]));
                    assert(r@ =~= start + gs@.take(k + 1));
                }
                k = k + 1;
            }
            proof {
                assert(gs@.take(gs@.len() as int) =~= gs@);
                assert(recs.take(i + 1).drop_last() =~= recs.take(i as int));
                assert(recs.take(i + 1).last() == self.hydrate(self.games@[i as int]));
            }
            i = i + 1;
        }
        proof {
            assert(recs.take(i as int) =~= recs);
        }
        r
    }

    /// The distinct platforms of the stored games, in ascending order.
    pub fn get_platforms(&self) -> (r: Vec<String>)
        ensures
            is_sorted_set_of(r@, platforms_of(self.records())),
    {
        distinct_sorted(&self.platform_list())
    }

    /// The distinct franchises of the stored games, in ascending order.
    pub fn get_franchises(&self) -> (r: Vec<String>)
        ensures
            is_sorted_set_of(r@, franchises_of(self.records())),
    {
        distinct_sorted(&self.franchise_list())
    }

    /// The distinct genre labels, in ascending order.
    pub fn get_genres(&self) -> (r: Vec<String>)
        ensures
            is_sorted_set_of(r@, self.genre_labels()),
    {
        distinct_sorted(&self.genre_list())
    }

    /// The records that pass a filter, in the order of last write.
    pub open spec fn selected(&self, f: SearchFilter) -> Seq<GameView> {
        self.records().filter(|g: GameView| matches_filter(f, g))
    }

    /// The games that pass the filter, with their children, ordered by the
    /// filter's sort field and direction, absent values last.
    pub fn search_games(&self, filter: SearchFilter) -> (r: Vec<Game>)
        requires
            self.wf(),
        ensures
            views(r@).to_multiset() == self.selected(filter).to_multiset(),
            forall|k: int|
                0 <= k < r@.len() - 1 ==> in_order(
                    sort_field_of(filter),
                    ascending_of(filter),
                    #[trigger] r@[k]@,
                    r@[k + 1]@,
                ),
    {
        let field = match filter.sort_by {
            Some(s) => s,
            None => SortField::UpdatedAt,
        };
        let asc = match filter.sort_asc {
            Some(b) => b,
            None => true,
        };
        let ghost pred = |g: GameView| matches_filter(filter, g);
        let mut res: Vec<Game> = Vec::new();
        let mut i: usize = 0;
        proof {
            reveal_with_fuel(Seq::filter, 1);
            assert(self.records().take(0) =~= Seq::<GameView>::empty());
            assert(views(res@) =~= Seq::<GameView>::empty());
        }
        while i < self.games.len()
            invariant
                self.wf(),
                0 <= i <= self.games@.len(),
                field == sort_field_of(filter),
                asc == ascending_of(filter),
                pred == (|g: GameView| matches_filter(filter, g)),
                views(res@).to_multiset() == self.records().take(i as int).filter(pred).to_multiset(),
                forall|k: int|
                    0 <= k < res@.len() - 1 ==> in_order(field, asc, #[trigger] res@[k]@, res@[k + 1]@),
            decreases self.games@.len() - i,
        {
            let g = self.hydrate_at(i);
            proof {
                reveal_with_fuel(Seq::filter, 1);
                assert(self.records().take(i + 1).drop_last() =~= self.records().take(i as int));
                assert(self.records().take(i + 1).last() == g@);
            }
            if game_matches(&filter, &g) {
                let mut p: usize = 0;
                while p < res.len() && precedes(field, asc, &res[p], &g)
                    invariant
                        0 <= p <= res@.len(),
                        p > 0 ==> in_order(field, asc, res@[p - 1]@, g@),
                    decreases res@.len() - p,
                {
                    p = p + 1;
                }
                proof {
                    if p < res@.len() {
                        lemma_in_order_total(field, asc, res@[p as int]@, g@);
                    }
                }
                let ghost before = res@;
                res.insert(p, g);
                proof {
                    assert(views(res@) =~= views(before).insert(p as int, g@));
                    vstd::seq_lib::to_multiset_insert(views(before), p as int, g@);
                    vstd::seq_lib::to_multiset_build(self.records().take(i as int).filter(pred), g@);
                    assert forall|k: int| 0 <= k < res@.len() - 1 implies in_order(field, asc, #[trigger] res@[k]@, res@[k + 1]@) by {
                        if k < p - 1 {
                            assert(res@[k] == before[k] && res@[k + 1] == before[k + 1]);
                        } else if k == p - 1 {
                            assert(res@[k] == before[k] && res@[k + 1] == g);
                        } else if k == p {
                            assert(res@[k] == g && res@[k + 1] == before[k]);
                        } else {
                            assert(res@[k] == before[k - 1] && res@[k + 1] == before[k]);
                        }
                    }
                }
            }
            i = i + 1;
        }
        proof {
            assert(self.records().take(self.games@.len() as int) =~= self.records());
        }
        res
    }

    /// Builds the stored row of an input; its own child lists stay empty.
    fn row_of(input: GameInput, id: i64, created_at: String, updated_at: String) -> (g: Game)
        ensures
            g@ == (GameView {
                screenshots: Seq::empty(),
                genres: Seq::empty(),
                ..record_of(input, id, created_at, updated_at)
            }),
    {
        let g = Game {
            id,
            title: input.title,
            franchise: input.franchise,
            sequence_in_franchise: input.sequence_in_franchise,
            release_date: input.release_date,
            platform: input.platform,
            status: input.status,
            progress_percent: input.progress_percent,
            playtime_hours: input.playtime_hours,
            rating: input.rating,
            notes: input.notes,
            cover_art_path: input.cover_art_path,
            screenshots: Vec::new(),
            developer: input.developer,
            publisher: input.publisher,
            genres: Vec::new(),
            created_at,
            updated_at,
        };
        assert(g@ =~= (GameView {
            screenshots: Seq::empty(),
            genres: Seq::empty(),
            ..record_of(input, id, created_at, updated_at)
        }));
        g
    }

    /// Adds a game stamped with `now` as both timestamps, under the next free id,
    /// with its screenshots and genres in the order given.
    pub fn add_game_at(&mut self, input: GameInput, now: String) -> (r: Result<Game, StoreError>)
        requires
            old(self).wf(),
        ensures
            final(self).wf(),
            r == Err::<Game, StoreError>(StoreError::Validation) <==> !valid_input(input),
            r == Err::<Game, StoreError>(StoreError::Full) <==> valid_input(input)
                && old(self).ids_exhausted(),
            r is Ok <==> valid_input(input) && !old(self).ids_exhausted(),
            r is Err ==> *final(self) == *old(self),
            r matches Ok(g) ==> {
                &&& g.id == old(self).next_free()
                &&& final(self).next_free() == (g.id + 1) as i64
                &&& !old(self).has_id(g.id)
                &&& g@ == record_of(input, g.id, now, now)
                &&& final(self).records() == old(self).records().push(g@)
            },
    {
        if !check_input(&input) {
            return Err(StoreError::Validation);
        }
        if self.next_id == i64::MAX {
            return Err(StoreError::Full);
        }
        let ghost before = *self;
        let id = self.next_id;
        append_children(&mut self.screenshots, id, &input.screenshots);
        append_children(&mut self.genres, id, &input.genres);
        let ghost inp = input;
        let row = Catalog::row_of(input, id, now.clone(), now);
        self.games.push(row);
        self.next_id = id + 1;
        proof {
            assert(self.games@.drop_last() =~= before.games@);
            Catalog::lemma_after_insert(before, *self, inp.screenshots@, inp.genres@);
        }
        let g = self.hydrate_at(self.games.len() - 1);
        proof {
            assert(g@ =~= record_of(inp, id, now, now));
        }
        Ok(g)
    }

    /// Puts back a game that was stored before, under its own id and timestamps,
    /// as the most recently written one. Ids handed out later are above it.
    pub fn restore_game(
        &mut self,
        id: i64,
        input: GameInput,
        created_at: String,
        updated_at: String,
    ) -> (r: Result<Game, StoreError>)
        requires
            old(self).wf(),
        ensures
            final(self).wf(),
            r == Err::<Game, StoreError>(StoreError::Validation) <==> !valid_input(input) || id <= 0
                || id == i64::MAX,
            r == Err::<Game, StoreError>(StoreError::Conflict) <==> valid_input(input) && 0 < id < i64::MAX
                && old(self).has_id(id),
            r is Ok <==> valid_input(input) && 0 < id < i64::MAX && !old(self).has_id(id),
            r is Err ==> *final(self) == *old(self),
            r matches Ok(g) ==> {
                &&& g@ == record_of(input, id, created_at, updated_at)
                &&& final(self).records() == old(self).records().push(g@)
                &&& final(self).next_free() == if old(self).next_free() <= id {
                    (id + 1) as i64
                } else {
                    old(self).next_free()
                }
            },
    {
        if !check_input(&input) || id <= 0 || id == i64::MAX {
            return Err(StoreError::Validation);
        }
        if self.find_index(id).is_some() {
            return Err(StoreError::Conflict);
        }
        let ghost before = *self;
        append_children(&mut self.screenshots, id, &input.screenshots);
        append_children(&mut self.genres, id, &input.genres);
        let ghost inp = input;
        let row = Catalog::row_of(input, id, created_at, updated_at);
        self.games.push(row);
        if self.next_id <= id {
            self.next_id = id + 1;
        }
        proof {
            assert(self.games@.drop_last() =~= before.games@);
            Catalog::lemma_after_insert(before, *self, inp.screenshots@, inp.genres@);
        }
        let g = self.hydrate_at(self.games.len() - 1);
        proof {
            assert(g@ =~= record_of(inp, id, created_at, updated_at));
        }
        Ok(g)
    }

    /// Adds a game stamped with the current time; see `add_game_at`.
    pub fn add_game(&mut self, input: GameInput) -> (r: Result<Game, StoreError>)
        requires
            old(self).wf(),
        ensures
            final(self).wf(),
            r == Err::<Game, StoreError>(StoreError::Validation) <==> !valid_input(input),
            r == Err::<Game, StoreError>(StoreError::Full) <==> valid_input(input)
                && old(self).ids_exhausted(),
            r is Ok <==> valid_input(input) && !old(self).ids_exhausted(),
            r is Err ==> *final(self) == *old(self),
            r matches Ok(g) ==> {
                &&& g.id == old(self).next_free()
                &&& final(self).next_free() == (g.id + 1) as i64
                &&& !old(self).has_id(g.id)
                &&& g@ == record_of(input, g.id, g.created_at, g.created_at)
                &&& final(self).records() == old(self).records().push(g@)
            },
    {
        let now = now_rfc3339();
        self.add_game_at(input, now)
    }

    /// Updates a game stamped with the current time; see `update_game_at`.
    pub fn update_game(&mut self, id: i64, input: GameInput) -> (r: Result<Game, StoreError>)
        requires
            old(self).wf(),
        ensures
            final(self).wf(),
            r == Err::<Game, StoreError>(StoreError::NotFound) <==> !old(self).has_id(id),
            r == Err::<Game, StoreError>(StoreError::Validation) <==> old(self).has_id(id)
                && !valid_input(input),
            r is Ok <==> valid_input(input) && old(self).has_id(id),
            r is Err ==> *final(self) == *old(self),
            final(self).next_free() == old(self).next_free(),
            r matches Ok(g) ==> {
                &&& g@ == record_of(input, id, old(self).record(id).created_at, g.updated_at)
                &&& final(self).records() == old(self).records().remove(old(self).index_of(id)).push(g@)
            },
    {
        let now = now_rfc3339();
        self.update_game_at(id, input, now)
    }

    /// Replaces every field of the game `id` and its whole sets of screenshots and
    /// genres, keeps its creation time and stamps it with `now`. The game becomes
    /// the most recently written one.
    pub fn update_game_at(&mut self, id: i64, input: GameInput, now: String) -> (r: Result<Game, StoreError>)
        requires
            old(self).wf(),
        ensures
            final(self).wf(),
            r == Err::<Game, StoreError>(StoreError::NotFound) <==> !old(self).has_id(id),
            r == Err::<Game, StoreError>(StoreError::Validation) <==> old(self).has_id(id)
                && !valid_input(input),
            r is Ok <==> valid_input(input) && old(self).has_id(id),
            r is Err ==> *final(self) == *old(self),
            final(self).next_free() == old(self).next_free(),
            r matches Ok(g) ==> {
                &&& g@ == record_of(input, id, old(self).record(id).created_at, now)
                &&& final(self).records() == old(self).records().remove(old(self).index_of(id)).push(g@)
            },
    {
        let i = match self.find_index(id) {
            Some(i) => i,
            None => {
                return Err(StoreError::NotFound);
            },
        };
        if !check_input(&input) {
            return Err(StoreError::Validation);
        }
        let ghost before = *self;
        let old_row = self.games.remove(i);
        remove_children(&mut self.screenshots, id);
        remove_children(&mut self.genres, id);
        proof {
            Catalog::lemma_after_removal(before, *self, i as int);
        }
        let ghost mid = *self;
        append_children(&mut self.screenshots, id, &input.screenshots);
        append_children(&mut self.genres, id, &input.genres);
        let ghost inp = input;
        let row = Catalog::row_of(input, id, old_row.created_at, now);
        self.games.push(row);
        proof {
            assert(self.games@.drop_last() =~= mid.games@);
            assert(before.games@[i as int].id < before.next_id);
            Catalog::lemma_after_insert(mid, *self, inp.screenshots@, inp.genres@);
            before.lemma_index_of(i as int);
        }
        let g = self.hydrate_at(self.games.len() - 1);
        proof {
            assert(g@ =~= record_of(inp, id, before.record(id).created_at, now));
        }
        Ok(g)
    }

    /// Removes the game `id` with all of its screenshots and genres. Returns
    /// whether there was such a game; where there was none, nothing changes.
    pub fn delete_game(&mut self, id: i64) -> (r: bool)
        requires
            old(self).wf(),
        ensures
            final(self).wf(),
            r == old(self).has_id(id),
            !final(self).has_id(id),
            final(self).next_free() == old(self).next_free(),
            !r ==> *final(self) == *old(self),
            r ==> final(self).records() == old(self).records().remove(old(self).index_of(id)),
    {
        match self.find_index(id) {
            None => false,
            Some(i) => {
                let ghost before = *self;
                let _removed = self.games.remove(i);
                remove_children(&mut self.screenshots, id);
                remove_children(&mut self.genres, id);
                proof {
                    Catalog::lemma_after_removal(before, *self, i as int);
                }
                true
            },
        }
    }
}

/// A game is found under an id exactly when one of the records has that id, and
/// what is found is that record.
pub proof fn lemma_lookup(c: Catalog, id: i64)
    requires
        c.wf(),
    ensures
        c.has_id(id) <==> exists|i: int| 0 <= i < c.records().len() && (#[trigger] c.records()[i]).id == id,
        forall|i: int| 0 <= i < c.records().len() && (#[trigger] c.records()[i]).id == id ==> c.record(id) == c.records()[i],
        forall|i: int, j: int| 0 <= i < c.records().len() && 0 <= j < c.records().len() && i != j
            ==> (#[trigger] c.records()[i]).id != (#[trigger] c.records()[j]).id,
        c.has_id(id) ==> 0 <= c.index_of(id) < c.records().len() && c.records()[c.index_of(id)].id == id
            && c.record(id) == c.records()[c.index_of(id)],
        forall|i: int| 0 <= i < c.records().len() ==> valid_record(#[trigger] c.records()[i]),
{
    assert forall|i: int| 0 <= i < c.records().len() implies valid_record(#[trigger] c.records()[i]) by {
        assert(valid_record(c.games@[i]@));
    }
    assert forall|i: int| 0 <= i < c.records().len() implies (#[trigger] c.records()[i]).id == c.games@[i].id by {}
    if c.has_id(id) {
        let i = c.index_of(id);
        assert(c.records()[i].id == id);
    }
    assert forall|i: int| 0 <= i < c.records().len() && (#[trigger] c.records()[i]).id == id implies c.record(id) == c.records()[i] by {
        c.lemma_index_of(i);
    }
}

/// A game that has been added is found under its id, with exactly the input's
/// fields, the assigned id, and the insertion time as both timestamps.
pub proof fn law_add_then_get(before: Catalog, after: Catalog, input: GameInput, now: String, g: GameView)
    requires
        before.wf(),
        after.wf(),
        !before.has_id(g.id),
        g == record_of(input, g.id, now, now),
        after.records() == before.records().push(g),
    ensures
        after.has_id(g.id),
        after.record(g.id) == record_of(input, g.id, now, now),
{
    after.lemma_last_record();
}

/// An update keeps the creation time, and stamps the update time with the time
/// of the update, which is not earlier than the previous stamp whenever the clock
/// has not gone back.
pub proof fn law_update_keeps_creation(
    before: Catalog,
    after: Catalog,
    id: i64,
    input: GameInput,
    now: String,
    g: GameView,
)
    requires
        before.wf(),
        after.wf(),
        before.has_id(id),
        g == record_of(input, id, before.record(id).created_at, now),
        after.records() == before.records().remove(before.index_of(id)).push(g),
        !text_lt(now@, before.record(id).updated_at@),
    ensures
        after.has_id(id),
        after.record(id).created_at == before.record(id).created_at,
        after.record(id).updated_at == now,
        !text_lt(after.record(id).updated_at@, before.record(id).updated_at@),
{
    after.lemma_last_record();
}

/// After an update the game holds exactly the new screenshots and genres; none
/// of the replaced ones is read back.
pub proof fn law_update_replaces_children(
    before: Catalog,
    after: Catalog,
    id: i64,
    input: GameInput,
    now: String,
    g: GameView,
)
    requires
        before.wf(),
        after.wf(),
        before.has_id(id),
        g == record_of(input, id, before.record(id).created_at, now),
        after.records() == before.records().remove(before.index_of(id)).push(g),
    ensures
        after.record(id).screenshots == input.screenshots@,
        after.record(id).genres == input.genres@,
{
    after.lemma_last_record();
}

/// Once a game is deleted it is not found, and so deleting it again reports
/// `false`: from the records that a delete leaves, no game has the id.
pub proof fn law_delete_then_get(before: Catalog, after: Catalog, id: i64)
    requires
        before.wf(),
        after.wf(),
        before.has_id(id) ==> after.records() == before.records().remove(before.index_of(id)),
        !before.has_id(id) ==> after.records() == before.records(),
    ensures
        !after.has_id(id),
{
    if after.has_id(id) {
        let j = choose|j: int| 0 <= j < after.games@.len() && after.games@[j].id == id;
        assert(after.records().len() == after.games@.len());
        assert(before.records().len() == before.games@.len());
        assert(after.records()[j].id == id);
        if before.has_id(id) {
            let i = before.index_of(id);
            let k = if j < i { j } else { j + 1 };
            assert(after.records()[j] == before.records()[k]);
            assert(before.records()[k].id == before.games@[k].id);
            assert(before.games@[i].id == id);
            assert(k != i);
        } else {
            assert(after.records()[j] == before.records()[j]);
            assert(before.records()[j].id == before.games@[j].id);
        }
    }
}

/// A filter that sets no condition selects every game: a search with it returns
/// the same games as `get_all_games`, in its own order.
pub proof fn law_empty_search_is_all(c: Catalog, f: SearchFilter, searched: Seq<Game>, all: Seq<Game>)
    requires
        c.wf(),
        f.query is None,
        f.status is None,
        f.platform is None,
        f.franchise is None,
        f.genre is None,
        f.min_rating is None,
        views(searched).to_multiset() == c.selected(f).to_multiset(),
        views(all).to_multiset() == c.records().to_multiset(),
    ensures
        c.selected(f) == c.records(),
        views(searched).to_multiset() == views(all).to_multiset(),
{
    lemma_filter_all(c.records(), f);
}

proof fn lemma_filter_all(s: Seq<GameView>, f: SearchFilter)
    requires
        forall|g: GameView| matches_filter(f, g),
    ensures
        s.filter(|g: GameView| matches_filter(f, g)) == s,
    decreases s.len(),
{
    reveal_with_fuel(Seq::filter, 1);
    if s.len() > 0 {
        lemma_filter_all(s.drop_last(), f);
        assert(s.drop_last().push(s.last()) =~= s);
    }
}

/// Every game that a search returns passes its filter: with a status set, it has
/// exactly that status; with a minimum rating set, it has a rating and the
/// rating is at least the minimum.
pub proof fn law_search_only_matches(c: Catalog, f: SearchFilter, searched: Seq<Game>)
    requires
        c.wf(),
        views(searched).to_multiset() == c.selected(f).to_multiset(),
    ensures
        forall|k: int| 0 <= k < searched.len() ==> matches_filter(f, #[trigger] searched[k]@),
        forall|k: int|
            0 <= k < searched.len() && f.status is Some ==> #[trigger] searched[k]@.status == f.status->0,
        forall|k: int|
            0 <= k < searched.len() && f.min_rating is Some ==> (#[trigger] searched[k]@.rating) is Some
                && searched[k]@.rating->0 >= f.min_rating->0,
{
    broadcast use vstd::seq_lib::group_to_multiset_ensures, vstd::seq_lib::group_filter_ensures;
    assert forall|k: int| 0 <= k < searched.len() implies matches_filter(f, #[trigger] searched[k]@) by {
        let g = searched[k]@;
        assert(views(searched)[k] == g);
        assert(views(searched).contains(g));
        assert(views(searched).to_multiset().count(g) > 0);
        assert(c.selected(f).contains(g));
        let pred = |x: GameView| matches_filter(f, x);
        let j = choose|j: int| 0 <= j < c.selected(f).len() && c.selected(f)[j] == g;
        assert(pred(c.selected(f)[j]));
    }
}

/// The figures of an empty catalog: no game, every status count zero, no
/// playtime, no average rating, a completion rate of zero, and no entry in any
/// breakdown or in the recent completions.
pub proof fn law_empty_stats(c: Catalog, platforms: Seq<CountEntry>, franchises: Seq<CountEntry>, genres: Seq<CountEntry>)
    requires
        c.wf(),
        c.records().len() == 0,
        is_tally(platforms, platforms_of(c.records())),
        is_top_tally(franchises, franchises_of(c.records()), 20),
        is_top_tally(genres, c.genre_labels(), 20),
    ensures
        breakdown_of(c.records()) == (StatusBreakdown {
            not_started: 0,
            playing: 0,
            completed: 0,
            dropped: 0,
            backlog: 0,
            wishlist: 0,
        }),
        playtime_total(c.records()) == 0,
        average_rating_of(c.records()) is None,
        completion_rate_of(c.records()) == (Ratio { numer: 0, denom: 1 }),
        platforms.len() == 0,
        franchises.len() == 0,
        genres.len() == 0,
        forall|titles: Seq<String>| is_recent_completions(titles, c.records(), 5) ==> titles.len() == 0,
{
    assert forall|titles: Seq<String>| is_recent_completions(titles, c.records(), 5) implies titles.len() == 0 by {
        let s = choose|s: Seq<GameView>|
            #[trigger] s.to_multiset() == c.records().to_multiset() && newest_first(s) && titles == first_completed(s, 5);
        vstd::seq_lib::to_multiset_len(s);
        vstd::seq_lib::to_multiset_len(c.records());
        assert(s.len() == 0);
    }
    assert(platforms_of(c.records()) =~= Seq::<String>::empty());
    assert(is_top_tally(platforms, platforms_of(c.records()), platforms.len() as nat)) by {
        assert(platforms == platforms.take(platforms.len() as int));
    }
    lemma_tally_of_nothing(platforms, platforms_of(c.records()), platforms.len() as nat);
    lemma_tally_of_nothing(franchises, franchises_of(c.records()), 20);
    assert(c.genre_labels().len() == 0);
    lemma_tally_of_nothing(genres, c.genre_labels(), 20);
}

/// The mean rating, where there is one, lies between 1 and 10 (100 and 1000
/// in hundredths).
pub proof fn law_average_rating_in_range(c: Catalog)
    requires
        c.wf(),
    ensures
        average_rating_of(c.records()) matches Some(q) ==> 100 * q.denom <= q.numer <= 1000 * q.denom,
{
    lemma_lookup(c, 0);
    lemma_rating_total_range(c.records());
    lemma_counts_bounded(c.records());
    let n = c.records().len();
    let t = rating_total(c.records());
    let k = rated_count(c.records());
    assert(n == c.games@.len());
    assert(c.games.len() == c.games@.len());
    assert(1000 * k <= 1000 * 0x1_0000_0000_0000_0000) by (nonlinear_arith)
        requires k <= n, n <= 0xffff_ffff_ffff_ffff;
    assert(0 <= t <= u128::MAX);
    assert(0 <= k <= u128::MAX);
}

proof fn lemma_filter_count<A>(s: Seq<A>, p: spec_fn(A) -> bool, x: A)
    ensures
        s.filter(p).to_multiset().count(x) <= s.to_multiset().count(x),
        p(x) ==> s.filter(p).to_multiset().count(x) == s.to_multiset().count(x),
    decreases s.len(),
{
    reveal_with_fuel(Seq::filter, 1);
    if s.len() > 0 {
        lemma_filter_count(s.drop_last(), p, x);
        assert(s.drop_last().push(s.last()) =~= s);
        vstd::seq_lib::to_multiset_build(s.drop_last(), s.last());
        vstd::seq_lib::to_multiset_build(s.drop_last().filter(p), s.last());
    }
}

/// A value that stands at two places of a sequence is counted twice.
proof fn lemma_twice_counted<A>(s: Seq<A>, k: int, l: int)
    requires
        0 <= k < s.len(),
        0 <= l < s.len(),
        k != l,
        s[k] == s[l],
    ensures
        s.to_multiset().count(s[k]) >= 2,
{
    vstd::seq_lib::to_multiset_remove(s, k);
    let l2 = if l < k { l } else { l - 1 };
    assert(s.remove(k)[l2] == s[l]);
    vstd::seq_lib::to_multiset_contains(s.remove(k), s[l]);
}

/// A value counted twice stands at two places.
proof fn lemma_counted_twice<A>(s: Seq<A>, x: A) -> (r: (int, int))
    requires
        s.to_multiset().count(x) >= 2,
    ensures
        0 <= r.0 < s.len() && 0 <= r.1 < s.len() && r.0 != r.1 && s[r.0] == x && s[r.1] == x,
{
    vstd::seq_lib::to_multiset_contains(s, x);
    let k = choose|k: int| 0 <= k < s.len() && s[k] == x;
    vstd::seq_lib::to_multiset_remove(s, k);
    vstd::seq_lib::to_multiset_contains(s.remove(k), x);
    let j = choose|j: int| 0 <= j < s.remove(k).len() && s.remove(k)[j] == x;
    let l = if j < k { j } else { j + 1 };
    assert(s[l] == s.remove(k)[j]);
    (k, l)
}

/// What a search returns are stored games, each as `get_game` gives it, with
/// distinct ids; and every stored game that passes the filter is among them.
pub proof fn law_search_returns_matching_records(c: Catalog, f: SearchFilter, searched: Seq<Game>)
    requires
        c.wf(),
        views(searched).to_multiset() == c.selected(f).to_multiset(),
    ensures
        forall|k: int| 0 <= k < searched.len() ==> c.has_id((#[trigger] searched[k]).id)
            && c.record(searched[k].id) == searched[k]@,
        forall|k: int, l: int| 0 <= k < searched.len() && 0 <= l < searched.len() && k != l
            ==> (#[trigger] searched[k]).id != (#[trigger] searched[l]).id,
        forall|i: int| 0 <= i < c.records().len() && matches_filter(f, #[trigger] c.records()[i])
            ==> exists|k: int| 0 <= k < searched.len() && searched[k]@ == c.records()[i],
{
    let recs = c.records();
    let p = |g: GameView| matches_filter(f, g);
    let v = views(searched);
    lemma_lookup(c, 0);
    assert forall|k: int| 0 <= k < searched.len() implies c.has_id((#[trigger] searched[k]).id)
        && c.record(searched[k].id) == searched[k]@ by {
        assert(v[k] == searched[k]@);
        vstd::seq_lib::to_multiset_contains(v, v[k]);
        lemma_filter_count(recs, p, v[k]);
        vstd::seq_lib::to_multiset_contains(recs, v[k]);
        let i = choose|i: int| 0 <= i < recs.len() && recs[i] == v[k];
        lemma_lookup(c, searched[k].id);
    }
    assert forall|k: int, l: int| 0 <= k < searched.len() && 0 <= l < searched.len() && k != l
        implies (#[trigger] searched[k]).id != (#[trigger] searched[l]).id by {
        if searched[k].id == searched[l].id {
            assert(v[k] == searched[k]@ && v[l] == searched[l]@);
            assert(v[k] == v[l]);
            lemma_twice_counted(v, k, l);
            lemma_filter_count(recs, p, v[k]);
            let (a, b) = lemma_counted_twice(recs, v[k]);
            assert(recs[a].id == recs[b].id);
        }
    }
    assert forall|i: int| 0 <= i < recs.len() && matches_filter(f, #[trigger] c.records()[i])
        implies exists|k: int| 0 <= k < searched.len() && searched[k]@ == c.records()[i] by {
        vstd::seq_lib::to_multiset_contains(recs, recs[i]);
        lemma_filter_count(recs, p, recs[i]);
        vstd::seq_lib::to_multiset_contains(v, recs[i]);
        let k = choose|k: int| 0 <= k < v.len() && v[k] == recs[i];
        assert(searched[k]@ == v[k]);
    }
}

/// What `get_all_games` returns are the stored games, each as `get_game` gives
/// it, with distinct ids, every stored game among them.
pub proof fn law_all_games_are_records(c: Catalog, all: Seq<Game>)
    requires
        c.wf(),
        views(all).to_multiset() == c.records().to_multiset(),
    ensures
        forall|k: int| 0 <= k < all.len() ==> c.has_id((#[trigger] all[k]).id) && c.record(all[k].id) == all[k]@,
        forall|k: int, l: int| 0 <= k < all.len() && 0 <= l < all.len() && k != l
            ==> (#[trigger] all[k]).id != (#[trigger] all[l]).id,
        forall|i: int| 0 <= i < c.records().len() ==> views(all).contains(#[trigger] c.records()[i]),
{
    let f = SearchFilter {
        query: None,
        status: None,
        platform: None,
        franchise: None,
        genre: None,
        min_rating: None,
        sort_by: None,
        sort_asc: None,
    };
    lemma_filter_all(c.records(), f);
    law_search_returns_matching_records(c, f, all);
    assert forall|i: int| 0 <= i < c.records().len() implies views(all).contains(#[trigger] c.records()[i]) by {
        vstd::seq_lib::to_multiset_contains(c.records(), c.records()[i]);
        vstd::seq_lib::to_multiset_contains(views(all), c.records()[i]);
    }
}

/// A catalog with no game `id` holds no screenshot or genre row of it.
pub proof fn law_no_orphans(c: Catalog, id: i64)
    requires
        c.wf(),
        !c.has_id(id),
    ensures
        forall|k: int| 0 <= k < c.screenshot_rows().len() ==> c.screenshot_rows()[k].game_id != id,
        forall|k: int| 0 <= k < c.genre_rows().len() ==> c.genre_rows()[k].game_id != id,
{
}

} // verus!
