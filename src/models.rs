use vstd::prelude::*;

verus! {

/// Where the player stands with a game.
#[derive(Debug, Clone, Copy, PartialEq, Eq, Structural)]
pub enum GameStatus {
    NotStarted,
    Playing,
    Completed,
    Dropped,
    Backlog,
    Wishlist,
}

/// The fixed token under which a status is stored.
pub open spec fn status_token(s: GameStatus) -> Seq<char> {
    match s {
        GameStatus::NotStarted => "NotStarted"@,
        GameStatus::Playing => "Playing"@,
        GameStatus::Completed => "Completed"@,
        GameStatus::Dropped => "Dropped"@,
        GameStatus::Backlog => "Backlog"@,
        GameStatus::Wishlist => "Wishlist"@,
    }
}

/// The status a stored token reads back as; unknown tokens read as `NotStarted`.
pub open spec fn status_of_token(t: Seq<char>) -> GameStatus {
    if t == "Playing"@ {
        GameStatus::Playing
    } else if t == "Completed"@ {
        GameStatus::Completed
    } else if t == "Dropped"@ {
        GameStatus::Dropped
    } else if t == "Backlog"@ {
        GameStatus::Backlog
    } else if t == "Wishlist"@ {
        GameStatus::Wishlist
    } else {
        GameStatus::NotStarted
    }
}

impl GameStatus {
    pub fn as_str(&self) -> (r: &'static str)
        ensures
            r@ == status_token(*self),
    {
        proof {
            reveal_strlit("NotStarted");
            reveal_strlit("Playing");
            reveal_strlit("Completed");
            reveal_strlit("Dropped");
            reveal_strlit("Backlog");
            reveal_strlit("Wishlist");
        }
        match self {
            GameStatus::NotStarted => "NotStarted",
            GameStatus::Playing => "Playing",
            GameStatus::Completed => "Completed",
            GameStatus::Dropped => "Dropped",
            GameStatus::Backlog => "Backlog",
            GameStatus::Wishlist => "Wishlist",
        }
    }
}


impl GameStatus {
    /// Reads a stored token back; any token that is not one of the fixed ones reads as `NotStarted`.
    pub fn from_str(s: &str) -> (r: GameStatus)
        ensures
            r == status_of_token(s@),
    {
        if str_eq(s, "Playing") {
            GameStatus::Playing
        } else if str_eq(s, "Completed") {
            GameStatus::Completed
        } else if str_eq(s, "Dropped") {
            GameStatus::Dropped
        } else if str_eq(s, "Backlog") {
            GameStatus::Backlog
        } else if str_eq(s, "Wishlist") {
            GameStatus::Wishlist
        } else {
            GameStatus::NotStarted
        }
    }
}

/// Character-wise equality of two string slices.
pub fn str_eq(a: &str, b: &str) -> (r: bool)
    ensures
        r == (a@ == b@),
{
    let n = a.unicode_len();
    if n != b.unicode_len() {
        return false;
    }
    let mut i: usize = 0;
    while i < n
        invariant
            n == a@.len(),
            n == b@.len(),
            0 <= i <= n,
            forall|k: int| 0 <= k < i ==> a@[k] == b@[k],
        decreases n - i,
    {
        if a.get_char(i) != b.get_char(i) {
            return false;
        }
        i = i + 1;
    }
    proof {
        assert(a@ =~= b@);
    }
    true
}

/// The fields a user gives for a game. Ratings, progress and playtime are held
/// in hundredths: a rating of 7.5 is `750`, 12.25 hours is `1225`.
pub struct GameInput {
    pub title: String,
    pub franchise: Option<String>,
    pub sequence_in_franchise: Option<i32>,
    pub release_date: Option<String>,
    pub platform: String,
    pub status: GameStatus,
    pub progress_percent: Option<u32>,
    pub playtime_hours: Option<u32>,
    pub rating: Option<u32>,
    pub notes: Option<String>,
    pub cover_art_path: Option<String>,
    pub screenshots: Vec<String>,
    pub developer: Option<String>,
    pub publisher: Option<String>,
    pub genres: Vec<String>,
}

/// A stored game: the user's fields plus the id and the two timestamps.
pub struct Game {
    pub id: i64,
    pub title: String,
    pub franchise: Option<String>,
    pub sequence_in_franchise: Option<i32>,
    pub release_date: Option<String>,
    pub platform: String,
    pub status: GameStatus,
    pub progress_percent: Option<u32>,
    pub playtime_hours: Option<u32>,
    pub rating: Option<u32>,
    pub notes: Option<String>,
    pub cover_art_path: Option<String>,
    pub screenshots: Vec<String>,
    pub developer: Option<String>,
    pub publisher: Option<String>,
    pub genres: Vec<String>,
    pub created_at: String,
    pub updated_at: String,
}

/// A game as a mathematical value.
pub struct GameView {
    pub id: i64,
    pub title: String,
    pub franchise: Option<String>,
    pub sequence_in_franchise: Option<i32>,
    pub release_date: Option<String>,
    pub platform: String,
    pub status: GameStatus,
    pub progress_percent: Option<u32>,
    pub playtime_hours: Option<u32>,
    pub rating: Option<u32>,
    pub notes: Option<String>,
    pub cover_art_path: Option<String>,
    pub screenshots: Seq<String>,
    pub developer: Option<String>,
    pub publisher: Option<String>,
    pub genres: Seq<String>,
    pub created_at: String,
    pub updated_at: String,
}

impl View for Game {
    type V = GameView;

    open spec fn view(&self) -> GameView {
        GameView {
            id: self.id,
            title: self.title,
            franchise: self.franchise,
            sequence_in_franchise: self.sequence_in_franchise,
            release_date: self.release_date,
            platform: self.platform,
            status: self.status,
            progress_percent: self.progress_percent,
            playtime_hours: self.playtime_hours,
            rating: self.rating,
            notes: self.notes,
            cover_art_path: self.cover_art_path,
            screenshots: self.screenshots@,
            developer: self.developer,
            publisher: self.publisher,
            genres: self.genres@,
            created_at: self.created_at,
            updated_at: self.updated_at,
        }
    }
}

/// The values of a sequence of games.
pub open spec fn views(s: Seq<Game>) -> Seq<GameView> {
    s.map_values(|g: Game| g@)
}

/// The record that an input becomes under a given id and timestamps.
pub open spec fn record_of(
    input: GameInput,
    id: i64,
    created_at: String,
    updated_at: String,
) -> GameView {
    GameView {
        id,
        title: input.title,
        franchise: input.franchise,
        sequence_in_franchise: input.sequence_in_franchise,
        release_date: input.release_date,
        platform: input.platform,
        status: input.status,
        progress_percent: input.progress_percent,
        playtime_hours: input.playtime_hours,
        rating: input.rating,
        notes: input.notes,
        cover_art_path: input.cover_art_path,
        screenshots: input.screenshots@,
        developer: input.developer,
        publisher: input.publisher,
        genres: input.genres@,
        created_at,
        updated_at,
    }
}

/// An input is valid when title and platform are non-empty and each number
/// lies in its range: progress 0..=100, rating 1..=10 (in hundredths).
pub open spec fn valid_input(input: GameInput) -> bool {
    input.title@.len() > 0 && input.platform@.len() > 0 && (match input.progress_percent {
        Some(p) => p <= 10000,
        None => true,
    }) && (match input.rating {
        Some(r) => 100 <= r <= 1000,
        None => true,
    })
}

/// Strict lexicographic order on texts, by character code; a proper prefix comes first.
pub open spec fn text_lt(a: Seq<char>, b: Seq<char>) -> bool
    decreases a.len(),
{
    if b.len() == 0 {
        false
    } else if a.len() == 0 {
        true
    } else if a[0] != b[0] {
        (a[0] as int) < (b[0] as int)
    } else {
        text_lt(a.drop_first(), b.drop_first())
    }
}

/// A stored game is valid when it meets the same conditions as a valid input.
pub open spec fn valid_record(g: GameView) -> bool {
    g.title@.len() > 0 && g.platform@.len() > 0 && (match g.progress_percent {
        Some(p) => p <= 10000,
        None => true,
    }) && (match g.rating {
        Some(r) => 100 <= r <= 1000,
        None => true,
    })
}

/// The field a search is ordered by.
#[derive(Debug, Clone, Copy, PartialEq, Eq, Structural)]
pub enum SortField {
    Title,
    ReleaseDate,
    Rating,
    PlaytimeHours,
    ProgressPercent,
    UpdatedAt,
    SequenceInFranchise,
}

/// A search: every field is optional, and each one that is set narrows the result.
pub struct SearchFilter {
    pub query: Option<String>,
    pub status: Option<GameStatus>,
    pub platform: Option<String>,
    pub franchise: Option<String>,
    pub genre: Option<String>,
    pub min_rating: Option<u32>,
    pub sort_by: Option<SortField>,
    pub sort_asc: Option<bool>,
}

/// How many games have each status.
#[derive(Debug, Clone, Copy, PartialEq, Eq, Structural)]
pub struct StatusBreakdown {
    pub not_started: u64,
    pub playing: u64,
    pub completed: u64,
    pub dropped: u64,
    pub backlog: u64,
    pub wishlist: u64,
}

/// A name and how often it occurs.
pub struct CountEntry {
    pub name: String,
    pub count: u64,
}

/// An exact quotient `numer / denom`.
#[derive(Debug, Clone, Copy, PartialEq, Eq, Structural)]
pub struct Ratio {
    pub numer: u128,
    pub denom: u128,
}

/// Figures computed over the whole catalog. Playtime and the average rating are
/// in hundredths, like the fields they come from; the completion rate is a percentage.
pub struct GameStats {
    pub total_games: u64,
    pub by_status: StatusBreakdown,
    pub total_playtime_hours: u128,
    pub average_rating: Option<Ratio>,
    pub completion_rate: Ratio,
    pub games_by_platform: Vec<CountEntry>,
    pub games_by_genre: Vec<CountEntry>,
    pub games_by_franchise: Vec<CountEntry>,
    pub recent_completions: Vec<String>,
}

} // verus!
