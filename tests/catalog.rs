use gametrc::catalog::{Catalog, StoreError};
use gametrc::models::{Game, GameInput, GameStatus, SearchFilter, SortField};

fn input(title: &str, platform: &str, status: GameStatus) -> GameInput {
    GameInput {
        title: title.to_string(),
        franchise: None,
        sequence_in_franchise: None,
        release_date: None,
        platform: platform.to_string(),
        status,
        progress_percent: None,
        playtime_hours: None,
        rating: None,
        notes: None,
        cover_art_path: None,
        screenshots: vec![],
        developer: None,
        publisher: None,
        genres: vec![],
    }
}

fn no_filter() -> SearchFilter {
    SearchFilter {
        query: None,
        status: None,
        platform: None,
        franchise: None,
        genre: None,
        min_rating: None,
        sort_by: None,
        sort_asc: None,
    }
}

fn ids(games: &[Game]) -> Vec<i64> {
    games.iter().map(|g| g.id).collect()
}

#[test]
fn add_then_get_returns_the_input() {
    let mut c = Catalog::new();
    let mut i = input("Halo", "Xbox", GameStatus::Playing);
    i.franchise = Some("Halo".to_string());
    i.sequence_in_franchise = Some(1);
    i.release_date = Some("2001-11-15".to_string());
    i.progress_percent = Some(4550);
    i.playtime_hours = Some(1225);
    i.rating = Some(850);
    i.notes = Some("great".to_string());
    i.cover_art_path = Some("/img/a.png".to_string());
    i.screenshots = vec!["s1".to_string(), "s2".to_string()];
    i.developer = Some("Bungie".to_string());
    i.publisher = Some("Microsoft".to_string());
    i.genres = vec!["Shooter".to_string(), "Action".to_string()];
    let added = c.add_game_at(i, "2024-01-01T00:00:00+00:00".to_string()).unwrap();
    assert_eq!(added.id, 1);
    let g = c.get_game(added.id).unwrap();
    assert_eq!(g.title, "Halo");
    assert_eq!(g.franchise.as_deref(), Some("Halo"));
    assert_eq!(g.sequence_in_franchise, Some(1));
    assert_eq!(g.release_date.as_deref(), Some("2001-11-15"));
    assert_eq!(g.platform, "Xbox");
    assert_eq!(g.status, GameStatus::Playing);
    assert_eq!(g.progress_percent, Some(4550));
    assert_eq!(g.playtime_hours, Some(1225));
    assert_eq!(g.rating, Some(850));
    assert_eq!(g.notes.as_deref(), Some("great"));
    assert_eq!(g.cover_art_path.as_deref(), Some("/img/a.png"));
    assert_eq!(g.screenshots, vec!["s1".to_string(), "s2".to_string()]);
    assert_eq!(g.developer.as_deref(), Some("Bungie"));
    assert_eq!(g.publisher.as_deref(), Some("Microsoft"));
    assert_eq!(g.genres, vec!["Shooter".to_string(), "Action".to_string()]);
    assert_eq!(g.created_at, "2024-01-01T00:00:00+00:00");
    assert_eq!(g.updated_at, "2024-01-01T00:00:00+00:00");
}

#[test]
fn add_with_clock_stamps_both_times_alike() {
    let mut c = Catalog::new();
    let g = c.add_game(input("Doom", "PC", GameStatus::Backlog)).unwrap();
    assert!(!g.created_at.is_empty());
    assert!(g.created_at.contains('T'));
    assert_eq!(g.created_at, g.updated_at);
    assert!(g.screenshots.is_empty());
    assert!(g.genres.is_empty());
}

#[test]
fn ids_are_assigned_in_sequence() {
    let mut c = Catalog::new();
    let a = c.add_game_at(input("A", "PC", GameStatus::Backlog), "t1".to_string()).unwrap();
    let b = c.add_game_at(input("B", "PC", GameStatus::Backlog), "t2".to_string()).unwrap();
    assert_eq!((a.id, b.id), (1, 2));
    assert!(c.get_game(3).is_none());
}

#[test]
fn add_rejects_missing_title_or_platform() {
    let mut c = Catalog::new();
    assert_eq!(c.add_game_at(input("", "PC", GameStatus::Backlog), "t".to_string()).err(), Some(StoreError::Validation));
    assert_eq!(c.add_game_at(input("X", "", GameStatus::Backlog), "t".to_string()).err(), Some(StoreError::Validation));
    assert!(c.get_all_games().is_empty());
}

#[test]
fn add_rejects_numbers_out_of_range() {
    let mut c = Catalog::new();
    let mut low = input("X", "PC", GameStatus::Backlog);
    low.rating = Some(99);
    assert_eq!(c.add_game_at(low, "t".to_string()).err(), Some(StoreError::Validation));
    let mut high = input("X", "PC", GameStatus::Backlog);
    high.rating = Some(1001);
    assert_eq!(c.add_game_at(high, "t".to_string()).err(), Some(StoreError::Validation));
    let mut progress = input("X", "PC", GameStatus::Backlog);
    progress.progress_percent = Some(10001);
    assert_eq!(c.add_game_at(progress, "t".to_string()).err(), Some(StoreError::Validation));
    let mut edges = input("X", "PC", GameStatus::Backlog);
    edges.rating = Some(100);
    edges.progress_percent = Some(10000);
    assert!(c.add_game_at(edges, "t".to_string()).is_ok());
    let mut top = input("Y", "PC", GameStatus::Backlog);
    top.rating = Some(1000);
    top.progress_percent = Some(0);
    assert!(c.add_game_at(top, "t".to_string()).is_ok());
}

#[test]
fn update_keeps_created_at_and_advances_updated_at() {
    let mut c = Catalog::new();
    let g = c.add_game_at(input("A", "PC", GameStatus::Backlog), "2024-01-01T00:00:00+00:00".to_string()).unwrap();
    let u = c
        .update_game_at(g.id, input("A2", "PS5", GameStatus::Playing), "2024-02-01T00:00:00+00:00".to_string())
        .unwrap();
    assert_eq!(u.id, g.id);
    assert_eq!(u.created_at, "2024-01-01T00:00:00+00:00");
    assert_eq!(u.updated_at, "2024-02-01T00:00:00+00:00");
    assert_eq!(u.title, "A2");
    assert_eq!(u.platform, "PS5");
    let read = c.get_game(g.id).unwrap();
    assert_eq!(read.created_at, g.created_at);
    assert!(read.updated_at >= g.updated_at);
}

#[test]
fn update_with_clock_keeps_created_at() {
    let mut c = Catalog::new();
    let g = c.add_game(input("A", "PC", GameStatus::Backlog)).unwrap();
    let u = c.update_game(g.id, input("B", "PC", GameStatus::Dropped)).unwrap();
    assert_eq!(u.created_at, g.created_at);
    assert!(u.updated_at >= g.updated_at);
}

#[test]
fn update_replaces_children_entirely() {
    let mut c = Catalog::new();
    let mut i = input("A", "PC", GameStatus::Backlog);
    i.screenshots = vec!["a".to_string(), "b".to_string()];
    i.genres = vec!["RPG".to_string(), "Indie".to_string()];
    let g = c.add_game_at(i, "t1".to_string()).unwrap();
    let mut j = input("A", "PC", GameStatus::Backlog);
    j.screenshots = vec!["c".to_string()];
    j.genres = vec!["Puzzle".to_string()];
    c.update_game_at(g.id, j, "t2".to_string()).unwrap();
    let read = c.get_game(g.id).unwrap();
    assert_eq!(read.screenshots, vec!["c".to_string()]);
    assert_eq!(read.genres, vec!["Puzzle".to_string()]);
    assert_eq!(c.get_genres(), vec!["Puzzle".to_string()]);
}

#[test]
fn update_of_missing_id_is_not_found_and_changes_nothing() {
    let mut c = Catalog::new();
    let g = c.add_game_at(input("A", "PC", GameStatus::Backlog), "t1".to_string()).unwrap();
    assert_eq!(c.update_game_at(42, input("B", "PC", GameStatus::Backlog), "t2".to_string()).err(), Some(StoreError::NotFound));
    assert_eq!(c.update_game_at(g.id, input("", "PC", GameStatus::Backlog), "t2".to_string()).err(), Some(StoreError::Validation));
    assert_eq!(c.update_game_at(42, input("", "PC", GameStatus::Backlog), "t2".to_string()).err(), Some(StoreError::NotFound));
    let read = c.get_game(g.id).unwrap();
    assert_eq!(read.title, "A");
    assert_eq!(read.updated_at, "t1");
}

#[test]
fn delete_then_get_is_not_found() {
    let mut c = Catalog::new();
    let g = c.add_game_at(input("A", "PC", GameStatus::Backlog), "t1".to_string()).unwrap();
    assert!(c.delete_game(g.id));
    assert!(c.get_game(g.id).is_none());
    assert!(!c.delete_game(g.id));
    assert!(!c.delete_game(999));
}

#[test]
fn delete_removes_children() {
    let mut c = Catalog::new();
    let mut i = input("A", "PC", GameStatus::Backlog);
    i.screenshots = vec!["a".to_string()];
    i.genres = vec!["RPG".to_string()];
    let a = c.add_game_at(i, "t1".to_string()).unwrap();
    let mut j = input("B", "PC", GameStatus::Backlog);
    j.genres = vec!["Puzzle".to_string()];
    let b = c.add_game_at(j, "t2".to_string()).unwrap();
    assert!(c.delete_game(a.id));
    assert_eq!(c.get_genres(), vec!["Puzzle".to_string()]);
    let stats = c.get_stats();
    assert_eq!(stats.games_by_genre.len(), 1);
    assert_eq!(stats.games_by_genre[0].name, "Puzzle");
    assert_eq!(c.get_game(b.id).unwrap().genres, vec!["Puzzle".to_string()]);
    // a new game never sees the children of the deleted one
    let k = c.add_game_at(input("C", "PC", GameStatus::Backlog), "t3".to_string()).unwrap();
    assert!(k.screenshots.is_empty());
    assert!(k.genres.is_empty());
}

#[test]
fn get_all_orders_by_update_time_not_by_write() {
    let mut c = Catalog::new();
    let a = c.add_game_at(input("A", "PC", GameStatus::Backlog), "2024-03-01".to_string()).unwrap();
    let b = c.add_game_at(input("B", "PC", GameStatus::Backlog), "2024-01-01".to_string()).unwrap();
    let d = c.restore_game(9, input("D", "PC", GameStatus::Backlog), "2023-01-01".to_string(), "2024-02-01".to_string()).unwrap();
    assert_eq!(ids(&c.get_all_games()), vec![a.id, d.id, b.id]);
}

#[test]
fn get_all_lists_most_recently_written_first() {
    let mut c = Catalog::new();
    let a = c.add_game_at(input("A", "PC", GameStatus::Backlog), "t1".to_string()).unwrap();
    let b = c.add_game_at(input("B", "PC", GameStatus::Backlog), "t2".to_string()).unwrap();
    let d = c.add_game_at(input("D", "PC", GameStatus::Backlog), "t3".to_string()).unwrap();
    assert_eq!(ids(&c.get_all_games()), vec![d.id, b.id, a.id]);
    c.update_game_at(a.id, input("A", "PC", GameStatus::Backlog), "t4".to_string()).unwrap();
    assert_eq!(ids(&c.get_all_games()), vec![a.id, d.id, b.id]);
}

#[test]
fn empty_search_returns_the_same_games_as_get_all() {
    let mut c = Catalog::new();
    for (t, s) in [("A", "t1"), ("B", "t2"), ("C", "t3")] {
        c.add_game_at(input(t, "PC", GameStatus::Backlog), s.to_string()).unwrap();
    }
    let mut found = ids(&c.search_games(no_filter()));
    let mut all = ids(&c.get_all_games());
    assert_eq!(found, vec![1, 2, 3]);
    found.sort();
    all.sort();
    assert_eq!(found, all);
}

#[test]
fn search_by_status_returns_only_that_status() {
    let mut c = Catalog::new();
    c.add_game_at(input("A", "PC", GameStatus::Completed), "t1".to_string()).unwrap();
    c.add_game_at(input("B", "PC", GameStatus::Playing), "t2".to_string()).unwrap();
    c.add_game_at(input("C", "PC", GameStatus::Completed), "t3".to_string()).unwrap();
    let mut f = no_filter();
    f.status = Some(GameStatus::Completed);
    let found = c.search_games(f);
    assert_eq!(ids(&found), vec![1, 3]);
    assert!(found.iter().all(|g| g.status == GameStatus::Completed));
}

#[test]
fn search_by_min_rating_excludes_absent_and_lower() {
    let mut c = Catalog::new();
    let mut a = input("A", "PC", GameStatus::Backlog);
    a.rating = Some(800);
    let mut b = input("B", "PC", GameStatus::Backlog);
    b.rating = Some(799);
    let d = input("D", "PC", GameStatus::Backlog);
    let mut e = input("E", "PC", GameStatus::Backlog);
    e.rating = Some(1000);
    for (g, t) in [(a, "t1"), (b, "t2"), (d, "t3"), (e, "t4")] {
        c.add_game_at(g, t.to_string()).unwrap();
    }
    let mut f = no_filter();
    f.min_rating = Some(800);
    assert_eq!(ids(&c.search_games(f)), vec![1, 4]);
}

#[test]
fn search_text_matches_title_franchise_or_notes() {
    let mut c = Catalog::new();
    let mut a = input("The Legend of Zelda", "Switch", GameStatus::Backlog);
    a.franchise = Some("Zelda".to_string());
    let mut b = input("Other", "PC", GameStatus::Backlog);
    b.notes = Some("like Zelda but not".to_string());
    let mut d = input("Mario", "Switch", GameStatus::Backlog);
    d.franchise = Some("Mario".to_string());
    for (g, t) in [(a, "t1"), (b, "t2"), (d, "t3")] {
        c.add_game_at(g, t.to_string()).unwrap();
    }
    let mut f = no_filter();
    f.query = Some("Zelda".to_string());
    assert_eq!(ids(&c.search_games(f)), vec![1, 2]);
    let mut f = no_filter();
    f.franchise = Some("ari".to_string());
    assert_eq!(ids(&c.search_games(f)), vec![3]);
    let mut f = no_filter();
    f.platform = Some("Switch".to_string());
    f.query = Some("Leg".to_string());
    assert_eq!(ids(&c.search_games(f)), vec![1]);
}

#[test]
fn search_by_genre_matches_any_genre() {
    let mut c = Catalog::new();
    let mut a = input("A", "PC", GameStatus::Backlog);
    a.genres = vec!["RPG".to_string(), "Action".to_string()];
    let mut b = input("B", "PC", GameStatus::Backlog);
    b.genres = vec!["Puzzle".to_string()];
    c.add_game_at(a, "t1".to_string()).unwrap();
    c.add_game_at(b, "t2".to_string()).unwrap();
    let mut f = no_filter();
    f.genre = Some("Action".to_string());
    assert_eq!(ids(&c.search_games(f)), vec![1]);
    let mut f = no_filter();
    f.genre = Some("Act".to_string());
    assert!(c.search_games(f).is_empty());
}

#[test]
fn search_sorts_with_absent_values_last() {
    let mut c = Catalog::new();
    let mut a = input("b", "PC", GameStatus::Backlog);
    a.rating = Some(500);
    let d = input("a", "PC", GameStatus::Backlog);
    let mut e = input("c", "PC", GameStatus::Backlog);
    e.rating = Some(900);
    for (g, t) in [(a, "t1"), (d, "t2"), (e, "t3")] {
        c.add_game_at(g, t.to_string()).unwrap();
    }
    let mut f = no_filter();
    f.sort_by = Some(SortField::Rating);
    assert_eq!(ids(&c.search_games(f)), vec![1, 3, 2]);
    let mut f = no_filter();
    f.sort_by = Some(SortField::Rating);
    f.sort_asc = Some(false);
    assert_eq!(ids(&c.search_games(f)), vec![3, 1, 2]);
    let mut f = no_filter();
    f.sort_by = Some(SortField::Title);
    assert_eq!(ids(&c.search_games(f)), vec![2, 1, 3]);
    let mut f = no_filter();
    f.sort_asc = Some(false);
    assert_eq!(ids(&c.search_games(f)), vec![3, 2, 1]);
    let mut f = no_filter();
    f.sort_by = Some(SortField::ReleaseDate);
    assert_eq!(ids(&c.search_games(f)), vec![1, 2, 3]);
}

#[test]
fn lookups_are_distinct_and_sorted() {
    let mut c = Catalog::new();
    let mut a = input("A", "Switch", GameStatus::Backlog);
    a.franchise = Some("Zelda".to_string());
    a.genres = vec!["RPG".to_string(), "Action".to_string()];
    let mut b = input("B", "PC", GameStatus::Backlog);
    b.franchise = Some("Doom".to_string());
    b.genres = vec!["Action".to_string()];
    let d = input("D", "Switch", GameStatus::Backlog);
    for (g, t) in [(a, "t1"), (b, "t2"), (d, "t3")] {
        c.add_game_at(g, t.to_string()).unwrap();
    }
    assert_eq!(c.get_platforms(), vec!["PC".to_string(), "Switch".to_string()]);
    assert_eq!(c.get_franchises(), vec!["Doom".to_string(), "Zelda".to_string()]);
    assert_eq!(c.get_genres(), vec!["Action".to_string(), "RPG".to_string()]);
}

#[test]
fn restore_keeps_id_and_timestamps() {
    let mut c = Catalog::new();
    let mut i = input("Old", "PC", GameStatus::Completed);
    i.genres = vec!["RPG".to_string()];
    let g = c.restore_game(7, i, "2020-01-01".to_string(), "2021-01-01".to_string()).unwrap();
    assert_eq!(g.id, 7);
    assert_eq!(g.created_at, "2020-01-01");
    assert_eq!(g.updated_at, "2021-01-01");
    assert_eq!(c.get_game(7).unwrap().genres, vec!["RPG".to_string()]);
    let next = c.add_game_at(input("New", "PC", GameStatus::Backlog), "t".to_string()).unwrap();
    assert_eq!(next.id, 8);
}

#[test]
fn restore_refuses_taken_or_invalid_ids() {
    let mut c = Catalog::new();
    c.restore_game(3, input("A", "PC", GameStatus::Backlog), "a".to_string(), "b".to_string()).unwrap();
    assert_eq!(
        c.restore_game(3, input("B", "PC", GameStatus::Backlog), "a".to_string(), "b".to_string()).err(),
        Some(StoreError::Conflict)
    );
    assert_eq!(
        c.restore_game(0, input("B", "PC", GameStatus::Backlog), "a".to_string(), "b".to_string()).err(),
        Some(StoreError::Validation)
    );
    assert_eq!(
        c.restore_game(i64::MAX, input("B", "PC", GameStatus::Backlog), "a".to_string(), "b".to_string()).err(),
        Some(StoreError::Validation)
    );
    assert_eq!(c.get_all_games().len(), 1);
}
