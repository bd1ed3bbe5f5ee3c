use gametrc::catalog::Catalog;
use gametrc::models::{GameInput, GameStatus, Ratio, StatusBreakdown};

fn input(title: &str, platform: &str, status: GameStatus, rating: Option<u32>) -> GameInput {
    GameInput {
        title: title.to_string(),
        franchise: None,
        sequence_in_franchise: None,
        release_date: None,
        platform: platform.to_string(),
        status,
        progress_percent: None,
        playtime_hours: None,
        rating,
        notes: None,
        cover_art_path: None,
        screenshots: vec![],
        developer: None,
        publisher: None,
        genres: vec![],
    }
}

fn value(r: Ratio) -> f64 {
    r.numer as f64 / r.denom as f64
}

#[test]
fn stats_of_empty_catalog() {
    let c = Catalog::new();
    let s = c.get_stats();
    assert_eq!(s.total_games, 0);
    assert_eq!(
        s.by_status,
        StatusBreakdown { not_started: 0, playing: 0, completed: 0, dropped: 0, backlog: 0, wishlist: 0 }
    );
    assert_eq!(s.total_playtime_hours, 0);
    assert_eq!(s.average_rating, None);
    assert_eq!(value(s.completion_rate), 0.0);
    assert!(s.games_by_platform.is_empty());
    assert!(s.games_by_genre.is_empty());
    assert!(s.games_by_franchise.is_empty());
    assert!(s.recent_completions.is_empty());
}

#[test]
fn stats_of_three_games() {
    let mut c = Catalog::new();
    c.add_game_at(input("A", "PC", GameStatus::Completed, Some(900)), "t1".to_string()).unwrap();
    c.add_game_at(input("B", "PC", GameStatus::Wishlist, None), "t2".to_string()).unwrap();
    c.add_game_at(input("C", "PS5", GameStatus::Playing, Some(600)), "t3".to_string()).unwrap();
    let s = c.get_stats();
    assert_eq!(s.total_games, 3);
    assert_eq!(s.by_status.completed, 1);
    assert_eq!(s.by_status.wishlist, 1);
    assert_eq!(s.by_status.playing, 1);
    assert_eq!(value(s.completion_rate), 50.0);
    assert_eq!(value(s.average_rating.unwrap()) / 100.0, 7.5);
    assert_eq!(s.games_by_platform.len(), 2);
    assert_eq!((s.games_by_platform[0].name.as_str(), s.games_by_platform[0].count), ("PC", 2));
    assert_eq!((s.games_by_platform[1].name.as_str(), s.games_by_platform[1].count), ("PS5", 1));
    assert_eq!(s.recent_completions, vec!["A".to_string()]);
}

#[test]
fn playtime_sums_with_absent_as_zero() {
    let mut c = Catalog::new();
    let mut a = input("A", "PC", GameStatus::Playing, None);
    a.playtime_hours = Some(1050);
    let mut b = input("B", "PC", GameStatus::Playing, None);
    b.playtime_hours = Some(250);
    c.add_game_at(a, "t1".to_string()).unwrap();
    c.add_game_at(b, "t2".to_string()).unwrap();
    c.add_game_at(input("C", "PC", GameStatus::Playing, None), "t3".to_string()).unwrap();
    assert_eq!(c.get_stats().total_playtime_hours, 1300);
}

#[test]
fn completion_rate_is_zero_when_all_wishlisted() {
    let mut c = Catalog::new();
    c.add_game_at(input("A", "PC", GameStatus::Wishlist, None), "t1".to_string()).unwrap();
    let s = c.get_stats();
    assert_eq!(s.completion_rate, Ratio { numer: 0, denom: 1 });
    assert_eq!(s.average_rating, None);
}

#[test]
fn recent_completions_are_the_last_five_completed() {
    let mut c = Catalog::new();
    for k in 0..7 {
        let t = format!("G{k}");
        c.add_game_at(input(&t, "PC", GameStatus::Completed, None), format!("t{k}")).unwrap();
    }
    c.add_game_at(input("X", "PC", GameStatus::Playing, None), "t9".to_string()).unwrap();
    let s = c.get_stats();
    assert_eq!(s.recent_completions, vec!["G6", "G5", "G4", "G3", "G2"]);
}

#[test]
fn recent_completions_follow_update_time() {
    let mut c = Catalog::new();
    c.add_game_at(input("Late", "PC", GameStatus::Completed, None), "2024-05-01".to_string()).unwrap();
    c.add_game_at(input("Early", "PC", GameStatus::Completed, None), "2024-01-01".to_string()).unwrap();
    assert_eq!(c.get_stats().recent_completions, vec!["Late", "Early"]);
}

#[test]
fn equal_counts_are_ranked_by_name() {
    let mut c = Catalog::new();
    for (t, p) in [("A", "Xbox"), ("B", "PC"), ("C", "Switch"), ("D", "PC"), ("E", "Switch")] {
        c.add_game_at(input(t, p, GameStatus::Backlog, None), "t".to_string()).unwrap();
    }
    let names: Vec<(String, u64)> = c.get_stats().games_by_platform.into_iter().map(|e| (e.name, e.count)).collect();
    assert_eq!(
        names,
        vec![("PC".to_string(), 2), ("Switch".to_string(), 2), ("Xbox".to_string(), 1)]
    );
}

#[test]
fn franchise_and_genre_breakdowns_are_capped_at_twenty() {
    let mut c = Catalog::new();
    for k in 0..25 {
        let mut i = input(&format!("G{k}"), "PC", GameStatus::Backlog, None);
        i.franchise = Some(format!("F{k}"));
        i.genres = vec![format!("Genre{k}")];
        if k == 3 {
            i.genres.push("Genre4".to_string());
        }
        c.add_game_at(i, format!("t{k}")).unwrap();
    }
    let s = c.get_stats();
    assert_eq!(s.games_by_franchise.len(), 20);
    assert_eq!(s.games_by_genre.len(), 20);
    assert_eq!((s.games_by_genre[0].name.as_str(), s.games_by_genre[0].count), ("Genre4", 2));
    assert!(s.games_by_genre.iter().skip(1).all(|e| e.count == 1));
    // ties are ranked by name, so the kept genres are the first names in order
    assert_eq!(s.games_by_genre[1].name, "Genre0");
    assert_eq!(s.games_by_genre[2].name, "Genre1");
    assert_eq!(s.games_by_franchise[0].name, "F0");
    assert_eq!(s.games_by_franchise[19].name, "F4");
    assert_eq!(s.games_by_platform.len(), 1);
    assert_eq!(s.games_by_platform[0].count, 25);
}
