use gametrc::catalog::StoreError;
use gametrc::commands::CommandError;
use gametrc::images::{filename_with_stem, generate_filename, get_extension, is_remote_url, ImageError};
use gametrc::models::GameStatus;

#[test]
fn status_tokens_round_trip() {
    let all = [
        GameStatus::NotStarted,
        GameStatus::Playing,
        GameStatus::Completed,
        GameStatus::Dropped,
        GameStatus::Backlog,
        GameStatus::Wishlist,
    ];
    for s in all {
        assert_eq!(GameStatus::from_str(s.as_str()), s);
    }
    assert_eq!(GameStatus::Completed.as_str(), "Completed");
    assert_eq!(GameStatus::NotStarted.as_str(), "NotStarted");
}

#[test]
fn unknown_status_token_reads_as_not_started() {
    assert_eq!(GameStatus::from_str("Finished"), GameStatus::NotStarted);
    assert_eq!(GameStatus::from_str(""), GameStatus::NotStarted);
    assert_eq!(GameStatus::from_str("completed"), GameStatus::NotStarted);
}

#[test]
fn remote_urls_are_recognised() {
    assert!(is_remote_url("http://example.com/a.png"));
    assert!(is_remote_url("https://example.com/a.png"));
    assert!(!is_remote_url("/home/user/a.png"));
    assert!(!is_remote_url("ftp://example.com/a.png"));
    assert!(!is_remote_url("http:/"));
}

#[test]
fn extension_is_lowercased_and_ignores_query() {
    assert_eq!(get_extension("https://example.com/cover.JPG?size=large"), Some("jpg".to_string()));
    assert_eq!(get_extension("/home/user/game.PNG"), Some("png".to_string()));
    assert_eq!(get_extension("/home/user/noext"), None);
    assert_eq!(get_extension("https://example.com/a?x=y.png"), None);
}

#[test]
fn file_names_keep_the_extension() {
    assert_eq!(filename_with_stem("abc", "pic.JPEG"), "abc.jpeg");
    assert_eq!(filename_with_stem("abc", "pic"), "abc.jpg");
    let n = generate_filename("https://example.com/x.webp");
    assert!(n.ends_with(".webp"));
    assert!(n.len() > ".webp".len());
    assert_ne!(generate_filename("a.png"), generate_filename("a.png"));
}

#[test]
fn error_messages() {
    assert_eq!(ImageError::HttpError("HTTP 404".to_string()).message(), "HTTP error: HTTP 404");
    assert_eq!(ImageError::InvalidPath("x".to_string()).message(), "Invalid path: x");
    assert_eq!(ImageError::IoError("denied".to_string()).message(), "IO error: denied");
    assert_eq!(CommandError::from_store(StoreError::NotFound).message(), "Query returned no rows");
    assert_eq!(CommandError::from_store(StoreError::Full).message(), "database or disk is full");
    assert_eq!(CommandError::from_store(StoreError::Conflict).message(), "a game with this id already exists");
    assert!(CommandError::from_store(StoreError::Validation).message().starts_with("invalid game"));
    assert_eq!(CommandError::from_image(&ImageError::InvalidPath("y".to_string())).message(), "Invalid path: y");
}
