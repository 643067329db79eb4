use twitter_sentiment::database::{SentimentDB, StorageError, TweetSentiment};

fn entry(id: u64, keyword: &str, created: i64, sentiment: f64) -> TweetSentiment {
    TweetSentiment::new(id, keyword.to_string(), created, sentiment.to_bits())
}

#[test]
fn new_entry_holds_what_it_was_given() {
    let e = entry(42, "rust", 1_600_000_000, -0.5);
    assert_eq!(e.id, 42);
    assert_eq!(e.keyword, "rust");
    assert_eq!(e.created, 1_600_000_000);
    assert_eq!(f64::from_bits(e.sentiment), -0.5);
}

#[test]
fn identifier_above_the_signed_range_wraps() {
    let e = entry(u64::MAX, "rust", 0, 0.0);
    assert_eq!(e.id, -1);
    let e = entry(1u64 << 63, "rust", 0, 0.0);
    assert_eq!(e.id, i64::MIN);
    let e = entry(i64::MAX as u64, "rust", 0, 0.0);
    assert_eq!(e.id, i64::MAX);
}

#[test]
fn clone_copies_every_field() {
    let e = entry(7, "systems", 99, 0.25);
    let c = e.clone();
    assert_eq!((c.id, c.keyword.as_str(), c.created, c.sentiment), (7, "systems", 99, 0.25f64.to_bits()));
}

#[test]
fn empty_store_knows_no_keyword() {
    let db = SentimentDB::new();
    assert_eq!(db.len(), 0);
    assert!(!db.keyword_exists("rust"));
    assert!(db.keywords().is_empty());
    assert_eq!(db.get("rust").unwrap_err(), StorageError::NotFound);
}

#[test]
fn keyword_exists_from_its_first_insert_on() {
    let mut db = SentimentDB::new();
    assert!(!db.keyword_exists("rust"));
    db.insert(entry(1, "systems", 10, 0.1));
    assert!(!db.keyword_exists("rust"));
    assert!(db.keyword_exists("systems"));
    db.insert(entry(2, "rust", 20, 0.2));
    assert!(db.keyword_exists("rust"));
    db.insert(entry(3, "go", 30, 0.3));
    db.insert(entry(4, "rust", 5, 0.4));
    assert!(db.keyword_exists("rust"));
    assert!(db.keyword_exists("systems"));
    assert!(db.keyword_exists("go"));
    assert!(!db.keyword_exists("Rust"));
    assert!(!db.keyword_exists("rus"));
    assert_eq!(db.len(), 4);
}

#[test]
fn get_sorts_by_creation_time_whatever_the_insert_order() {
    let times = [[300, 100, 200], [100, 200, 300], [200, 300, 100], [300, 200, 100]];
    for order in times {
        let mut db = SentimentDB::new();
        for (i, t) in order.iter().enumerate() {
            db.insert(entry(i as u64, "rust", *t, 0.5));
        }
        let read = db.get("rust").unwrap();
        let created: Vec<i64> = read.iter().map(|e| e.created).collect();
        assert_eq!(created, vec![100, 200, 300]);
    }
}

#[test]
fn get_returns_only_the_keyword_asked_for() {
    let mut db = SentimentDB::new();
    db.insert(entry(1, "rust", 30, 0.1));
    db.insert(entry(2, "systems", 10, 0.2));
    db.insert(entry(3, "rust", 20, 0.3));
    db.insert(entry(4, "systems", 5, -0.4));
    let rust = db.get("rust").unwrap();
    assert_eq!(rust.iter().map(|e| e.id).collect::<Vec<_>>(), vec![3, 1]);
    assert!(rust.iter().all(|e| e.keyword == "rust"));
    let systems = db.get("systems").unwrap();
    assert_eq!(systems.iter().map(|e| e.id).collect::<Vec<_>>(), vec![4, 2]);
    assert_eq!(f64::from_bits(systems[0].sentiment), -0.4);
}

#[test]
fn get_keeps_insert_order_among_equal_times() {
    let mut db = SentimentDB::new();
    db.insert(entry(1, "rust", 50, 0.1));
    db.insert(entry(2, "rust", 10, 0.1));
    db.insert(entry(3, "rust", 50, 0.1));
    db.insert(entry(4, "rust", 10, 0.1));
    db.insert(entry(5, "rust", 50, 0.1));
    let read = db.get("rust").unwrap();
    assert_eq!(read.iter().map(|e| e.id).collect::<Vec<_>>(), vec![2, 4, 1, 3, 5]);
}

#[test]
fn get_handles_negative_and_extreme_times() {
    let mut db = SentimentDB::new();
    db.insert(entry(1, "k", i64::MAX, 0.0));
    db.insert(entry(2, "k", -1, 0.0));
    db.insert(entry(3, "k", i64::MIN, 0.0));
    db.insert(entry(4, "k", 0, 0.0));
    let read = db.get("k").unwrap();
    assert_eq!(
        read.iter().map(|e| e.created).collect::<Vec<_>>(),
        vec![i64::MIN, -1, 0, i64::MAX]
    );
}

#[test]
fn get_of_an_unseen_keyword_is_not_found() {
    let mut db = SentimentDB::new();
    db.insert(entry(1, "rust", 1, 0.1));
    assert_eq!(db.get("systems").unwrap_err(), StorageError::NotFound);
    assert_eq!(db.get("").unwrap_err(), StorageError::NotFound);
}

#[test]
fn insert_never_overwrites() {
    let mut db = SentimentDB::new();
    db.insert(entry(1, "rust", 1, 0.1));
    db.insert(entry(1, "rust", 1, 0.1));
    assert_eq!(db.len(), 2);
    assert_eq!(db.get("rust").unwrap().len(), 2);
}

#[test]
fn keywords_are_listed_once_in_ascending_order() {
    let mut db = SentimentDB::new();
    db.insert(entry(1, "systems", 1, 0.1));
    db.insert(entry(2, "rust", 2, 0.1));
    db.insert(entry(3, "systems", 3, 0.1));
    db.insert(entry(4, "go", 4, 0.1));
    db.insert(entry(5, "rust", 5, 0.1));
    db.insert(entry(6, "Rust", 6, 0.1));
    assert_eq!(
        db.keywords(),
        vec!["Rust".to_string(), "go".to_string(), "rust".to_string(), "systems".to_string()]
    );
}

#[test]
fn keywords_are_ascending_whatever_the_insert_order() {
    let mut db = SentimentDB::new();
    db.insert(entry(1, "b", 1, 0.1));
    db.insert(entry(2, "a", 2, 0.1));
    assert_eq!(db.keywords(), vec!["a".to_string(), "b".to_string()]);
    let mut db = SentimentDB::new();
    db.insert(entry(2, "a", 2, 0.1));
    db.insert(entry(1, "b", 1, 0.1));
    assert_eq!(db.keywords(), vec!["a".to_string(), "b".to_string()]);
}

#[test]
fn insert_all_appends_in_order() {
    let mut db = SentimentDB::new();
    db.insert(entry(1, "rust", 9, 0.1));
    let more = vec![entry(2, "rust", 3, 0.2), entry(3, "go", 1, 0.3)];
    db.insert_all(&more);
    assert_eq!(db.len(), 3);
    assert_eq!(db.get("rust").unwrap().iter().map(|e| e.id).collect::<Vec<_>>(), vec![2, 1]);
    assert_eq!(db.keywords(), vec!["go".to_string(), "rust".to_string()]);
    db.insert_all(&Vec::new());
    assert_eq!(db.len(), 3);
}

#[test]
fn entries_are_equal_when_every_field_is() {
    assert_eq!(entry(1, "rust", 10, 0.5), entry(1, "rust", 10, 0.5));
    assert_eq!(entry(1, "rust", 10, 0.5).clone(), entry(1, "rust", 10, 0.5));
    assert_ne!(entry(1, "rust", 10, 0.5), entry(2, "rust", 10, 0.5));
    assert_ne!(entry(1, "rust", 10, 0.5), entry(1, "go", 10, 0.5));
    assert_ne!(entry(1, "rust", 10, 0.5), entry(1, "rust", 11, 0.5));
    assert_ne!(entry(1, "rust", 10, 0.5), entry(1, "rust", 10, -0.5));
}
