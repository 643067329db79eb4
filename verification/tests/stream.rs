use twitter_sentiment::database::SentimentDB;
use twitter_sentiment::sentiment::{Polarity, PolarityScore};
use twitter_sentiment::settings::{ConfigError, TwitterSettings};
use twitter_sentiment::twitter_stream::{
    batch_texts, entries_for_post, fan_out, search_results, BuildError, Phase, Post, RunnerAction,
    RunnerEvent, TwitterStreamRunner,
};

fn words(list: &[&str]) -> Vec<String> {
    list.iter().map(|s| s.to_string()).collect()
}

fn settings(track: &[&str], chunk_size: usize, concurrency: usize) -> TwitterSettings {
    TwitterSettings {
        track_tweets: words(track),
        chunk_size,
        concurrency,
        secs_reconnect: 30,
        search_count: 10,
    }
}

fn runner(track: &[&str], chunk_size: usize, concurrency: usize) -> TwitterStreamRunner {
    TwitterStreamRunner::builder().config(settings(track, chunk_size, concurrency)).build().unwrap()
}

fn streaming(track: &[&str], chunk_size: usize, concurrency: usize) -> TwitterStreamRunner {
    let mut runner = runner(track, chunk_size, concurrency);
    assert!(runner.step(RunnerEvent::BackfillDone).is_none());
    assert!(runner.step(RunnerEvent::Opened).is_none());
    assert_eq!(runner.phase(), Phase::Streaming);
    runner
}

fn post(id: u64, created_at: i64, text: &str) -> Post {
    Post { id, created_at, text: text.to_string() }
}

fn positive(score: f64) -> PolarityScore {
    PolarityScore { polarity: Polarity::Positive, score: score.to_bits() }
}

fn negative(score: f64) -> PolarityScore {
    PolarityScore { polarity: Polarity::Negative, score: score.to_bits() }
}

fn ids(posts: &[Post]) -> Vec<u64> {
    posts.iter().map(|p| p.id).collect()
}

#[test]
fn two_posts_make_one_batch_and_two_entries() {
    let mut runner = streaming(&["rust"], 2, 1);
    assert_eq!(runner.action(), RunnerAction::Poll);
    assert!(runner.step(RunnerEvent::Post(post(1, 100, "I love rust"))).is_none());
    assert_eq!(runner.pending(), 1);
    let batch = runner.step(RunnerEvent::Post(post(2, 200, "rust is bad"))).unwrap();
    assert_eq!(batch.len(), 2);
    assert_eq!(runner.pending(), 0);
    assert_eq!(runner.in_flight(), 1);
    assert_eq!(runner.action(), RunnerAction::AwaitBatch);

    let texts = batch_texts(&batch);
    assert_eq!(texts, words(&["I love rust", "rust is bad"]));

    let scores = vec![positive(0.9), negative(0.8)];
    let mut db = SentimentDB::new();
    let stored = runner.save_batch(&mut db, &batch, &scores);
    assert_eq!(stored.len(), 2);
    let read = db.get("rust").unwrap();
    assert_eq!(read.len(), 2);
    assert_eq!((read[0].id, read[0].created), (1, 100));
    assert_eq!((read[1].id, read[1].created), (2, 200));
    assert!(f64::from_bits(read[0].sentiment) > 0.0);
    assert!(f64::from_bits(read[1].sentiment) < 0.0);
    assert_eq!(f64::from_bits(read[0].sentiment), 0.9);
    assert_eq!(f64::from_bits(read[1].sentiment), -0.8);
    assert!(runner.step(RunnerEvent::BatchDone).is_none());
    assert_eq!(runner.in_flight(), 0);
    assert_eq!(runner.action(), RunnerAction::Poll);
}

#[test]
fn post_matching_two_keywords_gives_two_entries() {
    let keywords = words(&["rust", "systems"]);
    let p = post(77, 1234, "Rust is a SYSTEMS language");
    let entries = entries_for_post(&keywords, &p, "rust is a systems language", &positive(0.6));
    assert_eq!(entries.len(), 2);
    assert_eq!(entries[0].keyword, "rust");
    assert_eq!(entries[1].keyword, "systems");
    for e in &entries {
        assert_eq!(e.id, 77);
        assert_eq!(e.created, 1234);
        assert_eq!(f64::from_bits(e.sentiment), 0.6);
    }
}

#[test]
fn fan_out_lowercases_the_text_before_matching() {
    let keywords = words(&["rust", "systems"]);
    let posts = vec![post(1, 10, "RUST and Systems"), post(2, 20, "just SYSTEMS"), post(3, 30, "none")];
    let scores = vec![positive(0.5), negative(0.25), positive(1.0)];
    let entries = fan_out(&keywords, &posts, &scores);
    let got: Vec<(i64, &str, i64, f64)> = entries
        .iter()
        .map(|e| (e.id, e.keyword.as_str(), e.created, f64::from_bits(e.sentiment)))
        .collect();
    assert_eq!(
        got,
        vec![(1, "rust", 10, 0.5), (1, "systems", 10, 0.5), (2, "systems", 20, -0.25)]
    );
}

#[test]
fn fan_out_pairs_posts_and_scores_by_position() {
    let keywords = words(&["a"]);
    let posts = vec![post(1, 1, "a"), post(2, 2, "a"), post(3, 3, "a")];
    let short = vec![positive(0.1), negative(0.2)];
    let entries = fan_out(&keywords, &posts, &short);
    assert_eq!(entries.iter().map(|e| e.id).collect::<Vec<_>>(), vec![1, 2]);
    let long = vec![positive(0.1), negative(0.2), positive(0.3), positive(0.4)];
    let entries = fan_out(&keywords, &posts, &long);
    assert_eq!(entries.iter().map(|e| e.id).collect::<Vec<_>>(), vec![1, 2, 3]);
    assert!(fan_out(&keywords, &Vec::new(), &long).is_empty());
    assert!(fan_out(&keywords, &posts, &Vec::new()).is_empty());
}

#[test]
fn batch_texts_keeps_order_and_length() {
    let posts = vec![post(1, 1, "b"), post(2, 2, "a"), post(3, 3, "c")];
    assert_eq!(batch_texts(&posts), words(&["b", "a", "c"]));
    assert!(batch_texts(&Vec::new()).is_empty());
}

#[test]
fn builder_without_config_fails() {
    let built = TwitterStreamRunner::builder().build();
    assert_eq!(built.unwrap_err(), BuildError::MissingConfig);
}

#[test]
fn builder_rejects_empty_keyword_list() {
    let built = TwitterStreamRunner::builder().config(settings(&[], 2, 1)).build();
    assert_eq!(built.unwrap_err(), BuildError::Invalid(ConfigError::NoKeywords));
}

#[test]
fn builder_rejects_zero_batch_size() {
    let built = TwitterStreamRunner::builder().config(settings(&["rust"], 0, 1)).build();
    assert_eq!(built.unwrap_err(), BuildError::Invalid(ConfigError::ZeroChunkSize));
}

#[test]
fn builder_rejects_zero_concurrency() {
    let built = TwitterStreamRunner::builder().config(settings(&["rust"], 2, 0)).build();
    assert_eq!(built.unwrap_err(), BuildError::Invalid(ConfigError::ZeroConcurrency));
}

#[test]
fn builder_keeps_the_last_config() {
    let built = TwitterStreamRunner::builder()
        .config(settings(&[], 0, 0))
        .config(settings(&["Rust"], 3, 2))
        .build()
        .unwrap();
    assert_eq!(built.config().chunk_size, 3);
    assert_eq!(built.config().track_tweets, words(&["Rust"]));
    assert_eq!(built.keywords(), &words(&["rust"]));
}

#[test]
fn new_runner_starts_with_the_backfill() {
    let r = runner(&["Rust", "SYSTEMS"], 2, 1);
    assert_eq!(r.phase(), Phase::Init);
    assert_eq!(r.action(), RunnerAction::Backfill);
    assert_eq!(r.keywords(), &words(&["rust", "systems"]));
    assert_eq!(r.config().track_tweets, words(&["Rust", "SYSTEMS"]));
    assert_eq!(r.in_flight(), 0);
    assert_eq!(r.pending(), 0);
}

#[test]
fn runner_walks_from_backfill_to_streaming() {
    let mut r = runner(&["rust"], 2, 1);
    assert!(r.step(RunnerEvent::BackfillDone).is_none());
    assert_eq!(r.phase(), Phase::Connecting);
    assert_eq!(r.action(), RunnerAction::Open);
    assert!(r.step(RunnerEvent::Opened).is_none());
    assert_eq!(r.phase(), Phase::Streaming);
    assert_eq!(r.action(), RunnerAction::Poll);
}

#[test]
fn failed_backfill_aborts_the_run() {
    let mut r = runner(&["rust"], 2, 1);
    assert!(r.step(RunnerEvent::Fatal).is_none());
    assert_eq!(r.phase(), Phase::Failed);
    assert_eq!(r.action(), RunnerAction::Abort);
    assert!(r.step(RunnerEvent::BackfillDone).is_none());
    assert_eq!(r.phase(), Phase::Failed);
}

#[test]
fn failed_open_waits_and_tries_again() {
    let mut r = runner(&["rust"], 2, 1);
    r.step(RunnerEvent::BackfillDone);
    assert!(r.step(RunnerEvent::OpenFailed).is_none());
    assert_eq!(r.phase(), Phase::Reconnecting);
    assert_eq!(r.action(), RunnerAction::Sleep(30));
    assert!(r.step(RunnerEvent::DelayElapsed).is_none());
    assert_eq!(r.action(), RunnerAction::Open);
}

#[test]
fn stream_failure_reconnects_with_the_same_keywords() {
    let mut r = streaming(&["Rust", "systems"], 2, 2);
    assert!(r.step(RunnerEvent::Post(post(1, 10, "rust one"))).is_none());
    assert!(r.step(RunnerEvent::Post(post(2, 20, "rust two"))).is_some());
    assert!(r.step(RunnerEvent::Post(post(3, 30, "systems three"))).is_none());
    assert_eq!(r.pending(), 1);
    assert_eq!(r.in_flight(), 1);

    assert!(r.step(RunnerEvent::StreamError).is_none());
    assert_eq!(r.phase(), Phase::Reconnecting);
    assert_eq!(r.action(), RunnerAction::Sleep(30));
    assert_eq!(r.pending(), 0);
    assert_eq!(r.in_flight(), 1);

    assert!(r.step(RunnerEvent::DelayElapsed).is_none());
    assert_eq!(r.action(), RunnerAction::Open);
    assert_eq!(r.config().track_tweets, words(&["Rust", "systems"]));
    assert!(r.step(RunnerEvent::Opened).is_none());
    assert_eq!(r.action(), RunnerAction::Poll);
    assert_eq!(r.keywords(), &words(&["rust", "systems"]));

    assert!(r.step(RunnerEvent::Post(post(4, 40, "rust four"))).is_none());
    let batch = r.step(RunnerEvent::Post(post(5, 50, "RUST five"))).unwrap();
    assert_eq!(ids(&batch), vec![4, 5]);
}

#[test]
fn posts_without_keyword_are_dropped() {
    let mut r = streaming(&["rust"], 2, 1);
    assert!(r.step(RunnerEvent::Post(post(1, 10, "hello"))).is_none());
    assert_eq!(r.pending(), 0);
    assert!(r.step(RunnerEvent::Post(post(2, 20, "RUST"))).is_none());
    assert_eq!(r.pending(), 1);
    assert!(r.step(RunnerEvent::Post(post(3, 30, "world"))).is_none());
    let batch = r.step(RunnerEvent::Post(post(4, 40, "trusty"))).unwrap();
    assert_eq!(ids(&batch), vec![2, 4]);
}

#[test]
fn batch_of_one_is_dispatched_at_once() {
    let mut r = streaming(&["rust"], 1, 3);
    let batch = r.step(RunnerEvent::Post(post(1, 10, "rust"))).unwrap();
    assert_eq!(ids(&batch), vec![1]);
    assert_eq!(r.in_flight(), 1);
    assert_eq!(r.action(), RunnerAction::Poll);
}

#[test]
fn stream_is_left_unread_at_the_concurrency_limit() {
    let mut r = streaming(&["rust"], 1, 2);
    assert!(r.step(RunnerEvent::Post(post(1, 10, "rust"))).is_some());
    assert_eq!(r.action(), RunnerAction::Poll);
    assert!(r.step(RunnerEvent::Post(post(2, 20, "rust"))).is_some());
    assert_eq!(r.in_flight(), 2);
    assert_eq!(r.action(), RunnerAction::AwaitBatch);
    assert!(r.step(RunnerEvent::Post(post(3, 30, "rust"))).is_none());
    assert_eq!(r.in_flight(), 2);
    assert_eq!(r.pending(), 0);
    assert!(r.step(RunnerEvent::StreamError).is_none());
    assert_eq!(r.phase(), Phase::Streaming);
    assert!(r.step(RunnerEvent::BatchDone).is_none());
    assert_eq!(r.in_flight(), 1);
    assert_eq!(r.action(), RunnerAction::Poll);
}

#[test]
fn shutdown_flushes_the_pending_posts_and_drains() {
    let mut r = streaming(&["rust"], 3, 2);
    r.step(RunnerEvent::Post(post(1, 10, "rust")));
    r.step(RunnerEvent::Post(post(2, 20, "rust")));
    let rest = r.step(RunnerEvent::Shutdown).unwrap();
    assert_eq!(ids(&rest), vec![1, 2]);
    assert_eq!(r.phase(), Phase::Stopped);
    assert_eq!(r.in_flight(), 1);
    assert_eq!(r.action(), RunnerAction::AwaitBatch);
    assert!(r.step(RunnerEvent::Post(post(3, 30, "rust"))).is_none());
    assert_eq!(r.pending(), 0);
    assert!(r.step(RunnerEvent::BatchDone).is_none());
    assert_eq!(r.action(), RunnerAction::Finish);
}

#[test]
fn shutdown_with_nothing_pending_finishes() {
    let mut r = streaming(&["rust"], 3, 2);
    assert!(r.step(RunnerEvent::Shutdown).is_none());
    assert_eq!(r.phase(), Phase::Stopped);
    assert_eq!(r.action(), RunnerAction::Finish);
}

#[test]
fn failed_batch_aborts_the_run() {
    let mut r = streaming(&["rust"], 1, 2);
    r.step(RunnerEvent::Post(post(1, 10, "rust")));
    assert!(r.step(RunnerEvent::Fatal).is_none());
    assert_eq!(r.phase(), Phase::Failed);
    assert_eq!(r.action(), RunnerAction::Abort);
    assert!(r.step(RunnerEvent::BatchDone).is_none());
    assert_eq!(r.in_flight(), 1);
}

#[test]
fn fatal_without_a_batch_in_flight_is_ignored() {
    let mut r = streaming(&["rust"], 2, 2);
    assert!(r.step(RunnerEvent::Fatal).is_none());
    assert_eq!(r.phase(), Phase::Streaming);
}

#[test]
fn events_out_of_place_change_nothing() {
    let mut r = runner(&["rust"], 2, 1);
    for event in [
        RunnerEvent::Opened,
        RunnerEvent::OpenFailed,
        RunnerEvent::Post(post(1, 1, "rust")),
        RunnerEvent::StreamError,
        RunnerEvent::Shutdown,
        RunnerEvent::BatchDone,
        RunnerEvent::DelayElapsed,
    ] {
        assert!(r.step(event).is_none());
        assert_eq!(r.phase(), Phase::Init);
        assert_eq!(r.in_flight(), 0);
        assert_eq!(r.pending(), 0);
    }
    let mut r = streaming(&["rust"], 2, 1);
    for event in [
        RunnerEvent::BackfillDone,
        RunnerEvent::Opened,
        RunnerEvent::OpenFailed,
        RunnerEvent::BatchDone,
        RunnerEvent::DelayElapsed,
    ] {
        assert!(r.step(event).is_none());
        assert_eq!(r.phase(), Phase::Streaming);
        assert_eq!(r.in_flight(), 0);
    }
}

#[test]
fn accept_post_takes_the_lowercase_text_as_given() {
    let mut r = streaming(&["rust"], 2, 1);
    assert!(r.accept_post(post(1, 10, "RUST"), "no match").is_none());
    assert_eq!(r.pending(), 0);
    assert!(r.accept_post(post(2, 20, "anything"), "rust").is_none());
    assert_eq!(r.pending(), 1);
    let batch = r.accept_post(post(3, 30, "Rust"), "rust").unwrap();
    assert_eq!(ids(&batch), vec![2, 3]);
    assert_eq!(batch[1].text, "Rust");
}

#[test]
fn search_results_are_filed_under_the_keyword() {
    let posts = vec![post(1, 10, "nothing about it"), post(2, 20, "Rust")];
    let scores = vec![positive(0.7), negative(0.3), positive(0.1)];
    let entries = search_results("Rust", &posts, &scores);
    let got: Vec<(i64, &str, i64, f64)> = entries
        .iter()
        .map(|e| (e.id, e.keyword.as_str(), e.created, f64::from_bits(e.sentiment)))
        .collect();
    assert_eq!(got, vec![(1, "Rust", 10, 0.7), (2, "Rust", 20, -0.3)]);
}

#[test]
fn backfill_plan_lists_keywords_without_history() {
    let r = runner(&["rust", "systems", "go"], 2, 1);
    let mut db = SentimentDB::new();
    assert_eq!(r.backfill_plan(&db), words(&["rust", "systems", "go"]));
    r.save_search_results(&mut db, "systems", &vec![post(1, 1, "x")], &vec![positive(0.5)]);
    assert_eq!(r.backfill_plan(&db), words(&["rust", "go"]));
}

#[test]
fn backfill_twice_changes_nothing_the_second_time() {
    let r = runner(&["rust", "systems"], 2, 1);
    let mut db = SentimentDB::new();
    let found = vec![post(1, 30, "a"), post(2, 10, "b")];
    let scores = vec![positive(0.5), negative(0.5)];
    for keyword in r.backfill_plan(&db) {
        let stored = r.save_search_results(&mut db, &keyword, &found, &scores);
        assert_eq!(stored.len(), 2);
    }
    assert_eq!(db.len(), 4);
    let keywords = db.keywords();
    let rust: Vec<i64> = db.get("rust").unwrap().iter().map(|e| e.id).collect();

    assert!(r.backfill_plan(&db).is_empty());
    for keyword in ["rust", "systems"] {
        let stored = r.save_search_results(&mut db, keyword, &found, &scores);
        assert!(stored.is_empty());
    }
    assert_eq!(db.len(), 4);
    assert_eq!(db.keywords(), keywords);
    assert_eq!(db.get("rust").unwrap().iter().map(|e| e.id).collect::<Vec<_>>(), rust);
    assert_eq!(rust, vec![2, 1]);
}

#[test]
fn backfill_that_finds_nothing_leaves_the_keyword_empty() {
    let r = runner(&["rust"], 2, 1);
    let mut db = SentimentDB::new();
    assert!(r.save_search_results(&mut db, "rust", &Vec::new(), &Vec::new()).is_empty());
    assert!(!db.keyword_exists("rust"));
    assert_eq!(r.backfill_plan(&db), words(&["rust"]));
}

#[test]
fn save_batch_appends_to_what_is_stored() {
    let r = runner(&["rust", "go"], 2, 1);
    let mut db = SentimentDB::new();
    r.save_search_results(&mut db, "rust", &vec![post(9, 500, "old")], &vec![positive(0.2)]);
    let batch = vec![post(1, 100, "Go and Rust"), post(2, 200, "no keyword")];
    let stored = r.save_batch(&mut db, &batch, &vec![negative(0.4), positive(0.9)]);
    assert_eq!(stored.iter().map(|e| e.keyword.as_str()).collect::<Vec<_>>(), vec!["rust", "go"]);
    assert_eq!(db.len(), 3);
    assert_eq!(db.get("rust").unwrap().iter().map(|e| e.id).collect::<Vec<_>>(), vec![1, 9]);
    assert_eq!(f64::from_bits(db.get("go").unwrap()[0].sentiment), -0.4);
}

#[test]
fn accept_post_drops_posts_while_the_stream_is_not_polled() {
    let mut r = runner(&["rust"], 2, 1);
    assert!(r.accept_post(post(1, 10, "rust"), "rust").is_none());
    assert_eq!(r.pending(), 0);
    assert_eq!(r.phase(), Phase::Init);
    let mut r = streaming(&["rust"], 1, 1);
    assert!(r.accept_post(post(1, 10, "rust"), "rust").is_some());
    assert!(r.accept_post(post(2, 20, "rust"), "rust").is_none());
    assert_eq!(r.pending(), 0);
    assert_eq!(r.in_flight(), 1);
}

#[test]
fn search_results_to_save_leaves_the_store_alone() {
    let r = runner(&["rust"], 2, 1);
    let mut db = SentimentDB::new();
    let found = vec![post(1, 30, "a"), post(2, 10, "b")];
    let scores = vec![positive(0.5), negative(0.5)];
    let entries = r.search_results_to_save(&db, "rust", &found, &scores);
    assert_eq!(entries.iter().map(|e| (e.id, e.keyword.as_str())).collect::<Vec<_>>(), vec![
        (1, "rust"),
        (2, "rust")
    ]);
    assert_eq!(db.len(), 0);
    db.insert_all(&entries);
    assert!(r.search_results_to_save(&db, "rust", &found, &scores).is_empty());
    assert_eq!(r.search_results_to_save(&db, "go", &found, &scores).len(), 2);
    assert_eq!(db.len(), 2);
}

#[test]
fn keyword_configured_twice_is_backfilled_once() {
    let r = runner(&["rust", "rust"], 2, 1);
    let mut db = SentimentDB::new();
    let found = vec![post(1, 30, "a")];
    let scores = vec![positive(0.5)];
    for keyword in r.backfill_plan(&db) {
        r.save_search_results(&mut db, &keyword, &found, &scores);
    }
    assert_eq!(db.len(), 1);
}

#[test]
fn settings_can_be_cloned() {
    let given = settings(&["Rust", "go"], 3, 2);
    let copy = given.clone();
    assert_eq!(copy.track_tweets, given.track_tweets);
    assert_eq!(
        (copy.chunk_size, copy.concurrency, copy.secs_reconnect, copy.search_count),
        (3, 2, 30, 10)
    );
}
