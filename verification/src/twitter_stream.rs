//! The stream runner: which posts are kept, how they are batched, and which
//! entries a classified batch gives.

use vstd::prelude::*;
use crate::database::{has_keyword, Entry, SentimentDB, TweetSentiment};
use crate::sentiment::{sentiment_to_float, PolarityScore};
use crate::settings::{ConfigError, TwitterSettings};
use crate::text::{
    any_occurs, contains, lowercase, lowercase_all, matches_any, matching, normalize_keywords,
    to_lowercase,
};

verus! {

/// The mathematical value of a post.
pub struct PostView {
    /// Identifier that the source gave the post.
    pub id: u64,
    /// When the post was written, in seconds since the epoch.
    pub created_at: i64,
    /// The text of the post.
    pub text: Seq<char>,
}

/// One message of the source, reduced to what the pipeline reads.
#[derive(Debug)]
pub struct Post {
    /// Identifier that the source gave the post.
    pub id: u64,
    /// When the post was written, in seconds since the epoch.
    pub created_at: i64,
    /// The text of the post.
    pub text: String,
}

impl View for Post {
    type V = PostView;

    open spec fn view(&self) -> PostView {
        PostView { id: self.id, created_at: self.created_at, text: self.text@ }
    }
}

impl DeepView for Post {
    type V = PostView;

    open spec fn deep_view(&self) -> PostView {
        self@
    }
}

impl Clone for Post {
    fn clone(&self) -> (copy: Self)
        ensures
            copy == *self,
    {
        Post { id: self.id, created_at: self.created_at, text: self.text.clone() }
    }
}

/// The entry that files `post` under `keyword` with the sentiment of `score`.
pub open spec fn entry_of(post: PostView, keyword: Seq<char>, score: PolarityScore) -> Entry {
    Entry {
        id: post.id as i64,
        keyword: keyword,
        created: post.created_at,
        sentiment: score.signed(),
    }
}

/// The entries of one classified post: one for each keyword that occurs in
/// `lowered`, the lowercase form of its text, in the order of the keywords.
pub open spec fn post_entries(
    keywords: Seq<Seq<char>>,
    post: PostView,
    lowered: Seq<char>,
    score: PolarityScore,
) -> Seq<Entry> {
    matching(keywords, lowered).map_values(|keyword: Seq<char>| entry_of(post, keyword, score))
}

/// The number of posts that have a score: posts and scores are paired by
/// position, and what is left over on either side is not used.
pub open spec fn paired(posts: Seq<PostView>, scores: Seq<PolarityScore>) -> nat {
    if posts.len() <= scores.len() {
        posts.len()
    } else {
        scores.len()
    }
}

/// The entries of the first `n` posts of a classified batch, post by post.
pub open spec fn batch_entries(
    keywords: Seq<Seq<char>>,
    posts: Seq<PostView>,
    scores: Seq<PolarityScore>,
    n: nat,
) -> Seq<Entry>
    decreases n,
{
    if n == 0 {
        Seq::empty()
    } else {
        batch_entries(keywords, posts, scores, (n - 1) as nat) + post_entries(
            keywords,
            posts[n - 1],
            lowercase(posts[n - 1].text),
            scores[n - 1],
        )
    }
}

/// The texts of the posts, in the same order.
pub open spec fn texts_of(posts: Seq<PostView>) -> Seq<Seq<char>> {
    posts.map_values(|post: PostView| post.text)
}

/// Copies out the texts of a batch, one per post and in the order of the
/// posts, as they are handed to the classifier.
pub fn batch_texts(posts: &Vec<Post>) -> (texts: Vec<String>)
    ensures
        texts.deep_view() == texts_of(posts.deep_view()),
        texts.len() == posts.len(),
{
    let mut texts: Vec<String> = Vec::new();
    let mut i: usize = 0;
    while i < posts.len()
        invariant
            i <= posts.len(),
            texts.len() == i,
            forall|j: int| 0 <= j < i ==> #[trigger] texts[j]@ == posts[j].text@,
        decreases posts.len() - i,
    {
        texts.push(posts[i].text.clone());
        i += 1;
    }
    assert(texts.deep_view() =~= texts_of(posts.deep_view()));
    texts
}

/// Builds the entries of one classified post: one entry for each keyword
/// that occurs in `lowered`, all with the post's identifier and creation time
/// and with the signed sentiment of `score`. `lowered` is the text of the
/// post in lowercase.
pub fn entries_for_post(
    keywords: &Vec<String>,
    post: &Post,
    lowered: &str,
    score: &PolarityScore,
) -> (entries: Vec<TweetSentiment>)
    ensures
        entries.deep_view() == post_entries(keywords.deep_view(), post@, lowered@, *score),
        entries.len() == matching(keywords.deep_view(), lowered@).len(),
        forall|j: int|
            0 <= j < entries.len() ==> #[trigger] entries.deep_view()[j] == entry_of(
                post@,
                matching(keywords.deep_view(), lowered@)[j],
                *score,
            ),
{
    let mut entries: Vec<TweetSentiment> = Vec::new();
    let mut i: usize = 0;
    let ghost all = keywords.deep_view();
    let ghost file = |keyword: Seq<char>| entry_of(post@, keyword, *score);
    proof {
        assert(all.take(0) =~= Seq::<Seq<char>>::empty());
        reveal(Seq::filter);
        assert(entries.deep_view() =~= matching(all.take(0), lowered@).map_values(file));
    }
    while i < keywords.len()
        invariant
            i <= keywords.len(),
            all == keywords.deep_view(),
            file == (|keyword: Seq<char>| entry_of(post@, keyword, *score)),
            entries.deep_view() == matching(all.take(i as int), lowered@).map_values(file),
        decreases keywords.len() - i,
    {
        let ghost before = entries.deep_view();
        proof {
            let next = all.take(i as int + 1);
            assert(next.drop_last() =~= all.take(i as int));
            assert(next.last() == keywords[i as int]@);
            reveal(Seq::filter);
        }
        if contains(lowered, keywords[i].as_str()) {
            let entry = TweetSentiment::new(
                post.id,
                keywords[i].clone(),
                post.created_at,
                sentiment_to_float(score),
            );
            entries.push(entry);
            proof {
                assert(entries.deep_view() =~= before.push(file(keywords[i as int]@)));
                assert(matching(all.take(i as int + 1), lowered@).map_values(file)
                    =~= matching(all.take(i as int), lowered@).map_values(file).push(
                    file(keywords[i as int]@),
                ));
            }
        }
        i += 1;
    }
    assert(all.take(i as int) =~= all);
    entries
}

/// Builds the entries of a classified batch. Posts and scores are paired by
/// position; each pair gives one entry for each keyword that occurs in the
/// lowercase text of the post.
pub fn fan_out(keywords: &Vec<String>, posts: &Vec<Post>, scores: &Vec<PolarityScore>) -> (entries:
    Vec<TweetSentiment>)
    ensures
        entries.deep_view() == batch_entries(
            keywords.deep_view(),
            posts.deep_view(),
            scores@,
            paired(posts.deep_view(), scores@),
        ),
{
    let n = if posts.len() <= scores.len() {
        posts.len()
    } else {
        scores.len()
    };
    let mut entries: Vec<TweetSentiment> = Vec::new();
    let mut i: usize = 0;
    assert(entries.deep_view() =~= Seq::<Entry>::empty());
    while i < n
        invariant
            i <= n,
            n == paired(posts.deep_view(), scores@),
            entries.deep_view() == batch_entries(
                keywords.deep_view(),
                posts.deep_view(),
                scores@,
                i as nat,
            ),
        decreases n - i,
    {
        let ghost before = entries.deep_view();
        let lowered = to_lowercase(posts[i].text.as_str());
        let mut more = entries_for_post(keywords, &posts[i], lowered.as_str(), &scores[i]);
        let ghost added = more.deep_view();
        entries.append(&mut more);
        proof {
            assert(entries.deep_view() =~= before + added);
            assert(posts.deep_view()[i as int] == posts[i as int]@);
        }
        i += 1;
    }
    entries
}

/// The entries that a search for `keyword` gives: one for each post that has
/// a score, all filed under `keyword`, whatever the text of the post.
pub open spec fn search_entries(
    keyword: Seq<char>,
    posts: Seq<PostView>,
    scores: Seq<PolarityScore>,
) -> Seq<Entry> {
    Seq::new(paired(posts, scores), |i: int| entry_of(posts[i], keyword, scores[i]))
}

/// The store after the backfill of one keyword: unchanged where the keyword
/// has an entry already, else with the entries of the search appended.
pub open spec fn backfilled(
    db: Seq<Entry>,
    keyword: Seq<char>,
    posts: Seq<PostView>,
    scores: Seq<PolarityScore>,
) -> Seq<Entry> {
    if has_keyword(db, keyword) {
        db
    } else {
        db + search_entries(keyword, posts, scores)
    }
}

/// The keywords without an entry in the store, in their given order.
pub open spec fn lacking(db: Seq<Entry>, keywords: Seq<Seq<char>>) -> Seq<Seq<char>> {
    keywords.filter(|keyword: Seq<char>| !has_keyword(db, keyword))
}

/// Builds the entries of a search for `keyword`. Posts and scores are paired
/// by position; each pair gives one entry under `keyword`.
pub fn search_results(keyword: &str, posts: &Vec<Post>, scores: &Vec<PolarityScore>) -> (entries:
    Vec<TweetSentiment>)
    ensures
        entries.deep_view() == search_entries(keyword@, posts.deep_view(), scores@),
{
    let n = if posts.len() <= scores.len() {
        posts.len()
    } else {
        scores.len()
    };
    let mut entries: Vec<TweetSentiment> = Vec::new();
    let mut i: usize = 0;
    while i < n
        invariant
            i <= n,
            n == paired(posts.deep_view(), scores@),
            entries.len() == i,
            forall|j: int|
                0 <= j < i ==> #[trigger] entries.deep_view()[j] == entry_of(
                    posts.deep_view()[j],
                    keyword@,
                    scores@[j],
                ),
        decreases n - i,
    {
        let ghost before = entries.deep_view();
        let entry = TweetSentiment::new(
            posts[i].id,
            keyword.to_owned(),
            posts[i].created_at,
            sentiment_to_float(&scores[i]),
        );
        entries.push(entry);
        proof {
            assert(entries.deep_view() =~= before.push(entry@));
            assert(posts.deep_view()[i as int] == posts[i as int]@);
        }
        i += 1;
    }
    assert(entries.deep_view() =~= search_entries(keyword@, posts.deep_view(), scores@));
    entries
}

/// Where the runner stands in its life.
#[derive(Clone, Copy, Debug, PartialEq, Eq, Structural)]
pub enum Phase {
    /// Before the startup backfill has finished.
    Init,
    /// The stream is about to be opened.
    Connecting,
    /// The stream is open and posts are being read.
    Streaming,
    /// The stream failed; the reconnect delay is running.
    Reconnecting,
    /// Shutdown was signalled; batches in flight are left to finish.
    Stopped,
    /// The classifier or the store failed; the run ends with an error.
    Failed,
}

/// What the caller reports to the runner.
#[derive(Debug)]
pub enum RunnerEvent {
    /// The startup backfill finished.
    BackfillDone,
    /// The stream was opened.
    Opened,
    /// The stream could not be opened.
    OpenFailed,
    /// The stream delivered a post.
    Post(Post),
    /// Reading or decoding the stream failed.
    StreamError,
    /// Shutdown was signalled, or the stream ended.
    Shutdown,
    /// A dispatched batch was classified and stored.
    BatchDone,
    /// The classifier or the store failed.
    Fatal,
    /// The reconnect delay has passed.
    DelayElapsed,
}

/// What the caller does next, and then reports on.
#[derive(Clone, Copy, Debug, PartialEq, Eq, Structural)]
pub enum RunnerAction {
    /// Run the startup backfill.
    Backfill,
    /// Open the stream, filtered by the tracked keywords.
    Open,
    /// Wait for the next message of the stream or for a batch to finish.
    Poll,
    /// Wait for a batch to finish, and leave the stream unread meanwhile.
    AwaitBatch,
    /// Wait this many seconds.
    Sleep(u64),
    /// End the run without error.
    Finish,
    /// End the run with an error.
    Abort,
}

/// The mathematical state of a runner.
pub struct RunnerState {
    /// The tracked keywords as configured.
    pub configured: Seq<Seq<char>>,
    /// The keywords that posts are matched against.
    pub keywords: Seq<Seq<char>>,
    /// Number of posts that make a batch.
    pub chunk_size: nat,
    /// Number of batches that may be in flight at once.
    pub concurrency: nat,
    /// Seconds to wait before the stream is opened again.
    pub secs_reconnect: u64,
    /// Where the runner stands in its life.
    pub phase: Phase,
    /// The matching posts read since the last batch was dispatched.
    pub batch: Seq<PostView>,
    /// Number of batches dispatched and not yet reported as finished.
    pub in_flight: nat,
}

impl RunnerState {
    /// The keywords are the configured ones in lowercase, limits are
    /// positive, the pending batch is not full, no more batches are in flight
    /// than allowed, and posts are pending only while streaming.
    pub open spec fn wf(self) -> bool {
        &&& self.configured.len() > 0
        &&& self.keywords == lowercase_all(self.configured)
        &&& self.chunk_size > 0
        &&& self.concurrency > 0
        &&& self.batch.len() < self.chunk_size
        &&& self.in_flight <= self.concurrency
        &&& self.phase != Phase::Streaming ==> self.batch.len() == 0
    }

    /// Every pending post contains a keyword in its lowercase text.
    pub open spec fn pending_match(self) -> bool {
        all_match(self.keywords, self.batch)
    }
}

/// Every post contains one of the keywords in its lowercase text.
pub open spec fn all_match(keywords: Seq<Seq<char>>, posts: Seq<PostView>) -> bool {
    forall|i: int|
        0 <= i < posts.len() ==> any_occurs(keywords, lowercase((#[trigger] posts[i]).text))
}

/// The state of a runner that was just built from a configuration.
pub open spec fn initial(config: TwitterSettings) -> RunnerState {
    RunnerState {
        configured: config.track_tweets.deep_view(),
        keywords: lowercase_all(config.track_tweets.deep_view()),
        chunk_size: config.chunk_size as nat,
        concurrency: config.concurrency as nat,
        secs_reconnect: config.secs_reconnect,
        phase: Phase::Init,
        batch: Seq::empty(),
        in_flight: 0,
    }
}

/// What the caller does in state `s`.
pub open spec fn action_of(s: RunnerState) -> RunnerAction {
    match s.phase {
        Phase::Init => RunnerAction::Backfill,
        Phase::Connecting => RunnerAction::Open,
        Phase::Streaming => if s.in_flight < s.concurrency {
            RunnerAction::Poll
        } else {
            RunnerAction::AwaitBatch
        },
        Phase::Reconnecting => RunnerAction::Sleep(s.secs_reconnect),
        Phase::Stopped => if s.in_flight > 0 {
            RunnerAction::AwaitBatch
        } else {
            RunnerAction::Finish
        },
        Phase::Failed => RunnerAction::Abort,
    }
}

/// Whether `event` can occur in state `s`. The stream speaks only while it
/// is polled; a batch finishes or fails only while one is in flight.
pub open spec fn accepts(s: RunnerState, event: RunnerEvent) -> bool {
    match event {
        RunnerEvent::BackfillDone => s.phase == Phase::Init,
        RunnerEvent::Opened => s.phase == Phase::Connecting,
        RunnerEvent::OpenFailed => s.phase == Phase::Connecting,
        RunnerEvent::Post(_) => action_of(s) == RunnerAction::Poll,
        RunnerEvent::StreamError => action_of(s) == RunnerAction::Poll,
        RunnerEvent::Shutdown => action_of(s) == RunnerAction::Poll,
        RunnerEvent::BatchDone => s.in_flight > 0 && s.phase != Phase::Failed,
        RunnerEvent::Fatal => s.phase == Phase::Init || (s.in_flight > 0 && s.phase
            != Phase::Failed),
        RunnerEvent::DelayElapsed => s.phase == Phase::Reconnecting,
    }
}

/// Whether a post with this lowercase text is kept.
pub open spec fn keeps(s: RunnerState, lowered: Seq<char>) -> bool {
    any_occurs(s.keywords, lowered)
}

/// The state after a post was read whose lowercase text is `lowered`.
pub open spec fn after_post(s: RunnerState, post: PostView, lowered: Seq<char>) -> RunnerState {
    if !keeps(s, lowered) {
        s
    } else if s.batch.len() + 1 == s.chunk_size {
        RunnerState { batch: Seq::empty(), in_flight: s.in_flight + 1, ..s }
    } else {
        RunnerState { batch: s.batch.push(post), ..s }
    }
}

/// The batch that is dispatched when a post is read whose lowercase text is
/// `lowered`: the pending posts and this one, when that makes a full batch.
pub open spec fn batch_after_post(s: RunnerState, post: PostView, lowered: Seq<char>) -> Option<
    Seq<PostView>,
> {
    if keeps(s, lowered) && s.batch.len() + 1 == s.chunk_size {
        Some(s.batch.push(post))
    } else {
        None
    }
}

/// The state after `event`. An event that cannot occur changes nothing.
pub open spec fn next(s: RunnerState, event: RunnerEvent) -> RunnerState {
    if !accepts(s, event) {
        s
    } else {
        match event {
            RunnerEvent::BackfillDone => RunnerState { phase: Phase::Connecting, ..s },
            RunnerEvent::Opened => RunnerState { phase: Phase::Streaming, ..s },
            RunnerEvent::OpenFailed => RunnerState { phase: Phase::Reconnecting, ..s },
            RunnerEvent::Post(post) => after_post(s, post@, lowercase(post@.text)),
            RunnerEvent::StreamError => RunnerState {
                phase: Phase::Reconnecting,
                batch: Seq::empty(),
                ..s
            },
            RunnerEvent::Shutdown => RunnerState {
                phase: Phase::Stopped,
                batch: Seq::empty(),
                in_flight: if s.batch.len() > 0 {
                    s.in_flight + 1
                } else {
                    s.in_flight
                },
                ..s
            },
            RunnerEvent::BatchDone => RunnerState { in_flight: (s.in_flight - 1) as nat, ..s },
            RunnerEvent::Fatal => RunnerState { phase: Phase::Failed, batch: Seq::empty(), ..s },
            RunnerEvent::DelayElapsed => RunnerState { phase: Phase::Connecting, ..s },
        }
    }
}

/// The batch that `event` makes the runner dispatch, if any: a full batch
/// when a post completes it, the pending posts at shutdown.
pub open spec fn dispatched(s: RunnerState, event: RunnerEvent) -> Option<Seq<PostView>> {
    if !accepts(s, event) {
        None
    } else {
        match event {
            RunnerEvent::Post(post) => batch_after_post(s, post@, lowercase(post@.text)),
            RunnerEvent::Shutdown => if s.batch.len() > 0 {
                Some(s.batch)
            } else {
                None
            },
            _ => None,
        }
    }
}

/// The posts of an optional batch.
pub open spec fn posts_of(batch: Option<Vec<Post>>) -> Option<Seq<PostView>> {
    match batch {
        Some(posts) => Some(posts.deep_view()),
        None => None,
    }
}

/// Why a runner could not be built.
#[derive(Clone, Copy, Debug, PartialEq, Eq, Structural)]
pub enum BuildError {
    /// No configuration was given to the builder.
    MissingConfig,
    /// The configuration was rejected.
    Invalid(ConfigError),
}

/// Collects what a runner is built from.
#[derive(Debug)]
pub struct TwitterStreamRunnerBuilder {
    config: Option<TwitterSettings>,
}

impl TwitterStreamRunnerBuilder {
    /// The configuration given so far.
    pub closed spec fn given(&self) -> Option<TwitterSettings> {
        self.config
    }

    /// Sets the configuration, replacing an earlier one.
    pub fn config(self, config: TwitterSettings) -> (builder: Self)
        ensures
            builder.given() == Some(config),
    {
        TwitterStreamRunnerBuilder { config: Some(config) }
    }

    /// Builds the runner. A missing configuration and a configuration that
    /// tracks nothing or has a zero limit are rejected; no runner exists then.
    pub fn build(self) -> (built: Result<TwitterStreamRunner, BuildError>)
        ensures
            built is Ok <==> (self.given() matches Some(config) && config.is_valid()),
            built matches Ok(runner) ==> runner@ == initial(self.given().unwrap())
                && runner.spec_config() == self.given().unwrap(),
            built matches Err(error) ==> error == match self.given() {
                None => BuildError::MissingConfig,
                Some(config) => if config.track_tweets.len() == 0 {
                    BuildError::Invalid(ConfigError::NoKeywords)
                } else if config.chunk_size == 0 {
                    BuildError::Invalid(ConfigError::ZeroChunkSize)
                } else {
                    BuildError::Invalid(ConfigError::ZeroConcurrency)
                },
            },
    {
        match self.config {
            None => Err(BuildError::MissingConfig),
            Some(config) => match config.validate() {
                Err(error) => Err(BuildError::Invalid(error)),
                Ok(()) => {
                    let keywords = normalize_keywords(&config.track_tweets);
                    let runner = TwitterStreamRunner {
                        config,
                        keywords,
                        phase: Phase::Init,
                        batch: Vec::new(),
                        in_flight: 0,
                    };
                    assert(runner@.batch =~= Seq::<PostView>::empty());
                    Ok(runner)
                },
            },
        }
    }
}

/// Decides what the stream side of the pipeline does next. The caller
/// performs each action and reports what came of it.
#[derive(Debug)]
pub struct TwitterStreamRunner {
    config: TwitterSettings,
    keywords: Vec<String>,
    phase: Phase,
    batch: Vec<Post>,
    in_flight: usize,
}

impl View for TwitterStreamRunner {
    type V = RunnerState;

    closed spec fn view(&self) -> RunnerState {
        RunnerState {
            configured: self.config.track_tweets.deep_view(),
            keywords: self.keywords.deep_view(),
            chunk_size: self.config.chunk_size as nat,
            concurrency: self.config.concurrency as nat,
            secs_reconnect: self.config.secs_reconnect,
            phase: self.phase,
            batch: self.batch.deep_view(),
            in_flight: self.in_flight as nat,
        }
    }
}

impl TwitterStreamRunner {
    /// The state of the runner is well formed.
    #[verifier::type_invariant]
    pub open spec fn wf(&self) -> bool {
        self@.wf()
    }

    /// The configuration that the runner was built with.
    pub closed spec fn spec_config(&self) -> TwitterSettings {
        self.config
    }

    /// Starts a builder without a configuration.
    pub fn builder() -> (builder: TwitterStreamRunnerBuilder)
        ensures
            builder.given() is None,
    {
        TwitterStreamRunnerBuilder { config: None }
    }

    /// The configuration that the runner was built with.
    pub fn config(&self) -> (config: &TwitterSettings)
        ensures
            *config == self.spec_config(),
            config.track_tweets.deep_view() == self@.configured,
            config.chunk_size == self@.chunk_size,
            config.concurrency == self@.concurrency,
            config.secs_reconnect == self@.secs_reconnect,
    {
        &self.config
    }

    /// The keywords that posts are matched against: the configured ones in
    /// lowercase.
    pub fn keywords(&self) -> (keywords: &Vec<String>)
        ensures
            keywords.deep_view() == self@.keywords,
            keywords.deep_view() == lowercase_all(self@.configured),
    {
        proof {
            use_type_invariant(self);
        }
        &self.keywords
    }

    /// Where the runner stands in its life.
    pub fn phase(&self) -> (phase: Phase)
        ensures
            phase == self@.phase,
    {
        self.phase
    }

    /// Number of batches dispatched and not yet reported as finished.
    pub fn in_flight(&self) -> (n: usize)
        ensures
            n == self@.in_flight,
    {
        self.in_flight
    }

    /// Number of matching posts read since the last batch was dispatched.
    pub fn pending(&self) -> (n: usize)
        ensures
            n == self@.batch.len(),
    {
        self.batch.len()
    }

    /// Tells what the caller does next.
    pub fn action(&self) -> (action: RunnerAction)
        ensures
            action == action_of(self@),
    {
        match self.phase {
            Phase::Init => RunnerAction::Backfill,
            Phase::Connecting => RunnerAction::Open,
            Phase::Streaming => if self.in_flight < self.config.concurrency {
                RunnerAction::Poll
            } else {
                RunnerAction::AwaitBatch
            },
            Phase::Reconnecting => RunnerAction::Sleep(self.config.secs_reconnect),
            Phase::Stopped => if self.in_flight > 0 {
                RunnerAction::AwaitBatch
            } else {
                RunnerAction::Finish
            },
            Phase::Failed => RunnerAction::Abort,
        }
    }

    /// Lists the configured keywords that have no entry in the store yet, in
    /// their configured order: those that the startup backfill searches for.
    pub fn backfill_plan(&self, db: &SentimentDB) -> (plan: Vec<String>)
        ensures
            plan.deep_view() == lacking(db@, self@.configured),
    {
        let mut plan: Vec<String> = Vec::new();
        let mut i: usize = 0;
        let ghost all = self.config.track_tweets.deep_view();
        let ghost missing = |keyword: Seq<char>| !has_keyword(db@, keyword);
        proof {
            assert(all.take(0) =~= Seq::<Seq<char>>::empty());
            reveal(Seq::filter);
            assert(plan.deep_view() =~= all.take(0).filter(missing));
        }
        while i < self.config.track_tweets.len()
            invariant
                i <= self.config.track_tweets.len(),
                all == self.config.track_tweets.deep_view(),
                missing == (|keyword: Seq<char>| !has_keyword(db@, keyword)),
                plan.deep_view() == all.take(i as int).filter(missing),
            decreases self.config.track_tweets.len() - i,
        {
            let ghost before = plan.deep_view();
            proof {
                let next = all.take(i as int + 1);
                assert(next.drop_last() =~= all.take(i as int));
                assert(next.last() == self.config.track_tweets[i as int]@);
                reveal(Seq::filter);
            }
            if !db.keyword_exists(self.config.track_tweets[i].as_str()) {
                plan.push(self.config.track_tweets[i].clone());
                assert(plan.deep_view() =~= before.push(self.config.track_tweets[i as int]@));
            }
            i += 1;
        }
        assert(all.take(i as int) =~= all);
        plan
    }

    /// Tells which entries a backfill of `keyword` adds to the store, given
    /// what the search found: none where the keyword has an entry already,
    /// else one for each post that has a score. The store is not changed.
    pub fn search_results_to_save(
        &self,
        db: &SentimentDB,
        keyword: &str,
        posts: &Vec<Post>,
        scores: &Vec<PolarityScore>,
    ) -> (entries: Vec<TweetSentiment>)
        ensures
            db@ + entries.deep_view() == backfilled(db@, keyword@, posts.deep_view(), scores@),
            entries.deep_view() == if has_keyword(db@, keyword@) {
                Seq::<Entry>::empty()
            } else {
                search_entries(keyword@, posts.deep_view(), scores@)
            },
    {
        if db.keyword_exists(keyword) {
            let entries: Vec<TweetSentiment> = Vec::new();
            assert(entries.deep_view() =~= Seq::<Entry>::empty());
            assert(db@ + entries.deep_view() =~= db@);
            entries
        } else {
            search_results(keyword, posts, scores)
        }
    }

    /// Stores what a search for `keyword` found, unless the keyword has an
    /// entry already: then the store is left as it is. Returns copies of
    /// the entries that were stored.
    pub fn save_search_results(
        &self,
        db: &mut SentimentDB,
        keyword: &str,
        posts: &Vec<Post>,
        scores: &Vec<PolarityScore>,
    ) -> (stored: Vec<TweetSentiment>)
        ensures
            final(db)@ == backfilled(old(db)@, keyword@, posts.deep_view(), scores@),
            final(db)@ == old(db)@ + stored.deep_view(),
    {
        let stored = self.search_results_to_save(db, keyword, posts, scores);
        db.insert_all(&stored);
        stored
    }

    /// Stores the entries of a classified batch: for each post that has a
    /// score, one entry for each keyword that occurs in its lowercase text.
    /// Returns copies of the entries that were stored.
    pub fn save_batch(
        &self,
        db: &mut SentimentDB,
        posts: &Vec<Post>,
        scores: &Vec<PolarityScore>,
    ) -> (stored: Vec<TweetSentiment>)
        ensures
            stored.deep_view() == batch_entries(
                lowercase_all(self@.configured),
                posts.deep_view(),
                scores@,
                paired(posts.deep_view(), scores@),
            ),
            final(db)@ == old(db)@ + stored.deep_view(),
    {
        proof {
            use_type_invariant(self);
        }
        let stored = fan_out(&self.keywords, posts, scores);
        db.insert_all(&stored);
        stored
    }

    /// Takes in a post that the stream delivered. `lowered` is the text of
    /// the post in lowercase. A post in which no keyword occurs is dropped,
    /// and so is any post that comes while the stream is not polled. Any
    /// other joins the pending posts; when that makes a full batch, the
    /// batch is handed out and counted as in flight.
    pub fn accept_post(&mut self, post: Post, lowered: &str) -> (dispatch: Option<Vec<Post>>)
        ensures
            final(self)@ == if action_of(old(self)@) == RunnerAction::Poll {
                after_post(old(self)@, post@, lowered@)
            } else {
                old(self)@
            },
            posts_of(dispatch) == if action_of(old(self)@) == RunnerAction::Poll {
                batch_after_post(old(self)@, post@, lowered@)
            } else {
                None
            },
            final(self).spec_config() == old(self).spec_config(),
    {
        let polled = match self.action() {
            RunnerAction::Poll => true,
            _ => false,
        };
        if !polled || !matches_any(&self.keywords, lowered) {
            return None;
        }
        proof {
            use_type_invariant(&*self);
        }
        let mut batch: Vec<Post> = Vec::new();
        std::mem::swap(&mut batch, &mut self.batch);
        assert(self.batch.deep_view() =~= Seq::<PostView>::empty());
        let ghost before = batch.deep_view();
        batch.push(post);
        assert(batch.deep_view() =~= before.push(post@));
        if batch.len() == self.config.chunk_size {
            self.in_flight = self.in_flight + 1;
            Some(batch)
        } else {
            self.batch = batch;
            None
        }
    }

    /// Takes in an event and moves to the next state. An event that cannot
    /// occur in the current state is ignored. Returns the batch to classify
    /// and store, if the event completes one.
    pub fn step(&mut self, event: RunnerEvent) -> (dispatch: Option<Vec<Post>>)
        ensures
            final(self)@ == next(old(self)@, event),
            posts_of(dispatch) == dispatched(old(self)@, event),
            final(self).spec_config() == old(self).spec_config(),
    {
        proof {
            use_type_invariant(&*self);
        }
        let polled = match self.action() {
            RunnerAction::Poll => true,
            _ => false,
        };
        let batch_open = self.in_flight > 0 && !matches!(self.phase, Phase::Failed);
        match event {
            RunnerEvent::BackfillDone => {
                if matches!(self.phase, Phase::Init) {
                    self.phase = Phase::Connecting;
                }
                None
            },
            RunnerEvent::Opened => {
                if matches!(self.phase, Phase::Connecting) {
                    self.phase = Phase::Streaming;
                }
                None
            },
            RunnerEvent::OpenFailed => {
                if matches!(self.phase, Phase::Connecting) {
                    self.phase = Phase::Reconnecting;
                }
                None
            },
            RunnerEvent::Post(post) => {
                let lowered = to_lowercase(post.text.as_str());
                self.accept_post(post, lowered.as_str())
            },
            RunnerEvent::StreamError => {
                if polled {
                    self.batch = Vec::new();
                    assert(self.batch.deep_view() =~= Seq::<PostView>::empty());
                    self.phase = Phase::Reconnecting;
                }
                None
            },
            RunnerEvent::Shutdown => {
                if polled {
                    let mut rest: Vec<Post> = Vec::new();
                    std::mem::swap(&mut rest, &mut self.batch);
                    assert(self.batch.deep_view() =~= Seq::<PostView>::empty());
                    self.phase = Phase::Stopped;
                    if rest.len() > 0 {
                        self.in_flight = self.in_flight + 1;
                        Some(rest)
                    } else {
                        None
                    }
                } else {
                    None
                }
            },
            RunnerEvent::BatchDone => {
                if batch_open {
                    self.in_flight = self.in_flight - 1;
                }
                None
            },
            RunnerEvent::Fatal => {
                if matches!(self.phase, Phase::Init) || batch_open {
                    self.batch = Vec::new();
                    assert(self.batch.deep_view() =~= Seq::<PostView>::empty());
                    self.phase = Phase::Failed;
                }
                None
            },
            RunnerEvent::DelayElapsed => {
                if matches!(self.phase, Phase::Reconnecting) {
                    self.phase = Phase::Connecting;
                }
                None
            },
        }
    }
}

} // verus!
