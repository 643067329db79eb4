//! What holds of the stream runner in every state, and of the backfill.

use vstd::prelude::*;
use crate::database::{has_keyword, lemma_filter_to_multiset, Entry};
use crate::sentiment::{is_sentiment, lemma_signed_in_range, PolarityScore};
use crate::text::{lowercase, matching, occurs_in};
use crate::twitter_stream::{
    accepts, action_of, all_match, backfilled, batch_entries, dispatched, initial, next, paired,
    entry_of, post_entries, search_entries, Phase, PostView, RunnerAction, RunnerEvent,
    RunnerState,
};
use crate::settings::TwitterSettings;

verus! {

/// A runner built from a valid configuration starts well formed, with
/// nothing pending and nothing in flight.
pub proof fn lemma_initial_wf(config: TwitterSettings)
    requires
        config.is_valid(),
    ensures
        initial(config).wf(),
        initial(config).pending_match(),
        action_of(initial(config)) == RunnerAction::Backfill,
{
}

/// Every event leaves a well-formed state well formed: the pending batch
/// stays below the batch size and the batches in flight within the limit.
pub proof fn lemma_next_wf(s: RunnerState, event: RunnerEvent)
    requires
        s.wf(),
    ensures
        next(s, event).wf(),
        next(s, event).in_flight <= s.concurrency,
        next(s, event).batch.len() < s.chunk_size,
{
}

/// No event changes the keywords or the limits that the runner was built
/// with.
pub proof fn lemma_next_keeps_config(s: RunnerState, event: RunnerEvent)
    ensures
        next(s, event).configured == s.configured,
        next(s, event).keywords == s.keywords,
        next(s, event).chunk_size == s.chunk_size,
        next(s, event).concurrency == s.concurrency,
        next(s, event).secs_reconnect == s.secs_reconnect,
{
}

/// A failure of the stream never ends the run: when the stream cannot be
/// opened or breaks while it is read, the runner waits for the reconnect
/// delay, and nothing is dispatched. Only a failure of the backfill or of a
/// batch in flight leads to `Failed`.
pub proof fn lemma_stream_failures_recover(s: RunnerState, event: RunnerEvent)
    requires
        s.wf(),
        event is OpenFailed || event is StreamError,
    ensures
        accepts(s, event) ==> next(s, event).phase == Phase::Reconnecting && action_of(
            next(s, event),
        ) == RunnerAction::Sleep(s.secs_reconnect),
        !accepts(s, event) ==> next(s, event) == s,
        dispatched(s, event) is None,
        next(s, event).in_flight == s.in_flight,
{
}

/// Only `Fatal` leads to `Failed`, and only shutdown leads to `Stopped`.
pub proof fn lemma_terminal_phases(s: RunnerState, event: RunnerEvent)
    requires
        s.wf(),
    ensures
        next(s, event).phase == Phase::Failed ==> s.phase == Phase::Failed || event is Fatal,
        next(s, event).phase == Phase::Stopped ==> s.phase == Phase::Stopped || event
            is Shutdown,
        s.phase == Phase::Failed ==> next(s, event) == s,
        s.phase == Phase::Stopped ==> next(s, event).phase == Phase::Stopped || next(
            s,
            event,
        ).phase == Phase::Failed,
{
}

/// When the stream breaks while it is read, the runner waits for the
/// reconnect delay and then opens the stream again with the same keywords.
/// The posts that were pending are gone, and the batches in flight stay in
/// flight: after the reconnect only posts that the stream delivers anew can
/// reach a batch.
pub proof fn lemma_reconnect_resumes(s: RunnerState)
    requires
        s.wf(),
        action_of(s) == RunnerAction::Poll,
    ensures
        ({
            let broken = next(s, RunnerEvent::StreamError);
            let waited = next(broken, RunnerEvent::DelayElapsed);
            let reopened = next(waited, RunnerEvent::Opened);
            &&& dispatched(s, RunnerEvent::StreamError) is None
            &&& action_of(broken) == RunnerAction::Sleep(s.secs_reconnect)
            &&& broken.batch.len() == 0
            &&& action_of(waited) == RunnerAction::Open
            &&& waited.configured == s.configured
            &&& dispatched(broken, RunnerEvent::DelayElapsed) is None
            &&& dispatched(waited, RunnerEvent::Opened) is None
            &&& reopened == RunnerState { batch: Seq::empty(), ..s }
            &&& action_of(reopened) == RunnerAction::Poll
        }),
{
    let broken = next(s, RunnerEvent::StreamError);
    let waited = next(broken, RunnerEvent::DelayElapsed);
    let reopened = next(waited, RunnerEvent::Opened);
    assert(reopened.batch =~= Seq::<PostView>::empty());
}

/// A batch is dispatched only by a post that completes it or by shutdown.
/// It is never empty and never longer than the batch size, it holds the
/// pending posts first, and it is counted as in flight.
pub proof fn lemma_dispatch_shape(s: RunnerState, event: RunnerEvent)
    requires
        s.wf(),
    ensures
        dispatched(s, event) matches Some(batch) ==> {
            &&& 0 < batch.len() <= s.chunk_size
            &&& event is Post || event is Shutdown
            &&& event matches RunnerEvent::Post(post) ==> batch == s.batch.push(post@)
                && batch.len() == s.chunk_size
            &&& event is Shutdown ==> batch == s.batch
            &&& next(s, event).in_flight == s.in_flight + 1
            &&& next(s, event).batch.len() == 0
        },
        dispatched(s, event) is None ==> next(s, event).in_flight <= s.in_flight,
{
}

/// Only posts that contain a keyword are ever pending or dispatched.
pub proof fn lemma_only_matching_posts(s: RunnerState, event: RunnerEvent)
    requires
        s.wf(),
        s.pending_match(),
    ensures
        next(s, event).pending_match(),
        dispatched(s, event) matches Some(batch) ==> all_match(s.keywords, batch),
{
}

/// The entries of a batch are those of its posts, one post after the other:
/// the entries of the first `i` posts come first, and those of the next
/// post follow them directly.
pub proof fn lemma_batch_entries_by_post(
    keywords: Seq<Seq<char>>,
    posts: Seq<PostView>,
    scores: Seq<PolarityScore>,
    i: nat,
    n: nat,
)
    requires
        i < n,
    ensures
        batch_entries(keywords, posts, scores, i).is_prefix_of(
            batch_entries(keywords, posts, scores, n),
        ),
        (batch_entries(keywords, posts, scores, i) + post_entries(
            keywords,
            posts[i as int],
            lowercase(posts[i as int].text),
            scores[i as int],
        )).is_prefix_of(batch_entries(keywords, posts, scores, n)),
    decreases n,
{
    if i + 1 < n {
        lemma_batch_entries_by_post(keywords, posts, scores, i, (n - 1) as nat);
    }
}

/// When the classifier returns one score for each text, no post of the
/// batch is left without its entries.
pub proof fn lemma_full_reply_covers_batch(
    keywords: Seq<Seq<char>>,
    posts: Seq<PostView>,
    scores: Seq<PolarityScore>,
    i: nat,
)
    requires
        scores.len() == posts.len(),
        i < posts.len(),
    ensures
        paired(posts, scores) == posts.len(),
        (batch_entries(keywords, posts, scores, i) + post_entries(
            keywords,
            posts[i as int],
            lowercase(posts[i as int].text),
            scores[i as int],
        )).is_prefix_of(batch_entries(keywords, posts, scores, paired(posts, scores))),
{
    lemma_batch_entries_by_post(keywords, posts, scores, i, posts.len());
}

/// Whether every score is a confidence in `[0.0, 1.0]`.
pub open spec fn all_valid(scores: Seq<PolarityScore>) -> bool {
    forall|i: int| 0 <= i < scores.len() ==> (#[trigger] scores[i]).is_valid()
}

/// Whether every entry has a sentiment in `[-1.0, 1.0]`.
pub open spec fn all_in_range(entries: Seq<Entry>) -> bool {
    forall|i: int| 0 <= i < entries.len() ==> is_sentiment((#[trigger] entries[i]).sentiment)
}

/// Valid scores give entries with a sentiment in `[-1.0, 1.0]`, from a
/// batch of the stream as from a search.
pub proof fn lemma_entries_in_range(
    keywords: Seq<Seq<char>>,
    keyword: Seq<char>,
    posts: Seq<PostView>,
    scores: Seq<PolarityScore>,
    n: nat,
)
    requires
        all_valid(scores),
        n <= paired(posts, scores),
    ensures
        all_in_range(batch_entries(keywords, posts, scores, n)),
        all_in_range(search_entries(keyword, posts, scores)),
    decreases n,
{
    assert forall|i: int| 0 <= i < search_entries(keyword, posts, scores).len() implies is_sentiment(
        (#[trigger] search_entries(keyword, posts, scores)[i]).sentiment,
    ) by {
        lemma_signed_in_range(scores[i]);
    }
    if n > 0 {
        lemma_entries_in_range(keywords, keyword, posts, scores, (n - 1) as nat);
        lemma_signed_in_range(scores[n - 1]);
    }
}

/// The state after a series of events.
pub open spec fn run(s: RunnerState, events: Seq<RunnerEvent>) -> RunnerState
    decreases events.len(),
{
    if events.len() == 0 {
        s
    } else {
        next(run(s, events.drop_last()), events.last())
    }
}

/// The posts of an optional batch.
pub open spec fn batch_of(batch: Option<Seq<PostView>>) -> Seq<PostView> {
    match batch {
        Some(posts) => posts,
        None => Seq::empty(),
    }
}

/// The posts of all batches that a series of events makes the runner
/// dispatch, in the order they are dispatched in.
pub open spec fn dispatched_during(s: RunnerState, events: Seq<RunnerEvent>) -> Seq<PostView>
    decreases events.len(),
{
    if events.len() == 0 {
        Seq::empty()
    } else {
        dispatched_during(s, events.drop_last()) + batch_of(
            dispatched(run(s, events.drop_last()), events.last()),
        )
    }
}

/// The post that an event delivers, if it delivers one.
pub open spec fn post_of(event: RunnerEvent) -> Seq<PostView> {
    match event {
        RunnerEvent::Post(post) => seq![post@],
        _ => Seq::empty(),
    }
}

/// The posts that the stream delivers in a series of events, over all its
/// connections, in the order of delivery.
pub open spec fn delivered(events: Seq<RunnerEvent>) -> Seq<PostView>
    decreases events.len(),
{
    if events.len() == 0 {
        Seq::empty()
    } else {
        delivered(events.drop_last()) + post_of(events.last())
    }
}

/// One event dispatches and keeps pending no post but those that were
/// pending and the one it delivers.
proof fn lemma_step_dispatches_delivered(s: RunnerState, event: RunnerEvent)
    requires
        s.wf(),
    ensures
        (batch_of(dispatched(s, event)) + next(s, event).batch).to_multiset().subset_of(
            (s.batch + post_of(event)).to_multiset(),
        ),
{
    broadcast use vstd::seq_lib::lemma_multiset_commutative;
    broadcast use vstd::multiset::group_multiset_axioms;
    broadcast use vstd::seq_lib::group_to_multiset_ensures;

    let out = batch_of(dispatched(s, event));
    let after = next(s, event).batch;
    let none = Seq::<PostView>::empty();
    assert(none.to_multiset() =~= vstd::multiset::Multiset::<PostView>::empty());
    if !accepts(s, event) {
        assert(out =~= none);
    } else {
        match event {
            RunnerEvent::Post(post) => {
                assert(s.batch + seq![post@] =~= s.batch.push(post@));
                if out.len() == 0 {
                    assert(out =~= none);
                    assert(out + after =~= after);
                } else {
                    assert(after =~= none);
                    assert(out + after =~= out);
                }
            },
            RunnerEvent::Shutdown => {
                assert(after =~= none);
                assert(out + after =~= out);
                assert(s.batch + post_of(event) =~= s.batch);
                if s.batch.len() == 0 {
                    assert(out =~= s.batch);
                }
            },
            _ => {
                assert(out =~= none);
                assert(out + after =~= after);
                assert(s.batch + post_of(event) =~= s.batch);
            },
        }
    }
}

/// Over a whole run, through every failure and reconnect, the runner
/// dispatches no post more often than the stream delivered it: the posts
/// dispatched, with those still pending, are among the posts that were
/// pending at the start and those delivered since. A post that the stream
/// delivers once is therefore in one batch at most, and a reconnect
/// dispatches no earlier post again.
pub proof fn lemma_dispatched_at_most_as_delivered(s: RunnerState, events: Seq<RunnerEvent>)
    requires
        s.wf(),
    ensures
        run(s, events).wf(),
        (dispatched_during(s, events) + run(s, events).batch).to_multiset().subset_of(
            (s.batch + delivered(events)).to_multiset(),
        ),
        forall|post: PostView|
            s.batch.len() == 0 ==> #[trigger] dispatched_during(s, events).to_multiset().count(
                post,
            ) <= delivered(events).to_multiset().count(post),
    decreases events.len(),
{
    broadcast use vstd::seq_lib::lemma_multiset_commutative;
    broadcast use vstd::multiset::group_multiset_axioms;

    if events.len() == 0 {
        assert(dispatched_during(s, events) + run(s, events).batch =~= s.batch);
        assert(s.batch + delivered(events) =~= s.batch);
    } else {
        let init = events.drop_last();
        let last = events.last();
        let before = run(s, init);
        lemma_dispatched_at_most_as_delivered(s, init);
        lemma_step_dispatches_delivered(before, last);
        let out = batch_of(dispatched(before, last));
        assert(dispatched_during(s, events) + run(s, events).batch =~= dispatched_during(s, init)
            + (out + run(s, events).batch));
        assert(s.batch + delivered(events) =~= (s.batch + delivered(init)) + post_of(last));
        assert((dispatched_during(s, init) + before.batch) + post_of(last)
            =~= dispatched_during(s, init) + (before.batch + post_of(last)));
    }
    if s.batch.len() == 0 {
        assert(s.batch + delivered(events) =~= delivered(events));
    }
}

/// With keywords that are all different, a classified post gives exactly
/// one entry for each keyword that occurs in its lowercase text, and none
/// for any other keyword.
pub proof fn lemma_one_entry_per_keyword(
    keywords: Seq<Seq<char>>,
    post: PostView,
    lowered: Seq<char>,
    score: PolarityScore,
    keyword: Seq<char>,
)
    requires
        keywords.no_duplicates(),
    ensures
        ({
            let entries = post_entries(keywords, post, lowered, score);
            if keywords.contains(keyword) && occurs_in(keyword, lowered) {
                exists|j: int|
                    0 <= j < entries.len() && #[trigger] entries[j] == entry_of(
                        post,
                        keyword,
                        score,
                    ) && forall|i: int|
                        0 <= i < entries.len() && (#[trigger] entries[i]).keyword == keyword ==> i
                            == j
            } else {
                forall|i: int| 0 <= i < entries.len() ==> (#[trigger] entries[i]).keyword != keyword
            }
        }),
{
    broadcast use vstd::multiset::group_multiset_axioms;

    let found = |candidate: Seq<char>| occurs_in(candidate, lowered);
    let matched = matching(keywords, lowered);
    let entries = post_entries(keywords, post, lowered, score);
    lemma_filter_to_multiset(keywords, found);
    keywords.lemma_multiset_has_no_duplicates();
    keywords.to_multiset_ensures();
    matched.to_multiset_ensures();
    assert forall|x: Seq<char>| matched.to_multiset().contains(x) implies matched.to_multiset().count(
        x,
    ) == 1 by {
        assert(keywords.to_multiset().count(x) > 0);
    }
    matched.lemma_multiset_has_no_duplicates_conv();
    assert forall|i: int| 0 <= i < entries.len() implies (#[trigger] entries[i]).keyword
        == matched[i] by {}
    if keywords.contains(keyword) && occurs_in(keyword, lowered) {
        assert(matched.to_multiset().count(keyword) > 0);
        assert(matched.contains(keyword));
        let j = choose|j: int| 0 <= j < matched.len() && matched[j] == keyword;
        assert(entries[j] == entry_of(post, keyword, score));
        assert forall|i: int|
            0 <= i < entries.len() && (#[trigger] entries[i]).keyword == keyword implies i == j by {
            assert(matched[i] == matched[j]);
        }
    } else {
        assert forall|i: int| 0 <= i < entries.len() implies (#[trigger] entries[i]).keyword
            != keyword by {
            if entries[i].keyword == keyword {
                assert(matched.contains(matched[i]));
                assert(matched.to_multiset().count(keyword) > 0);
                assert(keywords.to_multiset().count(keyword) > 0);
            }
        }
    }
}

/// Running the backfill of a keyword again, with the same search results,
/// changes nothing.
pub proof fn lemma_backfill_idempotent(
    db: Seq<Entry>,
    keyword: Seq<char>,
    posts: Seq<PostView>,
    scores: Seq<PolarityScore>,
)
    ensures
        backfilled(backfilled(db, keyword, posts, scores), keyword, posts, scores) == backfilled(
            db,
            keyword,
            posts,
            scores,
        ),
{
    let once = backfilled(db, keyword, posts, scores);
    let found = search_entries(keyword, posts, scores);
    if !has_keyword(db, keyword) {
        if paired(posts, scores) > 0 {
            assert(once[db.len() as int] == found[0]);
            assert(once[db.len() as int].keyword == keyword);
        } else {
            assert(once =~= db);
            assert(once + found =~= once);
        }
    }
}

/// Once a keyword has an entry, a backfill of it changes nothing, whatever
/// the search returns. That is so after a first backfill that found a post.
pub proof fn lemma_backfill_skips_known(
    db: Seq<Entry>,
    keyword: Seq<char>,
    posts: Seq<PostView>,
    scores: Seq<PolarityScore>,
    later_posts: Seq<PostView>,
    later_scores: Seq<PolarityScore>,
)
    requires
        has_keyword(db, keyword) || paired(posts, scores) > 0,
    ensures
        has_keyword(backfilled(db, keyword, posts, scores), keyword),
        backfilled(backfilled(db, keyword, posts, scores), keyword, later_posts, later_scores)
            == backfilled(db, keyword, posts, scores),
{
    let once = backfilled(db, keyword, posts, scores);
    let found = search_entries(keyword, posts, scores);
    if !has_keyword(db, keyword) {
        assert(once[db.len() as int] == found[0]);
        assert(once[db.len() as int].keyword == keyword);
    }
}

/// A backfill only appends, and only entries under the keyword searched for,
/// so it never changes what the store holds under another keyword.
pub proof fn lemma_backfill_appends(
    db: Seq<Entry>,
    keyword: Seq<char>,
    posts: Seq<PostView>,
    scores: Seq<PolarityScore>,
)
    ensures
        db.is_prefix_of(backfilled(db, keyword, posts, scores)),
        forall|i: int|
            db.len() <= i < backfilled(db, keyword, posts, scores).len() ==> (
            #[trigger] backfilled(db, keyword, posts, scores)[i]).keyword == keyword,
        forall|other: Seq<char>|
            other != keyword ==> (has_keyword(
                #[trigger] backfilled(db, keyword, posts, scores),
                other,
            ) <==> has_keyword(db, other)),
{
    let once = backfilled(db, keyword, posts, scores);
    assert forall|other: Seq<char>| other != keyword implies (has_keyword(once, other)
        <==> has_keyword(db, other)) by {
        if has_keyword(db, other) {
            let i = choose|i: int| 0 <= i < db.len() && (#[trigger] db[i]).keyword == other;
            assert(once[i].keyword == other);
        }
        if has_keyword(once, other) {
            let i = choose|i: int| 0 <= i < once.len() && (#[trigger] once[i]).keyword == other;
            if i >= db.len() {
                assert(once[i].keyword == keyword);
            } else {
                assert(db[i].keyword == other);
            }
        }
    }
}

/// What the source returns when it is searched for a keyword.
pub struct SearchResult {
    /// The posts found.
    pub posts: Seq<PostView>,
    /// The classifier's scores for them.
    pub scores: Seq<PolarityScore>,
}

/// The store after a whole startup backfill: the keywords are taken in
/// their order, and `source` says what the search for each returns.
pub open spec fn backfill_run(
    db: Seq<Entry>,
    keywords: Seq<Seq<char>>,
    source: spec_fn(Seq<char>) -> SearchResult,
) -> Seq<Entry>
    decreases keywords.len(),
{
    if keywords.len() == 0 {
        db
    } else {
        let found = source(keywords.last());
        backfilled(
            backfill_run(db, keywords.drop_last(), source),
            keywords.last(),
            found.posts,
            found.scores,
        )
    }
}

/// After a backfill, each keyword it went through either has an entry or
/// had a search that found nothing.
proof fn lemma_backfill_run_settles(
    db: Seq<Entry>,
    keywords: Seq<Seq<char>>,
    source: spec_fn(Seq<char>) -> SearchResult,
    keyword: Seq<char>,
)
    requires
        keywords.contains(keyword),
    ensures
        has_keyword(backfill_run(db, keywords, source), keyword) || paired(
            source(keyword).posts,
            source(keyword).scores,
        ) == 0,
    decreases keywords.len(),
{
    let init = keywords.drop_last();
    let last = keywords.last();
    let before = backfill_run(db, init, source);
    let found = source(last);
    if keyword == last {
        if has_keyword(before, last) || paired(found.posts, found.scores) > 0 {
            lemma_backfill_skips_known(
                before,
                last,
                found.posts,
                found.scores,
                found.posts,
                found.scores,
            );
        }
    } else {
        let i = choose|i: int| 0 <= i < keywords.len() && keywords[i] == keyword;
        assert(init[i] == keyword);
        lemma_backfill_run_settles(db, init, source, keyword);
        lemma_backfill_appends(before, last, found.posts, found.scores);
    }
}

/// A backfill changes nothing when each of its keywords has an entry or a
/// search that finds nothing.
proof fn lemma_backfill_run_settled(
    db: Seq<Entry>,
    keywords: Seq<Seq<char>>,
    source: spec_fn(Seq<char>) -> SearchResult,
)
    requires
        forall|i: int|
            0 <= i < keywords.len() ==> has_keyword(db, #[trigger] keywords[i]) || paired(
                source(keywords[i]).posts,
                source(keywords[i]).scores,
            ) == 0,
    ensures
        backfill_run(db, keywords, source) == db,
    decreases keywords.len(),
{
    if keywords.len() > 0 {
        let init = keywords.drop_last();
        let last = keywords.last();
        assert forall|i: int| 0 <= i < init.len() implies has_keyword(db, #[trigger] init[i])
            || paired(source(init[i]).posts, source(init[i]).scores) == 0 by {
            assert(init[i] == keywords[i]);
        }
        lemma_backfill_run_settled(db, init, source);
        assert(last == keywords[keywords.len() - 1]);
        let found = source(last);
        if !has_keyword(db, last) {
            assert(search_entries(last, found.posts, found.scores) =~= Seq::<Entry>::empty());
            assert(db + search_entries(last, found.posts, found.scores) =~= db);
        }
    }
}

/// The startup backfill is idempotent: run a second time with nothing
/// inserted in between, against a source that answers as before, it leaves
/// every keyword and every entry as the first run left them.
pub proof fn lemma_backfill_run_idempotent(
    db: Seq<Entry>,
    keywords: Seq<Seq<char>>,
    source: spec_fn(Seq<char>) -> SearchResult,
)
    ensures
        backfill_run(backfill_run(db, keywords, source), keywords, source) == backfill_run(
            db,
            keywords,
            source,
        ),
{
    let once = backfill_run(db, keywords, source);
    assert forall|i: int| 0 <= i < keywords.len() implies has_keyword(
        once,
        #[trigger] keywords[i],
    ) || paired(source(keywords[i]).posts, source(keywords[i]).scores) == 0 by {
        lemma_backfill_run_settles(db, keywords, source, keywords[i]);
    }
    lemma_backfill_run_settled(once, keywords, source);
}

} // verus!
