//! Sentiment entries and the keyword-indexed store that holds them.

use vstd::prelude::*;
use crate::text::{ascending, sort_texts};

verus! {

/// The mathematical value of a stored entry.
pub struct Entry {
    /// Identifier that the source gave the post.
    pub id: i64,
    /// The tracked keyword that the entry is filed under.
    pub keyword: Seq<char>,
    /// When the post was written, in seconds since the epoch.
    pub created: i64,
    /// Signed sentiment as a binary64 pattern.
    pub sentiment: u64,
}

/// One classified post, filed under one keyword that it matched.
#[derive(Debug, PartialEq)]
pub struct TweetSentiment {
    /// Identifier that the source gave the post.
    pub id: i64,
    /// The tracked keyword that the entry is filed under.
    pub keyword: String,
    /// When the post was written, in seconds since the epoch.
    pub created: i64,
    /// Signed sentiment in `[-1.0, 1.0]` as a binary64 pattern.
    pub sentiment: u64,
}

impl View for TweetSentiment {
    type V = Entry;

    open spec fn view(&self) -> Entry {
        Entry {
            id: self.id,
            keyword: self.keyword@,
            created: self.created,
            sentiment: self.sentiment,
        }
    }
}

impl DeepView for TweetSentiment {
    type V = Entry;

    open spec fn deep_view(&self) -> Entry {
        self@
    }
}

impl Clone for TweetSentiment {
    fn clone(&self) -> (copy: Self)
        ensures
            copy == *self,
    {
        TweetSentiment {
            id: self.id,
            keyword: self.keyword.clone(),
            created: self.created,
            sentiment: self.sentiment,
        }
    }
}

impl TweetSentiment {
    /// Creates an entry. The identifier is stored as a signed integer of the
    /// same 64 bits; identifiers below 2^63 keep their value.
    pub fn new(id: u64, keyword: String, timestamp: i64, sentiment: u64) -> (entry: Self)
        ensures
            entry@ == (Entry {
                id: id as i64,
                keyword: keyword@,
                created: timestamp,
                sentiment: sentiment,
            }),
            id <= i64::MAX ==> entry.id == id,
    {
        TweetSentiment { id: id as i64, keyword, created: timestamp, sentiment }
    }
}

/// Whether some entry is filed under `keyword`.
pub open spec fn has_keyword(entries: Seq<Entry>, keyword: Seq<char>) -> bool {
    exists|i: int| 0 <= i < entries.len() && (#[trigger] entries[i]).keyword == keyword
}

/// The entries filed under `keyword`, in the order they were inserted.
pub open spec fn with_keyword(entries: Seq<Entry>, keyword: Seq<char>) -> Seq<Entry> {
    entries.filter(|entry: Entry| entry.keyword == keyword)
}

/// Entries are in ascending order of their creation time.
pub open spec fn sorted_by_created(entries: Seq<Entry>) -> bool {
    forall|i: int, j: int|
        0 <= i <= j < entries.len() ==> (#[trigger] entries[i]).created <= (
        #[trigger] entries[j]).created
}

/// A sorted sequence with `entry` put in behind every entry that is not
/// newer than it.
pub open spec fn placed(sorted: Seq<Entry>, entry: Entry) -> Seq<Entry>
    decreases sorted.len(),
{
    if sorted.len() > 0 && sorted.last().created > entry.created {
        placed(sorted.drop_last(), entry).push(sorted.last())
    } else {
        sorted.push(entry)
    }
}

/// The entries in ascending order of creation time; entries of the same
/// creation time stay in their given order.
pub open spec fn by_created(entries: Seq<Entry>) -> Seq<Entry>
    decreases entries.len(),
{
    if entries.len() == 0 {
        Seq::empty()
    } else {
        placed(by_created(entries.drop_last()), entries.last())
    }
}

/// Putting an entry in at the first place behind which every entry is
/// newer gives `placed`.
pub proof fn lemma_placed_at(sorted: Seq<Entry>, entry: Entry, at: int)
    requires
        sorted_by_created(sorted),
        0 <= at <= sorted.len(),
        forall|j: int| 0 <= j < at ==> (#[trigger] sorted[j]).created <= entry.created,
        at < sorted.len() ==> sorted[at].created > entry.created,
    ensures
        placed(sorted, entry) == sorted.insert(at, entry),
    decreases sorted.len(),
{
    if at == sorted.len() {
        assert(sorted.insert(at, entry) =~= sorted.push(entry));
    } else {
        let init = sorted.drop_last();
        assert(sorted.last().created >= sorted[at].created);
        lemma_placed_at(init, entry, at);
        assert(init.insert(at, entry).push(sorted.last()) =~= sorted.insert(at, entry));
    }
}

/// `placed` keeps a sorted sequence sorted and adds the entry to it.
pub proof fn lemma_placed(sorted: Seq<Entry>, entry: Entry)
    requires
        sorted_by_created(sorted),
    ensures
        sorted_by_created(placed(sorted, entry)),
        placed(sorted, entry).to_multiset() == sorted.to_multiset().insert(entry),
        placed(sorted, entry).len() == sorted.len() + 1,
    decreases sorted.len(),
{
    broadcast use vstd::seq_lib::group_to_multiset_ensures;

    if sorted.len() > 0 && sorted.last().created > entry.created {
        let init = sorted.drop_last();
        let last = sorted.last();
        lemma_placed(init, entry);
        let inner = placed(init, entry);
        assert(sorted =~= init.push(last));
        assert(inner.push(last).to_multiset() =~= sorted.to_multiset().insert(entry));
        assert forall|i: int, j: int| 0 <= i <= j < inner.push(last).len() implies (
        #[trigger] inner.push(last)[i]).created <= (#[trigger] inner.push(last)[j]).created by {
            if j == inner.len() && i < inner.len() {
                assert(inner.to_multiset().count(inner[i]) > 0);
                if inner[i] != entry {
                    assert(init.to_multiset().count(inner[i]) > 0);
                    assert(init.contains(inner[i]));
                    let k = choose|k: int| 0 <= k < init.len() && init[k] == inner[i];
                    assert(sorted[k].created <= sorted[sorted.len() - 1].created);
                }
            }
        }
    } else {
        let after = sorted.push(entry);
        assert forall|i: int, j: int| 0 <= i <= j < after.len() implies (
        #[trigger] after[i]).created <= (#[trigger] after[j]).created by {
            if j == sorted.len() && i < sorted.len() {
                assert(sorted[i].created <= sorted[sorted.len() - 1].created);
            }
        }
    }
}

/// `by_created` puts the entries in ascending order of creation time, and
/// neither drops nor adds one.
pub proof fn lemma_by_created(entries: Seq<Entry>)
    ensures
        sorted_by_created(by_created(entries)),
        by_created(entries).to_multiset() == entries.to_multiset(),
        by_created(entries).len() == entries.len(),
    decreases entries.len(),
{
    broadcast use vstd::seq_lib::group_to_multiset_ensures;

    if entries.len() > 0 {
        let init = entries.drop_last();
        lemma_by_created(init);
        lemma_placed(by_created(init), entries.last());
        assert(entries =~= init.push(entries.last()));
    }
}

/// The keywords that occur in `entries`, each once, in order of first
/// occurrence.
pub open spec fn distinct_keywords(entries: Seq<Entry>) -> Seq<Seq<char>>
    decreases entries.len(),
{
    if entries.len() == 0 {
        Seq::empty()
    } else {
        let earlier = distinct_keywords(entries.drop_last());
        if earlier.contains(entries.last().keyword) {
            earlier
        } else {
            earlier.push(entries.last().keyword)
        }
    }
}

/// `distinct_keywords` lists exactly the keywords that have an entry, and
/// lists none twice.
pub proof fn lemma_distinct_keywords(entries: Seq<Entry>)
    ensures
        distinct_keywords(entries).no_duplicates(),
        forall|keyword: Seq<char>| #[trigger]
            distinct_keywords(entries).contains(keyword) <==> has_keyword(entries, keyword),
    decreases entries.len(),
{
    if entries.len() > 0 {
        let init = entries.drop_last();
        let last = entries.last();
        let earlier = distinct_keywords(init);
        lemma_distinct_keywords(init);
        assert forall|keyword: Seq<char>| #[trigger]
            distinct_keywords(entries).contains(keyword) <==> has_keyword(
                entries,
                keyword,
            ) by {
            if has_keyword(entries, keyword) {
                let i = choose|i: int|
                    0 <= i < entries.len() && (#[trigger] entries[i]).keyword == keyword;
                if i < init.len() {
                    assert(init[i].keyword == keyword);
                    assert(earlier.contains(keyword));
                    let at = choose|at: int| 0 <= at < earlier.len() && earlier[at] == keyword;
                    assert(distinct_keywords(entries)[at] == keyword);
                } else {
                    assert(keyword == last.keyword);
                    if !earlier.contains(keyword) {
                        assert(distinct_keywords(entries)[earlier.len() as int] == keyword);
                    }
                }
            }
            if distinct_keywords(entries).contains(keyword) {
                if earlier.contains(keyword) {
                    assert(has_keyword(init, keyword));
                    let i = choose|i: int|
                        0 <= i < init.len() && (#[trigger] init[i]).keyword == keyword;
                    assert(entries[i].keyword == keyword);
                } else {
                    let at = choose|at: int|
                        0 <= at < distinct_keywords(entries).len() && distinct_keywords(
                            entries,
                        )[at] == keyword;
                    assert(keyword == last.keyword);
                    assert(entries[entries.len() - 1].keyword == keyword);
                }
            }
        }
    }
}

/// What a read of the store can fail with.
#[derive(Clone, Copy, Debug, PartialEq, Eq, Structural)]
pub enum StorageError {
    /// No entry has been inserted under the keyword.
    NotFound,
}

/// Keyword-indexed, append-only store of sentiment entries.
#[derive(Debug)]
pub struct SentimentDB {
    entries: Vec<TweetSentiment>,
}

impl View for SentimentDB {
    type V = Seq<Entry>;

    /// Every entry ever inserted, in insertion order.
    closed spec fn view(&self) -> Seq<Entry> {
        self.entries.deep_view()
    }
}

impl SentimentDB {
    /// Creates an empty store.
    pub fn new() -> (db: Self)
        ensures
            db@ == Seq::<Entry>::empty(),
    {
        let db = SentimentDB { entries: Vec::new() };
        assert(db@ =~= Seq::<Entry>::empty());
        db
    }

    /// Appends an entry. Nothing that is stored already changes.
    pub fn insert(&mut self, entry: TweetSentiment)
        ensures
            final(self)@ == old(self)@.push(entry@),
    {
        self.entries.push(entry);
        assert(self@ =~= old(self)@.push(entry@));
    }

    /// Appends copies of the entries, in their order.
    pub fn insert_all(&mut self, entries: &Vec<TweetSentiment>)
        ensures
            final(self)@ == old(self)@ + entries.deep_view(),
    {
        let mut i: usize = 0;
        assert(self@ =~= old(self)@ + entries.deep_view().take(0));
        while i < entries.len()
            invariant
                i <= entries.len(),
                self@ == old(self)@ + entries.deep_view().take(i as int),
            decreases entries.len() - i,
        {
            let ghost before = self@;
            self.insert(entries[i].clone());
            assert(self@ =~= old(self)@ + entries.deep_view().take(i as int + 1));
            i += 1;
        }
        assert(entries.deep_view().take(i as int) =~= entries.deep_view());
    }

    /// The number of entries in the store.
    pub fn len(&self) -> (n: usize)
        ensures
            n == self@.len(),
    {
        self.entries.len()
    }

    /// Tells whether at least one entry is filed under `keyword`.
    pub fn keyword_exists(&self, keyword: &str) -> (found: bool)
        ensures
            found == has_keyword(self@, keyword@),
    {
        let key = keyword.to_owned();
        let mut i: usize = 0;
        while i < self.entries.len()
            invariant
                i <= self.entries.len(),
                key@ == keyword@,
                forall|j: int| 0 <= j < i ==> (#[trigger] self@[j]).keyword != keyword@,
            decreases self.entries.len() - i,
        {
            if self.entries[i].keyword == key {
                assert(self@[i as int].keyword == keyword@);
                return true;
            }
            i += 1;
        }
        false
    }

    /// Returns copies of the entries filed under `keyword`, in ascending order
    /// of creation time, whatever order they were inserted in. A keyword
    /// without entries is reported as `NotFound`, never as an empty list.
    pub fn get(&self, keyword: &str) -> (found: Result<Vec<TweetSentiment>, StorageError>)
        ensures
            found is Ok <==> has_keyword(self@, keyword@),
            found matches Ok(entries) ==> {
                &&& entries.deep_view() == by_created(with_keyword(self@, keyword@))
                &&& sorted_by_created(entries.deep_view())
                &&& entries.deep_view().to_multiset() == with_keyword(
                    self@,
                    keyword@,
                ).to_multiset()
            },
    {
        let key = keyword.to_owned();
        let mut sorted: Vec<TweetSentiment> = Vec::new();
        let mut i: usize = 0;
        let ghost wanted = |entry: Entry| entry.keyword == keyword@;
        proof {
            assert(self@.take(0) =~= Seq::<Entry>::empty());
            reveal(Seq::filter);
            assert(sorted.deep_view() =~= self@.take(0).filter(wanted));
        }
        while i < self.entries.len()
            invariant
                i <= self.entries.len(),
                key@ == keyword@,
                wanted == (|entry: Entry| entry.keyword == keyword@),
                sorted.deep_view() == by_created(self@.take(i as int).filter(wanted)),
                sorted.len() == 0 <==> forall|j: int|
                    0 <= j < i ==> (#[trigger] self@[j]).keyword != keyword@,
            decreases self.entries.len() - i,
        {
            let ghost before = sorted.deep_view();
            proof {
                let next = self@.take(i as int + 1);
                assert(next.drop_last() =~= self@.take(i as int));
                assert(next.last() == self@[i as int]);
                reveal(Seq::filter);
            }
            if self.entries[i].keyword == key {
                let created = self.entries[i].created;
                let mut at: usize = 0;
                while at < sorted.len() && sorted[at].created <= created
                    invariant
                        at <= sorted.len(),
                        forall|j: int|
                            0 <= j < at ==> (#[trigger] sorted.deep_view()[j]).created <= created,
                    decreases sorted.len() - at,
                {
                    at += 1;
                }
                proof {
                    lemma_by_created(self@.take(i as int).filter(wanted));
                }
                sorted.insert(at, self.entries[i].clone());
                proof {
                    let entry = self@[i as int];
                    let earlier = self@.take(i as int).filter(wanted);
                    let now = self@.take(i as int + 1).filter(wanted);
                    assert(now == earlier.push(entry));
                    assert(now.drop_last() =~= earlier);
                    assert(sorted.deep_view() =~= before.insert(at as int, entry));
                    assert(at < before.len() ==> before[at as int].created > entry.created);
                    lemma_placed_at(before, entry, at as int);
                }
            }
            i += 1;
        }
        proof {
            assert(self@.take(i as int) =~= self@);
            lemma_by_created(with_keyword(self@, keyword@));
        }
        if sorted.len() == 0 {
            Err(StorageError::NotFound)
        } else {
            Ok(sorted)
        }
    }

    /// Returns every keyword that has at least one entry, each once, in
    /// ascending order.
    pub fn keywords(&self) -> (keywords: Vec<String>)
        ensures
            ascending(keywords.deep_view()),
            keywords.deep_view().no_duplicates(),
            forall|keyword: Seq<char>| #[trigger]
                keywords.deep_view().contains(keyword) <==> has_keyword(self@, keyword),
    {
        let found = self.first_seen();
        let keywords = sort_texts(&found);
        proof {
            let unsorted = found.deep_view();
            let sorted = keywords.deep_view();
            lemma_distinct_keywords(self@);
            unsorted.lemma_multiset_has_no_duplicates();
            sorted.lemma_multiset_has_no_duplicates_conv();
            unsorted.to_multiset_ensures();
            sorted.to_multiset_ensures();
            assert forall|keyword: Seq<char>| #[trigger]
                sorted.contains(keyword) <==> has_keyword(self@, keyword) by {
                assert(sorted.contains(keyword) <==> sorted.to_multiset().count(keyword) > 0);
                assert(unsorted.contains(keyword) <==> unsorted.to_multiset().count(keyword) > 0);
                assert(distinct_keywords(self@).contains(keyword) <==> has_keyword(
                    self@,
                    keyword,
                ));
            }
        }
        keywords
    }

    /// Collects every keyword that has at least one entry, each once, in the
    /// order in which the keywords were first inserted.
    fn first_seen(&self) -> (keywords: Vec<String>)
        ensures
            keywords.deep_view() == distinct_keywords(self@),
    {
        let mut keywords: Vec<String> = Vec::new();
        let mut i: usize = 0;
        proof {
            assert(self@.take(0) =~= Seq::<Entry>::empty());
            assert(keywords.deep_view() =~= distinct_keywords(self@.take(0)));
        }
        while i < self.entries.len()
            invariant
                i <= self.entries.len(),
                keywords.deep_view() == distinct_keywords(self@.take(i as int)),
            decreases self.entries.len() - i,
        {
            let ghost before = keywords.deep_view();
            let mut seen = false;
            let mut at: usize = 0;
            while at < keywords.len()
                invariant_except_break
                    !seen,
                    forall|j: int|
                        0 <= j < at ==> #[trigger] keywords.deep_view()[j] != self@[i as int].keyword,
                invariant
                    at <= keywords.len(),
                    i < self.entries.len(),
                ensures
                    seen == keywords.deep_view().contains(self@[i as int].keyword),
                decreases keywords.len() - at,
            {
                if keywords[at] == self.entries[i].keyword {
                    seen = true;
                    assert(keywords.deep_view()[at as int] == self@[i as int].keyword);
                    break ;
                }
                at += 1;
            }
            if !seen {
                keywords.push(self.entries[i].keyword.clone());
                assert(keywords.deep_view() =~= before.push(self@[i as int].keyword));
            }
            proof {
                let next = self@.take(i as int + 1);
                assert(next.drop_last() =~= self@.take(i as int));
                assert(next.last() == self@[i as int]);
            }
            i += 1;
        }
        proof {
            assert(self@.take(i as int) =~= self@);
        }
        keywords
    }
}

/// A keyword has an entry after an insert exactly if it had one before or
/// the inserted entry is filed under it. So a keyword without inserts has
/// none, and a keyword keeps its entries through every later insert.
pub proof fn lemma_insert_has_keyword(entries: Seq<Entry>, entry: Entry, keyword: Seq<char>)
    ensures
        has_keyword(entries.push(entry), keyword) <==> has_keyword(entries, keyword)
            || entry.keyword == keyword,
        !has_keyword(Seq::<Entry>::empty(), keyword),
{
    let after = entries.push(entry);
    if has_keyword(entries, keyword) {
        let i = choose|i: int| 0 <= i < entries.len() && (#[trigger] entries[i]).keyword == keyword;
        assert(after[i].keyword == keyword);
    }
    if entry.keyword == keyword {
        assert(after[entries.len() as int].keyword == keyword);
    }
    if has_keyword(after, keyword) {
        let i = choose|i: int| 0 <= i < after.len() && (#[trigger] after[i]).keyword == keyword;
        if i < entries.len() {
            assert(entries[i].keyword == keyword);
        }
    }
}

/// After the first `n` of a series of inserts into an empty store, a keyword
/// has an entry exactly if one of those `n` inserts was filed under it: not
/// before the first such insert, and always after it.
pub proof fn lemma_has_keyword_since_first_insert(inserts: Seq<Entry>, keyword: Seq<char>, n: int)
    requires
        0 <= n <= inserts.len(),
    ensures
        has_keyword(inserts.take(n), keyword) <==> exists|i: int|
            0 <= i < n && (#[trigger] inserts[i]).keyword == keyword,
        forall|m: int|
            n <= m <= inserts.len() && has_keyword(inserts.take(n), keyword) ==> has_keyword(
                #[trigger] inserts.take(m),
                keyword,
            ),
{
    let first = inserts.take(n);
    if has_keyword(first, keyword) {
        let i = choose|i: int| 0 <= i < first.len() && (#[trigger] first[i]).keyword == keyword;
        assert(inserts[i].keyword == keyword);
        assert forall|m: int| n <= m <= inserts.len() implies has_keyword(
            #[trigger] inserts.take(m),
            keyword,
        ) by {
            assert(inserts.take(m)[i].keyword == keyword);
        }
    }
    if exists|i: int| 0 <= i < n && (#[trigger] inserts[i]).keyword == keyword {
        let i = choose|i: int| 0 <= i < n && (#[trigger] inserts[i]).keyword == keyword;
        assert(first[i].keyword == keyword);
    }
}

/// Filtering a sequence and counting is counting and filtering.
pub proof fn lemma_filter_to_multiset<A>(s: Seq<A>, pred: spec_fn(A) -> bool)
    ensures
        s.filter(pred).to_multiset() == s.to_multiset().filter(pred),
    decreases s.len(),
{
    reveal(Seq::filter);
    broadcast use vstd::seq_lib::group_to_multiset_ensures;
    broadcast use vstd::multiset::group_multiset_axioms;

    if s.len() == 0 {
        assert(s.filter(pred).to_multiset() =~= s.to_multiset().filter(pred));
    } else {
        let init = s.drop_last();
        let last = s.last();
        lemma_filter_to_multiset(init, pred);
        assert(s =~= init.push(last));
        assert(s.to_multiset() =~= init.to_multiset().insert(last));
        assert(s.filter(pred).to_multiset() =~= s.to_multiset().filter(pred));
    }
}

/// What a read returns does not depend on the order of the inserts: two
/// stores that hold the same entries hold the same entries under every
/// keyword.
pub proof fn lemma_with_keyword_ignores_order(a: Seq<Entry>, b: Seq<Entry>, keyword: Seq<char>)
    requires
        a.to_multiset() == b.to_multiset(),
    ensures
        with_keyword(a, keyword).to_multiset() == with_keyword(b, keyword).to_multiset(),
{
    let wanted = |entry: Entry| entry.keyword == keyword;
    lemma_filter_to_multiset(a, wanted);
    lemma_filter_to_multiset(b, wanted);
}

/// The creation times of the entries, in their order.
pub open spec fn created_of(entries: Seq<Entry>) -> Seq<i64> {
    entries.map_values(|entry: Entry| entry.created)
}

/// Two sorted sequences of the same entries show the same creation times
/// at every position: they can differ only in the order of entries that
/// were created at the same time.
pub proof fn lemma_sorted_reads_agree(x: Seq<Entry>, y: Seq<Entry>)
    requires
        sorted_by_created(x),
        sorted_by_created(y),
        x.to_multiset() == y.to_multiset(),
    ensures
        created_of(x) == created_of(y),
    decreases x.len(),
{
    broadcast use vstd::seq_lib::group_to_multiset_ensures;

    x.to_multiset_ensures();
    y.to_multiset_ensures();
    assert(x.len() == y.len());
    if x.len() > 0 {
        let n = x.len() as int;
        let newest = x.last();
        assert(x.contains(newest));
        assert(y.to_multiset().count(newest) > 0);
        assert(y.contains(newest));
        let j = choose|j: int| 0 <= j < y.len() && y[j] == newest;
        assert forall|i: int| 0 <= i < n implies (#[trigger] y[i]).created <= newest.created by {
            assert(y.contains(y[i]));
            assert(x.to_multiset().count(y[i]) > 0);
            assert(x.contains(y[i]));
            let k = choose|k: int| 0 <= k < x.len() && x[k] == y[i];
            assert(x[k].created <= x[n - 1].created);
        }
        let shorter_x = x.drop_last();
        let shorter_y = y.remove(j);
        assert(x.remove(n - 1) =~= shorter_x);
        vstd::seq_lib::to_multiset_remove(x, n - 1);
        vstd::seq_lib::to_multiset_remove(y, j);
        assert forall|a: int, b: int| 0 <= a <= b < shorter_y.len() implies (
        #[trigger] shorter_y[a]).created <= (#[trigger] shorter_y[b]).created by {
            let from_a = if a < j {
                a
            } else {
                a + 1
            };
            let from_b = if b < j {
                b
            } else {
                b + 1
            };
            assert(shorter_y[a] == y[from_a]);
            assert(shorter_y[b] == y[from_b]);
        }
        lemma_sorted_reads_agree(shorter_x, shorter_y);
        assert forall|i: int| 0 <= i < n implies created_of(x)[i] == created_of(y)[i] by {
            if i < n - 1 {
                assert(created_of(shorter_x)[i] == created_of(shorter_y)[i]);
                assert(shorter_x[i] == x[i]);
                if i < j {
                    assert(shorter_y[i] == y[i]);
                } else {
                    assert(shorter_y[i] == y[i + 1]);
                    assert(y[j].created <= y[i].created);
                    assert(y[j].created <= y[i + 1].created);
                }
            } else {
                assert(y[j].created <= y[i].created);
            }
        }
        assert(created_of(x) =~= created_of(y));
    }
}

/// Whatever order the entries were inserted in, a read shows them in the
/// same order of creation times: two stores that hold the same entries
/// return, for every keyword, the same entries with the same creation time
/// at every position.
pub proof fn lemma_read_ignores_insertion_order(
    a: Seq<Entry>,
    b: Seq<Entry>,
    keyword: Seq<char>,
)
    requires
        a.to_multiset() == b.to_multiset(),
    ensures
        has_keyword(a, keyword) <==> has_keyword(b, keyword),
        by_created(with_keyword(a, keyword)).to_multiset() == by_created(
            with_keyword(b, keyword),
        ).to_multiset(),
        created_of(by_created(with_keyword(a, keyword))) == created_of(
            by_created(with_keyword(b, keyword)),
        ),
{
    broadcast use vstd::seq_lib::group_to_multiset_ensures;

    lemma_with_keyword_ignores_order(a, b, keyword);
    lemma_by_created(with_keyword(a, keyword));
    lemma_by_created(with_keyword(b, keyword));
    lemma_sorted_reads_agree(
        by_created(with_keyword(a, keyword)),
        by_created(with_keyword(b, keyword)),
    );
    if has_keyword(a, keyword) {
        let i = choose|i: int| 0 <= i < a.len() && (#[trigger] a[i]).keyword == keyword;
        assert(a.contains(a[i]));
        assert(b.to_multiset().count(a[i]) > 0);
        assert(b.contains(a[i]));
        let k = choose|k: int| 0 <= k < b.len() && b[k] == a[i];
        assert(b[k].keyword == keyword);
    }
    if has_keyword(b, keyword) {
        let i = choose|i: int| 0 <= i < b.len() && (#[trigger] b[i]).keyword == keyword;
        assert(b.contains(b[i]));
        assert(a.to_multiset().count(b[i]) > 0);
        assert(a.contains(b[i]));
        let k = choose|k: int| 0 <= k < a.len() && a[k] == b[i];
        assert(a[k].keyword == keyword);
    }
}

} // verus!
