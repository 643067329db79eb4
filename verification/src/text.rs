//! Keyword matching on post texts: case folding and substring search; and
//! the order in which keywords are listed.

use vstd::prelude::*;

verus! {

/// The lowercase form of a text, as `str::to_lowercase` computes it from the
/// Unicode character tables.
pub uninterp spec fn lowercase(text: Seq<char>) -> Seq<char>;

/// Whether `needle` occurs in `text` as a contiguous run of characters.
///
/// The empty needle occurs in every text.
pub open spec fn occurs_in(needle: Seq<char>, text: Seq<char>) -> bool {
    exists|i: int|
        0 <= i && i + needle.len() <= text.len() && #[trigger] text.subrange(
            i,
            i + needle.len(),
        ) == needle
}

/// Whether at least one of the keywords occurs in `text`.
pub open spec fn any_occurs(keywords: Seq<Seq<char>>, text: Seq<char>) -> bool {
    exists|k: int| 0 <= k < keywords.len() && occurs_in(#[trigger] keywords[k], text)
}

/// The keywords that occur in `text`, in their given order; a keyword listed
/// twice is reported twice.
pub open spec fn matching(keywords: Seq<Seq<char>>, text: Seq<char>) -> Seq<Seq<char>> {
    keywords.filter(|keyword: Seq<char>| occurs_in(keyword, text))
}

/// Each text in lowercase, in the same order.
pub open spec fn lowercase_all(texts: Seq<Seq<char>>) -> Seq<Seq<char>> {
    texts.map_values(|text: Seq<char>| lowercase(text))
}

/// Calls `str::to_lowercase`. The result is the lowercase form of the whole
/// text; nothing else is claimed of it.
#[verifier::external_body]
pub(crate) fn to_lowercase(text: &str) -> (lower: String)
    ensures
        lower@ == lowercase(text@),
{
    text.to_lowercase()
}

/// Calls `str::contains` with a string pattern, which is true exactly when
/// the pattern matches a sub-slice of the text.
#[verifier::external_body]
pub(crate) fn contains(text: &str, needle: &str) -> (found: bool)
    ensures
        found == occurs_in(needle@, text@),
{
    text.contains(needle)
}

/// Lowercases every keyword, keeping their order.
pub fn normalize_keywords(keywords: &Vec<String>) -> (lowered: Vec<String>)
    ensures
        lowered.deep_view() == lowercase_all(keywords.deep_view()),
{
    let mut lowered: Vec<String> = Vec::new();
    let mut i: usize = 0;
    while i < keywords.len()
        invariant
            i <= keywords.len(),
            lowered.len() == i,
            forall|j: int| 0 <= j < i ==> #[trigger] lowered[j]@ == lowercase(keywords[j]@),
        decreases keywords.len() - i,
    {
        lowered.push(to_lowercase(keywords[i].as_str()));
        i += 1;
    }
    assert(lowered.deep_view() =~= lowercase_all(keywords.deep_view()));
    lowered
}

/// Tells whether any keyword occurs in `text`. Both sides are compared as
/// given: the caller lowercases them for a case-insensitive match.
pub fn matches_any(keywords: &Vec<String>, text: &str) -> (found: bool)
    ensures
        found == any_occurs(keywords.deep_view(), text@),
{
    let mut i: usize = 0;
    while i < keywords.len()
        invariant
            i <= keywords.len(),
            forall|j: int| 0 <= j < i ==> !occurs_in(#[trigger] keywords.deep_view()[j], text@),
        decreases keywords.len() - i,
    {
        if contains(text, keywords[i].as_str()) {
            assert(keywords.deep_view()[i as int] == keywords[i as int]@);
            return true;
        }
        i += 1;
    }
    false
}

/// Returns the keywords that occur in `text`, in their given order. Both
/// sides are compared as given.
pub fn matched_keywords(keywords: &Vec<String>, text: &str) -> (found: Vec<String>)
    ensures
        found.deep_view() == matching(keywords.deep_view(), text@),
{
    let mut found: Vec<String> = Vec::new();
    let mut i: usize = 0;
    let ghost all = keywords.deep_view();
    let ghost pred = |keyword: Seq<char>| occurs_in(keyword, text@);
    proof {
        assert(all.take(0) =~= Seq::<Seq<char>>::empty());
        assert(found.deep_view() =~= all.take(0).filter(pred));
    }
    while i < keywords.len()
        invariant
            i <= keywords.len(),
            all == keywords.deep_view(),
            pred == (|keyword: Seq<char>| occurs_in(keyword, text@)),
            found.deep_view() == all.take(i as int).filter(pred),
        decreases keywords.len() - i,
    {
        let ghost before = found.deep_view();
        proof {
            let next = all.take(i as int + 1);
            assert(next.drop_last() =~= all.take(i as int));
            assert(next.last() == keywords[i as int]@);
            reveal(Seq::filter);
        }
        if contains(text, keywords[i].as_str()) {
            found.push(keywords[i].clone());
            assert(found.deep_view() =~= before.push(keywords[i as int]@));
        }
        i += 1;
    }
    assert(all.take(i as int) =~= all);
    found
}

/// Whether `a` stands before `b`, or is equal to it, in the order of texts:
/// the texts are compared character by character by code point, and a text
/// stands before every longer text that begins with it.
pub open spec fn text_le(a: Seq<char>, b: Seq<char>) -> bool
    decreases a.len(),
{
    if a.len() == 0 {
        true
    } else if b.len() == 0 {
        false
    } else if a[0] != b[0] {
        (a[0] as int) < (b[0] as int)
    } else {
        text_le(a.drop_first(), b.drop_first())
    }
}

/// The texts are in ascending order.
pub open spec fn ascending(texts: Seq<Seq<char>>) -> bool {
    forall|i: int, j: int|
        0 <= i <= j < texts.len() ==> text_le(#[trigger] texts[i], #[trigger] texts[j])
}

/// Of two texts, one stands before the other or they are equal.
pub proof fn lemma_text_le_total(a: Seq<char>, b: Seq<char>)
    ensures
        text_le(a, b) || text_le(b, a),
        text_le(a, a),
    decreases a.len(),
{
    if a.len() > 0 {
        lemma_text_le_total(a.drop_first(), a.drop_first());
        if b.len() > 0 && a[0] == b[0] {
            lemma_text_le_total(a.drop_first(), b.drop_first());
        }
    }
}

/// The order of texts is transitive.
pub proof fn lemma_text_le_transitive(a: Seq<char>, b: Seq<char>, c: Seq<char>)
    requires
        text_le(a, b),
        text_le(b, c),
    ensures
        text_le(a, c),
    decreases a.len(),
{
    if a.len() > 0 && b.len() > 0 && c.len() > 0 {
        if a[0] == b[0] && b[0] == c[0] {
            lemma_text_le_transitive(a.drop_first(), b.drop_first(), c.drop_first());
        }
    }
}

/// Two texts that stand before each other are equal.
pub proof fn lemma_text_le_antisymmetric(a: Seq<char>, b: Seq<char>)
    requires
        text_le(a, b),
        text_le(b, a),
    ensures
        a == b,
    decreases a.len(),
{
    if a.len() > 0 && b.len() > 0 {
        lemma_text_le_antisymmetric(a.drop_first(), b.drop_first());
        assert(a =~= seq![a[0]] + a.drop_first());
        assert(b =~= seq![b[0]] + b.drop_first());
    } else {
        assert(a =~= b);
    }
}

/// The order of texts leaves no choice: two ascending sequences of the same
/// texts are equal.
pub proof fn lemma_ascending_unique(x: Seq<Seq<char>>, y: Seq<Seq<char>>)
    requires
        ascending(x),
        ascending(y),
        x.to_multiset() == y.to_multiset(),
    ensures
        x == y,
{
    let leq = |a: Seq<char>, b: Seq<char>| text_le(a, b);
    assert forall|a: Seq<char>| #[trigger] leq(a, a) by {
        lemma_text_le_total(a, a);
    }
    assert forall|a: Seq<char>, b: Seq<char>| #[trigger] leq(a, b) || #[trigger] leq(b, a) by {
        lemma_text_le_total(a, b);
    }
    assert forall|a: Seq<char>, b: Seq<char>| #[trigger]
        leq(a, b) && #[trigger] leq(b, a) implies a == b by {
        lemma_text_le_antisymmetric(a, b);
    }
    assert forall|a: Seq<char>, b: Seq<char>, c: Seq<char>| #[trigger]
        leq(a, b) && #[trigger] leq(b, c) implies leq(a, c) by {
        lemma_text_le_transitive(a, b, c);
    }
    assert(vstd::relations::total_ordering(leq));
    assert(vstd::relations::sorted_by(x, leq));
    assert(vstd::relations::sorted_by(y, leq));
    vstd::seq_lib::lemma_sorted_unique(x, y, leq);
}

/// Calls `<=` on two string slices. The standard library orders strings
/// lexicographically by their bytes, which is the order of their code
/// points.
#[verifier::external_body]
pub(crate) fn str_le(a: &str, b: &str) -> (le: bool)
    ensures
        le == text_le(a@, b@),
{
    a <= b
}

/// Puts the texts in ascending order. None is dropped or added.
pub fn sort_texts(texts: &Vec<String>) -> (sorted: Vec<String>)
    ensures
        ascending(sorted.deep_view()),
        sorted.deep_view().to_multiset() == texts.deep_view().to_multiset(),
        sorted.len() == texts.len(),
{
    let mut sorted: Vec<String> = Vec::new();
    let mut i: usize = 0;
    proof {
        assert(texts.deep_view().take(0) =~= Seq::<Seq<char>>::empty());
        assert(sorted.deep_view() =~= Seq::<Seq<char>>::empty());
    }
    while i < texts.len()
        invariant
            i <= texts.len(),
            sorted.len() == i,
            ascending(sorted.deep_view()),
            sorted.deep_view().to_multiset() == texts.deep_view().take(i as int).to_multiset(),
        decreases texts.len() - i,
    {
        let ghost before = sorted.deep_view();
        let ghost text = texts[i as int]@;
        let mut at: usize = 0;
        while at < sorted.len() && str_le(sorted[at].as_str(), texts[i].as_str())
            invariant
                at <= sorted.len(),
                i < texts.len(),
                text == texts[i as int]@,
                forall|j: int| 0 <= j < at ==> text_le(#[trigger] sorted.deep_view()[j], text),
            decreases sorted.len() - at,
        {
            at += 1;
        }
        sorted.insert(at, texts[i].clone());
        proof {
            let after = sorted.deep_view();
            assert(after =~= before.insert(at as int, text));
            assert(at < before.len() ==> !text_le(before[at as int], text));
            assert forall|a: int, b: int| 0 <= a <= b < after.len() implies text_le(
                #[trigger] after[a],
                #[trigger] after[b],
            ) by {
                lemma_text_le_total(text, text);
                if a == at && b > at {
                    assert(after[b] == before[b - 1]);
                    lemma_text_le_total(before[at as int], text);
                    assert(text_le(before[at as int], before[b - 1]));
                    lemma_text_le_transitive(text, before[at as int], before[b - 1]);
                } else if a < at && b > at {
                    assert(after[a] == before[a]);
                    assert(after[b] == before[b - 1]);
                } else if a < at && b < at {
                    assert(after[a] == before[a]);
                    assert(after[b] == before[b]);
                } else if a > at {
                    assert(after[a] == before[a - 1]);
                    assert(after[b] == before[b - 1]);
                }
            }
            let seen = texts.deep_view().take(i as int);
            let next = texts.deep_view().take(i as int + 1);
            assert(next =~= seen.push(text));
            assert(after.remove(at as int) =~= before);
            vstd::seq_lib::to_multiset_remove(after, at as int);
            broadcast use vstd::seq_lib::group_to_multiset_ensures;

            assert(after.contains(text));
            assert(after.to_multiset() =~= before.to_multiset().insert(text));
        }
        i += 1;
    }
    assert(texts.deep_view().take(i as int) =~= texts.deep_view());
    sorted
}

} // verus!
