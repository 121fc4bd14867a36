//! The result set: repository URLs without repetition, in the order in which
//! they were first inserted, held in a `LinkedHashSet`.

use linked_hash_set::LinkedHashSet;
use vstd::prelude::*;

verus! {

/// The set type of the `linked_hash_set` crate. Nothing inside it is
/// visible here: what it holds goes by the name `set_items`.
#[verifier::external_type_specification]
#[verifier::external_body]
#[verifier::reject_recursive_types(T)]
#[verifier::reject_recursive_types(S)]
pub struct ExLinkedHashSet<T, S>(LinkedHashSet<T, S>);

/// The strings that a set holds, oldest insertion first. This is a name
/// without a definition: the contracts of the five functions below say what
/// the set's methods do to it, and those contracts are taken on trust.
pub uninterp spec fn set_items(set: LinkedHashSet<String>) -> Seq<Seq<char>>;

/// The test that every string but `value` passes.
pub open spec fn other_than(value: Seq<char>) -> spec_fn(Seq<char>) -> bool {
    |u: Seq<char>| u != value
}

/// `s` with `value` taken out wherever it stands, and put at the end.
pub open spec fn moved_to_end(s: Seq<Seq<char>>, value: Seq<char>) -> Seq<Seq<char>> {
    s.filter(other_than(value)).push(value)
}

/// Calls `LinkedHashSet::new`. Taken on trust: the new set holds nothing.
#[verifier::external_body]
fn set_new() -> (set: LinkedHashSet<String>)
    ensures
        set_items(set) == Seq::<Seq<char>>::empty(),
{
    LinkedHashSet::new()
}

/// Calls `LinkedHashSet::len`. Taken on trust: it returns the number of
/// strings held.
#[verifier::external_body]
fn set_len(set: &LinkedHashSet<String>) -> (n: usize)
    ensures
        n == set_items(*set).len(),
{
    set.len()
}

/// Calls `LinkedHashSet::contains`. Taken on trust: it returns whether a
/// string equal to `value` is held.
#[verifier::external_body]
fn set_contains(set: &LinkedHashSet<String>, value: &str) -> (found: bool)
    ensures
        found == set_items(*set).contains(value@),
{
    set.contains(value)
}

/// Calls `LinkedHashSet::insert`. Taken on trust: the value goes to the end of
/// the ordering whether it was held before or not, and a value that was held
/// gives up its earlier place; the others keep their order. It returns
/// whether the value is new, and it does not panic.
#[verifier::external_body]
fn set_insert(set: &mut LinkedHashSet<String>, value: String) -> (fresh: bool)
    ensures
        fresh == !set_items(*old(set)).contains(value@),
        set_items(*final(set)) == moved_to_end(set_items(*old(set)), value@),
    no_unwind
{
    set.insert(value)
}

/// Walks `LinkedHashSet::iter` and copies each string. Taken on trust: the
/// walk goes through the strings held, oldest insertion first.
#[verifier::external_body]
fn set_to_vec(set: &LinkedHashSet<String>) -> (items: Vec<String>)
    ensures
        items.deep_view() == set_items(*set),
{
    set.iter().cloned().collect()
}

/// Removing what does not occur removes nothing.
proof fn lemma_filter_all_kept(s: Seq<Seq<char>>, pred: spec_fn(Seq<char>) -> bool)
    requires
        forall|i: int| 0 <= i < s.len() ==> pred(s[i]),
    ensures
        s.filter(pred) == s,
    decreases s.len(),
{
    reveal(Seq::filter);
    if s.len() > 0 {
        lemma_filter_all_kept(s.drop_last(), pred);
        assert(s.drop_last().push(s.last()) =~= s);
    }
}

/// What is left of a sequence without repetition has none either, and it
/// holds nothing but what was there.
proof fn lemma_filter_distinct(s: Seq<Seq<char>>, pred: spec_fn(Seq<char>) -> bool)
    requires
        s.no_duplicates(),
    ensures
        s.filter(pred).no_duplicates(),
        forall|i: int|
            0 <= i < s.filter(pred).len() ==> s.contains(#[trigger] s.filter(pred)[i]) && pred(
                s.filter(pred)[i],
            ),
    decreases s.len(),
{
    reveal(Seq::filter);
    if s.len() > 0 {
        let front = s.drop_last();
        lemma_filter_distinct(front, pred);
        let kept = front.filter(pred);
        assert forall|i: int| 0 <= i < kept.len() implies s.contains(#[trigger] kept[i]) by {
            assert(front.contains(kept[i]));
            let j = choose|j: int| 0 <= j < front.len() && front[j] == kept[i];
            assert(s[j] == kept[i]);
        }
        if pred(s.last()) {
            let out = kept.push(s.last());
            assert(s[s.len() - 1] == s.last());
            assert forall|i: int, j: int| 0 <= i < out.len() && 0 <= j < out.len() && i != j implies out[i] != out[j] by {
                if i < kept.len() && j < kept.len() {
                } else {
                    let k = if i < kept.len() { i } else { j };
                    assert(front.contains(kept[k]));
                    let m = choose|m: int| 0 <= m < front.len() && front[m] == kept[k];
                    assert(s[m] != s[s.len() - 1]);
                }
            }
            assert forall|i: int| 0 <= i < out.len() implies s.contains(#[trigger] out[i]) && pred(out[i]) by {
                if i < kept.len() {
                    assert(out[i] == kept[i]);
                }
            }
        }
    }
}

/// Moving a value to the end of a sequence without repetition leaves none.
proof fn lemma_move_to_end_distinct(s: Seq<Seq<char>>, value: Seq<char>)
    requires
        s.no_duplicates(),
    ensures
        moved_to_end(s, value).no_duplicates(),
        !s.contains(value) ==> moved_to_end(s, value) == s.push(value),
{
    let others = other_than(value);
    lemma_filter_distinct(s, others);
    if !s.contains(value) {
        lemma_filter_all_kept(s, others);
    }
    let kept = s.filter(others);
    let out = kept.push(value);
    assert forall|i: int, j: int| 0 <= i < out.len() && 0 <= j < out.len() && i != j implies out[i] != out[j] by {
        if i < kept.len() {
            assert(others(kept[i]));
        }
        if j < kept.len() {
            assert(others(kept[j]));
        }
    }
}

/// An ordered set of repository URLs: no URL is held twice, and the URLs
/// stand in the order in which they were first inserted.
pub struct UrlSet {
    urls: LinkedHashSet<String>,
}

impl View for UrlSet {
    type V = Seq<Seq<char>>;

    /// The URLs held, oldest insertion first.
    closed spec fn view(&self) -> Seq<Seq<char>> {
        set_items(self.urls)
    }
}

impl UrlSet {
    #[verifier::type_invariant]
    spec fn distinct(&self) -> bool {
        set_items(self.urls).no_duplicates()
    }

    /// The empty set.
    pub fn new() -> (set: UrlSet)
        ensures
            set@ == Seq::<Seq<char>>::empty(),
    {
        UrlSet { urls: set_new() }
    }

    /// The number of URLs held.
    pub fn len(&self) -> (n: usize)
        ensures
            n == self@.len(),
            self@.no_duplicates(),
    {
        proof {
            use_type_invariant(self);
        }
        set_len(&self.urls)
    }

    /// Whether `url` is held.
    pub fn contains(&self, url: &str) -> (found: bool)
        ensures
            found == self@.contains(url@),
    {
        set_contains(&self.urls, url)
    }

    /// Puts `url` at the end of the ordering and says whether it is new. A
    /// URL that was held already gives up its earlier place.
    pub fn insert(&mut self, url: String) -> (fresh: bool)
        ensures
            fresh == !old(self)@.contains(url@),
            final(self)@ == moved_to_end(old(self)@, url@),
            fresh ==> final(self)@ == old(self)@.push(url@),
            final(self)@.no_duplicates(),
    {
        proof {
            use_type_invariant(&*self);
            lemma_move_to_end_distinct(self@, url@);
        }
        let fresh = set_insert(&mut self.urls, url);
        fresh
    }

    /// The URLs held, each copied, oldest insertion first.
    pub fn to_vec(&self) -> (urls: Vec<String>)
        ensures
            urls.deep_view() == self@,
            self@.no_duplicates(),
    {
        proof {
            use_type_invariant(self);
        }
        set_to_vec(&self.urls)
    }
}

} // verus!
