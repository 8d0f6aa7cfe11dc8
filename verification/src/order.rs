//! Lists in order.

use vstd::prelude::*;
use vstd::relations::*;
use vstd::seq_lib::*;
use vstd::string::*;

use crate::model::{text_less, text_less_irreflexive, text_less_total, text_less_transitive};

verus! {

// -------------------------------------------------------------------- numbers
pub open spec fn number_order() -> spec_fn(u64, u64) -> bool {
    |a: u64, b: u64| a <= b
}

/// Numbers, smallest first.
pub open spec fn ordered(list: Seq<u64>) -> Seq<u64> {
    list.sort_by(number_order())
}

/// `<[u64]>::sort`: the same numbers, each as often, smallest first.
#[verifier::external_body]
fn sort_numbers(list: &mut Vec<u64>)
    ensures
        sorted_by(final(list)@, number_order()),
        final(list)@.to_multiset() == old(list)@.to_multiset(),
{
    list.sort()
}

pub proof fn ordered_is_sorted(list: Seq<u64>)
    ensures
        sorted_by(ordered(list), number_order()),
        ordered(list).to_multiset() == list.to_multiset(),
        ordered(list).len() == list.len(),
{
    list.lemma_sort_by_ensures(number_order());
    broadcast use group_to_multiset_ensures;

    assert(ordered(list).to_multiset().len() == ordered(list).len());
    assert(list.to_multiset().len() == list.len());
}

/// Puts numbers in order.
pub fn sort(list: &mut Vec<u64>)
    ensures
        final(list)@ == ordered(old(list)@),
{
    let ghost before = list@;
    sort_numbers(list);
    proof {
        ordered_is_sorted(before);
        lemma_sorted_unique(list@, ordered(before), number_order());
    }
}

// ---------------------------------------------------------------------- texts
pub open spec fn text_order() -> spec_fn(Seq<char>, Seq<char>) -> bool {
    |a: Seq<char>, b: Seq<char>| !text_less(b, a)
}

/// Texts, first in order first.
pub open spec fn ordered_texts(list: Seq<Seq<char>>) -> Seq<Seq<char>> {
    list.sort_by(text_order())
}

pub open spec fn texts_view(list: Seq<String>) -> Seq<Seq<char>> {
    list.map_values(|text: String| text@)
}

/// `<[String]>::sort`: the same texts, each as often, in the order of strings.
#[verifier::external_body]
fn sort_strings(list: &mut Vec<String>)
    ensures
        sorted_by(texts_view(final(list)@), text_order()),
        texts_view(final(list)@).to_multiset() == texts_view(old(list)@).to_multiset(),
{
    list.sort()
}

proof fn text_order_is_total()
    ensures
        total_ordering(text_order()),
{
    let order = text_order();
    assert forall|a: Seq<char>| #[trigger] order(a, a) by {
        text_less_irreflexive(a);
    }
    assert forall|a: Seq<char>, b: Seq<char>|
        #[trigger] order(a, b) && #[trigger] order(b, a) implies a == b by {
        text_less_total(a, b);
    }
    assert forall|a: Seq<char>, b: Seq<char>| #[trigger] order(a, b) || order(b, a) by {
        if text_less(a, b) && text_less(b, a) {
            text_less_transitive(a, b, a);
            text_less_irreflexive(a);
        }
    }
    assert forall|a: Seq<char>, b: Seq<char>, c: Seq<char>|
        #[trigger] order(a, b) && #[trigger] order(b, c) implies order(a, c) by {
        if text_less(c, a) {
            text_less_total(a, b);
            text_less_total(b, c);
            if a == b {
            } else if b == c {
            } else {
                text_less_transitive(c, a, b);
            }
        }
    }
}

pub proof fn ordered_texts_are_sorted(list: Seq<Seq<char>>)
    ensures
        sorted_by(ordered_texts(list), text_order()),
        ordered_texts(list).to_multiset() == list.to_multiset(),
        ordered_texts(list).len() == list.len(),
{
    text_order_is_total();
    list.lemma_sort_by_ensures(text_order());
    broadcast use group_to_multiset_ensures;

    assert(ordered_texts(list).to_multiset().len() == ordered_texts(list).len());
    assert(list.to_multiset().len() == list.len());
}

/// Puts texts in order.
pub fn sort_texts(list: &mut Vec<String>)
    ensures
        texts_view(final(list)@) == ordered_texts(texts_view(old(list)@)),
{
    let ghost before = texts_view(list@);
    sort_strings(list);
    proof {
        text_order_is_total();
        ordered_texts_are_sorted(before);
        lemma_sorted_unique(texts_view(list@), ordered_texts(before), text_order());
    }
}

/// The order of texts does not depend on how they are listed.
pub proof fn same_texts_same_order(a: Seq<Seq<char>>, b: Seq<Seq<char>>)
    requires
        a.to_multiset() == b.to_multiset(),
    ensures
        ordered_texts(a) == ordered_texts(b),
{
    text_order_is_total();
    ordered_texts_are_sorted(a);
    ordered_texts_are_sorted(b);
    lemma_sorted_unique(ordered_texts(a), ordered_texts(b), text_order());
}

/// Numbers in order go from the smallest to the largest, and are the same numbers, each as
/// often.
pub proof fn numbers_in_order_rise(list: Seq<u64>, i: int, j: int)
    requires
        0 <= i <= j < list.len(),
    ensures
        ordered(list).len() == list.len(),
        ordered(list)[i] <= ordered(list)[j],
        ordered(list).to_multiset() == list.to_multiset(),
{
    ordered_is_sorted(list);
    let sorted = ordered(list);
    if i < j {
        assert((number_order())(sorted[i], sorted[j]));
    }
}

/// Texts in order never come behind one that they come before, and are the same texts, each
/// as often.
pub proof fn texts_in_order_rise(list: Seq<Seq<char>>, i: int, j: int)
    requires
        0 <= i < j < list.len(),
    ensures
        ordered_texts(list).len() == list.len(),
        !text_less(ordered_texts(list)[j], ordered_texts(list)[i]),
        ordered_texts(list).to_multiset() == list.to_multiset(),
{
    ordered_texts_are_sorted(list);
    let sorted = ordered_texts(list);
    assert((text_order())(sorted[i], sorted[j]));
}

} // verus!
