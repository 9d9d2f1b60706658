//! The order of texts, character by character, and the sort of a list of
//! texts into that order.
//!
//! Two texts compare at their first differing character, by the number of that
//! character; a text that runs out first comes first. The standard library
//! orders its strings by their UTF-8 bytes, and UTF-8 keeps the order of the
//! numbers of the characters, so the two orders agree.

use vstd::prelude::*;

verus! {

broadcast use vstd::seq_lib::group_to_multiset_ensures;

/// True when the first text comes before the second one.
pub open spec fn text_lt(a: Seq<char>, b: Seq<char>) -> bool
    decreases a.len(),
{
    if a.len() == 0 {
        b.len() > 0
    } else if b.len() == 0 {
        false
    } else if a[0] != b[0] {
        (a[0] as u32) < (b[0] as u32)
    } else {
        text_lt(a.drop_first(), b.drop_first())
    }
}

/// No text comes before itself, and of two texts at most one comes first.
pub proof fn lemma_text_lt_asymmetric(a: Seq<char>, b: Seq<char>)
    ensures
        !(text_lt(a, b) && text_lt(b, a)),
    decreases a.len(),
{
    if a.len() > 0 && b.len() > 0 && a[0] == b[0] {
        lemma_text_lt_asymmetric(a.drop_first(), b.drop_first());
    }
}

/// The order of texts is transitive.
pub proof fn lemma_text_lt_transitive(a: Seq<char>, b: Seq<char>, c: Seq<char>)
    requires
        text_lt(a, b),
        text_lt(b, c),
    ensures
        text_lt(a, c),
    decreases a.len(),
{
    if a.len() > 0 && b.len() > 0 && c.len() > 0 && a[0] == b[0] && b[0] == c[0] {
        lemma_text_lt_transitive(a.drop_first(), b.drop_first(), c.drop_first());
    }
}

/// Every text of the list stands at or after the texts before it.
pub open spec fn sorted_texts(s: Seq<Seq<char>>) -> bool {
    forall|i: int, j: int| 0 <= i < j < s.len() ==> !text_lt(#[trigger] s[j], #[trigger] s[i])
}

/// The views of a list of strings.
pub open spec fn views(v: Seq<String>) -> Seq<Seq<char>> {
    v.map_values(|s: String| s@)
}

/// True when the first text comes before the second one.
pub fn text_before(a: &str, b: &str) -> (r: bool)
    ensures
        r == text_lt(a@, b@),
{
    let la = a.unicode_len();
    let lb = b.unicode_len();
    let mut i: usize = 0;
    proof {
        assert(a@.subrange(0, la as int) =~= a@);
        assert(b@.subrange(0, lb as int) =~= b@);
    }
    while i < la && i < lb
        invariant
            la == a@.len(),
            lb == b@.len(),
            0 <= i <= la,
            i <= lb,
            text_lt(a@, b@) == text_lt(a@.subrange(i as int, la as int), b@.subrange(i as int, lb as int)),
        decreases la - i,
    {
        let ca = a.get_char(i);
        let cb = b.get_char(i);
        proof {
            let sa = a@.subrange(i as int, la as int);
            let sb = b@.subrange(i as int, lb as int);
            assert(sa[0] == ca);
            assert(sb[0] == cb);
            assert(sa.drop_first() =~= a@.subrange(i + 1, la as int));
            assert(sb.drop_first() =~= b@.subrange(i + 1, lb as int));
        }
        if ca != cb {
            return (ca as u32) < (cb as u32);
        }
        i = i + 1;
    }
    i == la && i < lb
}

/// Sorts a list of strings into the order of texts.
///
/// The sort keeps every string, and texts that compare equal are one text, so
/// the answer is the one sorted arrangement of the list.
pub fn sort_texts(items: Vec<String>) -> (sorted: Vec<String>)
    ensures
        sorted_texts(views(sorted@)),
        views(sorted@).to_multiset() == views(items@).to_multiset(),
        sorted@.len() == items@.len(),
{
    let mut sorted: Vec<String> = Vec::new();
    let mut k: usize = 0;
    while k < items.len()
        invariant
            0 <= k <= items@.len(),
            sorted_texts(views(sorted@)),
            views(sorted@).to_multiset() == views(items@.subrange(0, k as int)).to_multiset(),
            sorted@.len() == k,
        decreases items@.len() - k,
    {
        let x = items[k].clone();
        let mut p: usize = 0;
        while p < sorted.len() && !text_before(x.as_str(), sorted[p].as_str())
            invariant
                0 <= p <= sorted@.len(),
                sorted_texts(views(sorted@)),
                forall|q: int| 0 <= q < p ==> !text_lt(x@, #[trigger] views(sorted@)[q]),
            decreases sorted@.len() - p,
        {
            p = p + 1;
        }
        let ghost old_view = views(sorted@);
        proof {
            if p < sorted@.len() {
                assert(text_lt(x@, old_view[p as int]));
            }
        }
        sorted.insert(p, x);
        proof {
            let new_view = views(sorted@);
            assert(new_view =~= old_view.insert(p as int, x@));
            assert forall|i: int, j: int| 0 <= i < j < new_view.len() implies !text_lt(
                #[trigger] new_view[j],
                #[trigger] new_view[i],
            ) by {
                if j < p {
                    assert(new_view[i] == old_view[i] && new_view[j] == old_view[j]);
                } else if j == p {
                    assert(new_view[i] == old_view[i]);
                    assert(!text_lt(x@, old_view[i]));
                } else if i > p {
                    assert(new_view[i] == old_view[i - 1] && new_view[j] == old_view[j - 1]);
                } else if i == p {
                    assert(new_view[j] == old_view[j - 1]);
                    lemma_text_lt_asymmetric(old_view[p as int], old_view[p as int]);
                    if j - 1 > p {
                        assert(!text_lt(old_view[j - 1], old_view[p as int]));
                    }
                    if text_lt(old_view[j - 1], x@) {
                        lemma_text_lt_transitive(old_view[j - 1], x@, old_view[p as int]);
                    }
                } else {
                    assert(new_view[i] == old_view[i] && new_view[j] == old_view[j - 1]);
                }
            }
            assert(items@.subrange(0, k + 1) =~= items@.subrange(0, k as int).push(items@[k as int]));
            assert(views(items@.subrange(0, k + 1)) =~= views(items@.subrange(0, k as int)).push(x@));
            vstd::seq_lib::to_multiset_insert(old_view, p as int, x@);
            vstd::seq_lib::to_multiset_build(views(items@.subrange(0, k as int)), x@);
        }
        k = k + 1;
    }
    proof {
        assert(items@.subrange(0, items@.len() as int) =~= items@);
    }
    sorted
}

} // verus!
