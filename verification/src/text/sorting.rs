//! Sorting by text.

use vstd::prelude::*;
use vstd::set_lib::{lemma_int_range, lemma_subset_equality, set_int_range};

use crate::text::chars::{chars_of, views};

verus! {

/// The order of texts: by their first characters that differ; a text comes after
/// its own beginnings.
pub open spec fn text_lt(a: Seq<char>, b: Seq<char>) -> bool
    decreases a.len(),
{
    if b.len() == 0 {
        false
    } else if a.len() == 0 {
        true
    } else if a[0] == b[0] {
        text_lt(a.drop_first(), b.drop_first())
    } else {
        a[0] < b[0]
    }
}

/// `order` lists the indices of `keys` once each, by key; equal keys keep their
/// order.
pub open spec fn stable_order(keys: Seq<Seq<char>>, order: Seq<int>) -> bool {
    &&& order.len() == keys.len()
    &&& forall|i: int| 0 <= i < order.len() ==> 0 <= #[trigger] order[i] < keys.len()
    &&& forall|i: int, j: int|
        0 <= i < j < order.len() ==> comes_before(keys, #[trigger] order[i], #[trigger] order[j])
}

/// The element `a` of `keys` comes before the element `b` when sorted.
pub open spec fn comes_before(keys: Seq<Seq<char>>, a: int, b: int) -> bool {
    text_lt(keys[a], keys[b]) || (!text_lt(keys[b], keys[a]) && a < b)
}

/// `out` is `items` in the order of their keys; items with equal keys keep their
/// order.
pub open spec fn sorted_by<T>(items: Seq<T>, keys: Seq<Seq<char>>, out: Seq<T>) -> bool {
    &&& out.len() == items.len()
    &&& exists|order: Seq<int>|
        #[trigger] stable_order(keys, order) && forall|i: int|
            0 <= i < order.len() ==> out[i] == items[order[i]]
}

/// The order of texts is a strict one.
pub proof fn lemma_text_lt(a: Seq<char>, b: Seq<char>, c: Seq<char>)
    ensures
        !text_lt(a, a),
        text_lt(a, b) ==> !text_lt(b, a),
        text_lt(a, b) && text_lt(b, c) ==> text_lt(a, c),
        !text_lt(a, b) && !text_lt(b, c) ==> !text_lt(a, c),
        !text_lt(a, b) && !text_lt(b, a) ==> a == b,
    decreases a.len(),
{
    if a.len() > 0 {
        let (a1, b1, c1) = (
            a.drop_first(),
            if b.len() > 0 {
                b.drop_first()
            } else {
                b
            },
            if c.len() > 0 {
                c.drop_first()
            } else {
                c
            },
        );
        lemma_text_lt(a1, b1, c1);
        if b.len() > 0 && a[0] == b[0] && a1 == b1 {
            assert(a =~= seq![a[0]] + a1);
            assert(b =~= seq![b[0]] + b1);
        }
    } else if b.len() == 0 {
        assert(a =~= b);
    }
}

/// Whether `a` comes before `b`.
pub fn text_before(a: &str, b: &str) -> (r: bool)
    ensures
        r == text_lt(a@, b@),
{
    let x = chars_of(a);
    let y = chars_of(b);
    let mut i: usize = 0;
    assert(a@.skip(0) =~= a@);
    assert(b@.skip(0) =~= b@);
    while i < x.len() && i < y.len()
        invariant
            x@ == a@,
            y@ == b@,
            i <= x.len(),
            i <= y.len(),
            text_lt(a@.skip(i as int), b@.skip(i as int)) == text_lt(a@, b@),
        decreases x.len() - i,
    {
        assert(a@.skip(i as int)[0] == x@[i as int] && b@.skip(i as int)[0] == y@[i as int]);
        if x[i] != y[i] {
            return x[i] < y[i];
        }
        assert(a@.skip(i as int).drop_first() =~= a@.skip(i + 1));
        assert(b@.skip(i as int).drop_first() =~= b@.skip(i + 1));
        i += 1;
    }
    i < y.len()
}

/// Inserting the next index behind all that come before it keeps the order.
proof fn lemma_insert(keys: Seq<Seq<char>>, order: Seq<int>, pos: int)
    requires
        keys.len() > 0,
        stable_order(keys.drop_last(), order),
        0 <= pos <= order.len(),
        forall|i: int| 0 <= i < pos ==> !text_lt(keys.last(), keys[#[trigger] order[i]]),
        pos < order.len() ==> text_lt(keys.last(), keys[order[pos]]),
    ensures
        stable_order(keys, order.insert(pos, keys.len() - 1)),
{
    let n = keys.len() - 1;
    let less = keys.drop_last();
    let out = order.insert(pos, n);
    assert forall|i: int| 0 <= i < out.len() implies 0 <= #[trigger] out[i] < keys.len() by {
        if i < pos {
            assert(out[i] == order[i]);
        } else if i > pos {
            assert(out[i] == order[i - 1]);
        }
    }
    assert forall|i: int, j: int| 0 <= i < j < out.len() implies comes_before(
        keys,
        #[trigger] out[i],
        #[trigger] out[j],
    ) by {
        let a = if i < pos {
            i
        } else {
            i - 1
        };
        let b = if j < pos {
            j
        } else {
            j - 1
        };
        if i == pos {
            // The new index against one behind it.
            assert(out[j] == order[b]);
            let first = order[pos];
            if b > pos {
                assert(comes_before(less, order[pos], order[b]));
                assert(less[order[pos]] == keys[order[pos]] && less[order[b]] == keys[order[b]]);
            }
            lemma_text_lt(keys[n], keys[first], keys[order[b]]);
            lemma_text_lt(keys[order[b]], keys[first], keys[n]);
        } else if j == pos {
            assert(out[i] == order[a]);
            assert(!text_lt(keys.last(), keys[order[a]]));
            assert(order[a] < n);
        } else {
            assert(out[i] == order[a] && out[j] == order[b]);
            assert(comes_before(less, order[a], order[b]));
            assert(less[order[a]] == keys[order[a]] && less[order[b]] == keys[order[b]]);
        }
    }
}

/// The items in the order of their keys; items with equal keys keep their order.
pub fn sort_by_keys<T>(items: Vec<T>, keys: Vec<String>) -> (r: Vec<T>)
    requires
        items.len() == keys.len(),
    ensures
        sorted_by(items@, views(keys@), r@),
{
    let ghost all = items@;
    let ghost texts = views(keys@);
    let mut out: Vec<T> = Vec::new();
    // The keys of `out`, by their indices.
    let mut placed: Vec<usize> = Vec::new();
    let ghost mut order: Seq<int> = seq![];
    let mut next: usize = 0;
    assert(stable_order(texts.take(0), order));
    for item in it: items.into_iter()
        invariant
            it.seq() == all,
            next == it.index(),
            all.len() == keys.len(),
            texts == views(keys@),
            out.len() == next,
            placed.len() == next,
            stable_order(texts.take(next as int), order),
            forall|i: int| 0 <= i < next ==> #[trigger] placed@[i] == order[i],
            forall|i: int| 0 <= i < next ==> #[trigger] out@[i] == all[order[i]],
    {
        let ghost known = texts.take(next as int);
        let ghost more = texts.take(next + 1);
        let key = keys[next].as_str();
        let mut pos = placed.len();
        proof {
            assert(more.drop_last() =~= known);
            assert(more.last() == texts[next as int]);
        }
        while pos > 0 && text_before(key, keys[placed[pos - 1]].as_str())
            invariant
                pos <= next,
                next < keys.len(),
                placed.len() == next,
                texts == views(keys@),
                key@ == texts[next as int],
                stable_order(texts.take(next as int), order),
                forall|i: int| 0 <= i < next ==> #[trigger] placed@[i] == order[i],
                pos < next ==> text_lt(texts[next as int], texts[order[pos as int]]),
            decreases pos,
        {
            assert(placed@[pos - 1] == order[pos - 1]);
            pos -= 1;
        }
        proof {
            if pos > 0 {
                assert(placed@[pos - 1] == order[pos - 1]);
                assert forall|i: int| 0 <= i < pos implies !text_lt(
                    more.last(),
                    more[#[trigger] order[i]],
                ) by {
                    if i < pos - 1 {
                        assert(comes_before(known, order[i], order[pos - 1]));
                        assert(known[order[i]] == texts[order[i]]);
                        assert(known[order[pos - 1]] == texts[order[pos - 1]]);
                        lemma_text_lt(
                            texts[next as int],
                            texts[order[pos - 1]],
                            texts[order[i]],
                        );
                        lemma_text_lt(
                            texts[order[i]],
                            texts[order[pos - 1]],
                            texts[next as int],
                        );
                    }
                }
            }
            lemma_insert(more, order, pos as int);
        }
        out.insert(pos, item);
        placed.insert(pos, next);
        proof {
            let before = order;
            order = order.insert(pos as int, next as int);
            assert forall|i: int| 0 <= i < next + 1 implies #[trigger] placed@[i] == order[i] by {
                if i > pos {
                    assert(order[i] == before[i - 1]);
                }
            }
            assert forall|i: int| 0 <= i < next + 1 implies #[trigger] out@[i] == all[order[i]] by {
                if i > pos {
                    assert(order[i] == before[i - 1]);
                }
            }
        }
        next += 1;
    }
    proof {
        assert(texts.take(texts.len() as int) =~= texts);
        assert(stable_order(texts, order));
    }
    out
}

// ---------------------------------------------------------------------------
// Laws

/// One text comes before another if it is a beginning of it, or if its character
/// at the first place where they differ is the smaller.
pub proof fn law_texts_are_ordered_by_characters(a: Seq<char>, b: Seq<char>, n: int)
    requires
        0 <= n <= a.len(),
        n <= b.len(),
        a.take(n) == b.take(n),
    ensures
        n == a.len() ==> (text_lt(a, b) <==> n < b.len()),
        n == b.len() ==> !text_lt(a, b),
        n < a.len() && n < b.len() && a[n] != b[n] ==> (text_lt(a, b) <==> a[n] < b[n]),
    decreases n,
{
    if n > 0 {
        assert(a[0] == a.take(n)[0] && b[0] == b.take(n)[0]);
        let (a1, b1) = (a.drop_first(), b.drop_first());
        assert(a1.take(n - 1) =~= a.take(n).drop_first());
        assert(b1.take(n - 1) =~= b.take(n).drop_first());
        law_texts_are_ordered_by_characters(a1, b1, n - 1);
    }
}

/// Sorting drops and doubles no item. No item comes behind one with a greater
/// key, and items with the same key keep their order.
pub proof fn law_sorting_keeps_every_item<T>(
    items: Seq<T>,
    keys: Seq<Seq<char>>,
    out: Seq<T>,
) -> (order: Seq<int>)
    requires
        items.len() == keys.len(),
        sorted_by(items, keys, out),
    ensures
        out.len() == items.len(),
        order.len() == items.len(),
        forall|i: int|
            0 <= i < order.len() ==> 0 <= #[trigger] order[i] < items.len() && out[i]
                == items[order[i]],
        forall|k: int| 0 <= k < items.len() ==> #[trigger] order.contains(k),
        forall|i: int, j: int|
            0 <= i < j < order.len() ==> {
                &&& !text_lt(keys[#[trigger] order[j]], keys[#[trigger] order[i]])
                &&& keys[order[i]] == keys[order[j]] ==> order[i] < order[j]
            },
{
    let order = choose|order: Seq<int>|
        #[trigger] stable_order(keys, order) && forall|i: int|
            0 <= i < order.len() ==> out[i] == items[order[i]];
    let n = items.len() as int;
    assert forall|i: int, j: int| 0 <= i < j < order.len() implies {
        &&& !text_lt(keys[#[trigger] order[j]], keys[#[trigger] order[i]])
        &&& keys[order[i]] == keys[order[j]] ==> order[i] < order[j]
    } by {
        assert(comes_before(keys, order[i], order[j]));
        lemma_text_lt(keys[order[i]], keys[order[j]], keys[order[i]]);
    }
    assert(order.no_duplicates()) by {
        assert forall|i: int, j: int|
            0 <= i < order.len() && 0 <= j < order.len() && i != j implies order[i] != order[j] by {
            if i < j {
                assert(keys[order[i]] == keys[order[j]] ==> order[i] < order[j]);
            } else {
                assert(keys[order[j]] == keys[order[i]] ==> order[j] < order[i]);
            }
        }
    }
    order.unique_seq_to_set();
    lemma_int_range(0, n);
    let all = set_int_range(0, n);
    assert(order.to_set().subset_of(all)) by {
        assert forall|k: int| order.to_set().contains(k) implies all.contains(k) by {
            let i = choose|i: int| 0 <= i < order.len() && order[i] == k;
            assert(0 <= order[i] < keys.len());
        }
    }
    lemma_subset_equality(order.to_set(), all);
    assert forall|k: int| 0 <= k < items.len() implies #[trigger] order.contains(k) by {
        assert(all.contains(k));
        assert(order.to_set().contains(k));
    }
    order
}

} // verus!
