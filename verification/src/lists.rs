//! Lists: first occurrences, runs and batches.

use crate::index::TextMap;
use vstd::prelude::*;

verus! {

/// The first occurrence of each item, in order.
pub open spec fn unique<T>(items: Seq<T>) -> Seq<T>
    decreases items.len(),
{
    if items.len() == 0 {
        items
    } else {
        let rest = unique(items.drop_last());
        if rest.contains(items.last()) {
            rest
        } else {
            rest.push(items.last())
        }
    }
}

/// `items` in batches of `size`, the last of which may be smaller.
pub open spec fn batches<T>(items: Seq<T>, size: nat) -> Seq<Seq<T>>
    decreases items.len(),
{
    if items.len() == 0 || size == 0 {
        Seq::empty()
    } else if items.len() <= size {
        seq![items]
    } else {
        seq![items.take(size as int)] + batches(items.skip(size as int), size)
    }
}

/// `items` with each run of equal items reduced to one of them.
pub open spec fn dedup<T>(items: Seq<T>) -> Seq<T>
    decreases items.len(),
{
    if items.len() == 0 {
        items
    } else {
        let rest = dedup(items.drop_last());
        if rest.len() > 0 && rest.last() == items.last() {
            rest
        } else {
            rest.push(items.last())
        }
    }
}

/// The views of a list of texts.
pub open spec fn str_views(items: Seq<&str>) -> Seq<Seq<char>> {
    items.map_values(|s: &str| s@)
}

/// The views of batches of texts.
pub open spec fn batch_views(items: Seq<Vec<&str>>) -> Seq<Seq<Seq<char>>> {
    items.map_values(|batch: Vec<&str>| str_views(batch@))
}

/// `unique` keeps every item, once.
pub proof fn law_unique<T>(items: Seq<T>)
    ensures
        unique(items).no_duplicates(),
        forall|x: T| #[trigger] unique(items).contains(x) <==> items.contains(x),
        unique(items).len() <= items.len(),
    decreases items.len(),
{
    if items.len() > 0 {
        let shorter = items.drop_last();
        law_unique(shorter);
        let rest = unique(shorter);
        assert forall|x: T| #[trigger] unique(items).contains(x) <==> items.contains(x) by {
            if items.contains(x) {
                let i = choose|i: int| 0 <= i < items.len() && items[i] == x;
                if i < items.len() - 1 {
                    assert(shorter[i] == x);
                    assert(shorter.contains(x));
                    assert(rest.contains(x));
                    let j = choose|j: int| 0 <= j < rest.len() && rest[j] == x;
                    assert(unique(items)[j] == x);
                } else if !rest.contains(items.last()) {
                    assert(unique(items)[rest.len() as int] == x);
                }
            }
            if unique(items).contains(x) {
                let j = choose|j: int| 0 <= j < unique(items).len() && unique(items)[j] == x;
                if j < rest.len() {
                    assert(rest[j] == x);
                    assert(rest.contains(x));
                    assert(shorter.contains(x));
                    let i = choose|i: int| 0 <= i < shorter.len() && shorter[i] == x;
                    assert(items[i] == x);
                } else {
                    assert(items.last() == x);
                }
            }
        }
    }
}

/// Batches hold the items in order and nothing else, none is empty or larger than `size`, and
/// only the last may be smaller.
pub proof fn law_batches<T>(items: Seq<T>, size: nat)
    requires
        size > 0,
    ensures
        batches(items, size).flatten() == items,
        forall|i: int|
            0 <= i < batches(items, size).len() ==> 0 < (#[trigger] batches(items, size)[i]).len()
                <= size,
        forall|i: int|
            0 <= i < batches(items, size).len() - 1 ==> (#[trigger] batches(items, size)[i]).len()
                == size,
    decreases items.len(),
{
    let all = batches(items, size);
    if items.len() == 0 {
        assert(all.flatten() =~= items);
    } else if items.len() <= size {
        assert(all.drop_first() =~= Seq::<Seq<T>>::empty());
        assert(all.drop_first().flatten() =~= Seq::<T>::empty());
        assert(all.flatten() =~= items);
    } else {
        let rest = batches(items.skip(size as int), size);
        law_batches(items.skip(size as int), size);
        assert(all.drop_first() =~= rest);
        assert(all.flatten() =~= items);
        assert forall|i: int| 0 <= i < all.len() implies 0 < (#[trigger] all[i]).len() <= size by {
            if i > 0 {
                assert(all[i] == rest[i - 1]);
            }
        }
        assert forall|i: int| 0 <= i < all.len() - 1 implies (#[trigger] all[i]).len() == size by {
            if i > 0 {
                assert(all[i] == rest[i - 1]);
            }
        }
    }
}

/// No two neighbours of `dedup` are equal, and it keeps every item.
pub proof fn law_dedup<T>(items: Seq<T>)
    ensures
        forall|i: int| 0 < i < dedup(items).len() ==> dedup(items)[i - 1] != #[trigger] dedup(items)[i],
        forall|x: T| #[trigger] dedup(items).contains(x) <==> items.contains(x),
        items.len() > 0 ==> dedup(items).len() > 0 && dedup(items).last() == items.last(),
    decreases items.len(),
{
    if items.len() > 0 {
        let shorter = items.drop_last();
        law_dedup(shorter);
        let rest = dedup(shorter);
        assert forall|x: T| #[trigger] dedup(items).contains(x) <==> items.contains(x) by {
            if items.contains(x) {
                let i = choose|i: int| 0 <= i < items.len() && items[i] == x;
                if i < items.len() - 1 {
                    assert(shorter[i] == x);
                    assert(shorter.contains(x));
                    assert(rest.contains(x));
                    let j = choose|j: int| 0 <= j < rest.len() && rest[j] == x;
                    assert(dedup(items)[j] == x);
                } else {
                    assert(dedup(items)[dedup(items).len() - 1] == x);
                }
            }
            if dedup(items).contains(x) {
                let j = choose|j: int| 0 <= j < dedup(items).len() && dedup(items)[j] == x;
                if j < rest.len() {
                    assert(rest[j] == x);
                    assert(rest.contains(x));
                    assert(shorter.contains(x));
                    let i = choose|i: int| 0 <= i < shorter.len() && shorter[i] == x;
                    assert(items[i] == x);
                } else {
                    assert(items.last() == x);
                }
            }
        }
    }
}

/// A filter keeps the items that it is asked to keep, and no others.
pub proof fn lemma_filter<T>(s: Seq<T>, keep: spec_fn(T) -> bool)
    ensures
        forall|x: T| #[trigger] s.filter(keep).contains(x) <==> s.contains(x) && keep(x),
        s.no_duplicates() ==> s.filter(keep).no_duplicates(),
    decreases s.len(),
{
    reveal(Seq::filter);
    if s.len() > 0 {
        let shorter = s.drop_last();
        let rest = shorter.filter(keep);
        lemma_filter(shorter, keep);
        assert forall|x: T| #[trigger] s.filter(keep).contains(x) <==> s.contains(x) && keep(x) by {
            if s.filter(keep).contains(x) {
                let k = choose|k: int| 0 <= k < s.filter(keep).len() && s.filter(keep)[k] == x;
                if k < rest.len() {
                    assert(rest[k] == x);
                    assert(rest.contains(x));
                    assert(shorter.contains(x));
                    let j = choose|j: int| 0 <= j < shorter.len() && shorter[j] == x;
                    assert(s[j] == x);
                } else {
                    assert(s[s.len() - 1] == x);
                }
            }
            if s.contains(x) && keep(x) {
                let j = choose|j: int| 0 <= j < s.len() && s[j] == x;
                if j < s.len() - 1 {
                    assert(shorter[j] == x);
                    assert(rest.contains(x));
                    let k = choose|k: int| 0 <= k < rest.len() && rest[k] == x;
                    assert(s.filter(keep)[k] == x);
                } else {
                    assert(s.filter(keep)[s.filter(keep).len() - 1] == x);
                }
            }
        }
        if s.no_duplicates() && keep(s.last()) {
            assert(!rest.contains(s.last())) by {
                if rest.contains(s.last()) {
                    assert(shorter.contains(s.last()));
                    let j = choose|j: int| 0 <= j < shorter.len() && shorter[j] == s.last();
                    assert(s[j] == s[s.len() - 1]);
                }
            }
        }
    }
}

/// The first occurrence of each text, in order.
pub fn unique_texts<'a>(items: &Vec<&'a str>) -> (r: Vec<&'a str>)
    ensures
        str_views(r@) == unique(str_views(items@)),
{
    let mut seen: TextMap<bool> = TextMap::new();
    let mut r: Vec<&'a str> = Vec::new();
    let mut i: usize = 0;
    let ghost all = str_views(items@);
    assert(all.take(0) =~= Seq::<Seq<char>>::empty());
    assert(str_views(r@) =~= Seq::<Seq<char>>::empty());
    while i < items.len()
        invariant
            i <= items@.len(),
            all == str_views(items@),
            str_views(r@) == unique(all.take(i as int)),
            forall|k: Seq<char>| #[trigger]
                seen@.contains_key(k) <==> str_views(r@).contains(k),
        decreases items@.len() - i,
    {
        let item = items[i];
        assert(all.take(i + 1).drop_last() =~= all.take(i as int));
        if !seen.contains(item) {
            let ghost before = r@;
            seen.insert(item.to_owned(), true);
            r.push(item);
            assert(str_views(r@) =~= str_views(before).push(item@));
            assert forall|k: Seq<char>| #[trigger]
                seen@.contains_key(k) <==> str_views(r@).contains(k) by {
                let had = str_views(before);
                if str_views(r@).contains(k) && k != item@ {
                    let j = choose|j: int|
                        0 <= j < str_views(r@).len() && str_views(r@)[j] == k;
                    assert(had[j] == k);
                    assert(had.contains(k));
                }
                if had.contains(k) {
                    let j = choose|j: int| 0 <= j < had.len() && had[j] == k;
                    assert(str_views(r@)[j] == k);
                }
                assert(str_views(r@)[had.len() as int] == item@);
            }
        }
        i += 1;
    }
    assert(all.take(items@.len() as int) =~= all);
    r
}

/// The texts in batches of `size`.
pub fn batch_texts<'a>(items: &Vec<&'a str>, size: usize) -> (r: Vec<Vec<&'a str>>)
    requires
        size > 0,
    ensures
        batch_views(r@) == batches(str_views(items@), size as nat),
{
    let mut r: Vec<Vec<&'a str>> = Vec::new();
    let mut from: usize = 0;
    let ghost all = str_views(items@);
    assert(all.skip(0) =~= all);
    assert(batch_views(r@) =~= Seq::<Seq<Seq<char>>>::empty());
    assert(batch_views(r@) + batches(all, size as nat) =~= batches(all, size as nat));
    while from < items.len()
        invariant
            size > 0,
            from <= items@.len(),
            all == str_views(items@),
            batches(all, size as nat) == batch_views(r@) + batches(
                all.skip(from as int),
                size as nat,
            ),
        decreases items@.len() - from,
    {
        let to: usize = if items.len() - from <= size {
            items.len()
        } else {
            from + size
        };
        let mut batch: Vec<&'a str> = Vec::new();
        let mut k: usize = from;
        while k < to
            invariant
                from <= k <= to <= items@.len(),
                batch@ == items@.subrange(from as int, k as int),
            decreases to - k,
        {
            batch.push(items[k]);
            k += 1;
            assert(batch@ =~= items@.subrange(from as int, k as int));
        }
        let ghost before = batch_views(r@);
        r.push(batch);
        proof {
            let rest = all.skip(from as int);
            let size = size as nat;
            assert(batch_views(r@) =~= before.push(str_views(batch@)));
            if rest.len() <= size {
                assert(str_views(batch@) =~= rest);
                assert(all.skip(to as int) =~= Seq::<Seq<char>>::empty());
            } else {
                assert(str_views(batch@) =~= rest.take(size as int));
                assert(rest.skip(size as int) =~= all.skip(to as int));
            }
            assert(batch_views(r@) + batches(all.skip(to as int), size) =~= before + batches(
                rest,
                size,
            ));
        }
        from = to;
    }
    assert(all.skip(from as int) =~= Seq::<Seq<char>>::empty());
    assert(batch_views(r@) =~= batches(all, size as nat));
    r
}

/// The first occurrences come in order: what follows a list does not change which of its items
/// are kept, or their order.
pub proof fn law_unique_keeps_the_order<T>(front: Seq<T>, back: Seq<T>)
    ensures
        unique(front).is_prefix_of(unique(front + back)),
    decreases back.len(),
{
    if back.len() == 0 {
        assert(front + back =~= front);
    } else {
        assert((front + back).drop_last() =~= front + back.drop_last());
        law_unique_keeps_the_order(front, back.drop_last());
    }
}

/// Runs are reduced in order, and a list without equal neighbours is left as it is.
pub proof fn law_dedup_keeps_the_order<T>(front: Seq<T>, back: Seq<T>)
    ensures
        dedup(front).is_prefix_of(dedup(front + back)),
        (forall|i: int| 0 < i < front.len() ==> front[i - 1] != #[trigger] front[i])
            ==> dedup(front) == front,
    decreases back.len(),
{
    if forall|i: int| 0 < i < front.len() ==> front[i - 1] != #[trigger] front[i] {
        lemma_dedup_of_distinct(front);
    }
    if back.len() == 0 {
        assert(front + back =~= front);
    } else {
        assert((front + back).drop_last() =~= front + back.drop_last());
        law_dedup_keeps_the_order(front, back.drop_last());
    }
}

proof fn lemma_dedup_of_distinct<T>(items: Seq<T>)
    requires
        forall|i: int| 0 < i < items.len() ==> items[i - 1] != #[trigger] items[i],
    ensures
        dedup(items) == items,
    decreases items.len(),
{
    if items.len() > 0 {
        let shorter = items.drop_last();
        assert forall|i: int| 0 < i < shorter.len() implies shorter[i - 1]
            != #[trigger] shorter[i] by {
            assert(items[i - 1] != items[i]);
        }
        lemma_dedup_of_distinct(shorter);
        if shorter.len() > 0 {
            assert(items[items.len() - 2] != items[items.len() - 1]);
        }
        assert(dedup(items) =~= items);
    }
}

} // verus!
