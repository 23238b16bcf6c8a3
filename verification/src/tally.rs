//! Counting how often each value occurs.

use vstd::hash_map::StringHashMap;
use vstd::prelude::*;

verus! {

/// A value and the number of times it was seen.
#[derive(Debug, Clone, PartialEq, Eq)]
pub struct Count {
    pub value: String,
    pub count: usize,
}

impl View for Count {
    type V = (Seq<char>, nat);

    open spec fn view(&self) -> (Seq<char>, nat) {
        (self.value@, self.count as nat)
    }
}

impl DeepView for Count {
    type V = (Seq<char>, nat);

    open spec fn deep_view(&self) -> (Seq<char>, nat) {
        self@
    }
}

/// The values of `keys` without repetition, each where it is first seen.
pub open spec fn distinct(keys: Seq<Seq<char>>) -> Seq<Seq<char>>
    decreases keys.len(),
{
    if keys.len() == 0 {
        Seq::empty()
    } else {
        let seen = distinct(keys.drop_last());
        if seen.contains(keys.last()) {
            seen
        } else {
            seen.push(keys.last())
        }
    }
}

/// How often `value` occurs in `keys`.
pub open spec fn occurrences(keys: Seq<Seq<char>>, value: Seq<char>) -> nat
    decreases keys.len(),
{
    if keys.len() == 0 {
        0
    } else {
        occurrences(keys.drop_last(), value) + if keys.last() == value {
            1nat
        } else {
            0nat
        }
    }
}

/// The tally of `keys`: each distinct value, in the order in which the
/// values are first seen, with the number of keys equal to it.
pub open spec fn tally_of(keys: Seq<Seq<char>>) -> Seq<(Seq<char>, nat)> {
    let found = distinct(keys);
    Seq::new(found.len(), |i: int| (found[i], occurrences(keys, found[i])))
}

/// The sum of the numbers in `counts`.
pub open spec fn total(counts: Seq<(Seq<char>, nat)>) -> nat
    decreases counts.len(),
{
    if counts.len() == 0 {
        0
    } else {
        total(counts.drop_last()) + counts.last().1
    }
}

/// A value is among the distinct ones exactly when it is among the keys; a
/// value that is not among the keys occurs zero times, and none occurs more
/// often than there are keys.
pub proof fn lemma_distinct_contains(keys: Seq<Seq<char>>, value: Seq<char>)
    ensures
        distinct(keys).contains(value) <==> keys.contains(value),
        !keys.contains(value) ==> occurrences(keys, value) == 0,
        occurrences(keys, value) <= keys.len(),
    decreases keys.len(),
{
    if keys.len() > 0 {
        let front = keys.drop_last();
        let seen = distinct(front);
        lemma_distinct_contains(front, value);
        if keys.contains(value) {
            let k = choose|k: int| 0 <= k < keys.len() && keys[k] == value;
            if k < front.len() {
                assert(front[k] == value);
                let d = choose|d: int| 0 <= d < seen.len() && seen[d] == value;
                assert(distinct(keys)[d] == value);
            } else {
                if !seen.contains(value) {
                    assert(distinct(keys)[seen.len() as int] == value);
                }
            }
        }
        if distinct(keys).contains(value) {
            let d = choose|d: int| 0 <= d < distinct(keys).len() && distinct(keys)[d] == value;
            if d < seen.len() {
                assert(seen[d] == value);
                let k = choose|k: int| 0 <= k < front.len() && front[k] == value;
                assert(keys[k] == value);
            } else {
                assert(keys[keys.len() - 1] == value);
            }
        }
        if !keys.contains(value) {
            if front.contains(value) {
                let k = choose|k: int| 0 <= k < front.len() && front[k] == value;
                assert(keys[k] == value);
            }
            assert(keys[keys.len() - 1] != value);
        }
    }
}

/// No value stands twice among the distinct ones.
pub proof fn lemma_distinct_no_duplicates(keys: Seq<Seq<char>>)
    ensures
        distinct(keys).no_duplicates(),
    decreases keys.len(),
{
    if keys.len() > 0 {
        lemma_distinct_no_duplicates(keys.drop_last());
    }
}

/// Replacing an entry changes the sum by the difference of the numbers.
proof fn lemma_total_update(counts: Seq<(Seq<char>, nat)>, i: int, entry: (Seq<char>, nat))
    requires
        0 <= i < counts.len(),
    ensures
        total(counts.update(i, entry)) == total(counts) - counts[i].1 + entry.1,
    decreases counts.len(),
{
    let after = counts.update(i, entry);
    if i == counts.len() - 1 {
        assert(after.drop_last() == counts.drop_last());
    } else {
        assert(after.drop_last() == counts.drop_last().update(i, entry));
        lemma_total_update(counts.drop_last(), i, entry);
    }
}

/// One key more adds one to the number of its value, or adds its value with
/// the number one where it was not seen before.
pub proof fn lemma_tally_step(keys: Seq<Seq<char>>)
    requires
        keys.len() > 0,
    ensures
        ({
            let front = keys.drop_last();
            let key = keys.last();
            let before = tally_of(front);
            if distinct(front).contains(key) {
                let i = distinct(front).index_of(key);
                &&& 0 <= i < before.len()
                &&& before[i].0 == key
                &&& tally_of(keys) == before.update(i, (key, before[i].1 + 1))
            } else {
                tally_of(keys) == before.push((key, 1nat))
            }
        }),
{
    let front = keys.drop_last();
    let key = keys.last();
    let before = tally_of(front);
    lemma_distinct_contains(front, key);
    lemma_distinct_no_duplicates(front);
    if distinct(front).contains(key) {
        let i = distinct(front).index_of(key);
        assert(tally_of(keys) =~= before.update(i, (key, before[i].1 + 1)));
    } else {
        assert(tally_of(keys) =~= before.push((key, 1nat)));
    }
}

/// The numbers of a tally add up to the number of keys.
pub proof fn lemma_tally_total(keys: Seq<Seq<char>>)
    ensures
        total(tally_of(keys)) == keys.len(),
    decreases keys.len(),
{
    if keys.len() == 0 {
        assert(tally_of(keys).len() == 0);
    } else {
        let front = keys.drop_last();
        let key = keys.last();
        let before = tally_of(front);
        lemma_tally_total(front);
        lemma_tally_step(keys);
        if distinct(front).contains(key) {
            let i = distinct(front).index_of(key);
            lemma_total_update(before, i, (key, before[i].1 + 1));
        } else {
            assert(before.push((key, 1nat)).drop_last() == before);
        }
    }
}

/// The tally of `keys`: for each distinct value, in the order in which the
/// values are first seen, the number of keys equal to it. The numbers add up
/// to the number of keys.
pub fn tally(keys: &Vec<&str>) -> (counts: Vec<Count>)
    ensures
        counts.deep_view() == tally_of(keys.deep_view()),
        total(counts.deep_view()) == keys.len(),
{
    let ghost all = keys.deep_view();
    let mut counts: Vec<Count> = Vec::new();
    let mut index: StringHashMap<usize> = StringHashMap::new();
    let mut n: usize = 0;
    assert(all.take(0) == Seq::<Seq<char>>::empty());
    assert(counts.deep_view() =~= tally_of(all.take(0)));
    while n < keys.len()
        invariant
            n <= keys.len(),
            all == keys.deep_view(),
            counts.deep_view() == tally_of(all.take(n as int)),
            forall|k: Seq<char>| #[trigger]
                index@.contains_key(k) <==> distinct(all.take(n as int)).contains(k),
            forall|k: Seq<char>| #[trigger]
                index@.contains_key(k) ==> index@[k] == distinct(all.take(n as int)).index_of(k),
        decreases keys.len() - n,
    {
        let key: &str = keys[n];
        let ghost seen = all.take(n as int);
        let ghost next = all.take(n as int + 1);
        let ghost before = counts.deep_view();
        proof {
            assert(next.drop_last() == seen);
            assert(next.last() == key@);
            lemma_distinct_contains(seen, key@);
            lemma_distinct_no_duplicates(seen);
            lemma_distinct_no_duplicates(next);
            lemma_tally_step(next);
        }
        match index.get(key) {
            Some(at) => {
                let i: usize = *at;
                assert(before[i as int] == counts[i as int]@);
                counts[i].count = counts[i].count + 1;
                assert(counts.deep_view() =~= before.update(
                    i as int,
                    (key@, before[i as int].1 + 1),
                ));
            },
            None => {
                counts.push(Count { value: key.to_owned(), count: 1 });
                index.insert(key.to_owned(), counts.len() - 1);
                proof {
                    assert(counts.deep_view() =~= before.push((key@, 1nat)));
                    assert(distinct(next) == distinct(seen).push(key@));
                    assert forall|k: Seq<char>| #[trigger]
                        index@.contains_key(k) <==> distinct(next).contains(k) by {
                        if distinct(next).contains(k) {
                            let d = choose|d: int|
                                0 <= d < distinct(next).len() && distinct(next)[d] == k;
                            if d < distinct(seen).len() {
                                assert(distinct(seen)[d] == k);
                            }
                        }
                        if k != key@ && distinct(seen).contains(k) {
                            let d = choose|d: int|
                                0 <= d < distinct(seen).len() && distinct(seen)[d] == k;
                            assert(distinct(next)[d] == k);
                        }
                        if k == key@ {
                            assert(distinct(next)[distinct(seen).len() as int] == k);
                        }
                    }
                    assert forall|k: Seq<char>| #[trigger] index@.contains_key(k) implies index@[k]
                        == distinct(next).index_of(k) by {
                        let d = distinct(next).index_of(k);
                        assert(distinct(next).contains(k));
                        assert(distinct(next)[d] == k);
                        if k == key@ {
                            assert(distinct(next)[distinct(seen).len() as int] == k);
                        } else {
                            let e = distinct(seen).index_of(k);
                            assert(distinct(seen).contains(k));
                            assert(distinct(next)[e] == k);
                        }
                    }
                }
            },
        }
        n += 1;
    }
    proof {
        assert(all.take(n as int) == all);
        lemma_tally_total(all);
    }
    counts
}

} // verus!
