//! Why a limited list of samples is fair to its classes.

use crate::samples::{
    all_positions, are_class_positions, balanced_positions, class_buckets, class_size,
    is_class_count, is_fair_limit, labels_of, lemma_round_picks_members, lemma_round_robin_members,
    picked, positions_of, round_picks, round_robin, taken_of, ImageSample,
};
use vstd::prelude::*;
use vstd::seq_lib::*;

verus! {

/// The labels at the given positions.
pub open spec fn labels_at(labels: Seq<usize>, positions: Seq<usize>) -> Seq<usize> {
    positions.map_values(|p: usize| labels[p as int])
}

/// How often a label occurs in a list.
pub open spec fn occurrences(labels: Seq<usize>, label: usize) -> nat {
    labels.to_multiset().count(label)
}

proof fn lemma_push_occurrences(labels: Seq<usize>, last: usize, label: usize)
    ensures
        occurrences(labels.push(last), label) == occurrences(labels, label) + if last == label {
            1nat
        } else {
            0
        },
{
    labels.to_multiset_ensures();
}

proof fn lemma_empty_occurrences(label: usize)
    ensures
        occurrences(Seq::empty(), label) == 0,
{
    let none = Seq::<usize>::empty();
    none.to_multiset_ensures();
    assert(!none.contains(label));
}

/// Of a class the picks of one round hold one member, where the class has its turn and one left.
proof fn lemma_round_labels(
    buckets: Seq<Seq<usize>>,
    labels: Seq<usize>,
    round: int,
    class: nat,
    label: usize,
)
    requires
        are_class_positions(buckets, labels),
        class <= buckets.len() <= usize::MAX,
        round >= 0,
    ensures
        occurrences(labels_at(labels, round_picks(buckets, round, class)), label) == if label
            < class && round < buckets[label as int].len() {
            1nat
        } else {
            0
        },
    decreases class,
{
    if class == 0 {
        assert(labels_at(labels, round_picks(buckets, round, class)) =~= Seq::empty());
        lemma_empty_occurrences(label);
    } else {
        lemma_round_labels(buckets, labels, round, (class - 1) as nat, label);
        let earlier = round_picks(buckets, round, (class - 1) as nat);
        let bucket = buckets[class - 1];
        if round < bucket.len() {
            let x = bucket[round];
            assert(bucket.contains(x));
            assert(labels[x as int] == class - 1);
            assert(labels_at(labels, earlier.push(x)) =~= labels_at(labels, earlier).push(
                labels[x as int],
            ));
            lemma_push_occurrences(labels_at(labels, earlier), labels[x as int], label);
        }
    }
}

/// Of a class all rounds together hold one member per round, as far as it has any.
proof fn lemma_rounds_labels(
    buckets: Seq<Seq<usize>>,
    labels: Seq<usize>,
    rounds: nat,
    label: usize,
)
    requires
        are_class_positions(buckets, labels),
        buckets.len() <= usize::MAX,
    ensures
        occurrences(labels_at(labels, round_robin(buckets, rounds)), label) == if label
            < buckets.len() {
            vstd::math::min(buckets[label as int].len() as int, rounds as int)
        } else {
            0
        },
    decreases rounds,
{
    if rounds == 0 {
        assert(labels_at(labels, round_robin(buckets, rounds)) =~= Seq::empty());
        lemma_empty_occurrences(label);
    } else {
        let m = (rounds - 1) as nat;
        lemma_rounds_labels(buckets, labels, m, label);
        lemma_round_labels(buckets, labels, rounds - 1, buckets.len(), label);
        let earlier = round_robin(buckets, m);
        let picks = round_picks(buckets, rounds - 1, buckets.len());
        assert(labels_at(labels, earlier + picks) =~= labels_at(labels, earlier) + labels_at(
            labels,
            picks,
        ));
        lemma_multiset_commutative(labels_at(labels, earlier), labels_at(labels, picks));
    }
}

proof fn lemma_partial_labels(
    buckets: Seq<Seq<usize>>,
    labels: Seq<usize>,
    round: nat,
    class: nat,
    label: usize,
)
    requires
        are_class_positions(buckets, labels),
        class <= buckets.len() <= usize::MAX,
    ensures
        occurrences(
            labels_at(
                labels,
                round_robin(buckets, round) + round_picks(buckets, round as int, class),
            ),
            label,
        ) == if label < buckets.len() {
            taken_of(
                buckets[label as int].len() as int,
                label as int,
                round as int,
                class as int,
            )
        } else {
            0
        },
{
    lemma_rounds_labels(buckets, labels, round, label);
    lemma_round_labels(buckets, labels, round as int, class, label);
    let earlier = round_robin(buckets, round);
    let picks = round_picks(buckets, round as int, class);
    assert(labels_at(labels, earlier + picks) =~= labels_at(labels, earlier) + labels_at(
        labels,
        picks,
    ));
    lemma_multiset_commutative(labels_at(labels, earlier), labels_at(labels, picks));
}

proof fn lemma_round_picks_unique(
    buckets: Seq<Seq<usize>>,
    labels: Seq<usize>,
    round: int,
    class: nat,
)
    requires
        are_class_positions(buckets, labels),
        class <= buckets.len(),
        round >= 0,
    ensures
        round_picks(buckets, round, class).no_duplicates(),
    decreases class,
{
    if class > 0 {
        lemma_round_picks_unique(buckets, labels, round, (class - 1) as nat);
        let earlier = round_picks(buckets, round, (class - 1) as nat);
        let bucket = buckets[class - 1];
        if round < bucket.len() {
            let x = bucket[round];
            assert(bucket.contains(x));
            lemma_round_picks_members(buckets, round, (class - 1) as nat, x);
            if earlier.contains(x) {
                let c = choose|c: int|
                    0 <= c < class - 1 && round < (#[trigger] buckets[c]).len()
                        && buckets[c][round] == x;
                assert(buckets[c].contains(x));
            }
            assert forall|i: int, j: int|
                0 <= i < earlier.len() + 1 && 0 <= j < earlier.len() + 1 && i
                    != j implies earlier.push(x)[i] != earlier.push(x)[j] by {
                assert(i < earlier.len() ==> earlier.contains(earlier[i]));
                assert(j < earlier.len() ==> earlier.contains(earlier[j]));
            }
        }
    }
}

proof fn lemma_round_robin_unique(buckets: Seq<Seq<usize>>, labels: Seq<usize>, rounds: nat)
    requires
        are_class_positions(buckets, labels),
    ensures
        round_robin(buckets, rounds).no_duplicates(),
    decreases rounds,
{
    if rounds > 0 {
        let m = (rounds - 1) as nat;
        lemma_round_robin_unique(buckets, labels, m);
        lemma_round_picks_unique(buckets, labels, rounds - 1, buckets.len());
        let earlier = round_robin(buckets, m);
        let picks = round_picks(buckets, rounds - 1, buckets.len());
        assert forall|i: int, j: int| 0 <= i < earlier.len() && 0 <= j < picks.len() implies earlier[i]
            != picks[j] by {
            let x = picks[j];
            if earlier[i] == x {
                assert(earlier.contains(x) && picks.contains(x));
                lemma_round_robin_members(buckets, m, x);
                lemma_round_picks_members(buckets, rounds - 1, buckets.len(), x);
                let (a, k) = choose|a: int, k: int|
                    0 <= a < buckets.len() && 0 <= k < buckets[a].len() && k < m
                        && #[trigger] buckets[a][k] == x;
                let b = choose|b: int|
                    0 <= b < buckets.len() && rounds - 1 < (#[trigger] buckets[b]).len()
                        && buckets[b][rounds - 1] == x;
                assert(buckets[a].contains(x) && buckets[b].contains(x));
                assert(a == b);
            }
        }
        assert(round_robin(buckets, rounds).no_duplicates());
    }
}

/// Positions without repetition are no more than there are.
proof fn lemma_unique_positions_fit(positions: Seq<usize>, n: nat)
    requires
        n <= usize::MAX,
        positions.no_duplicates(),
        forall|k: int| 0 <= k < positions.len() ==> (#[trigger] positions[k]) < n,
    ensures
        positions.len() <= n,
        (forall|x: usize| x < n ==> #[trigger] positions.contains(x)) ==> positions.len() == n,
{
    broadcast use {vstd::set::group_set_axioms, seq_to_set_is_finite};

    let whole = all_positions(n);
    assert(whole.no_duplicates());
    whole.unique_seq_to_set();
    positions.unique_seq_to_set();
    assert forall|x: usize| positions.to_set().contains(x) implies whole.to_set().contains(x) by {
        let k = choose|k: int| 0 <= k < positions.len() && positions[k] == x;
        assert(whole[x as int] == x);
    }
    vstd::set_lib::lemma_len_subset(positions.to_set(), whole.to_set());
    if forall|x: usize| x < n ==> #[trigger] positions.contains(x) {
        assert forall|x: usize| whole.to_set().contains(x) implies positions.to_set().contains(
            x,
        ) by {
            let k = choose|k: int| 0 <= k < whole.len() && whole[k] == x;
            assert(x < n);
            assert(positions.contains(x));
        }
        assert(positions.to_set() =~= whole.to_set());
    }
}

proof fn lemma_buckets_fit(buckets: Seq<Seq<usize>>, labels: Seq<usize>, c: int)
    requires
        are_class_positions(buckets, labels),
        labels.len() <= usize::MAX,
        0 <= c < buckets.len(),
    ensures
        buckets[c].len() <= labels.len(),
{
    assert forall|k: int| 0 <= k < buckets[c].len() implies (#[trigger] buckets[c][k])
        < labels.len() by {
        assert(buckets[c].contains(buckets[c][k]));
    }
    lemma_unique_positions_fit(buckets[c], labels.len());
}

/// As many rounds as there are samples take every sample once.
proof fn lemma_all_are_taken(buckets: Seq<Seq<usize>>, labels: Seq<usize>)
    requires
        are_class_positions(buckets, labels),
        labels.len() <= usize::MAX,
    ensures
        ({
            let all = round_robin(buckets, labels.len());
            &&& all.len() == labels.len()
            &&& all.no_duplicates()
            &&& forall|k: int| 0 <= k < all.len() ==> (#[trigger] all[k]) < labels.len()
        }),
{
    let all = round_robin(buckets, labels.len());
    lemma_round_robin_unique(buckets, labels, labels.len());
    assert forall|k: int| 0 <= k < all.len() implies (#[trigger] all[k]) < labels.len() by {
        assert(all.contains(all[k]));
        lemma_round_robin_members(buckets, labels.len(), all[k]);
        let (c, i) = choose|c: int, i: int|
            0 <= c < buckets.len() && 0 <= i < buckets[c].len() && i < labels.len()
                && #[trigger] buckets[c][i] == all[k];
        assert(buckets[c].contains(all[k]));
    }
    assert forall|x: usize| x < labels.len() implies #[trigger] all.contains(x) by {
        let c = labels[x as int] as int;
        assert(buckets[c].contains(x));
        let i = choose|i: int| 0 <= i < buckets[c].len() && buckets[c][i] == x;
        lemma_buckets_fit(buckets, labels, c);
        lemma_round_robin_members(buckets, labels.len(), x);
        assert(buckets[c][i] == x);
    }
    lemma_unique_positions_fit(all, labels.len());
}

/// Every beginning of the picks of a round ends after some class.
proof fn lemma_picks_prefix_exists(buckets: Seq<Seq<usize>>, round: int, class: nat, m: int) -> (c:
    nat)
    requires
        class <= buckets.len(),
        0 <= m <= round_picks(buckets, round, class).len(),
    ensures
        c <= class,
        round_picks(buckets, round, class).take(m) == round_picks(buckets, round, c),
    decreases class,
{
    let whole = round_picks(buckets, round, class);
    if m == whole.len() {
        assert(whole.take(m) =~= whole);
        class
    } else {
        let c = lemma_picks_prefix_exists(buckets, round, (class - 1) as nat, m);
        let earlier = round_picks(buckets, round, (class - 1) as nat);
        assert(whole.take(m) =~= earlier.take(m));
        c
    }
}

/// Every beginning of a run of rounds is some whole rounds and part of one.
proof fn lemma_run_prefix_exists(buckets: Seq<Seq<usize>>, rounds: nat, m: int) -> (split: (
    nat,
    nat,
))
    requires
        0 <= m <= round_robin(buckets, rounds).len(),
    ensures
        split.1 <= buckets.len(),
        round_robin(buckets, rounds).take(m) == round_robin(buckets, split.0) + round_picks(
            buckets,
            split.0 as int,
            split.1,
        ),
    decreases rounds,
{
    let whole = round_robin(buckets, rounds);
    if m == whole.len() {
        assert(whole.take(m) =~= whole + round_picks(buckets, rounds as int, 0));
        (rounds, 0)
    } else {
        let before = (rounds - 1) as nat;
        let earlier = round_robin(buckets, before);
        if m <= earlier.len() {
            assert(whole.take(m) =~= earlier.take(m));
            lemma_run_prefix_exists(buckets, before, m)
        } else {
            let picks = round_picks(buckets, before as int, buckets.len());
            let c = lemma_picks_prefix_exists(
                buckets,
                before as int,
                buckets.len(),
                m - earlier.len(),
            );
            assert(whole.take(m) =~= earlier + picks.take(m - earlier.len()));
            (before, c)
        }
    }
}

/// Samples at positions without repetition are used no more often than given.
proof fn lemma_picked_is_contained(samples: Seq<ImageSample>, positions: Seq<usize>)
    requires
        samples.len() <= usize::MAX,
        positions.no_duplicates(),
        forall|k: int| 0 <= k < positions.len() ==> (#[trigger] positions[k]) < samples.len(),
    ensures
        picked(samples, positions).to_multiset().subset_of(samples.to_multiset()),
    decreases samples.len(),
{
    broadcast use vstd::multiset::group_multiset_axioms;

    let given = picked(samples, positions);
    given.to_multiset_ensures();
    if samples.len() == 0 {
        if positions.len() > 0 {
            assert(positions[0] < samples.len());
        }
        assert forall|v: ImageSample| given.to_multiset().count(v) <= samples.to_multiset().count(
            v,
        ) by {
            assert(!given.contains(v));
        }
    } else {
        let n = samples.len() - 1;
        let front = samples.drop_last();
        let last = samples.last();
        assert(front.push(last) =~= samples);
        front.to_multiset_ensures();
        assert(samples.to_multiset() =~= front.to_multiset().insert(last));
        if positions.contains(n as usize) {
            let k = choose|k: int| 0 <= k < positions.len() && positions[k] == n as usize;
            let rest = positions.remove(k);
            assert forall|j: int| 0 <= j < rest.len() implies (#[trigger] rest[j]) < front.len() by {
                let i = if j < k {
                    j
                } else {
                    j + 1
                };
                assert(rest[j] == positions[i]);
                assert(positions[i] < samples.len() && positions[i] != positions[k]);
            }
            lemma_picked_is_contained(front, rest);
            assert(picked(front, rest) =~= given.remove(k));
            assert(given[k] == last);
            assert(given.contains(last));
            assert(given.to_multiset().count(last) > 0);
            assert(given.to_multiset() =~= picked(front, rest).to_multiset().insert(last));
        } else {
            assert forall|j: int| 0 <= j < positions.len() implies (#[trigger] positions[j])
                < front.len() by {
                assert(positions.contains(positions[j]));
            }
            lemma_picked_is_contained(front, positions);
            assert(picked(front, positions) =~= given);
        }
    }
}

/// A class has as many positions as its label occurs.
proof fn lemma_positions_count(labels: Seq<usize>, label: usize, n: nat)
    requires
        n <= labels.len() <= usize::MAX,
    ensures
        positions_of(labels, label as int, n).len() == occurrences(labels.take(n as int), label),
        positions_of(labels, label as int, n).no_duplicates(),
        forall|x: usize| #[trigger]
            positions_of(labels, label as int, n).contains(x) <==> x < n && labels[x as int]
                == label,
    decreases n,
{
    let whole = positions_of(labels, label as int, n);
    if n == 0 {
        assert(labels.take(0) =~= Seq::empty());
        lemma_empty_occurrences(label);
    } else {
        let m = (n - 1) as nat;
        lemma_positions_count(labels, label, m);
        let earlier = positions_of(labels, label as int, m);
        assert(labels.take(n as int) =~= labels.take(m as int).push(labels[m as int]));
        lemma_push_occurrences(labels.take(m as int), labels[m as int], label);
        assert forall|x: usize| #[trigger] whole.contains(x) <==> x < n && labels[x as int]
            == label by {
            if whole.contains(x) {
                let k = choose|k: int| 0 <= k < whole.len() && whole[k] == x;
                if k < earlier.len() {
                    assert(earlier.contains(x));
                }
            }
            if x < n && labels[x as int] == label {
                if x < m {
                    assert(earlier.contains(x));
                    let k = choose|k: int| 0 <= k < earlier.len() && earlier[k] == x;
                    assert(whole[k] == x);
                } else {
                    assert(whole[earlier.len() as int] == x);
                }
            }
        }
        assert(whole.no_duplicates()) by {
            assert forall|i: int| 0 <= i < earlier.len() implies (#[trigger] earlier[i]) < m by {
                assert(earlier.contains(earlier[i]));
            }
        }
    }
}

/// Buckets that hold the positions of each class in some order, each as often as before, are the
/// positions of the classes.
pub proof fn lemma_reordered_class_positions(
    buckets: Seq<Seq<usize>>,
    labels: Seq<usize>,
    classes: nat,
)
    requires
        labels.len() <= usize::MAX,
        classes <= usize::MAX,
        is_class_count(labels, classes as int),
        buckets.len() == classes,
        forall|c: int|
            0 <= c < classes ==> (#[trigger] buckets[c]).to_multiset() == class_buckets(
                labels,
                classes,
            )[c].to_multiset(),
    ensures
        are_class_positions(buckets, labels),
{
    assert forall|c: int| 0 <= c < classes implies (#[trigger] buckets[c]).no_duplicates()
        && forall|x: usize| #[trigger]
        buckets[c].contains(x) <==> x < labels.len() && labels[x as int] == c by {
        let plain = positions_of(labels, c, labels.len());
        assert(class_buckets(labels, classes)[c] == plain);
        lemma_positions_count(labels, c as usize, labels.len());
        plain.lemma_multiset_has_no_duplicates();
        buckets[c].lemma_multiset_has_no_duplicates_conv();
        plain.to_multiset_ensures();
        buckets[c].to_multiset_ensures();
        assert forall|x: usize| #[trigger] buckets[c].contains(x) <==> x < labels.len()
            && labels[x as int] == c by {
            assert(buckets[c].contains(x) <==> buckets[c].to_multiset().count(x) > 0);
            assert(plain.contains(x) <==> plain.to_multiset().count(x) > 0);
        }
    }
}

/// A bucket has as many members as its class.
proof fn lemma_bucket_size(buckets: Seq<Seq<usize>>, labels: Seq<usize>, label: usize)
    requires
        are_class_positions(buckets, labels),
        labels.len() <= usize::MAX,
    ensures
        occurrences(labels, label) == if label < buckets.len() {
            buckets[label as int].len()
        } else {
            0
        },
{
    broadcast use {vstd::set::group_set_axioms, seq_to_set_is_finite};

    let plain = positions_of(labels, label as int, labels.len());
    lemma_positions_count(labels, label, labels.len());
    assert(labels.take(labels.len() as int) =~= labels);
    if label < buckets.len() {
        let bucket = buckets[label as int];
        plain.unique_seq_to_set();
        bucket.unique_seq_to_set();
        assert forall|x: usize| plain.to_set().contains(x) <==> bucket.to_set().contains(x) by {
            assert(plain.contains(x) <==> bucket.contains(x));
        }
        assert(plain.to_set() =~= bucket.to_set());
    } else {
        labels.to_multiset_ensures();
        assert(!labels.contains(label));
    }
}

/// How many samples the first `n` classes have together.
pub open spec fn class_total(samples: Seq<ImageSample>, n: nat) -> nat
    decreases n,
{
    if n == 0 {
        0
    } else {
        class_total(samples, (n - 1) as nat) + class_size(samples, (n - 1) as usize)
    }
}

proof fn lemma_push_total(samples: Seq<ImageSample>, last: ImageSample, n: nat)
    requires
        n <= usize::MAX,
    ensures
        class_total(samples.push(last), n) == class_total(samples, n) + if last.label < n {
            1nat
        } else {
            0
        },
    decreases n,
{
    if n > 0 {
        lemma_push_total(samples, last, (n - 1) as nat);
        assert(labels_of(samples.push(last)) =~= labels_of(samples).push(last.label));
        lemma_push_occurrences(labels_of(samples), last.label, (n - 1) as usize);
    }
}

/// The sizes of the classes add up to the number of samples.
pub proof fn law_class_sizes_add_up(samples: Seq<ImageSample>, classes: nat)
    requires
        classes <= usize::MAX,
        forall|i: int| 0 <= i < samples.len() ==> (#[trigger] samples[i]).label < classes,
    ensures
        class_total(samples, classes) == samples.len(),
    decreases samples.len(),
{
    if samples.len() == 0 {
        lemma_empty_total(samples, classes);
    } else {
        let front = samples.drop_last();
        assert(front.push(samples.last()) =~= samples);
        law_class_sizes_add_up(front, classes);
        lemma_push_total(front, samples.last(), classes);
    }
}

proof fn lemma_empty_total(samples: Seq<ImageSample>, n: nat)
    requires
        samples.len() == 0,
    ensures
        class_total(samples, n) == 0,
    decreases n,
{
    if n > 0 {
        lemma_empty_total(samples, (n - 1) as nat);
        assert(labels_of(samples) =~= Seq::empty());
        lemma_empty_occurrences((n - 1) as usize);
    }
}

/// Taking turns is fair: where the classes take turns, a limit keeps as many samples as it can, uses
/// none of them more often than given, and no class falls behind another one by more than one sample
/// unless all of it is used. This holds whatever the order within the classes.
pub proof fn law_balanced_positions_are_fair(
    samples: Seq<ImageSample>,
    buckets: Seq<Seq<usize>>,
    max_samples: nat,
)
    requires
        samples.len() <= usize::MAX,
        buckets.len() <= usize::MAX,
        are_class_positions(buckets, labels_of(samples)),
    ensures
        is_fair_limit(
            picked(samples, balanced_positions(buckets, samples.len(), max_samples)),
            samples,
            max_samples,
        ),
        balanced_positions(buckets, samples.len(), max_samples).no_duplicates(),
{
    let labels = labels_of(samples);
    let positions = balanced_positions(buckets, samples.len(), max_samples);
    let limited = picked(samples, positions);
    if max_samples >= samples.len() {
        assert(limited =~= samples);
    } else {
        let all = round_robin(buckets, labels.len());
        lemma_all_are_taken(buckets, labels);
        assert(positions =~= all.take(max_samples as int));
        assert forall|k: int| 0 <= k < positions.len() implies (#[trigger] positions[k])
            < samples.len() by {
            assert(positions[k] == all[k]);
        }
        lemma_picked_is_contained(samples, positions);
        let (round, class) = lemma_run_prefix_exists(buckets, labels.len(), max_samples as int);
        assert(labels_of(limited) =~= labels_at(labels, positions));
        assert forall|a: usize, b: usize|
            #![trigger class_size(limited, a), class_size(limited, b)]
            class_size(limited, b) <= class_size(limited, a) + 1 || class_size(limited, a)
                == class_size(samples, a) by {
            lemma_partial_labels(buckets, labels, round, class, a);
            lemma_partial_labels(buckets, labels, round, class, b);
            lemma_bucket_size(buckets, labels, a);
        }
    }
}

} // verus!
