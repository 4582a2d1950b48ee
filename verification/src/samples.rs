//! Labelled images, and subsets of them that treat all classes alike.

use crate::balance::{law_balanced_positions_are_fair, lemma_reordered_class_positions};
use rand::rngs::StdRng;
use rand::seq::SliceRandom;
use rand::SeedableRng;
use vstd::prelude::*;

verus! {

/// An image file, its class, and the record of its teacher features.
#[derive(Debug)]
pub struct ImageSample {
    pub path: String,
    pub label: usize,
    pub teacher_index: usize,
}

/// A dataset directory without class directories.
#[derive(Clone, Copy, Debug, PartialEq, Eq, Structural)]
pub struct NoClassDirectories;

/// What a sample says.
pub open spec fn entry(sample: ImageSample) -> (Seq<char>, int, int) {
    (sample.path@, sample.label as int, sample.teacher_index as int)
}

/// What a list of samples says.
pub open spec fn entries(samples: Seq<ImageSample>) -> Seq<(Seq<char>, int, int)> {
    samples.map_values(|s: ImageSample| entry(s))
}

/// The samples of one class, whose teacher records start at `first`.
pub open spec fn labelled_class(images: Seq<String>, label: int, first: int) -> Seq<
    (Seq<char>, int, int),
> {
    Seq::new(images.len(), |i: int| (images[i]@, label, first + i))
}

/// The samples of the first `n` classes, class by class. Classes are numbered in order, and so are
/// the teacher records.
pub open spec fn labelled(classes: Seq<Vec<String>>, n: nat) -> Seq<(Seq<char>, int, int)>
    decreases n,
{
    if n == 0 {
        Seq::empty()
    } else {
        let earlier = labelled(classes, (n - 1) as nat);
        earlier + labelled_class(classes[n - 1]@, n - 1, earlier.len() as int)
    }
}

/// Labels the images of the class directories, given in order, each with its images in order. Also
/// returns the number of classes.
pub fn collect_samples(classes: &Vec<Vec<String>>) -> (result: Result<
    (Vec<ImageSample>, usize),
    NoClassDirectories,
>)
    ensures
        match result {
            Ok((samples, num_classes)) => {
                &&& classes@.len() > 0
                &&& entries(samples@) == labelled(classes@, classes@.len())
                &&& num_classes == classes@.len()
            },
            Err(_) => classes@.len() == 0,
        },
{
    if classes.len() == 0 {
        return Err(NoClassDirectories);
    }
    let mut samples: Vec<ImageSample> = Vec::new();
    let mut label: usize = 0;
    assert(entries(samples@) =~= labelled(classes@, 0));
    while label < classes.len()
        invariant
            label <= classes@.len(),
            entries(samples@) == labelled(classes@, label as nat),
        decreases classes@.len() - label,
    {
        let images = &classes[label];
        let ghost earlier = labelled(classes@, label as nat);
        let mut i: usize = 0;
        assert(entries(samples@) =~= earlier + labelled_class(
            images@,
            label as int,
            earlier.len() as int,
        ).take(0));
        while i < images.len()
            invariant
                i <= images@.len(),
                entries(samples@) == earlier + labelled_class(
                    images@,
                    label as int,
                    earlier.len() as int,
                ).take(i as int),
            decreases images@.len() - i,
        {
            let ghost before = samples@;
            let teacher_index: usize = samples.len();
            assert(entries(before).len() == earlier.len() + i);
            samples.push(ImageSample { path: images[i].clone(), label, teacher_index });
            i += 1;
            proof {
                let class = labelled_class(images@, label as int, earlier.len() as int);
                assert(entries(samples@) =~= entries(before).push(entry(samples@.last())));
                assert(class.take(i as int) =~= class.take(i - 1).push(class[i - 1]));
                assert(entry(samples@.last()) == class[i - 1]);
                assert(entries(samples@) =~= earlier + class.take(i as int));
            }
        }
        assert(labelled_class(images@, label as int, earlier.len() as int).take(i as int)
            =~= labelled_class(images@, label as int, earlier.len() as int));
        label += 1;
    }
    Ok((samples, classes.len()))
}

/// Teacher records are numbered by position, and every label is a class.
pub proof fn law_teacher_records_follow_positions(classes: Seq<Vec<String>>, n: nat, k: int)
    requires
        0 <= k < labelled(classes, n).len(),
    ensures
        labelled(classes, n)[k].2 == k,
        0 <= labelled(classes, n)[k].1 < n,
    decreases n,
{
    if n > 0 {
        let earlier = labelled(classes, (n - 1) as nat);
        if k < earlier.len() {
            law_teacher_records_follow_positions(classes, (n - 1) as nat, k);
        }
    }
}

/// The positions below `n` that carry `label`, in increasing order.
pub open spec fn positions_of(labels: Seq<usize>, label: int, n: nat) -> Seq<usize>
    decreases n,
{
    if n == 0 {
        Seq::empty()
    } else {
        let earlier = positions_of(labels, label, (n - 1) as nat);
        if labels[n - 1] == label {
            earlier.push((n - 1) as usize)
        } else {
            earlier
        }
    }
}

/// What the classes below `class` contribute to round `round`: their `round`-th member each, where
/// they have one.
pub open spec fn round_picks(buckets: Seq<Seq<usize>>, round: int, class: nat) -> Seq<usize>
    decreases class,
{
    if class == 0 {
        Seq::empty()
    } else {
        let earlier = round_picks(buckets, round, (class - 1) as nat);
        if round < buckets[class - 1].len() {
            earlier.push(buckets[class - 1][round])
        } else {
            earlier
        }
    }
}

/// The picks of the first `rounds` rounds.
pub open spec fn round_robin(buckets: Seq<Seq<usize>>, rounds: nat) -> Seq<usize>
    decreases rounds,
{
    if rounds == 0 {
        Seq::empty()
    } else {
        round_robin(buckets, (rounds - 1) as nat) + round_picks(
            buckets,
            rounds - 1,
            buckets.len(),
        )
    }
}

/// The members of a list of buckets.
pub open spec fn bucket_views(buckets: Seq<Vec<usize>>) -> Seq<Seq<usize>> {
    buckets.map_values(|b: Vec<usize>| b@)
}

proof fn lemma_round_picks_prefix(buckets: Seq<Seq<usize>>, round: int, a: nat, b: nat)
    requires
        a <= b <= buckets.len(),
    ensures
        round_picks(buckets, round, a).len() <= round_picks(buckets, round, b).len(),
        round_picks(buckets, round, b).take(round_picks(buckets, round, a).len() as int)
            == round_picks(buckets, round, a),
    decreases b,
{
    if a < b {
        lemma_round_picks_prefix(buckets, round, a, (b - 1) as nat);
        let inner = round_picks(buckets, round, a);
        let outer = round_picks(buckets, round, (b - 1) as nat);
        let whole = round_picks(buckets, round, b);
        assert(whole.take(inner.len() as int) =~= outer.take(inner.len() as int));
    } else {
        assert(round_picks(buckets, round, b).take(round_picks(buckets, round, a).len() as int)
            =~= round_picks(buckets, round, a));
    }
}

proof fn lemma_round_robin_prefix(buckets: Seq<Seq<usize>>, a: nat, b: nat)
    requires
        a <= b,
    ensures
        round_robin(buckets, a).len() <= round_robin(buckets, b).len(),
        round_robin(buckets, b).take(round_robin(buckets, a).len() as int) == round_robin(
            buckets,
            a,
        ),
    decreases b,
{
    if a < b {
        lemma_round_robin_prefix(buckets, a, (b - 1) as nat);
        let inner = round_robin(buckets, a);
        let outer = round_robin(buckets, (b - 1) as nat);
        assert(round_robin(buckets, b).take(inner.len() as int) =~= outer.take(inner.len() as int));
    } else {
        assert(round_robin(buckets, b).take(round_robin(buckets, a).len() as int) =~= round_robin(
            buckets,
            a,
        ));
    }
}

/// A partial run of `rounds` rounds and `class` classes is a prefix of a longer run.
proof fn lemma_partial_prefix(buckets: Seq<Seq<usize>>, rounds: nat, class: nat, longer: nat)
    requires
        class <= buckets.len(),
        rounds < longer,
    ensures
        ({
            let part = round_robin(buckets, rounds) + round_picks(buckets, rounds as int, class);
            &&& part.len() <= round_robin(buckets, longer).len()
            &&& round_robin(buckets, longer).take(part.len() as int) == part
        }),
{
    let part = round_robin(buckets, rounds) + round_picks(buckets, rounds as int, class);
    let next = (rounds + 1) as nat;
    lemma_round_picks_prefix(buckets, rounds as int, class, buckets.len());
    lemma_round_robin_prefix(buckets, next, longer);
    let full_round = round_picks(buckets, rounds as int, buckets.len());
    let inner = round_robin(buckets, next);
    assert(inner =~= round_robin(buckets, rounds) + full_round);
    assert forall|k: int| 0 <= k < part.len() implies inner[k] == part[k] by {
        let base = round_robin(buckets, rounds).len();
        if k >= base {
            let short = round_picks(buckets, rounds as int, class);
            assert(full_round.take(short.len() as int)[k - base] == short[k - base]);
        }
    }
    let outer = round_robin(buckets, longer);
    assert forall|k: int| 0 <= k < part.len() implies outer[k] == part[k] by {
        assert(outer.take(inner.len() as int)[k] == inner[k]);
    }
    assert(outer.take(part.len() as int) =~= part);
}

/// Once no bucket reaches round `round`, further rounds add nothing.
proof fn lemma_exhausted(buckets: Seq<Seq<usize>>, round: int, class: nat)
    requires
        class <= buckets.len(),
        forall|c: int| 0 <= c < buckets.len() ==> (#[trigger] buckets[c]).len() <= round,
    ensures
        round_picks(buckets, round, class) == Seq::<usize>::empty(),
    decreases class,
{
    if class > 0 {
        lemma_exhausted(buckets, round, (class - 1) as nat);
        assert(buckets[class - 1].len() <= round);
    }
}

proof fn lemma_exhausted_rounds(buckets: Seq<Seq<usize>>, a: nat, b: nat)
    requires
        a <= b,
        forall|c: int| 0 <= c < buckets.len() ==> (#[trigger] buckets[c]).len() <= a,
    ensures
        round_robin(buckets, b) == round_robin(buckets, a),
    decreases b,
{
    if a < b {
        lemma_exhausted_rounds(buckets, a, (b - 1) as nat);
        lemma_exhausted(buckets, b - 1, buckets.len());
        assert(round_robin(buckets, b) =~= round_robin(buckets, (b - 1) as nat));
    }
}

proof fn lemma_no_picks(buckets: Seq<Seq<usize>>, round: int, class: nat, c: int)
    requires
        round_picks(buckets, round, class).len() == 0,
        0 <= c < class <= buckets.len(),
    ensures
        buckets[c].len() <= round,
    decreases class,
{
    if c < class - 1 {
        lemma_no_picks(buckets, round, (class - 1) as nat, c);
    }
}

/// Takes one member of every bucket in turn, round after round, until `max` are taken or the
/// buckets are empty.
pub fn take_in_turn(buckets: &Vec<Vec<usize>>, max: usize) -> (taken: Vec<usize>)
    ensures
        forall|rounds: nat|
            (forall|c: int|
                0 <= c < buckets@.len() ==> (#[trigger] buckets@[c])@.len() <= rounds) ==> {
                let all = #[trigger] round_robin(bucket_views(buckets@), rounds);
                taken@ == all.take(vstd::math::min(all.len() as int, max as int))
            },
        exists|round: nat, class: nat|
            class <= buckets@.len() && taken@ == #[trigger] round_robin(
                bucket_views(buckets@),
                round,
            ) + #[trigger] round_picks(bucket_views(buckets@), round as int, class),
{
    let ghost views = bucket_views(buckets@);
    let mut taken: Vec<usize> = Vec::new();
    let mut round: usize = 0;
    assert(taken@ =~= round_robin(views, 0));
    while taken.len() < max
        invariant
            views == bucket_views(buckets@),
            taken@ == round_robin(views, round as nat),
            round <= taken@.len() <= max,
        decreases max - taken@.len(),
    {
        let before: usize = taken.len();
        let mut class: usize = 0;
        assert(taken@ =~= round_robin(views, round as nat) + round_picks(views, round as int, 0));
        while class < buckets.len() && taken.len() < max
            invariant
                views == bucket_views(buckets@),
                class <= buckets@.len(),
                taken@ == round_robin(views, round as nat) + round_picks(
                    views,
                    round as int,
                    class as nat,
                ),
                before == round_robin(views, round as nat).len(),
                before <= taken@.len() <= max,
            decreases buckets@.len() - class,
        {
            let bucket = &buckets[class];
            assert(views[class as int] == bucket@);
            if round < bucket.len() {
                taken.push(bucket[round]);
            }
            class += 1;
            assert(taken@ =~= round_robin(views, round as nat) + round_picks(
                views,
                round as int,
                class as nat,
            ));
        }
        if taken.len() >= max {
            proof {
                assert forall|rounds: nat|
                    (forall|c: int|
                        0 <= c < buckets@.len() ==> (#[trigger] buckets@[c])@.len()
                            <= rounds) implies {
                    let all = #[trigger] round_robin(bucket_views(buckets@), rounds);
                    taken@ == all.take(vstd::math::min(all.len() as int, max as int))
                } by {
                    assert forall|c: int| 0 <= c < views.len() implies (#[trigger] views[c]).len()
                        <= rounds by {
                        assert(buckets@[c]@.len() <= rounds);
                    }
                    let longer = if rounds > round {
                        rounds
                    } else {
                        (round + 1) as nat
                    };
                    lemma_partial_prefix(views, round as nat, class as nat, longer);
                    lemma_exhausted_rounds(views, rounds, longer);
                }
            }
            return taken;
        }
        assert(class == buckets@.len());
        if taken.len() == before {
            proof {
                assert forall|c: int| 0 <= c < views.len() implies (#[trigger] views[c]).len()
                    <= round by {
                    lemma_no_picks(views, round as int, class as nat, c);
                }
                assert forall|rounds: nat|
                    (forall|c: int|
                        0 <= c < buckets@.len() ==> (#[trigger] buckets@[c])@.len()
                            <= rounds) implies {
                    let all = #[trigger] round_robin(bucket_views(buckets@), rounds);
                    taken@ == all.take(vstd::math::min(all.len() as int, max as int))
                } by {
                    assert forall|c: int| 0 <= c < views.len() implies (#[trigger] views[c]).len()
                        <= rounds by {
                        assert(buckets@[c]@.len() <= rounds);
                    }
                    if rounds <= round {
                        lemma_exhausted_rounds(views, rounds, round as nat);
                    } else {
                        lemma_exhausted_rounds(views, round as nat, rounds);
                    }
                    let all = round_robin(views, rounds);
                    assert(taken@ =~= all);
                    assert(all.take(vstd::math::min(all.len() as int, max as int)) =~= all);
                }
            }
            return taken;
        }
        round += 1;
        assert(taken@ =~= round_robin(views, round as nat));
    }
    proof {
        assert(taken@ =~= round_robin(views, round as nat) + round_picks(views, round as int, 0));
        assert forall|rounds: nat|
            (forall|c: int|
                0 <= c < buckets@.len() ==> (#[trigger] buckets@[c])@.len() <= rounds) implies {
            let all = #[trigger] round_robin(bucket_views(buckets@), rounds);
            taken@ == all.take(vstd::math::min(all.len() as int, max as int))
        } by {
            assert forall|c: int| 0 <= c < views.len() implies (#[trigger] views[c]).len()
                <= rounds by {
                assert(buckets@[c]@.len() <= rounds);
            }
            let all = round_robin(views, rounds);
            if rounds >= round {
                lemma_round_robin_prefix(views, round as nat, rounds);
            } else {
                lemma_exhausted_rounds(views, rounds, round as nat);
                assert(all.take(all.len() as int) =~= all);
            }
        }
    }
    taken
}

/// How many members of a bucket of `len` a run of `round` rounds and `class` classes takes.
pub open spec fn taken_of(len: int, bucket: int, round: int, class: int) -> int {
    vstd::math::min(
        len,
        if bucket < class {
            round + 1
        } else {
            round
        },
    )
}

pub(crate) proof fn lemma_round_picks_members(buckets: Seq<Seq<usize>>, round: int, class: nat, x: usize)
    requires
        class <= buckets.len(),
        round >= 0,
    ensures
        round_picks(buckets, round, class).contains(x) <==> exists|c: int|
            0 <= c < class && round < (#[trigger] buckets[c]).len() && buckets[c][round] == x,
    decreases class,
{
    if class > 0 {
        lemma_round_picks_members(buckets, round, (class - 1) as nat, x);
        let earlier = round_picks(buckets, round, (class - 1) as nat);
        let whole = round_picks(buckets, round, class);
        if whole.contains(x) {
            let k = choose|k: int| 0 <= k < whole.len() && whole[k] == x;
            if k < earlier.len() {
                assert(earlier[k] == x);
            } else {
                assert(buckets[class - 1][round] == x);
            }
        }
        if exists|c: int|
            0 <= c < class && round < (#[trigger] buckets[c]).len() && buckets[c][round] == x {
            let c = choose|c: int|
                0 <= c < class && round < (#[trigger] buckets[c]).len() && buckets[c][round] == x;
            if c < class - 1 {
                let k = choose|k: int| 0 <= k < earlier.len() && earlier[k] == x;
                assert(whole[k] == x);
            } else {
                assert(whole[earlier.len() as int] == x);
            }
        }
    }
}

pub(crate) proof fn lemma_round_robin_members(buckets: Seq<Seq<usize>>, rounds: nat, x: usize)
    ensures
        round_robin(buckets, rounds).contains(x) <==> exists|c: int, k: int|
            0 <= c < buckets.len() && 0 <= k < buckets[c].len() && k < rounds
                && #[trigger] buckets[c][k] == x,
    decreases rounds,
{
    if rounds > 0 {
        let m = (rounds - 1) as nat;
        lemma_round_robin_members(buckets, m, x);
        lemma_round_picks_members(buckets, rounds - 1, buckets.len(), x);
        let earlier = round_robin(buckets, m);
        let picks = round_picks(buckets, rounds - 1, buckets.len());
        let whole = round_robin(buckets, rounds);
        if whole.contains(x) {
            let i = choose|i: int| 0 <= i < whole.len() && whole[i] == x;
            if i < earlier.len() {
                assert(earlier[i] == x);
            } else {
                assert(picks[i - earlier.len()] == x);
                let c = choose|c: int|
                    0 <= c < buckets.len() && rounds - 1 < (#[trigger] buckets[c]).len()
                        && buckets[c][rounds - 1] == x;
                assert(buckets[c][rounds - 1] == x);
            }
        }
        if exists|c: int, k: int|
            0 <= c < buckets.len() && 0 <= k < buckets[c].len() && k < rounds
                && #[trigger] buckets[c][k] == x {
            let (c, k) = choose|c: int, k: int|
                0 <= c < buckets.len() && 0 <= k < buckets[c].len() && k < rounds
                    && #[trigger] buckets[c][k] == x;
            if k < rounds - 1 {
                assert(buckets[c][k] == x);
                let i = choose|i: int| 0 <= i < earlier.len() && earlier[i] == x;
                assert(whole[i] == x);
            } else {
                assert(rounds - 1 < buckets[c].len() && buckets[c][rounds - 1] == x);
                let i = choose|i: int| 0 <= i < picks.len() && picks[i] == x;
                assert(whole[earlier.len() + i] == x);
            }
        }
    }
}

/// Taking in turn is balanced: of every bucket it takes the first members, as many as rounds were
/// begun for it, so that no two buckets differ by more than one unless the smaller one is empty.
pub proof fn law_turns_are_balanced(
    buckets: Seq<Seq<usize>>,
    round: nat,
    class: nat,
    taken: Seq<usize>,
    x: usize,
)
    requires
        class <= buckets.len(),
        taken == round_robin(buckets, round) + round_picks(buckets, round as int, class),
    ensures
        taken.contains(x) <==> exists|c: int, k: int|
            0 <= c < buckets.len() && 0 <= k < taken_of(
                buckets[c].len() as int,
                c,
                round as int,
                class as int,
            ) && #[trigger] buckets[c][k] == x,
        forall|a: int, b: int|
            0 <= a < buckets.len() && 0 <= b < buckets.len() ==> {
                ||| #[trigger] taken_of(buckets[a].len() as int, a, round as int, class as int) + 1
                    >= #[trigger] taken_of(buckets[b].len() as int, b, round as int, class as int)
                ||| taken_of(buckets[a].len() as int, a, round as int, class as int)
                    == buckets[a].len()
            },
{
    lemma_round_robin_members(buckets, round, x);
    lemma_round_picks_members(buckets, round as int, class, x);
    let rounds = round_robin(buckets, round);
    let picks = round_picks(buckets, round as int, class);
    if taken.contains(x) {
        let i = choose|i: int| 0 <= i < taken.len() && taken[i] == x;
        if i < rounds.len() {
            assert(rounds[i] == x);
        } else {
            assert(picks[i - rounds.len()] == x);
            let c = choose|c: int|
                0 <= c < class && round < (#[trigger] buckets[c]).len() && buckets[c][round as int]
                    == x;
            assert(buckets[c][round as int] == x);
        }
    }
    if exists|c: int, k: int|
        0 <= c < buckets.len() && 0 <= k < taken_of(
            buckets[c].len() as int,
            c,
            round as int,
            class as int,
        ) && #[trigger] buckets[c][k] == x {
        let (c, k) = choose|c: int, k: int|
            0 <= c < buckets.len() && 0 <= k < taken_of(
                buckets[c].len() as int,
                c,
                round as int,
                class as int,
            ) && #[trigger] buckets[c][k] == x;
        if k < round {
            assert(buckets[c][k] == x);
            let i = choose|i: int| 0 <= i < rounds.len() && rounds[i] == x;
            assert(taken[i] == x);
        } else {
            assert(round < buckets[c].len() && buckets[c][round as int] == x);
            let i = choose|i: int| 0 <= i < picks.len() && picks[i] == x;
            assert(taken[rounds.len() + i] == x);
        }
    }
}

/// The labels of a list of samples.
pub open spec fn labels_of(samples: Seq<ImageSample>) -> Seq<usize> {
    samples.map_values(|s: ImageSample| s.label)
}

/// Whether `n` is the number of classes: one more than the largest label, none without samples.
pub open spec fn is_class_count(labels: Seq<usize>, n: int) -> bool {
    &&& forall|i: int| 0 <= i < labels.len() ==> (#[trigger] labels[i]) < n
    &&& labels.len() == 0 ==> n == 0
    &&& labels.len() > 0 ==> exists|i: int| 0 <= i < labels.len() && #[trigger] labels[i] == n - 1
}

/// How many classes the samples have.
pub fn class_count(samples: &[ImageSample]) -> (n: usize)
    requires
        forall|i: int| 0 <= i < samples@.len() ==> (#[trigger] samples@[i]).label < usize::MAX,
    ensures
        is_class_count(labels_of(samples@), n as int),
{
    let mut n: usize = 0;
    let mut i: usize = 0;
    while i < samples.len()
        invariant
            i <= samples@.len(),
            forall|j: int|
                0 <= j < samples@.len() ==> (#[trigger] samples@[j]).label < usize::MAX,
            forall|j: int| 0 <= j < i ==> (#[trigger] samples@[j]).label < n,
            i == 0 ==> n == 0,
            i > 0 ==> exists|j: int| 0 <= j < i && (#[trigger] samples@[j]).label == n - 1,
        decreases samples@.len() - i,
    {
        let label: usize = samples[i].label;
        if label >= n {
            n = label + 1;
            assert(samples@[i as int].label == n - 1);
        } else {
            assert(i > 0);
            let ghost j = choose|j: int| 0 <= j < i && (#[trigger] samples@[j]).label == n - 1;
            assert(samples@[j].label == n - 1);
        }
        i += 1;
    }
    proof {
        let labels = labels_of(samples@);
        assert forall|j: int| 0 <= j < labels.len() implies (#[trigger] labels[j]) < n by {
            assert(samples@[j].label < n);
        }
        if labels.len() > 0 {
            let j = choose|j: int| 0 <= j < samples@.len() && (#[trigger] samples@[j]).label == n - 1;
            assert(labels[j] == n - 1);
        }
    }
    n
}

/// The positions of each class, in order.
pub open spec fn class_buckets(labels: Seq<usize>, classes: nat) -> Seq<Seq<usize>> {
    Seq::new(classes, |c: int| positions_of(labels, c, labels.len()))
}

fn bucket_positions(samples: &[ImageSample], classes: usize) -> (buckets: Vec<Vec<usize>>)
    ensures
        bucket_views(buckets@) == class_buckets(labels_of(samples@), classes as nat),
{
    let mut buckets: Vec<Vec<usize>> = Vec::new();
    let ghost labels = labels_of(samples@);
    let mut c: usize = 0;
    assert(bucket_views(buckets@) =~= class_buckets(labels, 0));
    while c < classes
        invariant
            c <= classes,
            labels == labels_of(samples@),
            bucket_views(buckets@) == class_buckets(labels, c as nat),
        decreases classes - c,
    {
        let mut bucket: Vec<usize> = Vec::new();
        let mut i: usize = 0;
        while i < samples.len()
            invariant
                i <= samples@.len(),
                labels == labels_of(samples@),
                bucket@ == positions_of(labels, c as int, i as nat),
            decreases samples@.len() - i,
        {
            assert(labels[i as int] == samples@[i as int].label);
            if samples[i].label == c {
                bucket.push(i);
            }
            i += 1;
        }
        let ghost before = buckets@;
        assert(bucket@ == positions_of(labels, c as int, labels.len()));
        buckets.push(bucket);
        c += 1;
        proof {
            let views = bucket_views(buckets@);
            assert(views =~= bucket_views(before).push(bucket@));
            assert(class_buckets(labels, c as nat) =~= class_buckets(labels, (c - 1) as nat).push(
                bucket@,
            ));
        }
    }
    buckets
}

proof fn lemma_positions(labels: Seq<usize>, label: int, n: nat)
    requires
        n <= labels.len() <= usize::MAX,
    ensures
        positions_of(labels, label, n).len() <= n,
        forall|x: usize| #[trigger]
            positions_of(labels, label, n).contains(x) ==> x < n && labels[x as int] == label,
    decreases n,
{
    if n > 0 {
        lemma_positions(labels, label, (n - 1) as nat);
        let earlier = positions_of(labels, label, (n - 1) as nat);
        let whole = positions_of(labels, label, n);
        assert forall|x: usize| #[trigger] whole.contains(x) implies x < n && labels[x as int]
            == label by {
            let k = choose|k: int| 0 <= k < whole.len() && whole[k] == x;
            if k < earlier.len() {
                assert(earlier.contains(earlier[k]));
            }
        }
    }
}

/// Positions that a balanced limit keeps are positions of samples.
pub proof fn lemma_balanced_positions_in_range(
    labels: Seq<usize>,
    classes: nat,
    max_samples: nat,
    k: int,
)
    requires
        labels.len() <= usize::MAX,
        0 <= k < balanced_positions(class_buckets(labels, classes), labels.len(), max_samples).len(),
    ensures
        balanced_positions(class_buckets(labels, classes), labels.len(), max_samples)[k]
            < labels.len(),
{
    if max_samples < labels.len() {
        let buckets = class_buckets(labels, classes);
        let all = round_robin(buckets, labels.len());
        assert(all.contains(all[k]));
        lemma_round_robin_members(buckets, labels.len(), all[k]);
        let (c, i) = choose|c: int, i: int|
            0 <= c < buckets.len() && 0 <= i < buckets[c].len() && i < labels.len()
                && #[trigger] buckets[c][i] == all[k];
        lemma_positions(labels, c, labels.len());
        assert(positions_of(labels, c, labels.len()).contains(buckets[c][i]));
    }
}

/// The samples at the given positions.
pub open spec fn picked(samples: Seq<ImageSample>, positions: Seq<usize>) -> Seq<ImageSample> {
    positions.map_values(|p: usize| samples[p as int])
}

fn copy_samples(samples: &[ImageSample], positions: &Vec<usize>) -> (out: Vec<ImageSample>)
    requires
        forall|k: int| 0 <= k < positions@.len() ==> (#[trigger] positions@[k]) < samples@.len(),
    ensures
        out@ == picked(samples@, positions@),
        forall|k: int| 0 <= k < out@.len() ==> samples@.contains(#[trigger] out@[k]),
{
    let mut out: Vec<ImageSample> = Vec::new();
    let mut k: usize = 0;
    while k < positions.len()
        invariant
            k <= positions@.len(),
            forall|j: int|
                0 <= j < positions@.len() ==> (#[trigger] positions@[j]) < samples@.len(),
            out@ == picked(samples@, positions@.take(k as int)),
        decreases positions@.len() - k,
    {
        let sample = &samples[positions[k]];
        out.push(
            ImageSample {
                path: sample.path.clone(),
                label: sample.label,
                teacher_index: sample.teacher_index,
            },
        );
        k += 1;
        assert(out@ =~= picked(samples@, positions@.take(k as int)));
    }
    assert(positions@.take(k as int) =~= positions@);
    assert forall|j: int| 0 <= j < out@.len() implies samples@.contains(#[trigger] out@[j]) by {
        assert(out@[j] == samples@[positions@[j] as int]);
    }
    out
}

/// All positions below `n`.
pub open spec fn all_positions(n: nat) -> Seq<usize> {
    Seq::new(n, |i: int| i as usize)
}

fn every_position(n: usize) -> (positions: Vec<usize>)
    ensures
        positions@ == all_positions(n as nat),
{
    let mut positions: Vec<usize> = Vec::new();
    let mut i: usize = 0;
    while i < n
        invariant
            i <= n,
            positions@ == all_positions(i as nat),
        decreases n - i,
    {
        positions.push(i);
        i += 1;
        assert(positions@ =~= all_positions(i as nat));
    }
    positions
}

/// The positions that a limit of `max_samples` keeps when the classes take turns: all of them where
/// they fit.
pub open spec fn balanced_positions(
    buckets: Seq<Seq<usize>>,
    total: nat,
    max_samples: nat,
) -> Seq<usize> {
    if max_samples >= total {
        all_positions(total)
    } else {
        let all = round_robin(buckets, total);
        all.take(vstd::math::min(all.len() as int, max_samples as int))
    }
}

/// Whether the buckets hold the positions of each class, each position once.
pub open spec fn are_class_positions(buckets: Seq<Seq<usize>>, labels: Seq<usize>) -> bool {
    &&& forall|i: int| 0 <= i < labels.len() ==> (#[trigger] labels[i]) < buckets.len()
    &&& forall|c: int| 0 <= c < buckets.len() ==> (#[trigger] buckets[c]).no_duplicates()
    &&& forall|c: int, x: usize|
        0 <= c < buckets.len() ==> (#[trigger] buckets[c].contains(x) <==> x < labels.len()
            && labels[x as int] == c)
}

/// How many samples carry a label.
pub open spec fn class_size(samples: Seq<ImageSample>, label: usize) -> nat {
    labels_of(samples).to_multiset().count(label)
}

/// Whether a limit of `max_samples` is fair: it keeps as many samples as it can, uses none more
/// often than given, keeps all of them in order where they fit, and lets no class fall behind
/// another one by more than one sample unless all of it is used.
pub open spec fn is_fair_limit(
    limited: Seq<ImageSample>,
    samples: Seq<ImageSample>,
    max_samples: nat,
) -> bool {
    &&& limited.len() == vstd::math::min(max_samples as int, samples.len() as int)
    &&& limited.to_multiset().subset_of(samples.to_multiset())
    &&& max_samples >= samples.len() ==> limited == samples
    &&& forall|a: usize, b: usize|
        #![trigger class_size(limited, a), class_size(limited, b)]
        class_size(limited, b) <= class_size(limited, a) + 1 || class_size(limited, a)
            == class_size(samples, a)
}

/// At most `max_samples` samples, the classes taking turns in the order of their samples.
pub fn limit_samples_balanced(samples: &[ImageSample], max_samples: usize) -> (limited: Vec<
    ImageSample,
>)
    requires
        forall|i: int| 0 <= i < samples@.len() ==> (#[trigger] samples@[i]).label < usize::MAX,
    ensures
        exists|classes: nat| #[trigger]
            is_class_count(labels_of(samples@), classes as int) && limited@ == picked(
                samples@,
                balanced_positions(
                    class_buckets(labels_of(samples@), classes),
                    samples@.len(),
                    max_samples as nat,
                ),
            ),
        is_fair_limit(limited@, samples@, max_samples as nat),
        forall|k: int| 0 <= k < limited@.len() ==> samples@.contains(#[trigger] limited@[k]),
{
    let classes: usize = class_count(samples);
    let total: usize = samples.len();
    proof {
        let labels = labels_of(samples@);
        let buckets = class_buckets(labels, classes as nat);
        lemma_reordered_class_positions(buckets, labels, classes as nat);
        law_balanced_positions_are_fair(samples@, buckets, max_samples as nat);
    }
    if max_samples >= total {
        let positions = every_position(total);
        return copy_samples(samples, &positions);
    }
    let buckets = bucket_positions(samples, classes);
    proof {
        let labels = labels_of(samples@);
        let views = bucket_views(buckets@);
        assert forall|c: int| 0 <= c < buckets@.len() implies (#[trigger] buckets@[c])@.len()
            <= samples@.len() && forall|k: int|
            0 <= k < buckets@[c]@.len() ==> (#[trigger] buckets@[c]@[k]) < samples@.len() by {
            assert(views.len() == buckets@.len());
            assert(buckets@[c]@ == views[c]);
            lemma_positions(labels, c, labels.len());
            assert forall|k: int| 0 <= k < buckets@[c]@.len() implies (#[trigger] buckets@[c]@[k])
                < samples@.len() by {
                assert(positions_of(labels, c, labels.len()).contains(buckets@[c]@[k]));
            }
        }
    }
    take_balanced(samples, &buckets, max_samples)
}

fn take_balanced(samples: &[ImageSample], buckets: &Vec<Vec<usize>>, max_samples: usize) -> (limited:
    Vec<ImageSample>)
    requires
        max_samples < samples@.len(),
        forall|c: int|
            0 <= c < buckets@.len() ==> (#[trigger] buckets@[c])@.len() <= samples@.len(),
        forall|c: int, k: int|
            0 <= c < buckets@.len() && 0 <= k < buckets@[c]@.len() ==> (
            #[trigger] buckets@[c]@[k]) < samples@.len(),
    ensures
        limited@ == picked(
            samples@,
            balanced_positions(bucket_views(buckets@), samples@.len(), max_samples as nat),
        ),
        forall|k: int| 0 <= k < limited@.len() ==> samples@.contains(#[trigger] limited@[k]),
{
    let positions = take_in_turn(buckets, max_samples);
    proof {
        let views = bucket_views(buckets@);
        let all = round_robin(views, samples@.len());
        assert forall|k: int| 0 <= k < positions@.len() implies (#[trigger] positions@[k])
            < samples@.len() by {
            assert(all.contains(all[k]));
            lemma_round_robin_members(views, samples@.len(), all[k]);
            let (c, i) = choose|c: int, i: int|
                0 <= c < views.len() && 0 <= i < views[c].len() && i < samples@.len()
                    && #[trigger] views[c][i] == all[k];
            assert(buckets@[c]@[i] == all[k]);
        }
    }
    copy_samples(samples, &positions)
}

/// The order into which a seed shuffles a list.
pub uninterp spec fn seeded_shuffle(items: Seq<usize>, seed: u64) -> Seq<usize>;

/// `rand::seq::SliceRandom::shuffle` with the generator that `rand::rngs::StdRng::seed_from_u64`
/// makes: the items in an order that depends on them and the seed alone, each as often as before.
#[verifier::external_body]
fn shuffle_seeded(items: &mut Vec<usize>, seed: u64)
    ensures
        final(items)@ == seeded_shuffle(old(items)@, seed),
        final(items)@.to_multiset() == old(items)@.to_multiset(),
{
    items.shuffle(&mut StdRng::seed_from_u64(seed));
}

/// The seed that shuffles one class.
pub open spec fn class_seed(subset_seed: u64, class: int) -> u64 {
    subset_seed ^ ((class + 1) * 0x9e37_79b9_7f4a_7c15 % 0x1_0000_0000_0000_0000) as u64
}

/// The positions of each class, shuffled with the seed of the class.
pub open spec fn shuffled_buckets(labels: Seq<usize>, classes: nat, subset_seed: u64) -> Seq<
    Seq<usize>,
> {
    Seq::new(
        classes,
        |c: int|
            seeded_shuffle(
                positions_of(labels, c, labels.len()),
                class_seed(subset_seed, c),
            ),
    )
}

fn shuffle_buckets(buckets: &Vec<Vec<usize>>, subset_seed: u64) -> (shuffled: Vec<Vec<usize>>)
    ensures
        shuffled@.len() == buckets@.len(),
        forall|c: int|
            0 <= c < buckets@.len() ==> (#[trigger] shuffled@[c])@ == seeded_shuffle(
                buckets@[c]@,
                class_seed(subset_seed, c),
            ) && shuffled@[c]@.to_multiset() == buckets@[c]@.to_multiset(),
{
    let mut shuffled: Vec<Vec<usize>> = Vec::new();
    let mut c: usize = 0;
    while c < buckets.len()
        invariant
            c <= buckets@.len(),
            shuffled@.len() == c,
            forall|j: int|
                0 <= j < c ==> (#[trigger] shuffled@[j])@ == seeded_shuffle(
                    buckets@[j]@,
                    class_seed(subset_seed, j),
                ) && shuffled@[j]@.to_multiset() == buckets@[j]@.to_multiset(),
        decreases buckets@.len() - c,
    {
        let seed: u64 = subset_seed ^ (c as u64 + 1).wrapping_mul(0x9e37_79b9_7f4a_7c15);
        assert(seed == class_seed(subset_seed, c as int));
        let mut bucket = crate::rollout::copy_steps(buckets[c].as_slice());
        shuffle_seeded(&mut bucket, seed);
        shuffled.push(bucket);
        c += 1;
    }
    shuffled
}

proof fn lemma_same_members(a: Seq<usize>, b: Seq<usize>, k: int)
    requires
        a.to_multiset() == b.to_multiset(),
        0 <= k < a.len(),
    ensures
        b.contains(a[k]),
        a.len() == b.len(),
{
    a.to_multiset_ensures();
    b.to_multiset_ensures();
    assert(a.contains(a[k]));
    assert(a.to_multiset().count(a[k]) > 0);
}

/// At most `max_samples` samples, the classes taking turns, each in an order shuffled by the seed.
pub fn limit_samples_shuffled(samples: &[ImageSample], max_samples: usize, subset_seed: u64) -> (
limited: Vec<ImageSample>)
    requires
        forall|i: int| 0 <= i < samples@.len() ==> (#[trigger] samples@[i]).label < usize::MAX,
    ensures
        exists|classes: nat| #[trigger]
            is_class_count(labels_of(samples@), classes as int) && limited@ == picked(
                samples@,
                balanced_positions(
                    shuffled_buckets(labels_of(samples@), classes, subset_seed),
                    samples@.len(),
                    max_samples as nat,
                ),
            ),
        is_fair_limit(limited@, samples@, max_samples as nat),
        forall|k: int| 0 <= k < limited@.len() ==> samples@.contains(#[trigger] limited@[k]),
{
    let classes: usize = class_count(samples);
    if max_samples >= samples.len() {
        let positions = every_position(samples.len());
        assert(picked(samples@, positions@) =~= samples@);
        return copy_samples(samples, &positions);
    }
    let buckets = bucket_positions(samples, classes);
    let ghost labels = labels_of(samples@);
    let ghost plain = bucket_views(buckets@);
    let shuffled = shuffle_buckets(&buckets, subset_seed);
    proof {
        assert forall|c: int| 0 <= c < shuffled@.len() implies (#[trigger] shuffled@[c])@.len()
            <= samples@.len() && forall|k: int|
            0 <= k < shuffled@[c]@.len() ==> (#[trigger] shuffled@[c]@[k]) < samples@.len() by {
            assert(plain.len() == shuffled@.len());
            assert(plain[c] == buckets@[c]@);
            assert(plain[c] == positions_of(labels, c, labels.len()));
            lemma_positions(labels, c, labels.len());
            if shuffled@[c]@.len() > 0 {
                lemma_same_members(shuffled@[c]@, plain[c], 0);
            }
            assert forall|k: int| 0 <= k < shuffled@[c]@.len() implies (#[trigger] shuffled@[c]@[k])
                < samples@.len() by {
                lemma_same_members(shuffled@[c]@, plain[c], k);
            }
        }
        assert(plain.len() == classes && plain.len() == buckets@.len());
        assert(bucket_views(shuffled@) =~= shuffled_buckets(labels, classes as nat, subset_seed))
            by {
            assert forall|c: int| 0 <= c < classes implies bucket_views(shuffled@)[c]
                == shuffled_buckets(labels, classes as nat, subset_seed)[c] by {
                assert(plain.len() == shuffled@.len());
                assert(plain[c] == buckets@[c]@);
                assert(plain[c] == positions_of(labels, c, labels.len()));
                assert(shuffled@[c]@ == seeded_shuffle(plain[c], class_seed(subset_seed, c)));
            }
        }
        let views = bucket_views(shuffled@);
        assert forall|c: int| 0 <= c < classes implies (#[trigger] views[c]).to_multiset()
            == class_buckets(labels, classes as nat)[c].to_multiset() by {
            assert(plain[c] == buckets@[c]@);
            assert(views[c] == shuffled@[c]@);
        }
        lemma_reordered_class_positions(views, labels, classes as nat);
        law_balanced_positions_are_fair(samples@, views, max_samples as nat);
    }
    take_balanced(samples, &shuffled, max_samples)
}

/// The images of a class stand together behind those of the classes before it, in their order, each
/// with the number of its class.
pub proof fn law_images_keep_their_class_and_order(
    classes: Seq<Vec<String>>,
    n: nat,
    c: int,
    i: int,
)
    requires
        0 <= c < n <= classes.len(),
        0 <= i < classes[c]@.len(),
    ensures
        ({
            let all = labelled(classes, n);
            let first = labelled(classes, c as nat).len();
            &&& first + classes[c]@.len() == labelled(classes, (c + 1) as nat).len() <= all.len()
            &&& all[first + i].0 == classes[c]@[i]@
            &&& all[first + i].1 == c
        }),
    decreases n,
{
    if c < n - 1 {
        law_images_keep_their_class_and_order(classes, (n - 1) as nat, c, i);
    }
}

/// The positions of a label are listed in order, and exactly those that carry it.
pub proof fn law_positions_carry_their_label(labels: Seq<usize>, label: int, n: nat)
    requires
        n <= labels.len() <= usize::MAX,
    ensures
        crate::ordered::lists_exactly(
            positions_of(labels, label, n),
            |x: usize| x < n && labels[x as int] == label,
        ),
    decreases n,
{
    let listed = positions_of(labels, label, n);
    if n > 0 {
        let m = (n - 1) as nat;
        law_positions_carry_their_label(labels, label, m);
        let earlier = positions_of(labels, label, m);
        assert forall|x: usize| #[trigger] listed.contains(x) <==> (x < n && labels[x as int]
            == label) by {
            assert(earlier.contains(x) <==> (x < m && labels[x as int] == label));
            if labels[n - 1] == label {
                if earlier.contains(x) {
                    let i = earlier.index_of(x);
                    assert(listed[i] == x);
                }
                if x == n - 1 {
                    assert(listed[listed.len() - 1] == x);
                }
                if listed.contains(x) {
                    let i = listed.index_of(x);
                    if i < earlier.len() {
                        assert(earlier[i] == x);
                    }
                }
            }
        }
        assert forall|i: int, j: int| 0 <= i < j < listed.len() implies listed[i] < listed[j] by {
            assert(earlier.contains(earlier[i]));
            if j < earlier.len() {
                assert(listed[j] == earlier[j]);
            }
        }
    }
}

/// In each round every class that still has a member gives its next one, in the order of the classes.
pub proof fn law_rounds_take_the_classes_in_order(buckets: Seq<Seq<usize>>, rounds: nat)
    ensures
        round_robin(buckets, 0).len() == 0,
        round_robin(buckets, rounds + 1) == round_robin(buckets, rounds) + buckets.filter(
            |bucket: Seq<usize>| rounds < bucket.len(),
        ).map_values(|bucket: Seq<usize>| bucket[rounds as int]),
{
    lemma_round_is_filtered(buckets, buckets, rounds);
}

proof fn lemma_round_is_filtered(all: Seq<Seq<usize>>, buckets: Seq<Seq<usize>>, round: nat)
    requires
        buckets.len() <= all.len(),
        buckets =~= all.subrange(0, buckets.len() as int),
    ensures
        round_picks(all, round as int, buckets.len()) == buckets.filter(
            |bucket: Seq<usize>| round < bucket.len(),
        ).map_values(|bucket: Seq<usize>| bucket[round as int]),
    decreases buckets.len(),
{
    reveal(Seq::filter);
    let left = |bucket: Seq<usize>| round < bucket.len();
    let next = |bucket: Seq<usize>| bucket[round as int];
    if buckets.len() == 0 {
        assert(buckets.filter(left).map_values(next) =~= Seq::empty());
    } else {
        let rest = buckets.drop_last();
        assert(rest =~= all.subrange(0, rest.len() as int));
        lemma_round_is_filtered(all, rest, round);
        assert(buckets.last() == all[buckets.len() - 1]);
        if left(buckets.last()) {
            assert(buckets.filter(left) == rest.filter(left).push(buckets.last()));
            assert(rest.filter(left).push(buckets.last()).map_values(next) =~= rest.filter(
                left,
            ).map_values(next).push(buckets.last()[round as int]));
        } else {
            assert(buckets.filter(left) == rest.filter(left));
        }
    }
}

/// The seeds of neighbouring classes are one odd step apart, modulo the range of a seed, and a run's
/// own seed shifts them all in the same bits.
pub proof fn law_class_seeds_step_apart(seed: u64, other: u64, class: nat)
    ensures
        class_seed(0, -1) == 0,
        class_seed(0, class as int) == (class_seed(0, class - 1) + 0x9e37_79b9_7f4a_7c15)
            % 0x1_0000_0000_0000_0000,
        class_seed(seed, class as int) ^ class_seed(other, class as int) == seed ^ other,
        class_seed(seed, class as int) == seed ^ class_seed(0, class as int),
{
    let modulus = 0x1_0000_0000_0000_0000int;
    let step = 0x9e37_79b9_7f4a_7c15int;
    let before = (class as int * step % modulus) as u64;
    let own = ((class + 1) * step % modulus) as u64;
    assert((class + 1) * step == class as int * step + step) by (nonlinear_arith);
    vstd::arithmetic::div_mod::lemma_add_mod_noop(class as int * step, step, modulus);
    assert(0u64 ^ before == before && 0u64 ^ own == own && (seed ^ own) ^ (other ^ own) == seed
        ^ other && 0u64 ^ 0u64 == 0u64) by (bit_vector);
    assert(class_seed(0, class as int) == 0u64 ^ own);
    assert(class_seed(0, class - 1) == 0u64 ^ before);
    assert(0int * step % modulus == 0);
}

/// Labels have one number of classes: the smallest that every label is below.
pub proof fn law_classes_are_counted_tightly(labels: Seq<usize>, n: int, m: int)
    requires
        is_class_count(labels, n),
        0 <= m,
    ensures
        n <= m <==> forall|i: int| 0 <= i < labels.len() ==> (#[trigger] labels[i]) < m,
        is_class_count(labels, m) ==> m == n,
{
    if labels.len() > 0 {
        let i = choose|i: int| 0 <= i < labels.len() && #[trigger] labels[i] == n - 1;
        assert(labels[i] == n - 1);
        if is_class_count(labels, m) {
            let j = choose|j: int| 0 <= j < labels.len() && #[trigger] labels[j] == m - 1;
            assert(labels[j] == m - 1);
        }
    }
}

} // verus!
