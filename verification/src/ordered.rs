//! Strictly increasing step lists: the normal form of every schedule in this crate.

use vstd::prelude::*;

verus! {

/// Every entry is smaller than each entry after it.
pub open spec fn strictly_increasing(s: Seq<usize>) -> bool {
    forall|i: int, j: int| 0 <= i < j < s.len() ==> s[i] < s[j]
}

/// `s` lists, in increasing order and once each, exactly the values that satisfy `keep`.
pub open spec fn lists_exactly(s: Seq<usize>, keep: spec_fn(usize) -> bool) -> bool {
    &&& strictly_increasing(s)
    &&& forall|x: usize| #[trigger] s.contains(x) <==> keep(x)
}

/// `s` is the sorted list, without repetition, of the values that occur in `source`.
pub open spec fn is_sorted_set_of(s: Seq<usize>, source: Seq<usize>) -> bool {
    lists_exactly(s, |x: usize| source.contains(x))
}

/// A value set has one strictly increasing listing: two lists with the same values are equal.
pub proof fn law_listing_is_unique(a: Seq<usize>, b: Seq<usize>)
    requires
        strictly_increasing(a),
        strictly_increasing(b),
        forall|x: usize| a.contains(x) <==> b.contains(x),
    ensures
        a == b,
    decreases a.len(),
{
    if a.len() == 0 {
        if b.len() > 0 {
            assert(b.contains(b[0]));
        }
        assert(a =~= b);
    } else {
        assert(a.contains(a.last()));
        assert(b.contains(a.last()));
        assert(b.contains(b.last()));
        assert(a.contains(b.last()));
        let i = choose|i: int| 0 <= i < b.len() && b[i] == a.last();
        let j = choose|j: int| 0 <= j < a.len() && a[j] == b.last();
        assert(a.last() == b.last()) by {
            if i < b.len() - 1 {
                assert(b[i] < b.last());
            }
            if j < a.len() - 1 {
                assert(a[j] < a.last());
            }
        }
        let a2 = a.drop_last();
        let b2 = b.drop_last();
        assert forall|x: usize| a2.contains(x) <==> b2.contains(x) by {
            if a2.contains(x) {
                let k = choose|k: int| 0 <= k < a2.len() && a2[k] == x;
                assert(a[k] == x);
                assert(a.contains(x));
                let m = choose|m: int| 0 <= m < b.len() && b[m] == x;
                assert(b2[m] == x);
            }
            if b2.contains(x) {
                let k = choose|k: int| 0 <= k < b2.len() && b2[k] == x;
                assert(b[k] == x);
                assert(b.contains(x));
                let m = choose|m: int| 0 <= m < a.len() && a[m] == x;
                assert(a2[m] == x);
            }
        }
        law_listing_is_unique(a2, b2);
        assert(a =~= a2.push(a.last()));
        assert(b =~= b2.push(b.last()));
    }
}

/// Inserts `value` into a strictly increasing list, unless it is there already.
pub fn insert_sorted(out: &mut Vec<usize>, value: usize)
    requires
        strictly_increasing(old(out)@),
    ensures
        strictly_increasing(final(out)@),
        forall|x: usize| #[trigger]
            final(out)@.contains(x) <==> (old(out)@.contains(x) || x == value),
        final(out)@.len() == old(out)@.len() + (if old(out)@.contains(value) {
            0int
        } else {
            1
        }),
{
    let mut pos: usize = 0;
    while pos < out.len() && out[pos] < value
        invariant
            pos <= out@.len(),
            out@ == old(out)@,
            forall|k: int| 0 <= k < pos ==> out@[k] < value,
        decreases out@.len() - pos,
    {
        pos += 1;
    }
    if pos < out.len() && out[pos] == value {
        assert(out@.contains(value));
        return;
    }
    let ghost before = out@;
    assert(forall|k: int| pos <= k < before.len() ==> value < before[k]);
    assert(!before.contains(value));
    out.insert(pos, value);
    assert(out@ =~= before.insert(pos as int, value));
    assert forall|x: usize| #[trigger] out@.contains(x) <==> (before.contains(x) || x == value) by {
        if before.contains(x) {
            let k = choose|k: int| 0 <= k < before.len() && before[k] == x;
            if k < pos {
                assert(out@[k] == x);
            } else {
                assert(out@[k + 1] == x);
            }
        }
        if x == value {
            assert(out@[pos as int] == value);
        }
        if out@.contains(x) {
            let k = choose|k: int| 0 <= k < out@.len() && out@[k] == x;
            if k < pos {
                assert(before[k] == x);
            } else if k > pos {
                assert(before[k - 1] == x);
            }
        }
    }
}

/// The values of `values` in increasing order, each once.
pub fn sorted_unique(values: &[usize]) -> (result: Vec<usize>)
    ensures
        is_sorted_set_of(result@, values@),
        result@.len() <= values@.len(),
{
    let mut out: Vec<usize> = Vec::new();
    let mut i: usize = 0;
    while i < values.len()
        invariant
            i <= values@.len(),
            strictly_increasing(out@),
            out@.len() <= i,
            forall|x: usize| #[trigger] out@.contains(x) <==> values@.take(i as int).contains(x),
        decreases values@.len() - i,
    {
        let ghost prior = values@.take(i as int);
        let value: usize = values[i];
        insert_sorted(&mut out, value);
        i += 1;
        proof {
            let now = values@.take(i as int);
            assert(now =~= prior.push(value));
            assert forall|x: usize| #[trigger] out@.contains(x) <==> now.contains(x) by {
                if prior.contains(x) {
                    let k = choose|k: int| 0 <= k < prior.len() && prior[k] == x;
                    assert(now[k] == x);
                }
                if x == value {
                    assert(now[i as int - 1] == x);
                }
                if now.contains(x) {
                    let k = choose|k: int| 0 <= k < now.len() && now[k] == x;
                    if k < i - 1 {
                        assert(prior[k] == x);
                    }
                }
            }
        }
    }
    assert(values@.take(i as int) =~= values@);
    out
}

/// Whether `ordered` holds every position of `keys` with its key, once, sorted by key and, for equal
/// keys, by position.
pub open spec fn is_stable_order(ordered: Seq<(usize, usize)>, keys: Seq<usize>) -> bool {
    &&& ordered.len() == keys.len()
    &&& forall|i: int, j: int|
        0 <= i < j < ordered.len() ==> {
            ||| (#[trigger] ordered[i]).1 < (#[trigger] ordered[j]).1
            ||| ordered[i].1 == ordered[j].1 && ordered[i].0 < ordered[j].0
        }
    &&& forall|i: int|
        0 <= i < ordered.len() ==> (#[trigger] ordered[i]).0 < keys.len() && ordered[i].1
            == keys[ordered[i].0 as int]
    &&& forall|s: int| 0 <= s < keys.len() ==> ordered.contains((s as usize, #[trigger] keys[s]))
}

/// The positions of `keys` with their keys, sorted by key; equal keys keep their order.
pub fn stable_order(keys: &[usize]) -> (ordered: Vec<(usize, usize)>)
    ensures
        is_stable_order(ordered@, keys@),
{
    let mut ordered: Vec<(usize, usize)> = Vec::new();
    let mut slot: usize = 0;
    while slot < keys.len()
        invariant
            slot <= keys@.len(),
            ordered@.len() == slot,
            forall|i: int, j: int|
                0 <= i < j < ordered@.len() ==> {
                    ||| (#[trigger] ordered@[i]).1 < (#[trigger] ordered@[j]).1
                    ||| ordered@[i].1 == ordered@[j].1 && ordered@[i].0 < ordered@[j].0
                },
            forall|i: int|
                0 <= i < ordered@.len() ==> (#[trigger] ordered@[i]).0 < slot && ordered@[i].1
                    == keys@[ordered@[i].0 as int],
            forall|s: int| 0 <= s < slot ==> ordered@.contains((s as usize, #[trigger] keys@[s])),
        decreases keys@.len() - slot,
    {
        let key: usize = keys[slot];
        let mut pos: usize = ordered.len();
        while pos > 0 && ordered[pos - 1].1 > key
            invariant
                pos <= ordered@.len(),
                forall|i: int| pos <= i < ordered@.len() ==> (#[trigger] ordered@[i]).1 > key,
            decreases pos,
        {
            pos -= 1;
        }
        let ghost before = ordered@;
        ordered.insert(pos, (slot, key));
        assert(ordered@ =~= before.insert(pos as int, (slot, key)));
        assert forall|i: int, j: int| 0 <= i < j < ordered@.len() implies {
            ||| (#[trigger] ordered@[i]).1 < (#[trigger] ordered@[j]).1
            ||| ordered@[i].1 == ordered@[j].1 && ordered@[i].0 < ordered@[j].0
        } by {
            let old_i = if i < pos {
                i
            } else {
                i - 1
            };
            let old_j = if j < pos {
                j
            } else {
                j - 1
            };
            if i == pos {
                assert(ordered@[j] == before[old_j]);
            } else if j == pos {
                assert(ordered@[i] == before[old_i]);
                if i < pos - 1 {
                    assert(before[i].1 <= before[pos - 1].1);
                }
            } else {
                assert(ordered@[i] == before[old_i]);
                assert(ordered@[j] == before[old_j]);
            }
        }
        assert forall|i: int| 0 <= i < ordered@.len() implies (#[trigger] ordered@[i]).0 < slot + 1
            && ordered@[i].1 == keys@[ordered@[i].0 as int] by {
            if i < pos {
                assert(ordered@[i] == before[i]);
            } else if i > pos {
                assert(ordered@[i] == before[i - 1]);
            }
        }
        assert forall|s: int| 0 <= s < slot + 1 implies ordered@.contains(
            (s as usize, #[trigger] keys@[s]),
        ) by {
            if s < slot {
                let entry = (s as usize, keys@[s]);
                assert(before.contains(entry));
                let k = choose|k: int| 0 <= k < before.len() && before[k] == entry;
                if k < pos {
                    assert(ordered@[k] == entry);
                } else {
                    assert(ordered@[k + 1] == entry);
                }
            } else {
                assert(ordered@[pos as int] == (slot, key));
            }
        }
        slot += 1;
    }
    ordered
}

} // verus!
