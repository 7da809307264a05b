use vstd::prelude::*;

verus! {

/// Relies on `rand::seq::index::sample` (with the thread-local generator):
/// it returns exactly `amount` distinct indices drawn from `0..length`, and
/// panics when `amount > length`.
#[verifier::external_body]
fn sample_distinct(length: usize, amount: usize) -> (r: Vec<usize>)
    requires
        amount <= length,
    ensures
        r@.len() == amount,
        r@.no_duplicates(),
        forall|i: int| 0 <= i < r@.len() ==> r@[i] < length,
{
    rand::seq::index::sample(&mut rand::thread_rng(), length, amount).into_vec()
}

/// `s` is in strictly increasing order.
pub open spec fn strictly_increasing(s: Seq<usize>) -> bool {
    forall|i: int, j: int| 0 <= i < j < s.len() ==> s[i] < s[j]
}

/// The entries of `drawn`, each shifted up by `low`, in increasing order.
///
/// The result has one entry per drawn value, strictly increasing, and holds
/// exactly the values `low + drawn[i]`.
pub fn sorted_offsets(low: usize, drawn: &Vec<usize>) -> (r: Vec<usize>)
    requires
        drawn@.no_duplicates(),
        forall|i: int| 0 <= i < drawn@.len() ==> low + #[trigger] drawn@[i] <= usize::MAX,
    ensures
        r@.len() == drawn@.len(),
        strictly_increasing(r@),
        forall|x: usize|
            #[trigger] r@.contains(x) <==> exists|i: int|
                0 <= i < drawn@.len() && x == low + #[trigger] drawn@[i],
{
    let count = drawn.len();
    let mut out: Vec<usize> = Vec::new();
    // The position in `drawn` that each entry of `out` came from.
    let ghost mut origin: Seq<int> = Seq::empty();
    let mut k: usize = 0;
    while k < count
        invariant
            count == drawn@.len(),
            drawn@.no_duplicates(),
            forall|i: int| 0 <= i < drawn@.len() ==> low + #[trigger] drawn@[i] <= usize::MAX,
            0 <= k <= count,
            out@.len() == k,
            origin.len() == k,
            strictly_increasing(out@),
            forall|q: int|
                0 <= q < k ==> 0 <= #[trigger] origin[q] < k && out@[q] == low + drawn@[origin[q]],
            forall|i: int| 0 <= i < k ==> out@.contains((low + #[trigger] drawn@[i]) as usize),
        decreases count - k,
    {
        let x = low + drawn[k];
        let mut p: usize = 0;
        while p < out.len() && out[p] < x
            invariant
                0 <= p <= out@.len(),
                forall|q: int| 0 <= q < p ==> out@[q] < x,
            decreases out@.len() - p,
        {
            p = p + 1;
        }
        proof {
            assert forall|q: int| 0 <= q < out@.len() implies out@[q] != x by {
                let o = origin[q];
                assert(drawn@[o] != drawn@[k as int]);
            }
        }
        let ghost before = out@;
        out.insert(p, x);
        proof {
            origin = origin.insert(p as int, k as int);
            assert forall|i: int, j: int| 0 <= i < j < out@.len() implies out@[i] < out@[j] by {
                if p < before.len() {
                    assert(before[p as int] > x);
                }
            }
            assert forall|i: int| 0 <= i < k + 1 implies out@.contains(
                (low + #[trigger] drawn@[i]) as usize,
            ) by {
                if i < k {
                    let v = (low + drawn@[i]) as usize;
                    assert(before.contains(v));
                    let q = choose|q: int| 0 <= q < before.len() && before[q] == v;
                    if q < p {
                        assert(out@[q] == v);
                    } else {
                        assert(out@[q + 1] == v);
                    }
                } else {
                    assert(out@[p as int] == x);
                }
            }
        }
        k = k + 1;
    }
    proof {
        assert forall|x: usize| #[trigger] out@.contains(x) implies exists|i: int|
            0 <= i < drawn@.len() && x == low + #[trigger] drawn@[i] by {
            let q = choose|q: int| 0 <= q < out@.len() && out@[q] == x;
            let o = origin[q];
            assert(x == low + drawn@[o]);
        }
    }
    out
}

/// Draws `count` distinct indices uniformly at random from `low..high` and
/// returns them in increasing order.
///
/// Whatever is drawn, the result has `count` entries, each in `low..high`,
/// strictly increasing (so no index repeats); `sorted_offsets` says which
/// entries a given draw yields.
pub fn random_range(low: usize, high: usize, count: usize) -> (r: Vec<usize>)
    requires
        low < high,
        count <= high - low,
    ensures
        r@.len() == count,
        strictly_increasing(r@),
        forall|i: int| 0 <= i < r@.len() ==> low <= #[trigger] r@[i] < high,
{
    let drawn = sample_distinct(high - low, count);
    let r = sorted_offsets(low, &drawn);
    proof {
        assert forall|i: int| 0 <= i < r@.len() implies low <= #[trigger] r@[i] < high by {
            assert(r@.contains(r@[i]));
        }
    }
    r
}

} // verus!
