use vstd::prelude::*;
use vstd::arithmetic::div_mod::lemma_fundamental_div_mod_converse;

verus! {

/// The number of entries dropped from the front of a path: none when no
/// skip is given.
pub open spec fn skip_count(skip: Option<usize>) -> nat {
    match skip {
        Some(s) => s as nat,
        None => 0,
    }
}

/// The distance between two kept entries: every entry when no stride is given.
pub open spec fn stride_width(stride: Option<usize>) -> nat {
    match stride {
        Some(k) => k as nat,
        None => 1,
    }
}

/// `ceil(max(0, len - skip) / stride)`: how many entries the view keeps of a
/// path of `len` entries.
pub open spec fn view_len(len: nat, skip: nat, stride: nat) -> nat
    recommends
        stride > 0,
{
    if len <= skip {
        0
    } else {
        ((len - skip + stride - 1) as nat) / stride
    }
}

/// The view of a path: drop the first `skip` entries, then keep every
/// `stride`-th of the rest, starting with the first of them.
pub fn subsample<T: Copy>(path: &Vec<T>, skip: Option<usize>, stride: Option<usize>) -> (r: Vec<T>)
    requires
        stride != Some(0usize),
    ensures
        r@.len() == view_len(path@.len(), skip_count(skip), stride_width(stride)),
        forall|i: int|
            0 <= i < r@.len() ==> #[trigger] r@[i] == path@[skip_count(skip) + i * stride_width(
                stride,
            )],
{
    let s: usize = match skip {
        Some(s) => s,
        None => 0,
    };
    let k: usize = match stride {
        Some(k) => k,
        None => 1,
    };
    let len = path.len();
    let mut r: Vec<T> = Vec::new();
    if s < len {
        let mut i: usize = s;
        let mut done = false;
        while !done
            invariant
                k > 0,
                s < len,
                len == path@.len(),
                s <= i < len,
                !done ==> i == s + r@.len() * k,
                done ==> r@.len() > 0 && i == s + (r@.len() - 1) * k && len - i <= k,
                forall|j: int| 0 <= j < r@.len() ==> #[trigger] r@[j] == path@[s + j * k],
            decreases len - i + (if done { 0int } else { 1int }),
        {
            r.push(path[i]);
            if len - i <= k {
                done = true;
            } else {
                i = i + k;
            }
            proof {
                assert((r@.len() - 1) * k + k == r@.len() * k) by (nonlinear_arith);
            }
        }
        proof {
            let n = r@.len() as int;
            let x = (len - s + k - 1) as int;
            assert(n * k == (n - 1) * k + k) by (nonlinear_arith);
            lemma_fundamental_div_mod_converse(x, k as int, n, x - n * k);
        }
    }
    r
}

} // verus!
