use vstd::prelude::*;

verus! {

/// `p` is the path that starts at `start` and then applies `update` once per
/// entry of `noise`: state `i + 1` is what `update` returns on state `i` and
/// the noise drawn for step `i`.
pub open spec fn is_path_of<T, N, F: Fn(T, N) -> T>(
    update: F,
    start: T,
    noise: Seq<N>,
    p: Seq<T>,
) -> bool {
    &&& p.len() == noise.len() + 1
    &&& p[0] == start
    &&& forall|i: int|
        0 < i <= noise.len() ==> call_ensures(update, (p[i - 1], noise[i - 1]), #[trigger] p[i])
}

/// An update rule that allows at most one result for each state and noise value.
pub open spec fn is_deterministic<T, N, F: Fn(T, N) -> T>(update: F) -> bool {
    forall|s: T, w: N, u: T, v: T|
        call_ensures(update, (s, w), u) && call_ensures(update, (s, w), v) ==> u == v
}

/// Integrates one sample path: the start state, followed by one new state for
/// each noise value, in order. The path has `noise.len() + 1` states and its
/// first state is `start`.
pub fn integrate_path<T: Copy, N: Copy, F: Fn(T, N) -> T>(
    start: T,
    noise: &Vec<N>,
    update: F,
) -> (p: Vec<T>)
    requires
        forall|s: T, w: N| call_requires(update, (s, w)),
    ensures
        is_path_of(update, start, noise@, p@),
{
    let mut p: Vec<T> = Vec::new();
    p.push(start);
    let mut current = start;
    let mut i: usize = 0;
    while i < noise.len()
        invariant
            forall|s: T, w: N| call_requires(update, (s, w)),
            i <= noise@.len(),
            p@.len() == i + 1,
            p@[0] == start,
            current == p@[i as int],
            forall|j: int|
                0 < j <= i ==> call_ensures(update, (p@[j - 1], noise@[j - 1]), #[trigger] p@[j]),
        decreases noise@.len() - i,
    {
        let next = update(current, noise[i]);
        p.push(next);
        current = next;
        i = i + 1;
    }
    p
}

proof fn lemma_paths_agree_upto<T, N, F: Fn(T, N) -> T>(
    update: F,
    start: T,
    noise: Seq<N>,
    p: Seq<T>,
    q: Seq<T>,
    k: int,
)
    requires
        is_deterministic(update),
        is_path_of(update, start, noise, p),
        is_path_of(update, start, noise, q),
        0 <= k <= noise.len(),
    ensures
        p[k] == q[k],
    decreases k,
{
    if k > 0 {
        lemma_paths_agree_upto(update, start, noise, p, q, k - 1);
        assert(call_ensures(update, (p[k - 1], noise[k - 1]), p[k]));
        assert(call_ensures(update, (q[k - 1], noise[k - 1]), q[k]));
    }
}

/// With a deterministic update rule, a path is a function of its start state
/// and its noise: two paths integrated from the same start with the same
/// noise are equal.
pub proof fn lemma_path_deterministic<T, N, F: Fn(T, N) -> T>(
    update: F,
    start: T,
    noise: Seq<N>,
    p: Seq<T>,
    q: Seq<T>,
)
    requires
        is_deterministic(update),
        is_path_of(update, start, noise, p),
        is_path_of(update, start, noise, q),
    ensures
        p == q,
{
    assert forall|k: int| 0 <= k < p.len() implies p[k] == q[k] by {
        lemma_paths_agree_upto(update, start, noise, p, q, k);
    }
    assert(p =~= q);
}

} // verus!
