//! Partition of an input into contiguous slices, one per task.
use vstd::prelude::*;

verus! {

/// The task count used where the caller asks for zero tasks.
pub const DEFAULT_TASK_COUNT: usize = 4;

/// A contiguous view `[offset, offset + length)` into the input, the
/// `index`-th of its partition.
#[derive(Clone, Copy, Debug, PartialEq, Eq, Structural)]
pub struct Slice {
    pub index: usize,
    pub offset: usize,
    pub length: usize,
}

/// The task count that a requested count stands for: zero means the default.
pub open spec fn task_count_for(requested: nat) -> nat {
    if requested == 0 {
        DEFAULT_TASK_COUNT as nat
    } else {
        requested
    }
}

/// How many slices an input of `n` bytes is cut into for `requested` tasks:
/// never more than there are bytes, so that no slice is empty.
pub open spec fn slice_count(n: nat, requested: nat) -> nat {
    if task_count_for(requested) < n {
        task_count_for(requested)
    } else {
        n
    }
}

/// The `i`-th of `c` slices of `n` bytes: each has `n / c` bytes, and the last
/// one also the remainder `n % c`.
pub open spec fn planned_slice(n: nat, c: nat, i: nat) -> Slice {
    Slice {
        index: i as usize,
        offset: (i * (n / c)) as usize,
        length: (if i + 1 == c {
            n / c + n % c
        } else {
            n / c
        }) as usize,
    }
}

/// The slices that `n` bytes are cut into for `requested` tasks.
pub open spec fn plan(n: nat, requested: nat) -> Seq<Slice> {
    let c = slice_count(n, requested);
    Seq::new(c, |i: int| planned_slice(n, c, i as nat))
}

/// `s` cuts `[0, n)` into non-empty slices, each starting where the one
/// before it ends, numbered in order.
pub open spec fn is_partition(s: Seq<Slice>, n: nat) -> bool {
    &&& (s.len() == 0 <==> n == 0)
    &&& s.len() > 0 ==> s[0].offset == 0 && s.last().offset + s.last().length == n
    &&& forall|i: int|
        0 <= i < s.len() ==> (#[trigger] s[i]).index == i && s[i].length > 0
    &&& forall|i: int|
        0 < i < s.len() ==> (#[trigger] s[i]).offset == s[i - 1].offset + s[i - 1].length
}

/// The sum of the lengths of the slices.
pub open spec fn total_length(s: Seq<Slice>) -> nat
    decreases s.len(),
{
    if s.len() == 0 {
        0
    } else {
        total_length(s.drop_last()) + s.last().length as nat
    }
}

/// Returns the task count that `requested` stands for: zero is replaced by
/// the default, any other count is kept.
pub fn effective_task_count(requested: usize) -> (r: usize)
    ensures
        r == task_count_for(requested as nat),
        r >= 1,
{
    if requested == 0 {
        DEFAULT_TASK_COUNT
    } else {
        requested
    }
}

proof fn lemma_slice_bounds(n: nat, c: nat, i: nat)
    requires
        0 < c <= n,
        i < c,
    ensures
        i * (n / c) + n / c <= n,
        n / c >= 1,
        (i + 1) * (n / c) == i * (n / c) + n / c,
        i + 1 == c ==> i * (n / c) + n / c + n % c == n,
{
    assert(n == c * (n / c) + n % c) by (nonlinear_arith)
        requires
            c > 0,
    ;
    assert(n / c >= 1) by (nonlinear_arith)
        requires
            0 < c <= n,
    ;
    assert(i * (n / c) + n / c <= c * (n / c)) by (nonlinear_arith)
        requires
            i < c,
    ;
    let q = n / c;
    assert((i + 1) * q == i * q + q) by (nonlinear_arith);
    assert(i + 1 == c ==> i * q + q == c * q) by (nonlinear_arith);
}

proof fn lemma_plan_shape(n: nat, requested: nat)
    requires
        n <= usize::MAX,
    ensures
        is_partition(plan(n, requested), n),
        forall|i: int|
            0 <= i < plan(n, requested).len() ==> #[trigger] plan(n, requested)[i].offset + plan(
                n,
                requested,
            )[i].length <= n,
{
    let c = slice_count(n, requested);
    let s = plan(n, requested);
    if c > 0 {
        assert forall|j: int| 0 <= j < c implies #[trigger] s[j].offset + s[j].length <= n
            && s[j].index == j && s[j].length > 0 by {
            lemma_slice_bounds(n, c, j as nat);
        }
        assert forall|j: int| 0 < j < c implies (#[trigger] s[j]).offset == s[j - 1].offset
            + s[j - 1].length by {
            lemma_slice_bounds(n, c, (j - 1) as nat);
            lemma_slice_bounds(n, c, j as nat);
        }
        lemma_slice_bounds(n, c, (c - 1) as nat);
        lemma_slice_bounds(n, c, 0);
    }
}

/// Cuts `n` bytes into slices for `requested` tasks: `slice_count(n, requested)`
/// slices, each of `n / c` bytes but the last, which also takes `n % c`.
pub fn plan_slices(n: usize, requested: usize) -> (r: Vec<Slice>)
    ensures
        r@ == plan(n as nat, requested as nat),
        is_partition(r@, n as nat),
        forall|i: int| 0 <= i < r@.len() ==> #[trigger] r@[i].offset + r@[i].length <= n,
{
    proof {
        lemma_plan_shape(n as nat, requested as nat);
    }
    let k = effective_task_count(requested);
    let c = if k < n { k } else { n };
    let mut r: Vec<Slice> = Vec::new();
    if c == 0 {
        assert(r@ =~= plan(n as nat, requested as nat));
        return r;
    }
    let base = n / c;
    let rem = n % c;
    let mut i: usize = 0;
    while i < c
        invariant
            0 < c <= n,
            c == slice_count(n as nat, requested as nat),
            base == n / c,
            rem == n % c,
            i <= c,
            r@.len() == i,
            forall|j: int| 0 <= j < i ==> #[trigger] r@[j] == planned_slice(n as nat, c as nat, j as nat),
        decreases c - i,
    {
        proof {
            lemma_slice_bounds(n as nat, c as nat, i as nat);
        }
        let offset = i * base;
        let length = if i == c - 1 { base + rem } else { base };
        r.push(Slice { index: i, offset, length });
        i = i + 1;
    }
    assert(r@ =~= plan(n as nat, requested as nat));
    r
}

proof fn lemma_prefix_length(s: Seq<Slice>, n: nat, j: int)
    requires
        is_partition(s, n),
        0 <= j < s.len(),
    ensures
        total_length(s.take(j)) == s[j].offset,
    decreases j,
{
    if j > 0 {
        lemma_prefix_length(s, n, j - 1);
        assert(s.take(j).drop_last() =~= s.take(j - 1));
        assert(s[j].offset == s[j - 1].offset + s[j - 1].length);
    } else {
        assert(s.take(0) =~= Seq::<Slice>::empty());
    }
}

/// Every plan of `n` bytes for any task count is a partition of `[0, n)`:
/// contiguous, without gaps or overlaps, with lengths that sum to `n`; the
/// last of its `c` slices takes the remainder `n % c`.
pub proof fn lemma_plan_is_partition(n: nat, requested: nat)
    requires
        n <= usize::MAX,
    ensures
        is_partition(plan(n, requested), n),
        total_length(plan(n, requested)) == n,
        plan(n, requested).len() > 0 ==> plan(n, requested).last().length == n / plan(
            n,
            requested,
        ).len() + n % plan(n, requested).len(),
        forall|i: int, j: int|
            0 <= i < j < plan(n, requested).len() ==> #[trigger] plan(n, requested)[i].offset
                + plan(n, requested)[i].length <= #[trigger] plan(n, requested)[j].offset,
{
    lemma_plan_shape(n, requested);
    let s = plan(n, requested);
    if s.len() > 0 {
        let c = s.len();
        lemma_prefix_length(s, n, c - 1);
        assert(s =~= s.take(c - 1).push(s.last()));
        assert(s.drop_last() =~= s.take(c - 1));
        assert(s[c - 1] == planned_slice(n, c, (c - 1) as nat));
        let q = n / c;
        let r = n % c;
        assert(n == c * q + r && r >= 0 && q >= 0) by (nonlinear_arith)
            requires
                c > 0,
                q == n / c,
                r == n % c,
        ;
        assert(q + r <= n) by (nonlinear_arith)
            requires
                n == c * q + r,
                c >= 1,
                q >= 0,
        ;
    }
    assert forall|i: int, j: int| 0 <= i < j < s.len() implies #[trigger] s[i].offset + s[i].length
        <= #[trigger] s[j].offset by {
        lemma_offsets_grow(s, n, i, j);
    }
}

proof fn lemma_offsets_grow(s: Seq<Slice>, n: nat, i: int, j: int)
    requires
        is_partition(s, n),
        0 <= i < j < s.len(),
    ensures
        s[i].offset + s[i].length <= s[j].offset,
    decreases j - i,
{
    if j > i + 1 {
        lemma_offsets_grow(s, n, i, j - 1);
        assert(s[j].offset == s[j - 1].offset + s[j - 1].length);
    } else {
        assert(s[i + 1].offset == s[i].offset + s[i].length);
    }
}

} // verus!
