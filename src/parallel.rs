//! Fan-out of an input over slice tasks, and fan-in of their digests into one.
use vstd::prelude::*;
use vstd::slice::slice_subrange;
use crate::digest::{absorbed, format_digest, formatted, hasher_finalize, hasher_new, hasher_update, md5_of};
use crate::plan::{effective_task_count, plan, plan_slices, planned_slice, slice_count, task_count_for, Slice};

verus! {

/// The bytes of `b` that slice `s` covers.
pub open spec fn slice_bytes(b: Seq<u8>, s: Slice) -> Seq<u8> {
    b.subrange(s.offset as int, s.offset + s.length)
}

/// The digest of each slice of `b` planned for `k` tasks, in slice order.
pub open spec fn slice_digests(b: Seq<u8>, k: nat) -> Seq<Seq<u8>> {
    plan(b.len(), k).map_values(|s: Slice| md5_of(slice_bytes(b, s)))
}

/// The two-level digest: MD5 of the slice digests concatenated in slice order.
pub open spec fn parallel_digest(b: Seq<u8>, k: nat) -> Seq<u8> {
    md5_of(slice_digests(b, k).flatten())
}

/// Hashes the bytes of one slice.
pub fn digest_slice(data: &[u8], s: Slice) -> (r: Vec<u8>)
    requires
        s.offset + s.length <= data@.len(),
    ensures
        r@ == md5_of(slice_bytes(data@, s)),
{
    let _n = data.len();
    let mut h = hasher_new();
    hasher_update(&mut h, slice_subrange(data, s.offset, s.offset + s.length));
    assert(absorbed(h) =~= slice_bytes(data@, s));
    hasher_finalize(h)
}

/// The result slots of the slice tasks: each task owns the slot at its slice
/// index, so what the table holds does not depend on the order in which the
/// tasks finish.
pub struct SlotTable {
    slots: Vec<Option<Vec<u8>>>,
}

/// The slot contents as digests.
pub open spec fn slots_view(s: Seq<Option<Vec<u8>>>) -> Seq<Option<Seq<u8>>> {
    s.map_values(|o: Option<Vec<u8>>| match o {
        Some(d) => Some(d@),
        None => None,
    })
}

impl View for SlotTable {
    type V = Seq<Option<Seq<u8>>>;

    closed spec fn view(&self) -> Seq<Option<Seq<u8>>> {
        slots_view(self.slots@)
    }
}

/// Every slot is filled.
pub open spec fn all_filled(s: Seq<Option<Seq<u8>>>) -> bool {
    forall|i: int| 0 <= i < s.len() ==> (#[trigger] s[i]) is Some
}

/// The digests of a table whose slots are all filled.
pub open spec fn filled_digests(s: Seq<Option<Seq<u8>>>) -> Seq<Seq<u8>> {
    s.map_values(|o: Option<Seq<u8>>| o.unwrap())
}

impl SlotTable {
    /// A table of `count` empty slots.
    pub fn new(count: usize) -> (r: SlotTable)
        ensures
            r@ == Seq::new(count as nat, |i: int| None::<Seq<u8>>),
    {
        let mut slots: Vec<Option<Vec<u8>>> = Vec::new();
        let mut i: usize = 0;
        while i < count
            invariant
                i <= count,
                slots@.len() == i,
                forall|j: int| 0 <= j < i ==> (#[trigger] slots@[j]) is None,
            decreases count - i,
        {
            slots.push(None);
            i = i + 1;
        }
        assert(slots_view(slots@) =~= Seq::new(count as nat, |i: int| None::<Seq<u8>>));
        SlotTable { slots }
    }

    /// The number of slots.
    pub fn len(&self) -> (r: usize)
        ensures
            r == self@.len(),
    {
        self.slots.len()
    }

    /// Records the digest of the slice with the given index in its own slot.
    pub fn record(&mut self, index: usize, digest: Vec<u8>)
        requires
            index < old(self)@.len(),
        ensures
            final(self)@ == old(self)@.update(index as int, Some(digest@)),
    {
        let ghost d = digest@;
        self.slots.set(index, Some(digest));
        assert(slots_view(self.slots@) =~= old(self)@.update(index as int, Some(d)));
    }

    /// Whether every slot is filled.
    pub fn is_complete(&self) -> (r: bool)
        ensures
            r == all_filled(self@),
    {
        let mut i: usize = 0;
        while i < self.slots.len()
            invariant
                i <= self@.len(),
                self@.len() == self.slots@.len(),
                forall|j: int| 0 <= j < i ==> (#[trigger] self@[j]) is Some,
            decreases self.slots@.len() - i,
        {
            if self.slots[i].is_none() {
                assert(self@[i as int] is None);
                return false;
            }
            i = i + 1;
        }
        true
    }

    /// Once every slot is filled, the MD5 of the slot digests concatenated in
    /// slot order; `None` while some slot is still empty.
    pub fn combined_digest(&self) -> (r: Option<Vec<u8>>)
        ensures
            r is Some <==> all_filled(self@),
            r matches Some(d) ==> d@ == md5_of(filled_digests(self@).flatten()),
    {
        if !self.is_complete() {
            return None;
        }
        let mut h = hasher_new();
        let mut i: usize = 0;
        while i < self.slots.len()
            invariant
                i <= self@.len(),
                self@.len() == self.slots@.len(),
                all_filled(self@),
                absorbed(h) == filled_digests(self@).take(i as int).flatten_alt(),
            decreases self.slots@.len() - i,
        {
            assert(self@[i as int] is Some);
            match &self.slots[i] {
                Some(d) => {
                    hasher_update(&mut h, d.as_slice());
                },
                None => {},
            }
            assert(filled_digests(self@).take(i + 1).drop_last() =~= filled_digests(self@).take(i as int));
            i = i + 1;
        }
        assert(filled_digests(self@).take(i as int) =~= filled_digests(self@));
        proof {
            filled_digests(self@).lemma_flatten_and_flatten_alt_are_equivalent();
        }
        Some(hasher_finalize(h))
    }
}

/// Whatever order the slice tasks finish in, each records its digest in its
/// own slot, so the filled table is the same: slot `i` holds the digest of
/// slice `i`.
pub open spec fn after_completions(k: nat, order: Seq<nat>, digests: Seq<Seq<u8>>) -> Seq<
    Option<Seq<u8>>,
>
    decreases order.len(),
{
    if order.len() == 0 {
        Seq::new(k, |i: int| None::<Seq<u8>>)
    } else {
        after_completions(k, order.drop_last(), digests).update(
            order.last() as int,
            Some(digests[order.last() as int]),
        )
    }
}

/// `order` lists task indices below `k`, each of them at least once.
pub open spec fn covers_all_tasks(order: Seq<nat>, k: nat) -> bool {
    &&& forall|j: int| 0 <= j < order.len() ==> #[trigger] order[j] < k
    &&& forall|i: nat| i < k ==> #[trigger] order.contains(i)
}

proof fn lemma_after_completions(k: nat, order: Seq<nat>, digests: Seq<Seq<u8>>)
    requires
        forall|j: int| 0 <= j < order.len() ==> #[trigger] order[j] < k,
        digests.len() == k,
    ensures
        after_completions(k, order, digests).len() == k,
        forall|i: int|
            0 <= i < k ==> #[trigger] after_completions(k, order, digests)[i] == if order.contains(
                i as nat,
            ) {
                Some(digests[i])
            } else {
                None
            },
    decreases order.len(),
{
    if order.len() > 0 {
        let rest = order.drop_last();
        assert forall|j: int| 0 <= j < rest.len() implies #[trigger] rest[j] < k by {
            assert(rest[j] == order[j]);
        }
        lemma_after_completions(k, rest, digests);
        assert forall|i: int| 0 <= i < k implies #[trigger] after_completions(k, order, digests)[i]
            == if order.contains(i as nat) {
            Some(digests[i])
        } else {
            None
        } by {
            if order.contains(i as nat) && i != order.last() {
                let j = choose|j: int| 0 <= j < order.len() && order[j] == i as nat;
                assert(rest[j] == i as nat);
            }
            if rest.contains(i as nat) {
                let j = choose|j: int| 0 <= j < rest.len() && rest[j] == i as nat;
                assert(order[j] == i as nat);
            }
            if i == order.last() {
                assert(order[order.len() - 1] == i as nat);
            }
        }
    }
}

/// Two completion orders of the same `k` slice tasks leave the same table:
/// slot `i` holds the digest of slice `i`.
pub proof fn lemma_completion_order_irrelevant(
    k: nat,
    first: Seq<nat>,
    second: Seq<nat>,
    digests: Seq<Seq<u8>>,
)
    requires
        digests.len() == k,
        covers_all_tasks(first, k),
        covers_all_tasks(second, k),
    ensures
        after_completions(k, first, digests) == after_completions(k, second, digests),
        all_filled(after_completions(k, first, digests)),
        filled_digests(after_completions(k, first, digests)) == digests,
{
    lemma_after_completions(k, first, digests);
    lemma_after_completions(k, second, digests);
    assert forall|i: int| 0 <= i < k implies #[trigger] after_completions(k, first, digests)[i]
        == Some(digests[i]) by {
        assert(first.contains(i as nat));
    }
    assert forall|i: int| 0 <= i < k implies #[trigger] after_completions(k, second, digests)[i]
        == Some(digests[i]) by {
        assert(second.contains(i as nat));
    }
    assert(after_completions(k, first, digests) =~= after_completions(k, second, digests));
    assert(filled_digests(after_completions(k, first, digests)) =~= digests);
}

/// With a single task the digest is still two-level: the MD5 of the MD5 of
/// the whole input.
pub proof fn lemma_single_task_composes(b: Seq<u8>)
    requires
        0 < b.len() <= usize::MAX,
    ensures
        parallel_digest(b, 1) == md5_of(md5_of(b)),
{
    let ds = slice_digests(b, 1);
    assert(slice_count(b.len(), 1) == 1);
    assert(b.len() / 1 == b.len() && b.len() % 1 == 0) by (nonlinear_arith)
        requires
            b.len() > 0,
    ;
    assert(slice_bytes(b, planned_slice(b.len(), 1, 0)) =~= b);
    assert(ds =~= seq![md5_of(b)]);
    ds.lemma_flatten_one_element();
}

/// MD5 calculator that cuts its input into slices and hashes them as
/// independent tasks.
pub struct Md5Calculator {
    task_count: usize,
    enable_log: bool,
}

impl Md5Calculator {
    /// The task count the calculator was made with.
    pub closed spec fn spec_task_count(&self) -> nat {
        self.task_count as nat
    }

    /// Whether diagnostic logging is on.
    pub closed spec fn spec_log_enabled(&self) -> bool {
        self.enable_log
    }

    /// A calculator for `task_count` tasks (zero stands for the default),
    /// with logging off.
    pub fn new(task_count: usize) -> (r: Md5Calculator)
        ensures
            r.spec_task_count() == task_count_for(task_count as nat),
            !r.spec_log_enabled(),
    {
        Md5Calculator { task_count: effective_task_count(task_count), enable_log: false }
    }

    /// The two-level digest of `data` as hex cut to `md5_length` characters:
    /// the slice tasks run to completion, each records its digest in its own
    /// slot, and the slot digests are hashed in slice order. Empty input gives
    /// the empty string.
    pub fn calculate_md5_async(&self, data: &[u8], md5_length: usize) -> (r: String)
        ensures
            data@.len() == 0 ==> r@ == Seq::<char>::empty(),
            data@.len() > 0 ==> r@ == formatted(
                parallel_digest(data@, self.spec_task_count()),
                md5_length as nat,
            ),
    {
        let n = data.len();
        if n == 0 {
            return String::new();
        }
        let slices = plan_slices(n, self.task_count);
        let ghost c = slices@.len() as nat;
        let ghost expected = slice_digests(data@, self.task_count as nat);
        let mut table = SlotTable::new(slices.len());
        let mut i: usize = 0;
        while i < slices.len()
            invariant
                n == data@.len(),
                c == slices@.len(),
                slices@ == plan(n as nat, self.task_count as nat),
                expected == slice_digests(data@, self.task_count as nat),
                expected.len() == c,
                forall|j: int| 0 <= j < c ==> #[trigger] slices@[j].offset + slices@[j].length <= n,
                i <= c,
                table@.len() == c,
                forall|j: int| 0 <= j < i ==> #[trigger] table@[j] == Some(expected[j]),
            decreases c - i,
        {
            let d = digest_slice(data, slices[i]);
            assert(d@ == expected[i as int]);
            table.record(i, d);
            i = i + 1;
        }
        assert(filled_digests(table@) =~= expected);
        match table.combined_digest() {
            Some(d) => format_digest(d.as_slice(), md5_length),
            None => String::new(),
        }
    }

    /// The task count the calculator uses.
    pub fn get_task_count(&self) -> (r: usize)
        ensures
            r == self.spec_task_count(),
    {
        self.task_count
    }

    /// Whether diagnostic logging is on.
    pub fn is_log_enabled(&self) -> (r: bool)
        ensures
            r == self.spec_log_enabled(),
    {
        self.enable_log
    }

    /// Turns diagnostic logging on or off; the task count is kept.
    pub fn set_log_enabled(&mut self, enable: bool)
        ensures
            final(self).spec_log_enabled() == enable,
            final(self).spec_task_count() == old(self).spec_task_count(),
    {
        self.enable_log = enable;
    }
}

/// The single-pass MD5 digest of `data` as hex cut to `md5_length`
/// characters. Empty input gives the empty string. Logging has no effect on
/// the result.
pub fn calculate_md5_single_async(data: &[u8], md5_length: usize, enable_log: bool) -> (r: String)
    ensures
        data@.len() == 0 ==> r@ == Seq::<char>::empty(),
        data@.len() > 0 ==> r@ == formatted(md5_of(data@), md5_length as nat),
{
    if data.len() == 0 {
        return String::new();
    }
    let mut h = hasher_new();
    hasher_update(&mut h, data);
    assert(absorbed(h) =~= data@);
    let d = hasher_finalize(h);
    format_digest(d.as_slice(), md5_length)
}

} // verus!
