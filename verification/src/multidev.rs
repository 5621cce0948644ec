//! Multi-device synchroniser: phase-locks the sample clocks of several
//! instruments running one test, so every device consumes sample `k` before
//! any device starts on sample `k + 1`. A device ahead of the pack is told
//! to skip its sample; a device at the minimum proceeds.

use vstd::prelude::*;

verus! {

#[derive(Debug, PartialEq, Eq, Structural)]
pub enum StepDirective {
    /// The caller must perform work as usual for this step.
    Proceed,
    /// The caller should skip this step.
    Skip,
}

/// One monotonic sample counter per device, with a lease flag per device so
/// that at most one `DeviceSynchroniser` exists per device id.
pub struct Synchroniser {
    counters: Vec<u64>,
    per_device_leases: Vec<bool>,
}

/// An exclusive lease on one device's slot of a `Synchroniser`.
#[derive(Debug)]
pub struct DeviceSynchroniser {
    pub device_id: usize,
}

impl Synchroniser {
    pub closed spec fn wf(&self) -> bool {
        self.counters@.len() == self.per_device_leases@.len()
    }

    pub closed spec fn device_count(&self) -> int {
        self.counters@.len() as int
    }

    pub closed spec fn counter(&self, i: int) -> u64 {
        self.counters@[i]
    }

    pub closed spec fn leased(&self, i: int) -> bool {
        self.per_device_leases@[i]
    }

    pub fn new(device_count: usize) -> (r: Synchroniser)
        ensures
            r.wf(),
            r.device_count() == device_count,
            forall|i: int| 0 <= i < device_count ==> #[trigger] r.counter(i) == 0,
            forall|i: int| 0 <= i < device_count ==> !(#[trigger] r.leased(i)),
    {
        let mut counters: Vec<u64> = Vec::new();
        let mut leases: Vec<bool> = Vec::new();
        let mut i: usize = 0;
        while i < device_count
            invariant
                i <= device_count,
                counters@.len() == i,
                leases@.len() == i,
                forall|j: int| 0 <= j < i ==> #[trigger] counters@[j] == 0,
                forall|j: int| 0 <= j < i ==> #[trigger] leases@[j] == false,
            decreases device_count - i,
        {
            counters.push(0);
            leases.push(false);
            i = i + 1;
        }
        Synchroniser { counters, per_device_leases: leases }
    }
}

impl Synchroniser {
    /// How many devices this synchroniser was created for.
    pub fn len(&self) -> (n: usize)
        requires
            self.wf(),
        ensures
            n == self.device_count(),
    {
        self.counters.len()
    }
}

/// The counters never drift more than one step apart.
pub open spec fn lock_step(s: Synchroniser) -> bool {
    forall|i: int, j: int|
        0 <= i < s.device_count() && 0 <= j < s.device_count() ==> #[trigger] s.counter(i)
            <= #[trigger] s.counter(j) + 1
}

/// Exactly what one `try_step` call for device `id` does to the counters:
/// a device at the common minimum advances by one and proceeds, any other
/// device (or a saturated counter) leaves the state unchanged and skips.
pub open spec fn try_step_transition(
    pre: Synchroniser,
    post: Synchroniser,
    id: int,
    r: StepDirective,
) -> bool {
    post.wf() && post.device_count() == pre.device_count() && (forall|i: int|
        0 <= i < pre.device_count() ==> #[trigger] post.leased(i) == pre.leased(i)) && {
        let c = pre.counter(id);
        if (forall|j: int| 0 <= j < pre.device_count() ==> c <= #[trigger] pre.counter(j)) && c
            < u64::MAX {
            r == StepDirective::Proceed && post.counter(id) == c + 1 && (forall|i: int|
                0 <= i < pre.device_count() && i != id ==> #[trigger] post.counter(i)
                    == pre.counter(i))
        } else {
            r == StepDirective::Skip && (forall|i: int|
                0 <= i < pre.device_count() ==> #[trigger] post.counter(i) == pre.counter(i))
        }
    }
}

impl DeviceSynchroniser {
    /// Takes the lease for `device_id`. Fails for an id out of bounds and
    /// for an id whose lease is already held: at most one lease per device
    /// can exist at a time.
    pub fn new(sync: &mut Synchroniser, device_id: usize) -> (r: Result<
        DeviceSynchroniser,
        String,
    >)
        requires
            old(sync).wf(),
        ensures
            final(sync).wf(),
            final(sync).device_count() == old(sync).device_count(),
            forall|i: int|
                0 <= i < old(sync).device_count() ==> #[trigger] final(sync).counter(i) == old(sync).counter(i),
            match r {
                Ok(ds) => ds.device_id == device_id && device_id < old(sync).device_count() && !old(sync).leased(device_id as int) && final(sync).leased(device_id as int) && (forall|i: int|
                    0 <= i < old(sync).device_count() && i != device_id
                        ==> #[trigger] final(sync).leased(i) == old(sync).leased(i)),
                Err(_) => (device_id >= old(sync).device_count() || old(sync).leased(device_id as int)) && (forall|i: int|
                    0 <= i < old(sync).device_count() ==> #[trigger] final(sync).leased(i) == old(sync).leased(i)),
            },
    {
        if device_id >= sync.per_device_leases.len() {
            return Err("Cannot obtain lease for out of bounds device".to_owned());
        }
        if sync.per_device_leases[device_id] {
            return Err("Lease for device is already held".to_owned());
        }
        sync.per_device_leases[device_id] = true;
        Ok(DeviceSynchroniser { device_id })
    }

    /// Advances this device's counter if it is at the common minimum.
    pub fn try_step(&self, sync: &mut Synchroniser) -> (r: StepDirective)
        requires
            old(sync).wf(),
            self.device_id < old(sync).device_count(),
        ensures
            try_step_transition(*old(sync), *final(sync), self.device_id as int, r),
    {
        let n = sync.counters.len();
        let mut min: u64 = u64::MAX;
        let mut i: usize = 0;
        while i < n
            invariant
                i <= n == sync.counters@.len(),
                forall|j: int| 0 <= j < i ==> min <= #[trigger] sync.counters@[j],
                min == u64::MAX || exists|j: int|
                    0 <= j < i && min == #[trigger] sync.counters@[j],
            decreases n - i,
        {
            let v = sync.counters[i];
            if v < min {
                min = v;
            }
            i = i + 1;
        }
        let c = sync.counters[self.device_id];
        if c <= min && c < u64::MAX {
            sync.counters[self.device_id] = c + 1;
            StepDirective::Proceed
        } else {
            proof {
                if c > min {
                    let j = choose|j: int| 0 <= j < n && min == #[trigger] sync.counters@[j];
                    assert(old(sync).counter(j) < c);
                }
            }
            StepDirective::Skip
        }
    }

    /// Returns the lease, permitting a later lease on the same device.
    pub fn release(self, sync: &mut Synchroniser)
        requires
            old(sync).wf(),
            self.device_id < old(sync).device_count(),
        ensures
            final(sync).wf(),
            final(sync).device_count() == old(sync).device_count(),
            forall|i: int|
                0 <= i < old(sync).device_count() ==> #[trigger] final(sync).counter(i) == old(sync).counter(i),
            !final(sync).leased(self.device_id as int),
            forall|i: int|
                0 <= i < old(sync).device_count() && i != self.device_id
                    ==> #[trigger] final(sync).leased(i) == old(sync).leased(i),
    {
        sync.per_device_leases[self.device_id] = false;
    }
}

/// A chain of `try_step` transitions: `states[k]` steps to `states[k + 1]`
/// for device `ids[k]` with verdict `results[k]`.
pub open spec fn step_trace(
    states: Seq<Synchroniser>,
    ids: Seq<int>,
    results: Seq<StepDirective>,
) -> bool {
    states.len() == ids.len() + 1 && results.len() == ids.len() && (forall|k: int|
        0 <= k < ids.len() ==> try_step_transition(
            #[trigger] states[k],
            states[k + 1],
            ids[k],
            results[k],
        ))
}

/// Device `i` occurs among the first `k` callers.
pub open spec fn appears_before(ids: Seq<int>, k: int, i: int) -> bool {
    exists|j: int| 0 <= j < k && #[trigger] ids[j] == i
}

/// `ids` is one distributed round: each of the `n` devices calls exactly
/// once, in any order.
pub open spec fn one_call_each(ids: Seq<int>, n: int) -> bool {
    ids.len() == n && (forall|a: int| 0 <= a < ids.len() ==> 0 <= #[trigger] ids[a] < n) && (
    forall|a: int, b: int|
        #![trigger ids[a], ids[b]]
        0 <= a < b < ids.len() ==> ids[a] != ids[b]) && (forall|i: int|
        0 <= i < n ==> #[trigger] appears_before(ids, ids.len() as int, i))
}

proof fn lemma_round_prefix(
    states: Seq<Synchroniser>,
    ids: Seq<int>,
    results: Seq<StepDirective>,
    m: u64,
    k: int,
)
    requires
        step_trace(states, ids, results),
        states[0].wf(),
        states[0].device_count() == ids.len(),
        m < u64::MAX,
        forall|i: int| 0 <= i < ids.len() ==> #[trigger] states[0].counter(i) == m,
        forall|a: int| 0 <= a < ids.len() ==> 0 <= #[trigger] ids[a] < ids.len(),
        forall|a: int, b: int|
            #![trigger ids[a], ids[b]]
            0 <= a < b < ids.len() ==> ids[a] != ids[b],
        0 <= k <= ids.len(),
    ensures
        forall|j: int| 0 <= j < k ==> #[trigger] results[j] == StepDirective::Proceed,
        states[k].wf(),
        states[k].device_count() == ids.len(),
        forall|i: int|
            0 <= i < ids.len() ==> #[trigger] states[k].counter(i) == (if appears_before(
                ids,
                k,
                i,
            ) {
                m + 1
            } else {
                m as int
            }),
    decreases k,
{
    if k == 0 {
        assert forall|i: int| 0 <= i < ids.len() implies #[trigger] states[0].counter(i) == (
        if appears_before(ids, 0, i) {
            m + 1
        } else {
            m as int
        }) by {
            assert(!appears_before(ids, 0, i));
        }
    } else {
        lemma_round_prefix(states, ids, results, m, k - 1);
        let id = ids[k - 1];
        let pre = states[k - 1];
        let post = states[k];
        assert(try_step_transition(pre, post, id, results[k - 1]));
        // this round's caller has not stepped yet, so it sits at the minimum
        assert(!appears_before(ids, k - 1, id)) by {
            if appears_before(ids, k - 1, id) {
                let j = choose|j: int| 0 <= j < k - 1 && #[trigger] ids[j] == id;
                assert(ids[j] != ids[k - 1]);
            }
        }
        assert(pre.counter(id) == m);
        assert forall|j2: int| 0 <= j2 < pre.device_count() implies pre.counter(id)
            <= #[trigger] pre.counter(j2) by {
            assert(pre.counter(j2) == (if appears_before(ids, k - 1, j2) {
                m + 1
            } else {
                m as int
            }));
        }
        assert(results[k - 1] == StepDirective::Proceed);
        assert forall|i: int| 0 <= i < ids.len() implies #[trigger] states[k].counter(i) == (
        if appears_before(ids, k, i) {
            m + 1
        } else {
            m as int
        }) by {
            if i == id {
                assert(0 <= k - 1 < k && ids[k - 1] == i);
                assert(appears_before(ids, k, i));
            } else {
                assert(post.counter(i) == pre.counter(i));
                if appears_before(ids, k, i) {
                    let j = choose|j: int| 0 <= j < k && #[trigger] ids[j] == i;
                    assert(j != k - 1);
                    assert(appears_before(ids, k - 1, i));
                } else {
                    assert(!appears_before(ids, k - 1, i)) by {
                        if appears_before(ids, k - 1, i) {
                            let j = choose|j: int| 0 <= j < k - 1 && #[trigger] ids[j] == i;
                            assert(appears_before(ids, k, i));
                        }
                    }
                }
            }
        }
    }
}

/// One distributed round is fair: starting from equal counters `m`, a round
/// in which each of the devices calls `try_step` exactly once - in any
/// order - has every call proceed and leaves every counter at `m + 1`.
/// Applied to `k` successive rounds this gives every device exactly `k`
/// Proceed verdicts and every counter the value `k` after `k` times `n`
/// round-distributed calls.
pub proof fn law_round_fairness(
    states: Seq<Synchroniser>,
    ids: Seq<int>,
    results: Seq<StepDirective>,
    m: u64,
)
    requires
        step_trace(states, ids, results),
        states[0].wf(),
        m < u64::MAX,
        one_call_each(ids, states[0].device_count()),
        forall|i: int| 0 <= i < ids.len() ==> #[trigger] states[0].counter(i) == m,
    ensures
        forall|j: int| 0 <= j < ids.len() ==> #[trigger] results[j] == StepDirective::Proceed,
        states.last().wf(),
        states.last().device_count() == states[0].device_count(),
        forall|i: int| 0 <= i < ids.len() ==> #[trigger] states.last().counter(i) == m + 1,
{
    let n = ids.len() as int;
    lemma_round_prefix(states, ids, results, m, n);
    assert(states.last() == states[n]);
    assert forall|i: int| 0 <= i < ids.len() implies #[trigger] states.last().counter(i) == m
        + 1 by {
        assert(appears_before(ids, n, i));
    }
}

/// A fresh synchroniser is in lock step.
pub proof fn law_lock_step_initial(s: Synchroniser)
    requires
        forall|i: int| 0 <= i < s.device_count() ==> #[trigger] s.counter(i) == 0,
    ensures
        lock_step(s),
{
}

/// `try_step` keeps the counters within one step of each other: a device
/// can only advance from the common minimum, so no device ever runs more
/// than one sample ahead of the slowest.
pub proof fn law_lock_step_preserved(
    pre: Synchroniser,
    post: Synchroniser,
    id: int,
    r: StepDirective,
)
    requires
        pre.wf(),
        0 <= id < pre.device_count(),
        lock_step(pre),
        try_step_transition(pre, post, id, r),
    ensures
        lock_step(post),
{
    let c = pre.counter(id);
    if (forall|j: int| 0 <= j < pre.device_count() ==> c <= #[trigger] pre.counter(j)) && c
        < u64::MAX {
        assert forall|i: int, j: int|
            0 <= i < post.device_count() && 0 <= j < post.device_count() implies #[trigger] post
            .counter(i) <= #[trigger] post.counter(j) + 1 by {
            assert(pre.counter(i) <= pre.counter(j) + 1);
            assert(c <= pre.counter(j));
        }
    } else {
        assert forall|i: int, j: int|
            0 <= i < post.device_count() && 0 <= j < post.device_count() implies #[trigger] post
            .counter(i) <= #[trigger] post.counter(j) + 1 by {
            assert(pre.counter(i) <= pre.counter(j) + 1);
        }
    }
}

} // verus!
