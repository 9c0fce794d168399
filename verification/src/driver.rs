//! The handle-accounting driver model.
//!
//! [`Driver`] stands for the graphics driver plus the platform surface: it
//! issues handles from a strictly increasing counter, keeps a ledger of every
//! handle that is currently live, and records every call in an ordered trace.
//! All lifecycle logic of the engine is verified against this model; the
//! unverified platform layer replays the same calls against the real API.
//!
//! Allocation failure is modeled by an optional budget of remaining
//! successful creations, and present outcomes by a schedule, so that every
//! error path of the engine is reachable and exactly specified.

use vstd::prelude::*;

use crate::handles::{DriverOp, Handle, HandleKind, PipelineStage, PresentOutcome};

verus! {

/// One row of the driver ledger: a live handle, its kind, and the
/// driver-owned parent it is released together with (0 for none).
///
/// Only objects the driver itself owns through another object carry a
/// parent: swapchain images (parent: the chain), device queues (parent: the
/// device), command buffers (parent: their pool) and descriptor sets
/// (parent: their pool). Everything else must be destroyed explicitly.
#[derive(Clone, Copy, PartialEq, Eq, Structural, Debug)]
pub struct LiveEntry {
    pub handle: Handle,
    pub kind: HandleKind,
    pub parent: Handle,
}

/// A snapshot of the presentation surface's capabilities.
#[derive(Clone, Copy, PartialEq, Eq, Structural, Debug)]
pub struct Capabilities {
    pub min_image_count: u32,
    /// 0 means the driver reports no upper limit.
    pub max_image_count: u32,
    pub width: u32,
    pub height: u32,
    /// The surface format, as a driver-defined id.
    pub format: u32,
    /// The present mode, as a driver-defined id.
    pub present_mode: u32,
}

impl Capabilities {
    pub open spec fn wf(self) -> bool {
        &&& self.min_image_count >= 1
        &&& (self.max_image_count == 0 || self.max_image_count >= self.min_image_count)
    }

    /// The number of images a presentation chain built from this snapshot
    /// holds: one more than the required minimum (double buffering where the
    /// minimum is one), clamped to the reported maximum.
    pub open spec fn image_count(self) -> nat {
        let desired: nat = self.min_image_count as nat + 1;
        if self.max_image_count != 0 && desired > self.max_image_count as nat {
            self.max_image_count as nat
        } else {
            desired
        }
    }

    /// Executable form of [`Self::image_count`].
    pub fn image_count_exec(&self) -> (n: u64)
        requires
            self.wf(),
        ensures
            n as nat == self.image_count(),
            1 <= n <= u32::MAX as u64 + 1,
    {
        let desired: u64 = self.min_image_count as u64 + 1;
        if self.max_image_count != 0 && desired > self.max_image_count as u64 {
            self.max_image_count as u64
        } else {
            desired
        }
    }
}

/// One queue family of a physical device, reduced to the two capabilities
/// the engine selects on.
#[derive(Clone, Copy, PartialEq, Eq, Structural, Debug)]
pub struct QueueFamily {
    pub graphics: bool,
    pub present: bool,
}

/// What the driver reports about one physical device.
#[derive(Debug)]
pub struct PhysicalDeviceInfo {
    pub queue_families: Vec<QueueFamily>,
}

/// The remaining ledger after every entry with the given handle, or owned by
/// it, has been released.
pub open spec fn ledger_without(s: Seq<LiveEntry>, h: Handle) -> Seq<LiveEntry>
    decreases s.len(),
{
    if s.len() == 0 {
        s
    } else {
        let rest = ledger_without(s.drop_last(), h);
        if s.last().handle == h || s.last().parent == h {
            rest
        } else {
            rest.push(s.last())
        }
    }
}

/// An entry survives a release exactly when it neither is the released
/// handle nor is owned by it.
pub proof fn lemma_ledger_without_contains(s: Seq<LiveEntry>, h: Handle)
    ensures
        forall|e: LiveEntry|
            #[trigger] ledger_without(s, h).contains(e) <==> (s.contains(e) && e.handle != h
                && e.parent != h),
    decreases s.len(),
{
    if s.len() == 0 {
        assert forall|e: LiveEntry| !s.contains(e) by {}
    } else {
        lemma_ledger_without_contains(s.drop_last(), h);
        let rest = ledger_without(s.drop_last(), h);
        let last = s.last();
        assert forall|e: LiveEntry| #[trigger] s.contains(e) implies (s.drop_last().contains(e)
            || e == last) by {
            let i = choose|i: int| 0 <= i < s.len() && s[i] == e;
            if i < s.len() - 1 {
                assert(s.drop_last()[i] == e);
            }
        }
        assert forall|e: LiveEntry| s.drop_last().contains(e) implies #[trigger] s.contains(e) by {
            let i = choose|i: int| 0 <= i < s.drop_last().len() && s.drop_last()[i] == e;
            assert(s[i] == e);
        }
        assert(s[s.len() - 1] == last);
        assert(s.contains(last));
        if last.handle == h || last.parent == h {
            assert(ledger_without(s, h) == rest);
        } else {
            assert forall|e: LiveEntry| #[trigger] rest.push(last).contains(e) implies (
                rest.contains(e) || e == last) by {
                let i = choose|i: int| 0 <= i < rest.push(last).len() && rest.push(last)[i] == e;
                if i < rest.len() {
                    assert(rest[i] == e);
                }
            }
            assert forall|e: LiveEntry| rest.contains(e) implies #[trigger] rest.push(last)
                .contains(e) by {
                let i = choose|i: int| 0 <= i < rest.len() && rest[i] == e;
                assert(rest.push(last)[i] == e);
            }
            assert(rest.push(last)[rest.len() as int] == last);
            assert(rest.push(last).contains(last));
        }
    }
}

/// The budget left after spending `k` creations.
pub open spec fn budget_minus(b: Option<u64>, k: nat) -> Option<u64> {
    match b {
        Option::None => Option::None,
        Option::Some(x) => Option::Some((x - k) as u64),
    }
}

/// The handle-accounting driver model: handle ledger, ordered call trace,
/// failure budget, present-outcome schedule, and the platform surface state
/// (capabilities, physical devices).
pub struct Driver {
    /// The next handle id to issue; ids start at 1 and are never reused.
    pub next: Handle,
    /// Every handle that is currently live.
    pub live: Vec<LiveEntry>,
    /// Every driver call, in the order it was made.
    pub trace: Vec<DriverOp>,
    /// Remaining successful creations; `None` means creation never fails.
    pub budget: Option<u64>,
    /// Outcomes the next present calls report; exhausted entries mean success.
    pub present_schedule: Vec<PresentOutcome>,
    /// How many present outcomes have been consumed.
    pub present_pos: usize,
    /// Round-robin state for image acquisition.
    pub acquire_counter: u64,
    /// The physical devices the instance reports.
    pub physical_devices: Vec<PhysicalDeviceInfo>,
    /// The surface's current capability snapshot; a window resize replaces it.
    pub capabilities: Capabilities,
}

impl Driver {
    pub open spec fn inv(self) -> bool {
        &&& 1 <= self.next
        &&& forall|i: int|
            0 <= i < self.live@.len() ==> 1 <= (#[trigger] self.live@[i]).handle < self.next
                && self.live@[i].parent < self.live@[i].handle
        &&& forall|i: int, j: int|
            0 <= i < j < self.live@.len() ==> (#[trigger] self.live@[i]).handle != (
            #[trigger] self.live@[j]).handle
        &&& self.present_pos <= self.present_schedule@.len()
        &&& self.capabilities.wf()
        &&& forall|i: int|
            0 <= i < self.physical_devices@.len() ==> (#[trigger] self.physical_devices@[i]).queue_families@.len()
                <= u32::MAX
    }

    /// Whether a handle is currently live.
    pub open spec fn is_live(self, h: Handle) -> bool {
        exists|i: int| 0 <= i < self.live@.len() && (#[trigger] self.live@[i]).handle == h
    }

    /// Whether a handle is live with the given kind and parent.
    pub open spec fn has_entry(self, e: LiveEntry) -> bool {
        self.live@.contains(e)
    }

    /// Whether the driver can complete `k` further creations: the failure
    /// budget covers them and the id counter does not wrap.
    pub open spec fn can_create(self, k: nat) -> bool {
        &&& match self.budget {
            Option::None => true,
            Option::Some(b) => b >= k,
        }
        &&& self.next + k <= u64::MAX
    }

    /// Everything but the ledger, the trace and the budget is unchanged.
    pub open spec fn same_platform(self, other: Driver) -> bool {
        &&& self.present_schedule == other.present_schedule
        &&& self.present_pos == other.present_pos
        &&& self.acquire_counter == other.acquire_counter
        &&& self.physical_devices@ == other.physical_devices@
        &&& self.capabilities == other.capabilities
    }

    /// A fresh driver with nothing live: unlimited budget, empty trace, all
    /// present calls succeeding.
    pub fn new(physical_devices: Vec<PhysicalDeviceInfo>, capabilities: Capabilities) -> (d:
        Driver)
        requires
            capabilities.wf(),
            forall|i: int|
                0 <= i < physical_devices@.len() ==> (#[trigger] physical_devices@[i]).queue_families@.len()
                    <= u32::MAX,
        ensures
            d.inv(),
            d.next == 1,
            d.live@ == Seq::<LiveEntry>::empty(),
            d.trace@ == Seq::<DriverOp>::empty(),
            d.budget == Option::<u64>::None,
            d.present_schedule@ == Seq::<PresentOutcome>::empty(),
            d.present_pos == 0,
            d.acquire_counter == 0,
            d.physical_devices@ == physical_devices@,
            d.capabilities == capabilities,
    {
        Driver {
            next: 1,
            live: Vec::new(),
            trace: Vec::new(),
            budget: Option::None,
            present_schedule: Vec::new(),
            present_pos: 0,
            acquire_counter: 0,
            physical_devices,
            capabilities,
        }
    }

    /// Limit how many further creations succeed (`None`: unlimited).
    pub fn set_budget(&mut self, budget: Option<u64>)
        requires
            old(self).inv(),
        ensures
            final(self).inv(),
            *final(self) == (Driver { budget, ..*old(self) }),
    {
        self.budget = budget;
    }

    /// Schedule the outcomes the next present calls report.
    pub fn set_present_schedule(&mut self, schedule: Vec<PresentOutcome>)
        requires
            old(self).inv(),
        ensures
            final(self).inv(),
            *final(self) == (Driver {
                present_schedule: final(self).present_schedule,
                present_pos: 0,
                ..*old(self)
            }),
            final(self).present_schedule@ == schedule@,
    {
        self.present_schedule = schedule;
        self.present_pos = 0;
    }

    /// Replace the surface capability snapshot: the model of a window resize.
    pub fn set_capabilities(&mut self, capabilities: Capabilities)
        requires
            old(self).inv(),
            capabilities.wf(),
        ensures
            final(self).inv(),
            *final(self) == (Driver { capabilities, ..*old(self) }),
    {
        self.capabilities = capabilities;
    }

    /// Executable form of [`Self::can_create`].
    pub fn can_alloc(&self, k: u64) -> (r: bool)
        ensures
            r == self.can_create(k as nat),
    {
        let budget_ok = match self.budget {
            Option::None => true,
            Option::Some(b) => b >= k,
        };
        budget_ok && self.next <= u64::MAX - k
    }

    /// Issue a fresh handle of the given kind, live from now on.
    ///
    /// Retrieval of driver-owned sub-objects (swapchain images, device
    /// queues, command buffers, descriptor sets) passes the owner as
    /// `parent`; the entry is then released together with its owner.
    pub fn allocate(&mut self, kind: HandleKind, parent: Handle) -> (h: Handle)
        requires
            old(self).inv(),
            old(self).can_create(1),
            parent == 0 || old(self).is_live(parent),
        ensures
            final(self).inv(),
            h == old(self).next,
            1 <= h,
            !old(self).is_live(h),
            final(self).live@ == old(self).live@.push(LiveEntry { handle: h, kind, parent }),
            final(self).trace@ == old(self).trace@.push(DriverOp::Create(kind, h)),
            final(self).next == old(self).next + 1,
            final(self).budget == budget_minus(old(self).budget, 1),
            final(self).same_platform(*old(self)),
            forall|x: Handle| final(self).is_live(x) <==> (old(self).is_live(x) || x == h),
            forall|e: LiveEntry|
                #[trigger] final(self).has_entry(e) <==> (old(self).has_entry(e) || e
                    == LiveEntry { handle: h, kind, parent }),
    {
        let h = self.next;
        self.next = self.next + 1;
        self.live.push(LiveEntry { handle: h, kind, parent });
        self.trace.push(DriverOp::Create(kind, h));
        match self.budget {
            Option::None => {},
            Option::Some(b) => {
                self.budget = Option::Some(b - 1);
            },
        }
        proof {
            let entry = LiveEntry { handle: h, kind, parent };
            if parent != 0 {
                let pi = choose|pi: int|
                    0 <= pi < old(self).live@.len() && (#[trigger] old(self).live@[pi]).handle
                        == parent;
            }
            assert forall|x: Handle| final(self).is_live(x) implies (old(self).is_live(x) || x
                == h) by {
                let i = choose|i: int|
                    0 <= i < self.live@.len() && (#[trigger] self.live@[i]).handle == x;
                if i < self.live@.len() - 1 {
                    assert(old(self).live@[i].handle == x);
                }
            }
            assert forall|x: Handle| old(self).is_live(x) implies final(self).is_live(x) by {
                let i = choose|i: int|
                    0 <= i < old(self).live@.len() && (#[trigger] old(self).live@[i]).handle == x;
                assert(self.live@[i].handle == x);
            }
            assert(self.live@[self.live@.len() - 1].handle == h);
            assert forall|e: LiveEntry| #[trigger] final(self).has_entry(e) implies (old(
                self,
            ).has_entry(e) || e == entry) by {
                let i = choose|i: int| 0 <= i < self.live@.len() && self.live@[i] == e;
                if i < self.live@.len() - 1 {
                    assert(old(self).live@[i] == e);
                }
            }
            assert forall|e: LiveEntry| old(self).has_entry(e) implies final(self).has_entry(
                e,
            ) by {
                let i = choose|i: int| 0 <= i < old(self).live@.len() && old(self).live@[i] == e;
                assert(self.live@[i] == e);
            }
            assert(self.live@[self.live@.len() - 1] == entry);
        }
        h
    }

    /// Destroy a live handle: it leaves the ledger together with every entry
    /// the driver owns through it, and the call is recorded in the trace.
    pub fn destroy(&mut self, kind: HandleKind, h: Handle)
        requires
            old(self).inv(),
            old(self).is_live(h),
        ensures
            final(self).inv(),
            final(self).live@ == ledger_without(old(self).live@, h),
            final(self).trace@ == old(self).trace@.push(DriverOp::Destroy(kind, h)),
            final(self).next == old(self).next,
            final(self).budget == old(self).budget,
            final(self).same_platform(*old(self)),
            !final(self).is_live(h),
            forall|e: LiveEntry|
                #[trigger] final(self).has_entry(e) <==> (old(self).has_entry(e) && e.handle != h
                    && e.parent != h),
            forall|x: Handle|
                x != h ==> (final(self).is_live(x) ==> old(self).is_live(x)),
    {
        let mut kept: Vec<LiveEntry> = Vec::new();
        let n = self.live.len();
        let mut i: usize = 0;
        while i < n
            invariant
                n == self.live@.len(),
                0 <= i <= n,
                kept@ == ledger_without(self.live@.subrange(0, i as int), h),
            decreases n - i,
        {
            let e = self.live[i];
            proof {
                assert(self.live@.subrange(0, i + 1 as int).drop_last() =~= self.live@.subrange(
                    0,
                    i as int,
                ));
                assert(self.live@.subrange(0, i + 1 as int).last() == e);
            }
            if !(e.handle == h || e.parent == h) {
                kept.push(e);
            }
            i = i + 1;
        }
        proof {
            assert(self.live@.subrange(0, n as int) =~= self.live@);
            lemma_ledger_without_contains(self.live@, h);
        }
        self.live = kept;
        self.trace.push(DriverOp::Destroy(kind, h));
        proof {
            let lw = ledger_without(old(self).live@, h);
            assert(self.live@ == lw);
            assert forall|idx: int|
                0 <= idx < self.live@.len() implies 1 <= (#[trigger] self.live@[idx]).handle < self.next
                && self.live@[idx].parent < self.live@[idx].handle && self.live@[idx].handle != h by {
                assert(lw[idx] == self.live@[idx]);
                assert(lw.contains(lw[idx]));
                assert(old(self).live@.contains(lw[idx]));
                let j = choose|j: int|
                    0 <= j < old(self).live@.len() && old(self).live@[j] == lw[idx];
            }
            assert forall|a: int, b: int|
                0 <= a < b < self.live@.len() implies (#[trigger] self.live@[a]).handle != (
            #[trigger] self.live@[b]).handle by {
                lemma_ledger_without_distinct(old(self).live@, h);
                assert(self.live@[a] == lw[a] && self.live@[b] == lw[b]);
            }
            assert forall|x: Handle| final(self).is_live(x) implies old(self).is_live(x) by {
                let idx = choose|idx: int|
                    0 <= idx < self.live@.len() && (#[trigger] self.live@[idx]).handle == x;
                assert(lw[idx] == self.live@[idx]);
                assert(lw.contains(lw[idx]));
                assert(old(self).live@.contains(lw[idx]));
                let j = choose|j: int|
                    0 <= j < old(self).live@.len() && old(self).live@[j] == lw[idx];
                assert(old(self).live@[j].handle == x);
            }
        }
    }
}

/// Releasing a handle keeps the remaining ledger entries in order, so
/// distinctness of handles is preserved.
pub proof fn lemma_ledger_without_distinct(s: Seq<LiveEntry>, h: Handle)
    requires
        forall|i: int, j: int|
            0 <= i < j < s.len() ==> (#[trigger] s[i]).handle != (#[trigger] s[j]).handle,
    ensures
        forall|i: int, j: int|
            0 <= i < j < ledger_without(s, h).len() ==> (#[trigger] ledger_without(s, h)[i]).handle
                != (#[trigger] ledger_without(s, h)[j]).handle,
    decreases s.len(),
{
    if s.len() == 0 {
    } else {
        lemma_ledger_without_distinct(s.drop_last(), h);
        let rest = ledger_without(s.drop_last(), h);
        let last = s.last();
        if last.handle == h || last.parent == h {
        } else {
            lemma_ledger_without_contains(s.drop_last(), h);
            assert forall|i: int, j: int|
                0 <= i < j < rest.push(last).len() implies (#[trigger] rest.push(last)[i]).handle
                != (#[trigger] rest.push(last)[j]).handle by {
                if j < rest.len() {
                } else {
                    assert(rest.push(last)[j] == last);
                    assert(rest.contains(rest[i]));
                    assert(s.drop_last().contains(rest[i]));
                    let k = choose|k: int|
                        0 <= k < s.drop_last().len() && s.drop_last()[k] == rest[i];
                    assert(s[k] == rest[i]);
                    assert(s[s.len() - 1] == last);
                }
            }
        }
    }
}


/// The create calls for a run of handles, in order.
pub open spec fn create_ops(kind: HandleKind, hs: Seq<Handle>) -> Seq<DriverOp> {
    Seq::new(hs.len(), |i: int| DriverOp::Create(kind, hs[i]))
}

/// The destroy calls for a run of handles, in order.
pub open spec fn destroy_ops(kind: HandleKind, hs: Seq<Handle>) -> Seq<DriverOp> {
    Seq::new(hs.len(), |i: int| DriverOp::Destroy(kind, hs[i]))
}

/// The ledger entries for `count` handles issued consecutively from `start`.
pub open spec fn run_entries(kind: HandleKind, parent: Handle, start: Handle, count: nat) -> Seq<
    LiveEntry,
> {
    Seq::new(count, |j: int| LiveEntry { handle: (start + j) as u64, kind, parent })
}

/// A prefix of a run grows one element at a time.
proof fn lemma_prefix_contains_step(s: Seq<Handle>, j: int)
    requires
        0 <= j < s.len(),
    ensures
        forall|x: Handle|
            #[trigger] s.subrange(0, j + 1).contains(x) <==> (s.subrange(0, j).contains(x) || s[j]
                == x),
{
    assert forall|x: Handle| #[trigger] s.subrange(0, j + 1).contains(x) implies (s.subrange(
        0,
        j,
    ).contains(x) || s[j] == x) by {
        let i = choose|i: int| 0 <= i < j + 1 && #[trigger] s.subrange(0, j + 1)[i] == x;
        if i < j {
            assert(s.subrange(0, j)[i] == x);
        }
    }
    assert forall|x: Handle| s.subrange(0, j).contains(x) implies #[trigger] s.subrange(
        0,
        j + 1,
    ).contains(x) by {
        let i = choose|i: int| 0 <= i < j && #[trigger] s.subrange(0, j)[i] == x;
        assert(s.subrange(0, j + 1)[i] == x);
    }
    assert(s.subrange(0, j + 1)[j] == s[j]);
}

impl Driver {
    /// The ledger and the id counter and budget agree with `other`.
    pub open spec fn same_ledger(self, other: Driver) -> bool {
        &&& self.live@ == other.live@
        &&& self.next == other.next
        &&& self.budget == other.budget
    }

    /// The surface state (capabilities, physical devices) agrees with `other`.
    pub open spec fn same_surface(self, other: Driver) -> bool {
        &&& self.physical_devices@ == other.physical_devices@
        &&& self.capabilities == other.capabilities
    }

    /// A live entry's handle and parent are below the id counter.
    pub proof fn lemma_live_entry_bounds(self, e: LiveEntry)
        requires
            self.inv(),
            self.has_entry(e),
        ensures
            1 <= e.handle < self.next,
            e.parent < self.next,
    {
        let i = choose|i: int| 0 <= i < self.live@.len() && self.live@[i] == e;
        assert(self.live@[i].handle == e.handle);
    }

    /// A live entry's handle is live.
    pub proof fn lemma_has_entry_is_live(self, e: LiveEntry)
        requires
            self.has_entry(e),
        ensures
            self.is_live(e.handle),
    {
        let i = choose|i: int| 0 <= i < self.live@.len() && self.live@[i] == e;
        assert(self.live@[i].handle == e.handle);
    }

    /// A live handle has a live entry.
    pub proof fn lemma_is_live_entry(self, x: Handle)
        requires
            self.is_live(x),
        ensures
            exists|e: LiveEntry| #[trigger] self.has_entry(e) && e.handle == x,
    {
        let i = choose|i: int| 0 <= i < self.live@.len() && (#[trigger] self.live@[i]).handle == x;
        assert(self.live@.contains(self.live@[i]));
        assert(self.has_entry(self.live@[i]) && self.live@[i].handle == x);
    }

    /// Executable form of [`Self::is_live`].
    pub fn is_live_exec(&self, h: Handle) -> (r: bool)
        ensures
            r == self.is_live(h),
    {
        let n = self.live.len();
        let mut i: usize = 0;
        while i < n
            invariant
                n == self.live@.len(),
                0 <= i <= n,
                forall|j: int| 0 <= j < i ==> (#[trigger] self.live@[j]).handle != h,
            decreases n - i,
        {
            if self.live[i].handle == h {
                return true;
            }
            i = i + 1;
        }
        false
    }

    /// Issue a run of `count` handles of one kind with one parent, as one
    /// driver call does for swapchain images, command buffers and descriptor
    /// sets, and as a creation loop does for image views and framebuffers.
    pub fn allocate_run(&mut self, kind: HandleKind, parent: Handle, count: u64) -> (hs: Vec<
        Handle,
    >)
        requires
            old(self).inv(),
            old(self).can_create(count as nat),
            parent == 0 || old(self).is_live(parent),
        ensures
            final(self).inv(),
            hs@.len() == count,
            forall|j: int| 0 <= j < count ==> hs@[j] == old(self).next + j,
            final(self).live@ == old(self).live@ + run_entries(kind, parent, old(self).next, count as nat),
            final(self).trace@ == old(self).trace@ + create_ops(kind, hs@),
            final(self).next == old(self).next + count,
            final(self).budget == budget_minus(old(self).budget, count as nat),
            final(self).same_platform(*old(self)),
            forall|x: Handle|
                final(self).is_live(x) <==> (old(self).is_live(x) || (old(self).next <= x < old(
                    self,
                ).next + count)),
            forall|e: LiveEntry|
                #[trigger] final(self).has_entry(e) <==> (old(self).has_entry(e) || run_entries(
                    kind,
                    parent,
                    old(self).next,
                    count as nat,
                ).contains(e)),
    {
        let mut hs: Vec<Handle> = Vec::new();
        let start = self.next;
        let mut i: u64 = 0;
        while i < count
            invariant
                self.inv(),
                0 <= i <= count,
                old(self).can_create(count as nat),
                parent == 0 || self.is_live(parent),
                start == old(self).next,
                self.next == old(self).next + i,
                self.budget == budget_minus(old(self).budget, i as nat),
                hs@.len() == i,
                forall|j: int| 0 <= j < i ==> hs@[j] == old(self).next + j,
                self.live@ == old(self).live@ + run_entries(kind, parent, start, i as nat),
                self.trace@ == old(self).trace@ + create_ops(kind, hs@),
                self.same_platform(*old(self)),
                forall|x: Handle|
                    self.is_live(x) <==> (old(self).is_live(x) || (start <= x < start + i)),
            decreases count - i,
        {
            proof {
                assert(self.can_create(1)) by {
                    match old(self).budget {
                        Option::None => {},
                        Option::Some(b) => {},
                    }
                }
            }
            let h = self.allocate(kind, parent);
            hs.push(h);
            proof {
                assert(self.live@ =~= old(self).live@ + run_entries(
                    kind,
                    parent,
                    start,
                    (i + 1) as nat,
                ));
                assert(self.trace@ =~= old(self).trace@ + create_ops(kind, hs@));
            }
            i = i + 1;
        }
        proof {
            let entries = run_entries(kind, parent, start, count as nat);
            assert forall|e: LiveEntry| #[trigger] final(self).has_entry(e) implies (old(self).has_entry(e) || entries.contains(e)) by {
                let idx = choose|idx: int| 0 <= idx < self.live@.len() && self.live@[idx] == e;
                if idx < old(self).live@.len() {
                    assert(old(self).live@[idx] == e);
                } else {
                    assert(entries[idx - old(self).live@.len()] == e);
                }
            }
            assert forall|e: LiveEntry| old(self).has_entry(e) implies #[trigger] final(self).has_entry(e) by {
                let idx = choose|idx: int|
                    0 <= idx < old(self).live@.len() && old(self).live@[idx] == e;
                assert(self.live@[idx] == e);
            }
            assert forall|e: LiveEntry| entries.contains(e) implies #[trigger] final(self).has_entry(e) by {
                let idx = choose|idx: int| 0 <= idx < entries.len() && entries[idx] == e;
                assert(self.live@[old(self).live@.len() + idx] == e);
            }
        }
        hs
    }

    /// Destroy a run of live handles of one kind and parent, first to last:
    /// the release loop of a teardown.
    #[allow(unused_variables)]
    pub fn destroy_run(&mut self, kind: HandleKind, parent: Handle, hs: &Vec<Handle>)
        requires
            old(self).inv(),
            forall|j: int|
                0 <= j < hs@.len() ==> old(self).has_entry(
                    LiveEntry { handle: hs@[j], kind, parent },
                ),
            forall|a: int, b: int| 0 <= a < b < hs@.len() ==> hs@[a] != hs@[b],
            !hs@.contains(parent),
        ensures
            final(self).inv(),
            final(self).trace@ == old(self).trace@ + destroy_ops(kind, hs@),
            final(self).next == old(self).next,
            final(self).budget == old(self).budget,
            final(self).same_platform(*old(self)),
            forall|e: LiveEntry|
                #[trigger] final(self).has_entry(e) <==> (old(self).has_entry(e) && !hs@.contains(
                    e.handle,
                ) && !hs@.contains(e.parent)),
            forall|x: Handle|
                #[trigger] final(self).is_live(x) ==> (old(self).is_live(x) && !hs@.contains(x)),
    {
        let n = hs.len();
        let mut j: usize = 0;
        while j < n
            invariant
                self.inv(),
                n == hs@.len(),
                0 <= j <= n,
                forall|k: int|
                    0 <= k < hs@.len() ==> old(self).has_entry(
                        LiveEntry { handle: hs@[k], kind, parent },
                    ),
                forall|a: int, b: int| 0 <= a < b < hs@.len() ==> hs@[a] != hs@[b],
                !hs@.contains(parent),
                self.trace@ == old(self).trace@ + destroy_ops(kind, hs@.subrange(0, j as int)),
                self.next == old(self).next,
                self.budget == old(self).budget,
                self.same_platform(*old(self)),
                forall|e: LiveEntry|
                    #[trigger] self.has_entry(e) <==> (old(self).has_entry(e)
                        && !hs@.subrange(0, j as int).contains(e.handle)
                        && !hs@.subrange(0, j as int).contains(e.parent)),
            decreases n - j,
        {
            let h = hs[j];
            proof {
                let entry = LiveEntry { handle: h, kind, parent };
                assert(!hs@.subrange(0, j as int).contains(entry.handle)) by {
                    if hs@.subrange(0, j as int).contains(entry.handle) {
                        let a = choose|a: int|
                            0 <= a < j && hs@.subrange(0, j as int)[a] == entry.handle;
                        assert(hs@[a] == hs@[j as int]);
                    }
                }
                assert(!hs@.subrange(0, j as int).contains(entry.parent)) by {
                    if hs@.subrange(0, j as int).contains(entry.parent) {
                        let a = choose|a: int|
                            0 <= a < j && hs@.subrange(0, j as int)[a] == entry.parent;
                        assert(hs@[a] == parent);
                        assert(hs@.contains(parent));
                    }
                }
                assert(self.has_entry(entry));
                self.lemma_has_entry_is_live(entry);
            }
            self.destroy(kind, h);
            proof {
                lemma_prefix_contains_step(hs@, j as int);
                assert(self.trace@ =~= old(self).trace@ + destroy_ops(
                    kind,
                    hs@.subrange(0, j + 1 as int),
                ));
            }
            j = j + 1;
        }
        proof {
            assert(hs@.subrange(0, n as int) =~= hs@);
            assert forall|x: Handle| #[trigger] final(self).is_live(x) implies (old(
                self,
            ).is_live(x) && !hs@.contains(x)) by {
                let idx = choose|idx: int|
                    0 <= idx < self.live@.len() && (#[trigger] self.live@[idx]).handle == x;
                let e = self.live@[idx];
                assert(self.has_entry(e));
                (*old(self)).lemma_has_entry_is_live(e);
            }
        }
    }

    /// Block until the device and its queues are idle.
    pub fn wait_idle(&mut self)
        requires
            old(self).inv(),
        ensures
            final(self).inv(),
            final(self).trace@ == old(self).trace@.push(DriverOp::WaitIdle),
            final(self).same_ledger(*old(self)),
            final(self).same_platform(*old(self)),
    {
        self.trace.push(DriverOp::WaitIdle);
    }

    /// Start recording a command buffer.
    pub fn begin_command_buffer(&mut self, cb: Handle)
        requires
            old(self).inv(),
            old(self).is_live(cb),
        ensures
            final(self).inv(),
            final(self).trace@ == old(self).trace@.push(DriverOp::BeginCommandBuffer(cb)),
            final(self).same_ledger(*old(self)),
            final(self).same_platform(*old(self)),
    {
        self.trace.push(DriverOp::BeginCommandBuffer(cb));
    }

    /// End recording a command buffer.
    pub fn end_command_buffer(&mut self, cb: Handle)
        requires
            old(self).inv(),
            old(self).is_live(cb),
        ensures
            final(self).inv(),
            final(self).trace@ == old(self).trace@.push(DriverOp::EndCommandBuffer(cb)),
            final(self).same_ledger(*old(self)),
            final(self).same_platform(*old(self)),
    {
        self.trace.push(DriverOp::EndCommandBuffer(cb));
    }

    /// Submit one command buffer to a queue, waiting on a semaphore at the
    /// given stage (if any) and signaling a semaphore (if any).
    pub fn queue_submit(
        &mut self,
        queue: Handle,
        cb: Handle,
        wait_semaphore: Option<Handle>,
        wait_stage: Option<PipelineStage>,
        signal_semaphore: Option<Handle>,
    )
        requires
            old(self).inv(),
            old(self).is_live(queue),
            old(self).is_live(cb),
            (wait_semaphore matches Some(w) ==> old(self).is_live(w)),
            (signal_semaphore matches Some(g) ==> old(self).is_live(g)),
        ensures
            final(self).inv(),
            final(self).trace@ == old(self).trace@.push(
                DriverOp::QueueSubmit {
                    queue,
                    command_buffer: cb,
                    wait_semaphore,
                    wait_stage,
                    signal_semaphore,
                },
            ),
            final(self).same_ledger(*old(self)),
            final(self).same_platform(*old(self)),
    {
        self.trace.push(
            DriverOp::QueueSubmit {
                queue,
                command_buffer: cb,
                wait_semaphore,
                wait_stage,
                signal_semaphore,
            },
        );
    }

    /// Acquire the next presentable image of a chain with `image_count`
    /// images, waiting indefinitely and signaling the given semaphore; the
    /// model driver hands images out round-robin.
    pub fn acquire_next_image(&mut self, chain: Handle, image_count: u64,
        signal_semaphore: Handle) -> (idx: u64)
        requires
            old(self).inv(),
            old(self).is_live(chain),
            old(self).is_live(signal_semaphore),
            image_count >= 1,
        ensures
            final(self).inv(),
            idx == old(self).acquire_counter % image_count,
            idx < image_count,
            final(self).acquire_counter == idx + 1,
            final(self).trace@ == old(self).trace@.push(
                DriverOp::AcquireImage { chain, image_index: idx, signal_semaphore },
            ),
            final(self).same_ledger(*old(self)),
            final(self).same_surface(*old(self)),
            final(self).present_schedule@ == old(self).present_schedule@,
            final(self).present_pos == old(self).present_pos,
    {
        let idx = self.acquire_counter % image_count;
        self.acquire_counter = idx + 1;
        self.trace.push(DriverOp::AcquireImage { chain, image_index: idx, signal_semaphore });
        idx
    }

    /// The outcome the next present call reports.
    pub open spec fn next_present_outcome(self) -> PresentOutcome {
        if self.present_pos < self.present_schedule@.len() {
            self.present_schedule@[self.present_pos as int]
        } else {
            PresentOutcome::Success
        }
    }

    /// Present an image of a chain, waiting on the given semaphore; the
    /// outcome comes from the schedule, and an exhausted schedule means
    /// success.
    pub fn present(&mut self, chain: Handle, image_index: u64, wait_semaphore: Handle) -> (r:
        PresentOutcome)
        requires
            old(self).inv(),
            old(self).is_live(chain),
            old(self).is_live(wait_semaphore),
        ensures
            final(self).inv(),
            r == old(self).next_present_outcome(),
            final(self).trace@ == old(self).trace@.push(
                DriverOp::PresentImage { chain, image_index, wait_semaphore },
            ),
            final(self).same_ledger(*old(self)),
            final(self).same_surface(*old(self)),
            final(self).present_schedule@ == old(self).present_schedule@,
            final(self).present_pos == if old(self).present_pos < old(
                self,
            ).present_schedule@.len() {
                old(self).present_pos + 1
            } else {
                old(self).present_pos as int
            },
            final(self).acquire_counter == old(self).acquire_counter,
    {
        self.trace.push(DriverOp::PresentImage { chain, image_index, wait_semaphore });
        if self.present_pos < self.present_schedule.len() {
            let r = self.present_schedule[self.present_pos];
            self.present_pos = self.present_pos + 1;
            r
        } else {
            PresentOutcome::Success
        }
    }

    /// Update descriptor sets; the ledger is unchanged.
    pub fn update_descriptor_sets(&mut self, sets: &Vec<Handle>)
        requires
            old(self).inv(),
            forall|j: int| 0 <= j < sets@.len() ==> old(self).is_live(#[trigger] sets@[j]),
        ensures
            final(self).inv(),
            final(self).trace@ == old(self).trace@.push(DriverOp::UpdateDescriptorSets),
            final(self).same_ledger(*old(self)),
            final(self).same_platform(*old(self)),
    {
        self.trace.push(DriverOp::UpdateDescriptorSets);
    }
}

/// The remaining ledger after every entry owned by the given pool (but not
/// the pool itself) has been returned.
pub open spec fn ledger_reset(s: Seq<LiveEntry>, pool: Handle) -> Seq<LiveEntry>
    decreases s.len(),
{
    if s.len() == 0 {
        s
    } else {
        let rest = ledger_reset(s.drop_last(), pool);
        if s.last().parent == pool {
            rest
        } else {
            rest.push(s.last())
        }
    }
}

/// An entry survives a pool reset exactly when the pool does not own it.
pub proof fn lemma_ledger_reset_contains(s: Seq<LiveEntry>, pool: Handle)
    ensures
        forall|e: LiveEntry|
            #[trigger] ledger_reset(s, pool).contains(e) <==> (s.contains(e) && e.parent != pool),
    decreases s.len(),
{
    if s.len() == 0 {
    } else {
        lemma_ledger_reset_contains(s.drop_last(), pool);
        let rest = ledger_reset(s.drop_last(), pool);
        let last = s.last();
        assert forall|e: LiveEntry| #[trigger] s.contains(e) implies (s.drop_last().contains(e)
            || e == last) by {
            let i = choose|i: int| 0 <= i < s.len() && s[i] == e;
            if i < s.len() - 1 {
                assert(s.drop_last()[i] == e);
            }
        }
        assert forall|e: LiveEntry| s.drop_last().contains(e) implies #[trigger] s.contains(e) by {
            let i = choose|i: int| 0 <= i < s.drop_last().len() && s.drop_last()[i] == e;
            assert(s[i] == e);
        }
        assert(s[s.len() - 1] == last);
        assert(s.contains(last));
        if last.parent == pool {
        } else {
            assert forall|e: LiveEntry| #[trigger] rest.push(last).contains(e) implies (
                rest.contains(e) || e == last) by {
                let i = choose|i: int| 0 <= i < rest.push(last).len() && rest.push(last)[i] == e;
                if i < rest.len() {
                    assert(rest[i] == e);
                }
            }
            assert forall|e: LiveEntry| rest.contains(e) implies #[trigger] rest.push(last)
                .contains(e) by {
                let i = choose|i: int| 0 <= i < rest.len() && rest[i] == e;
                assert(rest.push(last)[i] == e);
            }
            assert(rest.push(last)[rest.len() as int] == last);
        }
    }
}

/// A pool reset keeps the surviving entries in order, so distinctness of
/// handles is preserved.
proof fn lemma_ledger_reset_distinct(s: Seq<LiveEntry>, pool: Handle)
    requires
        forall|i: int, j: int|
            0 <= i < j < s.len() ==> (#[trigger] s[i]).handle != (#[trigger] s[j]).handle,
    ensures
        forall|i: int, j: int|
            0 <= i < j < ledger_reset(s, pool).len() ==> (#[trigger] ledger_reset(s, pool)[i]).handle
                != (#[trigger] ledger_reset(s, pool)[j]).handle,
    decreases s.len(),
{
    if s.len() == 0 {
    } else {
        lemma_ledger_reset_distinct(s.drop_last(), pool);
        let rest = ledger_reset(s.drop_last(), pool);
        let last = s.last();
        if last.parent == pool {
        } else {
            lemma_ledger_reset_contains(s.drop_last(), pool);
            assert forall|i: int, j: int|
                0 <= i < j < rest.push(last).len() implies (#[trigger] rest.push(last)[i]).handle
                != (#[trigger] rest.push(last)[j]).handle by {
                if j < rest.len() {
                } else {
                    assert(rest.push(last)[j] == last);
                    assert(rest.contains(rest[i]));
                    assert(s.drop_last().contains(rest[i]));
                    let k = choose|k: int|
                        0 <= k < s.drop_last().len() && s.drop_last()[k] == rest[i];
                    assert(s[k] == rest[i]);
                    assert(s[s.len() - 1] == last);
                }
            }
        }
    }
}

impl Driver {
    /// Return every entry owned by a pool to the pool, keeping the pool
    /// itself; the given op records the call.
    fn release_pool_children(&mut self, pool: Handle, op: DriverOp)
        requires
            old(self).inv(),
            old(self).is_live(pool),
        ensures
            final(self).inv(),
            final(self).live@ == ledger_reset(old(self).live@, pool),
            final(self).trace@ == old(self).trace@.push(op),
            final(self).next == old(self).next,
            final(self).budget == old(self).budget,
            final(self).same_platform(*old(self)),
            final(self).is_live(pool),
            forall|e: LiveEntry|
                #[trigger] final(self).has_entry(e) <==> (old(self).has_entry(e) && e.parent
                    != pool),
    {
        let mut kept: Vec<LiveEntry> = Vec::new();
        let n = self.live.len();
        let mut i: usize = 0;
        while i < n
            invariant
                n == self.live@.len(),
                0 <= i <= n,
                kept@ == ledger_reset(self.live@.subrange(0, i as int), pool),
            decreases n - i,
        {
            let e = self.live[i];
            proof {
                assert(self.live@.subrange(0, i + 1 as int).drop_last() =~= self.live@.subrange(
                    0,
                    i as int,
                ));
                assert(self.live@.subrange(0, i + 1 as int).last() == e);
            }
            if e.parent != pool {
                kept.push(e);
            }
            i = i + 1;
        }
        proof {
            assert(self.live@.subrange(0, n as int) =~= self.live@);
            lemma_ledger_reset_contains(self.live@, pool);
        }
        self.live = kept;
        self.trace.push(op);
        proof {
            let lw = ledger_reset(old(self).live@, pool);
            assert(self.live@ == lw);
            assert forall|idx: int|
                0 <= idx < self.live@.len() implies 1 <= (#[trigger] self.live@[idx]).handle < self.next
                && self.live@[idx].parent < self.live@[idx].handle by {
                assert(lw[idx] == self.live@[idx]);
                assert(lw.contains(lw[idx]));
                assert(old(self).live@.contains(lw[idx]));
                let j = choose|j: int|
                    0 <= j < old(self).live@.len() && old(self).live@[j] == lw[idx];
            }
            assert forall|a: int, b: int|
                0 <= a < b < self.live@.len() implies (#[trigger] self.live@[a]).handle != (
            #[trigger] self.live@[b]).handle by {
                lemma_ledger_reset_distinct(old(self).live@, pool);
                assert(self.live@[a] == lw[a] && self.live@[b] == lw[b]);
            }
            let i = choose|i: int|
                0 <= i < old(self).live@.len() && (#[trigger] old(self).live@[i]).handle == pool;
            let pe = old(self).live@[i];
            assert(old(self).live@.contains(pe));
            assert(pe.parent != pool);
            assert(self.has_entry(pe));
            self.lemma_has_entry_is_live(pe);
        }
    }
}


impl Driver {
    /// Return every descriptor set owned by a pool to the pool, keeping the
    /// pool itself.
    pub fn reset_descriptor_pool(&mut self, pool: Handle)
        requires
            old(self).inv(),
            old(self).is_live(pool),
        ensures
            final(self).inv(),
            final(self).live@ == ledger_reset(old(self).live@, pool),
            final(self).trace@ == old(self).trace@.push(DriverOp::ResetDescriptorPool(pool)),
            final(self).next == old(self).next,
            final(self).budget == old(self).budget,
            final(self).same_platform(*old(self)),
            final(self).is_live(pool),
            forall|e: LiveEntry|
                #[trigger] final(self).has_entry(e) <==> (old(self).has_entry(e) && e.parent
                    != pool),
    {
        self.release_pool_children(pool, DriverOp::ResetDescriptorPool(pool));
    }

    /// Return every command buffer owned by a pool to the pool, keeping the
    /// pool itself.
    pub fn reset_command_pool(&mut self, pool: Handle)
        requires
            old(self).inv(),
            old(self).is_live(pool),
        ensures
            final(self).inv(),
            final(self).live@ == ledger_reset(old(self).live@, pool),
            final(self).trace@ == old(self).trace@.push(DriverOp::ResetCommandPool(pool)),
            final(self).next == old(self).next,
            final(self).budget == old(self).budget,
            final(self).same_platform(*old(self)),
            final(self).is_live(pool),
            forall|e: LiveEntry|
                #[trigger] final(self).has_entry(e) <==> (old(self).has_entry(e) && e.parent
                    != pool),
    {
        self.release_pool_children(pool, DriverOp::ResetCommandPool(pool));
    }
}

} // verus!
