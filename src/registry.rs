use vstd::prelude::*;
use crate::error::MemoryError;

verus! {

/// An attached target and the process it belongs to.
pub struct Slot<T> {
    pub pid: u32,
    pub target: T,
}

/// The attached targets, indexed by handle. A detached target leaves an empty
/// slot behind, so a handle is never given out twice.
pub struct TargetRegistry<T> {
    slots: Vec<Option<Slot<T>>>,
}

pub open spec fn holds_pid<T>(s: Seq<Option<Slot<T>>>, i: int, pid: u32) -> bool {
    0 <= i < s.len() && s[i] is Some && s[i]->Some_0.pid == pid
}

pub open spec fn attached<T>(s: Seq<Option<Slot<T>>>, pid: u32) -> bool {
    exists|i: int| holds_pid(s, i, pid)
}

/// At most one live slot per process.
pub open spec fn unique_pids<T>(s: Seq<Option<Slot<T>>>) -> bool {
    forall|i: int, j: int, pid: u32|
        holds_pid(s, i, pid) && holds_pid(s, j, pid) ==> i == j
}

/// The slots after `attach(pid, t)`, and its result.
pub open spec fn attach_model<T>(s: Seq<Option<Slot<T>>>, pid: u32, t: T) -> (
    Seq<Option<Slot<T>>>,
    Result<int, MemoryError>,
) {
    if attached(s, pid) {
        (s, Err(MemoryError::ProcessAlreadyAttached))
    } else {
        (s.push(Some(Slot { pid, target: t })), Ok(s.len() as int))
    }
}

pub open spec fn cleared<T>(o: Option<Slot<T>>, pid: u32) -> Option<Slot<T>> {
    match o {
        Some(slot) => if slot.pid == pid {
            None
        } else {
            o
        },
        None => None,
    }
}

/// The slots after `detach(pid)`, and whether it succeeded.
pub open spec fn detach_model<T>(s: Seq<Option<Slot<T>>>, pid: u32) -> (
    Seq<Option<Slot<T>>>,
    Result<(), MemoryError>,
) {
    if attached(s, pid) {
        (s.map_values(|o: Option<Slot<T>>| cleared(o, pid)), Ok(()))
    } else {
        (s, Err(MemoryError::ProcessNotAttached))
    }
}

/// The target that handle `h` denotes, if any.
pub open spec fn resolve_model<T>(s: Seq<Option<Slot<T>>>, h: int) -> Option<T> {
    if 0 <= h < s.len() && s[h] is Some {
        Some(s[h]->Some_0.target)
    } else {
        None
    }
}

impl<T> View for TargetRegistry<T> {
    type V = Seq<Option<Slot<T>>>;

    closed spec fn view(&self) -> Seq<Option<Slot<T>>> {
        self.slots@
    }
}

impl<T> TargetRegistry<T> {
    pub open spec fn wf(&self) -> bool {
        unique_pids(self@)
    }

    pub fn new() -> (r: Self)
        ensures
            r@ == Seq::<Option<Slot<T>>>::empty(),
            r.wf(),
    {
        TargetRegistry { slots: Vec::new() }
    }

    /// Whether a target of process `pid` is attached.
    pub fn contains_pid(&self, pid: u32) -> (r: bool)
        ensures
            r == attached(self@, pid),
    {
        let mut i: usize = 0;
        while i < self.slots.len()
            invariant
                i <= self.slots.len(),
                forall|j: int| 0 <= j < i ==> !holds_pid(self@, j, pid),
            decreases self.slots.len() - i,
        {
            match &self.slots[i] {
                Some(slot) => {
                    if slot.pid == pid {
                        assert(holds_pid(self@, i as int, pid));
                        return true;
                    }
                },
                None => {},
            }
            i = i + 1;
        }
        false
    }

    /// Registers `target` for `pid` and returns its handle, or fails when a
    /// target of that process is attached already.
    pub fn attach(&mut self, pid: u32, target: T) -> (r: Result<usize, MemoryError>)
        requires
            old(self).wf(),
        ensures
            final(self).wf(),
            (final(self)@, match r {
                Ok(h) => Ok(h as int),
                Err(e) => Err(e),
            }) == attach_model(old(self)@, pid, target),
    {
        if self.contains_pid(pid) {
            return Err(MemoryError::ProcessAlreadyAttached);
        }
        let handle = self.slots.len();
        let ghost s0 = self@;
        self.slots.push(Some(Slot { pid, target }));
        proof {
            assert forall|i: int, j: int, p: u32|
                holds_pid(self@, i, p) && holds_pid(self@, j, p) implies i == j by {
                if i < s0.len() {
                    assert(holds_pid(s0, i, p));
                }
                if j < s0.len() {
                    assert(holds_pid(s0, j, p));
                }
            }
        }
        Ok(handle)
    }

    /// Removes the target of `pid` and hands it back, so that the caller can
    /// detach it from the engine; fails when no target of `pid` is attached.
    pub fn detach(&mut self, pid: u32) -> (r: Result<T, MemoryError>)
        requires
            old(self).wf(),
        ensures
            final(self).wf(),
            (final(self)@, match r {
                Ok(_) => Ok(()),
                Err(e) => Err(e),
            }) == detach_model(old(self)@, pid),
            r is Ok ==> exists|i: int|
                holds_pid(old(self)@, i, pid) && old(self)@[i]->Some_0.target == r->Ok_0,
    {
        let ghost s0 = self@;
        let mut i: usize = 0;
        while i < self.slots.len()
            invariant
                i <= self.slots.len(),
                self@ == s0,
                s0 == old(self)@,
                unique_pids(s0),
                forall|j: int| 0 <= j < i ==> !holds_pid(s0, j, pid),
            decreases self.slots.len() - i,
        {
            let found = match &self.slots[i] {
                Some(slot) => slot.pid == pid,
                None => false,
            };
            if found {
                let mut taken: Option<Slot<T>> = None;
                self.slots.set_and_swap(i, &mut taken);
                proof {
                    assert(holds_pid(s0, i as int, pid));
                    assert(self@ =~= s0.map_values(|o: Option<Slot<T>>| cleared(o, pid))) by {
                        assert forall|j: int| 0 <= j < s0.len() implies #[trigger] self@[j]
                            == cleared(s0[j], pid) by {
                            if j != i && s0[j] is Some && s0[j]->Some_0.pid == pid {
                                assert(holds_pid(s0, j, pid));
                            }
                        }
                    }
                    assert forall|a: int, b: int, p: u32|
                        holds_pid(self@, a, p) && holds_pid(self@, b, p) implies a == b by {
                        assert(holds_pid(s0, a, p));
                        assert(holds_pid(s0, b, p));
                    }
                }
                match taken {
                    Some(slot) => {
                        assert(attached(s0, pid));
                        assert(holds_pid(s0, i as int, pid) && s0[i as int]->Some_0.target
                            == slot.target);
                        return Ok(slot.target);
                    },
                    None => {
                        assert(false);
                        return Err(MemoryError::ProcessNotAttached);
                    },
                }
            }
            i = i + 1;
        }
        Err(MemoryError::ProcessNotAttached)
    }

    /// The target that `handle` denotes; fails for a handle never given out
    /// or one whose target has been detached.
    pub fn resolve(&self, handle: usize) -> (r: Result<&T, MemoryError>)
        ensures
            match resolve_model(self@, handle as int) {
                Some(t) => r is Ok && *r->Ok_0 == t,
                None => r == Err::<&T, MemoryError>(MemoryError::InvalidTargetHandle),
            },
    {
        if handle >= self.slots.len() {
            return Err(MemoryError::InvalidTargetHandle);
        }
        match &self.slots[handle] {
            Some(slot) => Ok(&slot.target),
            None => Err(MemoryError::InvalidTargetHandle),
        }
    }
}

/// Attaching a process that is attached already fails with
/// `ProcessAlreadyAttached` and leaves the registry as it was: a second
/// attach of the same pid creates no second target.
pub proof fn law_attach_twice<T>(s: Seq<Option<Slot<T>>>, pid: u32, first: T, second: T)
    ensures
        attach_model(attach_model(s, pid, first).0, pid, second) == (
            attach_model(s, pid, first).0,
            Err::<int, MemoryError>(MemoryError::ProcessAlreadyAttached),
        ),
{
    let s1 = attach_model(s, pid, first).0;
    if !attached(s, pid) {
        assert(holds_pid(s1, s.len() as int, pid));
    }
}

/// Detaching a process that is not attached fails with `ProcessNotAttached`
/// and changes nothing; detaching one that is succeeds, and a second detach
/// of it then fails.
pub proof fn law_detach_once<T>(s: Seq<Option<Slot<T>>>, pid: u32)
    ensures
        !attached(s, pid) ==> detach_model(s, pid) == (s, Err::<(), MemoryError>(
            MemoryError::ProcessNotAttached,
        )),
        attached(s, pid) ==> detach_model(s, pid).1 == Ok::<(), MemoryError>(()),
        attached(s, pid) ==> detach_model(detach_model(s, pid).0, pid) == (
            detach_model(s, pid).0,
            Err::<(), MemoryError>(MemoryError::ProcessNotAttached),
        ),
{
    let s1 = detach_model(s, pid).0;
    if attached(s, pid) {
        assert forall|i: int| !holds_pid(s1, i, pid) by {
            if 0 <= i < s1.len() {
                assert(s1[i] == cleared(s[i], pid));
            }
        }
    }
}

/// An attach gives out the handle one past every slot so far, which then
/// denotes the new target; every other handle keeps denoting what it did.
pub proof fn law_attach_handle_stability<T>(s: Seq<Option<Slot<T>>>, pid: u32, t: T, h: int)
    ensures
        attach_model(s, pid, t).0.len() >= s.len(),
        h != s.len() ==> resolve_model(attach_model(s, pid, t).0, h) == resolve_model(s, h),
        attach_model(s, pid, t).1 is Ok ==> {
            let n = attach_model(s, pid, t).1->Ok_0;
            &&& n == s.len()
            &&& resolve_model(attach_model(s, pid, t).0, n) == Some(t)
            &&& (0 <= h < s.len() ==> h != n)
        },
{
}

/// A detach leaves the handles of other processes denoting the same targets,
/// makes the handle of the detached process invalid, and never brings an
/// invalid handle back.
pub proof fn law_detach_handle_stability<T>(s: Seq<Option<Slot<T>>>, pid: u32, h: int)
    ensures
        detach_model(s, pid).0.len() == s.len(),
        resolve_model(s, h) is None ==> resolve_model(detach_model(s, pid).0, h) is None,
        resolve_model(s, h) is Some && s[h]->Some_0.pid != pid ==> resolve_model(
            detach_model(s, pid).0,
            h,
        ) == resolve_model(s, h),
        resolve_model(s, h) is Some && s[h]->Some_0.pid == pid ==> resolve_model(
            detach_model(s, pid).0,
            h,
        ) is None,
{
    let s1 = detach_model(s, pid).0;
    if 0 <= h < s.len() && s[h] is Some && s[h]->Some_0.pid == pid {
        assert(holds_pid(s, h, pid));
    }
    if 0 <= h < s.len() && attached(s, pid) {
        assert(s1[h] == cleared(s[h], pid));
    }
}

/// One call on a registry.
pub enum RegistryOp<T> {
    Attach(u32, T),
    Detach(u32),
}

/// The slots after applying `op`.
pub open spec fn step<T>(s: Seq<Option<Slot<T>>>, op: RegistryOp<T>) -> Seq<Option<Slot<T>>> {
    match op {
        RegistryOp::Attach(pid, t) => attach_model(s, pid, t).0,
        RegistryOp::Detach(pid) => detach_model(s, pid).0,
    }
}

/// The slots after applying `ops` in order.
pub open spec fn run<T>(s: Seq<Option<Slot<T>>>, ops: Seq<RegistryOp<T>>) -> Seq<Option<Slot<T>>>
    decreases ops.len(),
{
    if ops.len() == 0 {
        s
    } else {
        step(run(s, ops.drop_last()), ops.last())
    }
}

/// `ops` holds no detach of `pid`.
pub open spec fn never_detaches<T>(ops: Seq<RegistryOp<T>>, pid: u32) -> bool {
    forall|k: int| 0 <= k < ops.len() ==> !(#[trigger] ops[k] matches RegistryOp::Detach(p) && p == pid)
}

/// Over any sequence of attaches and detaches: the registry never shrinks;
/// a handle keeps denoting its target as long as no detach of the target's
/// process comes; and a handle that denotes nothing (a detached one) never
/// denotes anything again.
pub proof fn law_handles_over_any_calls<T>(s: Seq<Option<Slot<T>>>, ops: Seq<RegistryOp<T>>, h: int)
    ensures
        run(s, ops).len() >= s.len(),
        resolve_model(s, h) is Some && never_detaches(ops, s[h]->Some_0.pid) ==> resolve_model(
            run(s, ops),
            h,
        ) == resolve_model(s, h) && run(s, ops)[h]->Some_0.pid == s[h]->Some_0.pid,
        0 <= h < s.len() && resolve_model(s, h) is None ==> resolve_model(run(s, ops), h) is None,
    decreases ops.len(),
{
    if ops.len() > 0 {
        let init = ops.drop_last();
        law_handles_over_any_calls(s, init, h);
        let mid = run(s, init);
        if resolve_model(s, h) is Some && never_detaches(ops, s[h]->Some_0.pid) {
            assert forall|k: int| 0 <= k < init.len() implies !(#[trigger] init[k] matches RegistryOp::Detach(p)
                && p == s[h]->Some_0.pid) by {
                assert(init[k] == ops[k]);
            }
            assert(!(ops[ops.len() - 1] matches RegistryOp::Detach(p) && p == s[h]->Some_0.pid));
        }
        match ops.last() {
            RegistryOp::Attach(pid, t) => {
                law_attach_handle_stability(mid, pid, t, h);
                if 0 <= h < mid.len() && attach_model(mid, pid, t).1 is Ok {
                    assert(attach_model(mid, pid, t).0[h] == mid[h]);
                }
            },
            RegistryOp::Detach(pid) => {
                law_detach_handle_stability(mid, pid, h);
                if 0 <= h < mid.len() && attached(mid, pid) {
                    assert(detach_model(mid, pid).0[h] == cleared(mid[h], pid));
                }
            },
        }
    }
}

/// A handle given out after any sequence of calls differs from every handle
/// given out before it: it is one past every slot so far.
pub proof fn law_handles_never_reused<T>(
    s: Seq<Option<Slot<T>>>,
    ops: Seq<RegistryOp<T>>,
    pid: u32,
    t: T,
    h: int,
)
    requires
        0 <= h < s.len(),
    ensures
        attach_model(run(s, ops), pid, t).1 is Ok ==> attach_model(run(s, ops), pid, t).1->Ok_0
            != h,
{
    law_handles_over_any_calls(s, ops, h);
}

} // verus!
