//! Checksums that threads share, and a thread's handle on one.

use vstd::prelude::*;
use vstd::rwlock::RwLock;
use vstd::rwlock::RwLockPredicate;
use std::sync::Arc;
use crate::checksum::Checksum;

verus! {

/// What the lock of a shared checksum guards: any checksum may be stored.
pub struct AnyChecksum;

impl RwLockPredicate<Checksum> for AnyChecksum {
    open spec fn inv(self, checksum: Checksum) -> bool {
        true
    }
}

/// A checksum behind a lock, for several threads to fold into.
pub struct SharedChecksum {
    lock: RwLock<Checksum, AnyChecksum>,
}

impl SharedChecksum {
    /// A shared checksum that starts empty.
    pub fn new() -> (shared: Self) {
        SharedChecksum { lock: RwLock::new(Checksum::new(), Ghost(AnyChecksum)) }
    }

    /// A copy of what the checksum holds at the moment.
    pub fn current(&self) -> (checksum: Checksum) {
        let reader = self.lock.acquire_read();
        let checksum = reader.borrow().clone();
        reader.release_read();
        checksum
    }
}

/// The log `log` once a fold of `value` is recorded in it: an empty checksum
/// changes nothing and leaves no entry.
pub open spec fn logged(log: Seq<Seq<u8>>, value: Option<Seq<u8>>) -> Seq<Seq<u8>> {
    match value {
        Some(digest) => log.push(digest),
        None => log,
    }
}

/// The digests that a run of non-empty checksums holds.
pub open spec fn digests_of(values: Seq<Checksum>) -> Seq<Seq<u8>> {
    Seq::new(values.len(), |i: int| values[i]@->Some_0)
}

/// One thread's handle on a shared checksum. It keeps, for contracts only,
/// the digests that were folded through it, in order.
pub struct Accumulator {
    shared: Arc<SharedChecksum>,
    folded: Ghost<Seq<Seq<u8>>>,
}

impl Accumulator {
    /// The digests folded through this handle so far, the first of them first.
    pub closed spec fn folded(&self) -> Seq<Seq<u8>> {
        self.folded@
    }

    /// A handle on `shared` through which nothing was folded yet.
    pub fn new(shared: Arc<SharedChecksum>) -> (handle: Self)
        ensures
            handle.folded() == Seq::<Seq<u8>>::empty(),
    {
        Accumulator { shared, folded: Ghost(Seq::empty()) }
    }

    /// Folds `value` into the shared checksum, holding its lock for this one fold.
    pub fn fold(&mut self, value: Checksum)
        ensures
            final(self).folded() == logged(old(self).folded(), value@),
    {
        let ghost entry = value@;
        let (mut checksum, writer) = self.shared.lock.acquire_write();
        checksum.update(value);
        writer.release_write(checksum);
        proof {
            self.folded@ = logged(self.folded@, entry);
        }
    }

    /// Folds `task` into `tasks` and every checksum of `used` into `resources`
    /// in one critical section: both locks are taken, that of `tasks` first,
    /// before the first fold, and released after the last. The two handles
    /// are on two different shared checksums: on one and the same, the
    /// second lock is never granted.
    pub fn fold_build(
        tasks: &mut Accumulator,
        task: Checksum,
        resources: &mut Accumulator,
        used: &Vec<Checksum>,
    )
        requires
            forall|i: int| 0 <= i < used.len() ==> (#[trigger] used[i])@ is Some,
        ensures
            final(tasks).folded() == logged(old(tasks).folded(), task@),
            final(resources).folded() == old(resources).folded() + digests_of(used@),
    {
        let ghost entry = task@;
        let (mut task_sum, task_writer) = tasks.shared.lock.acquire_write();
        let (mut resource_sum, resource_writer) = resources.shared.lock.acquire_write();
        task_sum.update(task);
        let mut i: usize = 0;
        while i < used.len()
            invariant
                i <= used.len(),
            decreases used.len() - i,
        {
            resource_sum.update(used[i].clone());
            i = i + 1;
        }
        resource_writer.release_write(resource_sum);
        task_writer.release_write(task_sum);
        proof {
            tasks.folded@ = logged(tasks.folded@, entry);
            resources.folded@ = resources.folded@ + digests_of(used@);
        }
    }
}

} // verus!
