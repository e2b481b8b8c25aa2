//! Packages and the threads that download them.

use vstd::prelude::*;
use std::sync::Arc;
use crate::cache::MemoCache;
use crate::checksum::name_digest;
use crate::checksum::Checksum;
use crate::idea::pool_names;
use crate::queue::Outbox;
use crate::queue::QueueError;
use crate::accumulator::Accumulator;
use crate::Event;
use crate::EventView;
use crossbeam::channel::Sender;

verus! {

/// Looks `name` up in the cache and hashes it on a miss; either way the result
/// is the checksum that holds the digest of `name`.
pub fn access_or_write(hashmap: &Arc<MemoCache>, name: &String) -> (checksum: Checksum)
    ensures
        checksum@ == Some(name_digest(name@)),
{
    hashmap.lookup_or_hash(name)
}

/// A resource: one package, used up by the build it goes into.
pub struct Package {
    pub name: String,
}

impl View for Package {
    type V = Seq<char>;

    open spec fn view(&self) -> Seq<char> {
        self.name@
    }
}

/// The name of package number `idx`: packages run through the pool and start
/// over after its last name.
pub open spec fn package_name(idx: nat, pool: Seq<Seq<char>>) -> Seq<char>
    recommends
        pool.len() > 0,
{
    pool[(idx % pool.len()) as int]
}

/// Everything that a downloader of `count` packages from the global
/// number `start` on publishes, in order: one event per package.
pub open spec fn package_script(start: nat, count: nat, pool: Seq<Seq<char>>) -> Seq<EventView> {
    Seq::new(
        count,
        |i: int| EventView::DownloadComplete(package_name((start + i) as nat, pool)),
    )
}

/// A thread that downloads packages `pkg_start_idx`, `pkg_start_idx + 1`, ...,
/// `num_pkgs` of them.
pub struct PackageDownloader {
    pkg_start_idx: usize,
    num_pkgs: usize,
    event_sender: Outbox,
}

impl PackageDownloader {
    /// The global number of this downloader's first package.
    pub closed spec fn pkg_start_idx(&self) -> nat {
        self.pkg_start_idx as nat
    }

    /// How many packages this downloader delivers.
    pub closed spec fn num_pkgs(&self) -> nat {
        self.num_pkgs as nat
    }

    /// The events that the queue has accepted from this downloader.
    pub closed spec fn sent(&self) -> Seq<EventView> {
        self.event_sender.sent()
    }

    /// Whether `other` is this downloader at another moment: the same task,
    /// whatever has been sent.
    pub open spec fn same_task(&self, other: &PackageDownloader) -> bool {
        &&& self.pkg_start_idx() == other.pkg_start_idx()
        &&& self.num_pkgs() == other.num_pkgs()
    }

    /// The names of the packages that this downloader delivers, in order.
    pub open spec fn names(&self, pool: Seq<Seq<char>>) -> Seq<Seq<char>> {
        Seq::new(self.num_pkgs(), |i: int| package_name((self.pkg_start_idx() + i) as nat, pool))
    }

    /// Everything this downloader publishes, in order.
    pub open spec fn script(&self, pool: Seq<Seq<char>>) -> Seq<EventView> {
        package_script(self.pkg_start_idx(), self.num_pkgs(), pool)
    }

    /// The digests of the names of this downloader's packages, in order.
    pub open spec fn digests(&self, pool: Seq<Seq<char>>) -> Seq<Seq<u8>> {
        Seq::new(self.num_pkgs(), |i: int| name_digest(self.names(pool)[i]))
    }

    pub fn new(pkg_start_idx: usize, num_pkgs: usize, event_sender: Sender<Event>) -> (downloader:
        Self)
        ensures
            downloader.pkg_start_idx() == pkg_start_idx,
            downloader.num_pkgs() == num_pkgs,
            downloader.sent() == Seq::<EventView>::empty(),
    {
        Self { pkg_start_idx, num_pkgs, event_sender: Outbox::new(event_sender) }
    }

    /// Delivers the packages: the digest of each name is folded into
    /// `pkg_checksum`, then the package is published. It stops at the first
    /// event that the queue refuses.
    pub fn run(
        &mut self,
        file: &Vec<String>,
        pkg_checksum: &mut Accumulator,
        hashmap: &Arc<MemoCache>,
    ) -> (done: Result<(), QueueError>)
        requires
            old(self).num_pkgs() > 0 ==> file.len() > 0,
            old(self).pkg_start_idx() + old(self).num_pkgs() <= usize::MAX,
        ensures
            final(self).same_task(old(self)),
            ({
                let script = old(self).script(pool_names(file@));
                let digests = old(self).digests(pool_names(file@));
                match done {
                    Ok(_) => {
                        &&& final(self).sent() == old(self).sent() + script
                        &&& final(pkg_checksum).folded() == old(pkg_checksum).folded() + digests
                    },
                    Err(e) => {
                        &&& e == QueueError::NoReceiver
                        &&& exists|k: int|
                            {
                                &&& 0 <= k < script.len()
                                &&& final(self).sent() == old(self).sent() + #[trigger] script.take(k)
                                &&& final(pkg_checksum).folded() == old(pkg_checksum).folded()
                                    + digests.take(k + 1)
                            }
                    },
                }
            }),
    {
        let ghost script = self.script(pool_names(file@));
        let ghost digests = self.digests(pool_names(file@));
        let ghost sent0 = self.sent();
        let ghost folded0 = pkg_checksum.folded();
        let ghost before = *self;
        let mut i: usize = 0;
        assert(script.take(0) =~= Seq::<EventView>::empty());
        assert(digests.take(0) =~= Seq::<Seq<u8>>::empty());
        assert(sent0 + script.take(0) =~= sent0);
        assert(folded0 + digests.take(0) =~= folded0);
        while i < self.num_pkgs
            invariant
                i <= self.num_pkgs,
                self.same_task(&before),
                before == *old(self),
                sent0 == old(self).sent(),
                folded0 == old(pkg_checksum).folded(),
                self.num_pkgs > 0 ==> file.len() > 0,
                self.pkg_start_idx + self.num_pkgs <= usize::MAX,
                script == before.script(pool_names(file@)),
                digests == before.digests(pool_names(file@)),
                self.sent() == sent0 + script.take(i as int),
                pkg_checksum.folded() == folded0 + digests.take(i as int),
            decreases self.num_pkgs - i,
        {
            let name = file[(self.pkg_start_idx + i) % file.len()].clone();
            let val = access_or_write(hashmap, &name);
            pkg_checksum.fold(val);
            assert(name@ == before.names(pool_names(file@))[i as int]);
            assert(digests.take(i + 1) =~= digests.take(i as int).push(digests[i as int]));
            assert(pkg_checksum.folded() =~= folded0 + digests.take(i + 1));
            match self.event_sender.publish(Event::DownloadComplete(Package { name })) {
                Ok(_) => {},
                Err(e) => {
                    assert(self.sent() == sent0 + script.take(i as int));
                    return Err(e);
                },
            }
            assert(script.take(i + 1) =~= script.take(i as int).push(script[i as int]));
            assert(self.sent() =~= sent0 + script.take(i + 1));
            i = i + 1;
        }
        assert(script.take(i as int) =~= script);
        assert(digests.take(i as int) =~= digests);
        Ok(())
    }
}

} // verus!
