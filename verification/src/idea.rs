//! Ideas and the threads that generate them.

use vstd::prelude::*;
use std::sync::Arc;
use crate::cache::MemoCache;
use crate::checksum::name_digest;
use crate::checksum::Checksum;
use crate::partition::per_thread_amount;
use crate::partition::share;
use crate::queue::Outbox;
use crate::queue::QueueError;
use crate::accumulator::Accumulator;
use crate::Event;
use crate::EventView;
use crossbeam::channel::Sender;
use vstd::string::StringExecFns;

verus! {

/// Looks `name` up in the cache and hashes it on a miss; either way the result
/// is the checksum that holds the digest of `name`.
pub fn access_or_write(hashmap: &Arc<MemoCache>, name: &String) -> (checksum: Checksum)
    ensures
        checksum@ == Some(name_digest(name@)),
{
    hashmap.lookup_or_hash(name)
}

/// A unit of work: it is built from `num_pkg_required` packages.
pub struct Idea {
    pub name: String,
    pub num_pkg_required: usize,
}

/// An idea as contracts see it.
pub struct IdeaView {
    pub name: Seq<char>,
    pub num_pkg_required: nat,
}

impl View for Idea {
    type V = IdeaView;

    open spec fn view(&self) -> IdeaView {
        IdeaView { name: self.name@, num_pkg_required: self.num_pkg_required as nat }
    }
}

/// The names that a pool holds.
pub open spec fn pool_names(pool: Seq<String>) -> Seq<Seq<char>> {
    Seq::new(pool.len(), |i: int| pool[i]@)
}

/// The name of idea number `idx`: ideas run through the customers for the
/// first product, then for the second, and start over after the last.
pub open spec fn idea_name(idx: nat, products: Seq<Seq<char>>, customers: Seq<Seq<char>>) -> Seq<
    char,
>
    recommends
        products.len() > 0,
        customers.len() > 0,
{
    products[((idx / customers.len()) % products.len()) as int] + " for "@ + customers[(idx
        % customers.len()) as int]
}

/// Idea number `i`, counted from 0, of a generator that makes `count` ideas
/// from the global number `start` on and shares `quota` packages out among
/// them: its name goes by its global number, and the first `quota % count`
/// ideas require one package more than the others.
pub open spec fn planned_idea(
    start: nat,
    count: nat,
    quota: nat,
    i: nat,
    products: Seq<Seq<char>>,
    customers: Seq<Seq<char>>,
) -> IdeaView
    recommends
        i < count,
{
    IdeaView {
        name: idea_name(start + i, products, customers),
        num_pkg_required: share(i, quota, count),
    }
}

/// Everything that such a generator publishes, in order: its ideas, then
/// one notice for each of `students` students.
pub open spec fn idea_script(
    start: nat,
    count: nat,
    students: nat,
    quota: nat,
    products: Seq<Seq<char>>,
    customers: Seq<Seq<char>>,
) -> Seq<EventView> {
    Seq::new(
        count + students,
        |k: int|
            if k < count {
                EventView::NewIdea(planned_idea(start, count, quota, k as nat, products, customers))
            } else {
                EventView::OutOfIdeas
            },
    )
}

/// A thread that generates ideas `idea_start_idx`, `idea_start_idx + 1`, ...,
/// `num_ideas` of them, shares `num_pkgs` packages out among them, and then
/// tells `num_students` students that it has run out.
pub struct IdeaGenerator {
    idea_start_idx: usize,
    num_ideas: usize,
    num_students: usize,
    num_pkgs: usize,
    event_sender: Outbox,
}

impl IdeaGenerator {
    /// The global number of this generator's first idea.
    pub closed spec fn idea_start_idx(&self) -> nat {
        self.idea_start_idx as nat
    }

    /// How many ideas this generator makes.
    pub closed spec fn num_ideas(&self) -> nat {
        self.num_ideas as nat
    }

    /// How many students this generator tells that it has run out.
    pub closed spec fn num_students(&self) -> nat {
        self.num_students as nat
    }

    /// How many packages this generator's ideas require together.
    pub closed spec fn num_pkgs(&self) -> nat {
        self.num_pkgs as nat
    }

    /// The events that the queue has accepted from this generator.
    pub closed spec fn sent(&self) -> Seq<EventView> {
        self.event_sender.sent()
    }

    /// Whether `other` is this generator at another moment: the same task,
    /// whatever has been sent.
    pub open spec fn same_task(&self, other: &IdeaGenerator) -> bool {
        &&& self.idea_start_idx() == other.idea_start_idx()
        &&& self.num_ideas() == other.num_ideas()
        &&& self.num_students() == other.num_students()
        &&& self.num_pkgs() == other.num_pkgs()
    }

    /// This generator's idea number `i`, counted from 0.
    pub open spec fn idea_at(
        &self,
        i: nat,
        products: Seq<Seq<char>>,
        customers: Seq<Seq<char>>,
    ) -> IdeaView
        recommends
            i < self.num_ideas(),
    {
        planned_idea(
            self.idea_start_idx(),
            self.num_ideas(),
            self.num_pkgs(),
            i,
            products,
            customers,
        )
    }

    /// Everything this generator publishes, in order.
    pub open spec fn script(&self, products: Seq<Seq<char>>, customers: Seq<Seq<char>>) -> Seq<
        EventView,
    > {
        idea_script(
            self.idea_start_idx(),
            self.num_ideas(),
            self.num_students(),
            self.num_pkgs(),
            products,
            customers,
        )
    }

    /// The digests of this generator's idea names, in the order of the ideas.
    pub open spec fn digests(&self, products: Seq<Seq<char>>, customers: Seq<Seq<char>>) -> Seq<
        Seq<u8>,
    > {
        Seq::new(
            self.num_ideas(),
            |i: int| name_digest(self.idea_at(i as nat, products, customers).name),
        )
    }

    pub fn new(
        idea_start_idx: usize,
        num_ideas: usize,
        num_students: usize,
        num_pkgs: usize,
        event_sender: Sender<Event>,
    ) -> (generator: Self)
        ensures
            generator.idea_start_idx() == idea_start_idx,
            generator.num_ideas() == num_ideas,
            generator.num_students() == num_students,
            generator.num_pkgs() == num_pkgs,
            generator.sent() == Seq::<EventView>::empty(),
    {
        Self {
            idea_start_idx,
            num_ideas,
            num_students,
            num_pkgs,
            event_sender: Outbox::new(event_sender),
        }
    }

    /// The name of idea number `idx`, put together from the two pools.
    pub fn get_next_idea_name(idx: usize, products: &Vec<String>, customers: &Vec<String>) -> (name:
        String)
        requires
            products.len() > 0,
            customers.len() > 0,
        ensures
            name@ == idea_name(idx as nat, pool_names(products@), pool_names(customers@)),
    {
        let y: usize = idx / customers.len();
        let x: usize = idx % customers.len();
        let product = &products[y % products.len()];
        let customer = &customers[x];
        let mut name = product.clone();
        name.append(" for ");
        name.append(customer.as_str());
        name
    }

    /// Generates the ideas and publishes them, folding the digest of each
    /// name into `idea_checksum` before the idea is sent; then publishes the
    /// notices. It stops at the first event that the queue refuses.
    pub fn run(
        &mut self,
        products: &Vec<String>,
        customers: &Vec<String>,
        idea_checksum: &mut Accumulator,
        hashmap: &Arc<MemoCache>,
    ) -> (done: Result<(), QueueError>)
        requires
            old(self).num_ideas() > 0 ==> products.len() > 0 && customers.len() > 0,
            old(self).idea_start_idx() + old(self).num_ideas() <= usize::MAX,
        ensures
            final(self).same_task(old(self)),
            ({
                let script = old(self).script(pool_names(products@), pool_names(customers@));
                let digests = old(self).digests(pool_names(products@), pool_names(customers@));
                match done {
                    Ok(_) => {
                        &&& final(self).sent() == old(self).sent() + script
                        &&& final(idea_checksum).folded() == old(idea_checksum).folded() + digests
                    },
                    Err(e) => {
                        &&& e == QueueError::NoReceiver
                        &&& exists|k: int|
                            {
                                &&& 0 <= k < script.len()
                                &&& final(self).sent() == old(self).sent() + #[trigger] script.take(k)
                                &&& final(idea_checksum).folded() == old(idea_checksum).folded()
                                    + digests.take(
                                    if k < digests.len() {
                                        k + 1
                                    } else {
                                        digests.len() as int
                                    },
                                )
                            }
                    },
                }
            }),
    {
        let ghost script = self.script(pool_names(products@), pool_names(customers@));
        let ghost digests = self.digests(pool_names(products@), pool_names(customers@));
        let ghost sent0 = self.sent();
        let ghost folded0 = idea_checksum.folded();
        let ghost before = *self;
        let mut i: usize = 0;
        assert(script.take(0) =~= Seq::<EventView>::empty());
        assert(digests.take(0) =~= Seq::<Seq<u8>>::empty());
        assert(sent0 + script.take(0) =~= sent0);
        assert(folded0 + digests.take(0) =~= folded0);
        while i < self.num_ideas
            invariant
                i <= self.num_ideas,
                self.same_task(&before),
                before == *old(self),
                sent0 == old(self).sent(),
                folded0 == old(idea_checksum).folded(),
                self.num_ideas > 0 ==> products.len() > 0 && customers.len() > 0,
                self.idea_start_idx + self.num_ideas <= usize::MAX,
                script == before.script(pool_names(products@), pool_names(customers@)),
                digests == before.digests(pool_names(products@), pool_names(customers@)),
                self.sent() == sent0 + script.take(i as int),
                idea_checksum.folded() == folded0 + digests.take(i as int),
            decreases self.num_ideas - i,
        {
            let name = Self::get_next_idea_name(self.idea_start_idx + i, products, customers);
            let num_pkg_required = per_thread_amount(i, self.num_pkgs, self.num_ideas);
            let idea = Idea { name: name.clone(), num_pkg_required };
            let val = access_or_write(hashmap, &name);
            idea_checksum.fold(val);
            assert(idea@ == before.idea_at(
                i as nat,
                pool_names(products@),
                pool_names(customers@),
            ));
            assert(digests.take(i + 1) =~= digests.take(i as int).push(digests[i as int]));
            assert(idea_checksum.folded() =~= folded0 + digests.take(i + 1));
            match self.event_sender.publish(Event::NewIdea(idea)) {
                Ok(_) => {},
                Err(e) => {
                    assert(self.sent() == sent0 + script.take(i as int));
                    return Err(e);
                },
            }
            assert(script.take(i + 1) =~= script.take(i as int).push(script[i as int]));
            assert(self.sent() =~= sent0 + script.take(i + 1));
            i = i + 1;
        }
        assert(digests.take(i as int) =~= digests);
        let mut j: usize = 0;
        while j < self.num_students
            invariant
                j <= self.num_students,
                self.same_task(&before),
                before == *old(self),
                sent0 == old(self).sent(),
                folded0 == old(idea_checksum).folded(),
                script == before.script(pool_names(products@), pool_names(customers@)),
                digests == before.digests(pool_names(products@), pool_names(customers@)),
                self.sent() == sent0 + script.take(self.num_ideas + j),
                idea_checksum.folded() == folded0 + digests,
            decreases self.num_students - j,
        {
            let ghost k = self.num_ideas + j;
            match self.event_sender.publish(Event::OutOfIdeas) {
                Ok(_) => {},
                Err(e) => {
                    assert(self.sent() == sent0 + script.take(k));
                    assert(digests.take(digests.len() as int) =~= digests);
                    return Err(e);
                },
            }
            assert(script.take(k + 1) =~= script.take(k).push(script[k]));
            assert(self.sent() =~= sent0 + script.take(k + 1));
            j = j + 1;
        }
        assert(script.take(self.num_ideas + j) =~= script);
        Ok(())
    }
}

} // verus!
