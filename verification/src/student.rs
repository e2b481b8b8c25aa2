//! Students: the threads that build ideas from packages.

use vstd::prelude::*;
use vstd::multiset::Multiset;
use std::sync::Arc;
use crossbeam::channel::Receiver;
use crossbeam::channel::Sender;
use crate::accumulator::digests_of;
use crate::accumulator::Accumulator;
use crate::cache::MemoCache;
use crate::checksum::name_digest;
use crate::checksum::Checksum;
use crate::idea::Idea;
use crate::idea::IdeaView;
use crate::package::Package;
use crate::queue::Inbox;
use crate::queue::Outbox;
use crate::queue::QueueError;
use crate::Event;
use crate::EventView;

verus! {

/// Looks `name` up in the cache and hashes it on a miss; either way the result
/// is the checksum that holds the digest of `name`.
pub fn access_or_write(hashmap: &Arc<MemoCache>, name: &String) -> (checksum: Checksum)
    ensures
        checksum@ == Some(name_digest(name@)),
{
    hashmap.lookup_or_hash(name)
}

/// What a student holds between two events.
pub struct StudentView {
    /// The idea that the student is working on, if any.
    pub idea: Option<IdeaView>,
    /// The names of the packages in the student's buffer, the oldest first.
    pub pkgs: Seq<Seq<char>>,
    /// Whether the student has sent an idea back since the last notice.
    pub skipped_idea: bool,
}

/// A finished build: the idea, and the packages that went into it.
pub struct BuildView {
    pub idea: IdeaView,
    pub used: Seq<Seq<char>>,
}

/// What one event does to a student.
pub struct Reaction {
    /// What the student holds afterwards.
    pub state: StudentView,
    /// The build that the event completed, if any.
    pub built: Option<BuildView>,
    /// What the student puts at the back of the queue, in order.
    pub requeued: Seq<EventView>,
    /// Whether the student leaves.
    pub finished: bool,
}

/// A student that holds nothing.
pub open spec fn idle() -> StudentView {
    StudentView { idea: None, pkgs: Seq::empty(), skipped_idea: false }
}

/// Whether the student has an idea and the packages that it requires.
pub open spec fn can_build(s: StudentView) -> bool {
    s.idea matches Some(idea) && idea.num_pkg_required <= s.pkgs.len()
}

/// The build that a student who can build makes: the idea takes the oldest
/// packages of the buffer, as many as it requires.
pub open spec fn build_of(s: StudentView) -> Option<BuildView> {
    if can_build(s) {
        let idea = s.idea->Some_0;
        Some(BuildView { idea, used: s.pkgs.take(idea.num_pkg_required as int) })
    } else {
        None
    }
}

/// What the student holds after an attempt to build: where the build is
/// made, the idea and the packages used are gone.
pub open spec fn after_build(s: StudentView) -> StudentView {
    if can_build(s) {
        StudentView {
            idea: None,
            pkgs: s.pkgs.skip(s.idea->Some_0.num_pkg_required as int),
            skipped_idea: s.skipped_idea,
        }
    } else {
        s
    }
}

/// The events by which a leaving student gives its packages back.
pub open spec fn returned(pkgs: Seq<Seq<char>>) -> Seq<EventView> {
    Seq::new(pkgs.len(), |i: int| EventView::DownloadComplete(pkgs[i]))
}

/// What `event` does to a student that holds `s`.
///
/// A new idea is taken up by a student without one, who then tries to
/// build; a busy student sends it back and remembers that. A package goes
/// into the buffer, and the student tries to build. At a notice, a student
/// who has an idea or has sent one back passes the notice on and forgets
/// about the idea sent back; any other student gives its packages back and
/// leaves.
pub open spec fn react(s: StudentView, event: EventView) -> Reaction {
    match event {
        EventView::NewIdea(idea) => {
            if s.idea is None {
                let taken = StudentView { idea: Some(idea), pkgs: s.pkgs, skipped_idea: s.skipped_idea };
                Reaction {
                    state: after_build(taken),
                    built: build_of(taken),
                    requeued: Seq::empty(),
                    finished: false,
                }
            } else {
                Reaction {
                    state: StudentView { idea: s.idea, pkgs: s.pkgs, skipped_idea: true },
                    built: None,
                    requeued: seq![event],
                    finished: false,
                }
            }
        },
        EventView::DownloadComplete(pkg) => {
            let filled = StudentView {
                idea: s.idea,
                pkgs: s.pkgs.push(pkg),
                skipped_idea: s.skipped_idea,
            };
            Reaction {
                state: after_build(filled),
                built: build_of(filled),
                requeued: Seq::empty(),
                finished: false,
            }
        },
        EventView::OutOfIdeas => {
            if s.skipped_idea || s.idea is Some {
                Reaction {
                    state: StudentView { idea: s.idea, pkgs: s.pkgs, skipped_idea: false },
                    built: None,
                    requeued: seq![event],
                    finished: false,
                }
            } else {
                Reaction { state: idle(), built: None, requeued: returned(s.pkgs), finished: true }
            }
        },
    }
}

/// What a build adds to the checksum of the ideas built.
pub open spec fn idea_digests(built: Option<BuildView>) -> Seq<Seq<u8>> {
    match built {
        Some(build) => seq![name_digest(build.idea.name)],
        None => Seq::empty(),
    }
}

/// What a build adds to the checksum of the packages used, the oldest
/// package first.
pub open spec fn pkg_digests(built: Option<BuildView>) -> Seq<Seq<u8>> {
    match built {
        Some(build) => Seq::new(build.used.len(), |i: int| name_digest(build.used[i])),
        None => Seq::empty(),
    }
}

/// What a run of events does to a student, all told.
pub struct Trace {
    /// What the student holds after the last event.
    pub state: StudentView,
    /// Everything the student put back into the queue, in order.
    pub requeued: Seq<EventView>,
    /// The digests of the ideas built, in order.
    pub idea_digests: Seq<Seq<u8>>,
    /// The digests of the packages used, in order.
    pub pkg_digests: Seq<Seq<u8>>,
    /// Whether the student left at the last event.
    pub finished: bool,
}

/// What the events of `events`, one after the other, do to a student that
/// holds `s`.
pub open spec fn replay(s: StudentView, events: Seq<EventView>) -> Trace
    decreases events.len(),
{
    if events.len() == 0 {
        Trace {
            state: s,
            requeued: Seq::empty(),
            idea_digests: Seq::empty(),
            pkg_digests: Seq::empty(),
            finished: false,
        }
    } else {
        let before = replay(s, events.drop_last());
        let reaction = react(before.state, events.last());
        Trace {
            state: reaction.state,
            requeued: before.requeued + reaction.requeued,
            idea_digests: before.idea_digests + idea_digests(reaction.built),
            pkg_digests: before.pkg_digests + pkg_digests(reaction.built),
            finished: reaction.finished,
        }
    }
}

/// Everything a student holds, as the events that brought it.
pub open spec fn held(s: StudentView) -> Multiset<EventView> {
    returned(s.pkgs).to_multiset().add(
        match s.idea {
            Some(idea) => Multiset::singleton(EventView::NewIdea(idea)),
            None => Multiset::empty(),
        },
    )
}

/// Everything that went into a build, as the events that brought it.
pub open spec fn spent(built: Option<BuildView>) -> Multiset<EventView> {
    match built {
        Some(build) => returned(build.used).to_multiset().insert(EventView::NewIdea(build.idea)),
        None => Multiset::empty(),
    }
}

/// The notice that a student who leaves takes with it.
pub open spec fn taken_along(finished: bool) -> Multiset<EventView> {
    if finished {
        Multiset::singleton(EventView::OutOfIdeas)
    } else {
        Multiset::empty()
    }
}

/// An attempt to build loses nothing and makes nothing up: what the
/// student held is what it holds afterwards together with what the build used.
pub proof fn lemma_build_accounts_for_everything(s: StudentView)
    ensures
        held(s) == held(after_build(s)).add(spent(build_of(s))),
        build_of(s) matches Some(build) ==> build.used.len() == build.idea.num_pkg_required,
{
    broadcast use vstd::seq_lib::lemma_multiset_commutative;
    broadcast use vstd::multiset::group_multiset_axioms;

    if can_build(s) {
        let n = s.idea->Some_0.num_pkg_required as int;
        assert(returned(s.pkgs) =~= returned(s.pkgs.take(n)) + returned(s.pkgs.skip(n)));
    }
    assert(held(s) =~= held(after_build(s)).add(spent(build_of(s))));
}

/// No event is lost and none is made up. What a student held, together with
/// the event that reached it, is exactly: what it holds afterwards, what a
/// build used, what it put back into the queue, and the notice that it took
/// along when it left. So every package is used by one build, or stays with
/// one student, or goes back to the queue: one of these and no two.
pub proof fn lemma_react_accounts_for_everything(s: StudentView, event: EventView)
    ensures
        ({
            let reaction = react(s, event);
            held(s).insert(event) == held(reaction.state).add(spent(reaction.built)).add(
                reaction.requeued.to_multiset(),
            ).add(taken_along(reaction.finished))
        }),
{
    broadcast use vstd::seq_lib::lemma_multiset_commutative;
    broadcast use vstd::seq_lib::group_to_multiset_ensures;
    broadcast use vstd::multiset::group_multiset_axioms;

    let reaction = react(s, event);
    let after = held(reaction.state).add(spent(reaction.built)).add(
        reaction.requeued.to_multiset(),
    ).add(taken_along(reaction.finished));
    let nothing = Seq::<EventView>::empty();
    assert(nothing.to_multiset() =~= Multiset::empty());
    assert(seq![event] =~= nothing.push(event));
    assert(seq![event].to_multiset() =~= Multiset::singleton(event));
    match event {
        EventView::NewIdea(idea) => {
            if s.idea is None {
                let taken = StudentView { idea: Some(idea), pkgs: s.pkgs, skipped_idea: s.skipped_idea };
                lemma_build_accounts_for_everything(taken);
                assert(held(taken) =~= held(s).insert(event));
            }
        },
        EventView::DownloadComplete(pkg) => {
            let filled = StudentView {
                idea: s.idea,
                pkgs: s.pkgs.push(pkg),
                skipped_idea: s.skipped_idea,
            };
            lemma_build_accounts_for_everything(filled);
            assert(returned(filled.pkgs) =~= returned(s.pkgs).push(event));
            assert(held(filled) =~= held(s).insert(event));
        },
        EventView::OutOfIdeas => {
            if !(s.skipped_idea || s.idea is Some) {
                assert(returned(idle().pkgs) =~= nothing);
            }
        },
    }
    assert(held(s).insert(event) =~= after);
}

/// What a student holds when the queue has refused event number `k`,
/// counted from 0, of those that a reaction puts back: a student that was
/// leaving has given `k` packages back and has lost the one refused; any
/// other student holds what it held.
pub open spec fn interrupted(s: StudentView, leaving: bool, k: int) -> StudentView {
    StudentView {
        idea: s.idea,
        pkgs: if leaving {
            s.pkgs.skip(k + 1)
        } else {
            s.pkgs
        },
        skipped_idea: s.skipped_idea,
    }
}

/// The names of the packages of a buffer.
pub open spec fn package_names(pkgs: Seq<Package>) -> Seq<Seq<char>> {
    Seq::new(pkgs.len(), |i: int| pkgs[i]@)
}

/// A student: a thread that takes events from the queue, one idea at a
/// time, and builds it once it has buffered the packages that it requires.
pub struct Student {
    id: usize,
    idea: Option<Idea>,
    pkgs: Vec<Package>,
    skipped_idea: bool,
    event_sender: Outbox,
    event_recv: Inbox,
}

impl View for Student {
    type V = StudentView;

    closed spec fn view(&self) -> StudentView {
        StudentView {
            idea: match self.idea {
                Some(idea) => Some(idea@),
                None => None,
            },
            pkgs: package_names(self.pkgs@),
            skipped_idea: self.skipped_idea,
        }
    }
}

impl Student {
    /// The number that tells this student from the others.
    pub closed spec fn id(&self) -> nat {
        self.id as nat
    }

    /// The events that the queue has accepted from this student.
    pub closed spec fn sent(&self) -> Seq<EventView> {
        self.event_sender.sent()
    }

    /// The events that this student has taken from the queue.
    pub closed spec fn received(&self) -> Seq<EventView> {
        self.event_recv.received()
    }

    pub fn new(id: usize, event_sender: Sender<Event>, event_recv: Receiver<Event>) -> (student:
        Self)
        ensures
            student.id() == id,
            student@ == idle(),
            student.sent() == Seq::<EventView>::empty(),
            student.received() == Seq::<EventView>::empty(),
    {
        let student = Self {
            id,
            event_sender: Outbox::new(event_sender),
            event_recv: Inbox::new(event_recv),
            idea: None,
            pkgs: Vec::new(),
            skipped_idea: false,
        };
        assert(student@.pkgs =~= Seq::<Seq<char>>::empty());
        student
    }

    /// What the student holds at the moment, for callers that are not verified.
    pub fn snapshot(&self) -> (held: (Option<(String, usize)>, Vec<String>, bool))
        ensures
            match held.0 {
                Some((name, required)) => self@.idea == Some(
                    IdeaView { name: name@, num_pkg_required: required as nat },
                ),
                None => self@.idea is None,
            },
            held.1@.len() == self@.pkgs.len(),
            forall|i: int| 0 <= i < held.1@.len() ==> (#[trigger] held.1@[i])@ == self@.pkgs[i],
            held.2 == self@.skipped_idea,
    {
        let idea = match &self.idea {
            Some(idea) => Some((idea.name.clone(), idea.num_pkg_required)),
            None => None,
        };
        let mut names: Vec<String> = Vec::new();
        let mut i: usize = 0;
        while i < self.pkgs.len()
            invariant
                i <= self.pkgs.len(),
                names@.len() == i,
                forall|j: int| 0 <= j < i ==> (#[trigger] names@[j])@ == self.pkgs@[j]@,
            decreases self.pkgs.len() - i,
        {
            names.push(self.pkgs[i].name.clone());
            i = i + 1;
        }
        (idea, names, self.skipped_idea)
    }

    /// Builds the idea if the student has one and has buffered the packages
    /// that it requires: the digest of the idea's name is folded into
    /// `idea_checksum`, the digests of the oldest packages into
    /// `pkg_checksum`, both in one critical section, and the idea and those
    /// packages are gone. Otherwise nothing changes.
    pub fn build_idea(
        &mut self,
        idea_checksum: &mut Accumulator,
        pkg_checksum: &mut Accumulator,
        hashmap1: &Arc<MemoCache>,
        hashmap2: &Arc<MemoCache>,
    )
        ensures
            final(self)@ == after_build(old(self)@),
            final(self).id() == old(self).id(),
            final(self).sent() == old(self).sent(),
            final(self).received() == old(self).received(),
            final(idea_checksum).folded() == old(idea_checksum).folded() + idea_digests(
                build_of(old(self)@),
            ),
            final(pkg_checksum).folded() == old(pkg_checksum).folded() + pkg_digests(
                build_of(old(self)@),
            ),
    {
        let ghost before = self@;
        let ghost ideas0 = idea_checksum.folded();
        let ghost pkgs0 = pkg_checksum.folded();
        let (pkgs_required, name) = match &self.idea {
            Some(idea) => (idea.num_pkg_required, idea.name.clone()),
            None => {
                assert(ideas0 + idea_digests(build_of(before)) =~= ideas0);
                assert(pkgs0 + pkg_digests(build_of(before)) =~= pkgs0);
                return ;
            },
        };
        if pkgs_required <= self.pkgs.len() {
            let ghost build = build_of(before)->Some_0;
            let val1 = access_or_write(hashmap1, &name);
            let mut vals: Vec<Checksum> = Vec::new();
            let mut i: usize = 0;
            while i < pkgs_required
                invariant
                    i <= pkgs_required <= self.pkgs.len(),
                    vals.len() == i,
                    forall|j: int|
                        0 <= j < i ==> (#[trigger] vals[j])@ == Some(name_digest(self.pkgs@[j]@)),
                decreases pkgs_required - i,
            {
                let val2 = access_or_write(hashmap2, &self.pkgs[i].name);
                vals.push(val2);
                i = i + 1;
            }
            Accumulator::fold_build(idea_checksum, val1, pkg_checksum, &vals);
            assert(digests_of(vals@) =~= pkg_digests(Some(build)));
            assert(ideas0.push(name_digest(name@)) =~= ideas0 + idea_digests(Some(build)));
            let mut rest = self.pkgs.split_off(pkgs_required);
            std::mem::swap(&mut self.pkgs, &mut rest);
            self.idea = None;
            assert(self@.pkgs =~= after_build(before).pkgs);
        } else {
            assert(ideas0 + idea_digests(build_of(before)) =~= ideas0);
            assert(pkgs0 + pkg_digests(build_of(before)) =~= pkgs0);
        }
    }

    /// Handles one event that was taken from the queue, as `react` says:
    /// the student's state changes, a build is folded into the two
    /// checksums, and what the student sends back is published. The result
    /// tells whether the student leaves. It fails when the queue refuses an
    /// event: the student then holds what `interrupted` says, and nothing
    /// was folded.
    pub fn handle(
        &mut self,
        event: Event,
        idea_checksum: &mut Accumulator,
        pkg_checksum: &mut Accumulator,
        hashmap1: &Arc<MemoCache>,
        hashmap2: &Arc<MemoCache>,
    ) -> (done: Result<bool, QueueError>)
        ensures
            final(self).id() == old(self).id(),
            final(self).received() == old(self).received(),
            ({
                let reaction = react(old(self)@, event@);
                match done {
                    Ok(finished) => {
                        &&& finished == reaction.finished
                        &&& final(self)@ == reaction.state
                        &&& final(self).sent() == old(self).sent() + reaction.requeued
                        &&& final(idea_checksum).folded() == old(idea_checksum).folded()
                            + idea_digests(reaction.built)
                        &&& final(pkg_checksum).folded() == old(pkg_checksum).folded()
                            + pkg_digests(reaction.built)
                    },
                    Err(e) => {
                        &&& e == QueueError::NoReceiver
                        &&& reaction.requeued.len() > 0
                        &&& final(idea_checksum).folded() == old(idea_checksum).folded()
                        &&& final(pkg_checksum).folded() == old(pkg_checksum).folded()
                        &&& exists|k: int|
                            {
                                &&& 0 <= k < reaction.requeued.len()
                                &&& final(self).sent() == old(self).sent()
                                    + #[trigger] reaction.requeued.take(k)
                                &&& final(self)@ == interrupted(old(self)@, reaction.finished, k)
                            }
                    },
                }
            }),
    {
        let ghost before = self@;
        let ghost sent0 = self.sent();
        let ghost ideas0 = idea_checksum.folded();
        let ghost pkgs0 = pkg_checksum.folded();
        let ghost reaction = react(before, event@);
        match event {
            Event::NewIdea(idea) => {
                if self.idea.is_none() {
                    self.idea = Some(idea);
                    self.build_idea(idea_checksum, pkg_checksum, hashmap1, hashmap2);
                    assert(sent0 + reaction.requeued =~= sent0);
                    Ok(false)
                } else {
                    let ghost entry = idea@;
                    assert(reaction.requeued.take(0) =~= Seq::<EventView>::empty());
                    assert(sent0 + reaction.requeued.take(0) =~= sent0);
                    match self.event_sender.publish(Event::NewIdea(idea)) {
                        Ok(_) => {},
                        Err(e) => {
                            assert(self@ == interrupted(before, false, 0));
                            return Err(e);
                        },
                    }
                    self.skipped_idea = true;
                    assert(sent0.push(EventView::NewIdea(entry)) =~= sent0 + reaction.requeued);
                    assert(ideas0 + idea_digests(reaction.built) =~= ideas0);
                    assert(pkgs0 + pkg_digests(reaction.built) =~= pkgs0);
                    Ok(false)
                }
            },
            Event::DownloadComplete(pkg) => {
                self.pkgs.push(pkg);
                assert(self@.pkgs =~= before.pkgs.push(pkg@));
                self.build_idea(idea_checksum, pkg_checksum, hashmap1, hashmap2);
                assert(sent0 + reaction.requeued =~= sent0);
                Ok(false)
            },
            Event::OutOfIdeas => {
                if self.skipped_idea || self.idea.is_some() {
                    assert(reaction.requeued.take(0) =~= Seq::<EventView>::empty());
                    assert(sent0 + reaction.requeued.take(0) =~= sent0);
                    match self.event_sender.publish(Event::OutOfIdeas) {
                        Ok(_) => {},
                        Err(e) => {
                            assert(self@ == interrupted(before, false, 0));
                            return Err(e);
                        },
                    }
                    self.skipped_idea = false;
                    assert(sent0.push(EventView::OutOfIdeas) =~= sent0 + reaction.requeued);
                    assert(ideas0 + idea_digests(reaction.built) =~= ideas0);
                    assert(pkgs0 + pkg_digests(reaction.built) =~= pkgs0);
                    Ok(false)
                } else {
                    let ghost names = before.pkgs;
                    let ghost giving = returned(names);
                    let ghost mut given: int = 0;
                    assert(giving.take(0) =~= Seq::<EventView>::empty());
                    assert(sent0 + giving.take(0) =~= sent0);
                    assert(names.skip(0) =~= names);
                    while self.pkgs.len() > 0
                        invariant
                            0 <= given <= names.len(),
                            giving == returned(names),
                            before == old(self)@,
                            sent0 == old(self).sent(),
                            event@ == EventView::OutOfIdeas,
                            reaction == react(before, EventView::OutOfIdeas),
                            reaction.requeued == giving,
                            package_names(self.pkgs@) == names.skip(given),
                            self.sent() == sent0 + giving.take(given),
                            self.idea is None,
                            !self.skipped_idea,
                            before.idea is None,
                            !before.skipped_idea,
                            names == before.pkgs,
                            idea_checksum.folded() == old(idea_checksum).folded(),
                            pkg_checksum.folded() == old(pkg_checksum).folded(),
                            self.id() == old(self).id(),
                            self.received() == old(self).received(),
                        decreases self.pkgs.len(),
                    {
                        let ghost buffer = self.pkgs@;
                        let ghost held = package_names(buffer);
                        assert(held.len() == buffer.len());
                        assert(names.skip(given).len() == names.len() - given);
                        let pkg = self.pkgs.remove(0);
                        assert(pkg@ == held[0]);
                        assert forall|j: int| 0 <= j < self.pkgs@.len() implies package_names(
                            self.pkgs@,
                        )[j] == names.skip(given + 1)[j] by {
                            assert(self.pkgs@[j] == buffer[j + 1]);
                            assert(held[j + 1] == buffer[j + 1]@);
                            assert(held[j + 1] == names.skip(given)[j + 1]);
                        }
                        assert(package_names(self.pkgs@) =~= names.skip(given + 1));
                        assert(giving.take(given + 1) =~= giving.take(given).push(giving[given]));
                        match self.event_sender.publish(Event::DownloadComplete(pkg)) {
                            Ok(_) => {},
                            Err(e) => {
                                assert(self@.pkgs =~= before.pkgs.skip(given + 1));
                                assert(self@ == interrupted(before, true, given));
                                return Err(e);
                            },
                        }
                        assert(self.sent() =~= sent0 + giving.take(given + 1));
                        proof {
                            given = given + 1;
                        }
                    }
                    assert(package_names(self.pkgs@).len() == 0);
                    assert(giving.take(given) =~= giving);
                    assert(self@.pkgs =~= Seq::<Seq<char>>::empty());
                    assert(ideas0 + idea_digests(reaction.built) =~= ideas0);
                    assert(pkgs0 + pkg_digests(reaction.built) =~= pkgs0);
                    Ok(true)
                }
            },
        }
    }

    /// Takes events from the queue and handles them, one after the other,
    /// until the student leaves or `max_events` events are handled. The
    /// result tells whether the student has left; a caller on whose student
    /// it has not calls again.
    ///
    /// Whatever arrives, the student ends up as `replay` says of the events
    /// that it took. With a limit of 0 it takes nothing and succeeds. It
    /// fails when the queue is empty with no sender left, before the limit
    /// is reached; and when the queue refuses an event that the student
    /// puts back, in which case the events before the last were handled in
    /// full and the student holds what `interrupted` says.
    pub fn run(
        &mut self,
        idea_checksum: &mut Accumulator,
        pkg_checksum: &mut Accumulator,
        hashmap1: &Arc<MemoCache>,
        hashmap2: &Arc<MemoCache>,
        max_events: usize,
    ) -> (done: Result<bool, QueueError>)
        ensures
            final(self).id() == old(self).id(),
            old(self).received().is_prefix_of(final(self).received()),
            max_events == 0 ==> done == Ok::<bool, QueueError>(false),
            ({
                let events = final(self).received().skip(old(self).received().len() as int);
                let trace = replay(old(self)@, events);
                &&& events.len() <= max_events
                &&& forall|k: int|
                    0 <= k < events.len() ==> !(#[trigger] replay(
                        old(self)@,
                        events.take(k),
                    )).finished
                &&& !(done is Err && done->Err_0 == QueueError::NoReceiver) ==> {
                    &&& final(self)@ == trace.state
                    &&& final(self).sent() == old(self).sent() + trace.requeued
                    &&& final(idea_checksum).folded() == old(idea_checksum).folded()
                        + trace.idea_digests
                    &&& final(pkg_checksum).folded() == old(pkg_checksum).folded()
                        + trace.pkg_digests
                }
                &&& match done {
                    Ok(finished) => finished == trace.finished && (finished || events.len()
                        == max_events),
                    Err(QueueError::NoSender) => !trace.finished && events.len() < max_events,
                    Err(QueueError::NoReceiver) => {
                        let before = replay(old(self)@, events.drop_last());
                        let reaction = react(before.state, events.last());
                        &&& events.len() > 0
                        &&& reaction.requeued.len() > 0
                        &&& final(idea_checksum).folded() == old(idea_checksum).folded()
                            + before.idea_digests
                        &&& final(pkg_checksum).folded() == old(pkg_checksum).folded()
                            + before.pkg_digests
                        &&& exists|k: int|
                            {
                                &&& 0 <= k < reaction.requeued.len()
                                &&& final(self).sent() == old(self).sent() + before.requeued
                                    + #[trigger] reaction.requeued.take(k)
                                &&& final(self)@ == interrupted(before.state, reaction.finished, k)
                            }
                    },
                }
            }),
    {
        let ghost start = self@;
        let ghost received0 = self.received();
        let ghost sent0 = self.sent();
        let ghost ideas0 = idea_checksum.folded();
        let ghost pkgs0 = pkg_checksum.folded();
        let ghost mut events: Seq<EventView> = Seq::empty();
        let mut handled: usize = 0;
        assert(received0 + events =~= received0);
        assert(sent0 + replay(start, events).requeued =~= sent0);
        assert(ideas0 + replay(start, events).idea_digests =~= ideas0);
        assert(pkgs0 + replay(start, events).pkg_digests =~= pkgs0);
        assert((received0 + events).skip(received0.len() as int) =~= events);
        assert(received0.is_prefix_of(received0 + events));
        while handled < max_events
            invariant
                handled <= max_events,
                events.len() == handled,
                start == old(self)@,
                received0 == old(self).received(),
                sent0 == old(self).sent(),
                ideas0 == old(idea_checksum).folded(),
                pkgs0 == old(pkg_checksum).folded(),
                self.id() == old(self).id(),
                self.received() == received0 + events,
                (received0 + events).skip(received0.len() as int) == events,
                received0.is_prefix_of(received0 + events),
                self@ == replay(start, events).state,
                self.sent() == sent0 + replay(start, events).requeued,
                idea_checksum.folded() == ideas0 + replay(start, events).idea_digests,
                pkg_checksum.folded() == pkgs0 + replay(start, events).pkg_digests,
                !replay(start, events).finished,
                forall|k: int|
                    0 <= k < events.len() ==> !(#[trigger] replay(start, events.take(k))).finished,
            decreases max_events - handled,
        {
            let event = match self.event_recv.take() {
                Ok(event) => event,
                Err(e) => {
                    return Err(e);
                },
            };
            let ghost seen = events;
            let ghost trace = replay(start, seen);
            proof {
                events = seen.push(event@);
                assert(events.drop_last() =~= seen);
                assert(events.take(seen.len() as int) =~= seen);
                assert forall|k: int| 0 <= k < events.len() implies !(#[trigger] replay(
                    start,
                    events.take(k),
                )).finished by {
                    if k < seen.len() {
                        assert(events.take(k) =~= seen.take(k));
                    }
                }
                assert(self.received() =~= received0 + events);
                assert((received0 + events).skip(received0.len() as int) =~= events);
                assert(received0.is_prefix_of(received0 + events));
            }
            let finished = match self.handle(
                event,
                idea_checksum,
                pkg_checksum,
                hashmap1,
                hashmap2,
            ) {
                Ok(finished) => finished,
                Err(e) => {
                    proof {
                        let reaction = react(trace.state, events.last());
                        let k = choose|k: int|
                            {
                                &&& 0 <= k < reaction.requeued.len()
                                &&& self.sent() == sent0 + trace.requeued
                                    + #[trigger] reaction.requeued.take(k)
                                &&& self@ == interrupted(trace.state, reaction.finished, k)
                            };
                        assert(self.sent() == sent0 + trace.requeued + reaction.requeued.take(k));
                    }
                    return Err(e);
                },
            };
            handled = handled + 1;
            proof {
                let reaction = react(trace.state, events.last());
                assert(self.sent() =~= sent0 + replay(start, events).requeued);
                assert(idea_checksum.folded() =~= ideas0 + replay(start, events).idea_digests);
                assert(pkg_checksum.folded() =~= pkgs0 + replay(start, events).pkg_digests);
            }
            if finished {
                return Ok(true);
            }
        }
        Ok(false)
    }
}

} // verus!
