//! The run as a whole: generators, queue and students as one state, every
//! interleaving of their steps, and what holds of all of them.

use vstd::prelude::*;
use vstd::multiset::Multiset;
use crate::checksum::fold_all;
use crate::checksum::name_digest;
use crate::encoding::DIGEST_LEN;
use crate::student::idea_digests;
use crate::student::pkg_digests;
use crate::student::react;
use crate::student::returned;
use crate::student::BuildView;
use crate::student::StudentView;
use crate::EventView;

verus! {

/// What the events of `events` are worth together, when one event is worth `v`.
pub open spec fn worth<T>(events: Seq<EventView>, v: spec_fn(EventView) -> Multiset<T>) -> Multiset<
    T,
>
    decreases events.len(),
{
    if events.len() == 0 {
        Multiset::empty()
    } else {
        worth(events.drop_last(), v).add(v(events.last()))
    }
}

/// What the events of all the runs of `shelves` are worth together.
pub open spec fn worth_all<T>(
    shelves: Seq<Seq<EventView>>,
    v: spec_fn(EventView) -> Multiset<T>,
) -> Multiset<T>
    decreases shelves.len(),
{
    if shelves.len() == 0 {
        Multiset::empty()
    } else {
        worth_all(shelves.drop_last(), v).add(worth(shelves.last(), v))
    }
}

/// Two runs joined are worth what they are worth apart.
pub proof fn lemma_worth_concat<T>(
    a: Seq<EventView>,
    b: Seq<EventView>,
    v: spec_fn(EventView) -> Multiset<T>,
)
    ensures
        worth(a + b, v) == worth(a, v).add(worth(b, v)),
    decreases b.len(),
{
    broadcast use vstd::multiset::group_multiset_axioms;

    if b.len() == 0 {
        assert(a + b =~= a);
    } else {
        assert((a + b).drop_last() =~= a + b.drop_last());
        lemma_worth_concat(a, b.drop_last(), v);
    }
    assert(worth(a + b, v) =~= worth(a, v).add(worth(b, v)));
}

/// A run is worth its first event and the rest.
pub proof fn lemma_worth_first<T>(a: Seq<EventView>, v: spec_fn(EventView) -> Multiset<T>)
    requires
        a.len() > 0,
    ensures
        worth(a, v) == worth(a.drop_first(), v).add(v(a[0])),
{
    broadcast use vstd::multiset::group_multiset_axioms;

    reveal_with_fuel(worth, 2);
    let head = seq![a[0]];
    assert(head.drop_last() =~= Seq::<EventView>::empty());
    assert(head.last() == a[0]);
    assert(a =~= head + a.drop_first());
    lemma_worth_concat(head, a.drop_first(), v);
    assert(worth(head, v) =~= v(a[0]));
    assert(worth(a, v) =~= worth(a.drop_first(), v).add(v(a[0])));
}

/// Adding up does not depend on the order of what is added.
pub proof fn lemma_add_swap<T>(a: Multiset<T>, b: Multiset<T>, c: Multiset<T>)
    ensures
        a.add(b).add(c) == a.add(c).add(b),
{
    broadcast use vstd::multiset::group_multiset_axioms;

    assert(a.add(b).add(c) =~= a.add(c).add(b));
}

/// Replacing one shelf changes the worth of all by the difference.
pub proof fn lemma_worth_all_update<T>(
    shelves: Seq<Seq<EventView>>,
    i: int,
    shelf: Seq<EventView>,
    v: spec_fn(EventView) -> Multiset<T>,
)
    requires
        0 <= i < shelves.len(),
    ensures
        worth_all(shelves.update(i, shelf), v).add(worth(shelves[i], v)) == worth_all(
            shelves,
            v,
        ).add(worth(shelf, v)),
    decreases shelves.len(),
{
    broadcast use vstd::multiset::group_multiset_axioms;

    let changed = shelves.update(i, shelf);
    let front = shelves.drop_last();
    if i == shelves.len() - 1 {
        assert(changed.drop_last() =~= front);
        assert(changed.last() == shelf);
        assert(worth_all(changed, v) == worth_all(front, v).add(worth(shelf, v)));
        assert(worth_all(shelves, v) == worth_all(front, v).add(worth(shelves[i], v)));
    } else {
        assert(changed.drop_last() =~= front.update(i, shelf));
        assert(changed.last() == shelves.last());
        assert(front[i] == shelves[i]);
        lemma_worth_all_update(front, i, shelf, v);
        assert(worth_all(changed, v) == worth_all(front.update(i, shelf), v).add(
            worth(shelves.last(), v),
        ));
        assert(worth_all(shelves, v) == worth_all(front, v).add(worth(shelves.last(), v)));
        lemma_add_swap(
            worth_all(front.update(i, shelf), v),
            worth(shelves.last(), v),
            worth(shelves[i], v),
        );
        lemma_add_swap(worth_all(front, v), worth(shelf, v), worth(shelves.last(), v));
    }
}

/// Shelves that are worth nothing each are worth nothing together.
pub proof fn lemma_worth_all_nothing<T>(
    shelves: Seq<Seq<EventView>>,
    v: spec_fn(EventView) -> Multiset<T>,
)
    requires
        forall|i: int| 0 <= i < shelves.len() ==> worth(#[trigger] shelves[i], v).len() == 0,
    ensures
        worth_all(shelves, v).len() == 0,
    decreases shelves.len(),
{
    broadcast use vstd::multiset::group_multiset_axioms;

    if shelves.len() > 0 {
        lemma_worth_all_nothing(shelves.drop_last(), v);
        assert(worth(shelves.last(), v).len() == 0);
    }
}

/// No shelf is worth more than all of them.
pub proof fn lemma_worth_all_covers<T>(
    shelves: Seq<Seq<EventView>>,
    i: int,
    v: spec_fn(EventView) -> Multiset<T>,
)
    requires
        0 <= i < shelves.len(),
    ensures
        worth(shelves[i], v).len() <= worth_all(shelves, v).len(),
    decreases shelves.len(),
{
    broadcast use vstd::multiset::group_multiset_axioms;

    if i < shelves.len() - 1 {
        lemma_worth_all_covers(shelves.drop_last(), i, v);
    }
}

/// The whole run at one moment.
pub struct World {
    /// For each generator, what it has yet to publish, the next event first.
    pub pending: Seq<Seq<EventView>>,
    /// The queue, the oldest event first.
    pub queue: Seq<EventView>,
    /// What each student holds.
    pub students: Seq<StudentView>,
    /// Which students have left.
    pub left: Seq<bool>,
    /// The builds made so far, the first of them first.
    pub builds: Seq<BuildView>,
    /// What the generators have published so far, the first event first.
    pub published: Seq<EventView>,
}

/// The run before its first step: the generators have their scripts before
/// them, the queue is empty, and `students` students hold nothing.
pub open spec fn start(scripts: Seq<Seq<EventView>>, students: nat) -> World {
    World {
        pending: scripts,
        queue: Seq::empty(),
        students: Seq::new(students, |i: int| crate::student::idle()),
        left: Seq::new(students, |i: int| false),
        builds: Seq::empty(),
        published: Seq::empty(),
    }
}

/// Whether generator number `g` has an event to publish.
pub open spec fn can_publish(w: World, g: int) -> bool {
    0 <= g < w.pending.len() && w.pending[g].len() > 0
}

/// The run after generator number `g` has published its next event.
pub open spec fn publish(w: World, g: int) -> World {
    World {
        pending: w.pending.update(g, w.pending[g].drop_first()),
        queue: w.queue.push(w.pending[g][0]),
        students: w.students,
        left: w.left,
        builds: w.builds,
        published: w.published.push(w.pending[g][0]),
    }
}

/// Whether student number `i` is there to take an event, and the queue has one.
pub open spec fn can_work(w: World, i: int) -> bool {
    0 <= i < w.students.len() && !w.left[i] && w.queue.len() > 0
}

/// The builds `builds` and, where there is one, the build `built` after them.
pub open spec fn with_build(builds: Seq<BuildView>, built: Option<BuildView>) -> Seq<BuildView> {
    match built {
        Some(build) => builds.push(build),
        None => builds,
    }
}

/// The run after student number `i` has taken the oldest event of the queue
/// and handled it.
pub open spec fn work(w: World, i: int) -> World {
    let reaction = react(w.students[i], w.queue[0]);
    World {
        pending: w.pending,
        queue: w.queue.drop_first() + reaction.requeued,
        students: w.students.update(i, reaction.state),
        left: w.left.update(i, reaction.finished),
        builds: with_build(w.builds, reaction.built),
        published: w.published,
    }
}

/// Whether `after` is the run one step after `before`: one generator has
/// published one event, or one student has handled one.
pub open spec fn next(before: World, after: World) -> bool {
    ||| exists|g: int| can_publish(before, g) && after == #[trigger] publish(before, g)
    ||| exists|i: int| can_work(before, i) && after == #[trigger] work(before, i)
}

/// Whether `states` is a run of generators with the scripts `scripts` and of
/// `students` students, from its start, one step after the other.
pub open spec fn is_run(states: Seq<World>, scripts: Seq<Seq<EventView>>, students: nat) -> bool {
    &&& states.len() > 0
    &&& states[0] == start(scripts, students)
    &&& forall|k: int| 0 <= k < states.len() - 1 ==> next(#[trigger] states[k], states[k + 1])
}

/// What a student holds, as the events that brought it.
pub open spec fn holding(s: StudentView) -> Seq<EventView> {
    match s.idea {
        Some(idea) => seq![EventView::NewIdea(idea)] + returned(s.pkgs),
        None => returned(s.pkgs),
    }
}

/// What went into a build, as the events that brought it.
pub open spec fn used_up(built: Option<BuildView>) -> Seq<EventView> {
    match built {
        Some(build) => seq![EventView::NewIdea(build.idea)] + returned(build.used),
        None => Seq::empty(),
    }
}

/// The notice that a student who has left took along.
pub open spec fn gone_with(left: bool) -> Seq<EventView> {
    if left {
        seq![EventView::OutOfIdeas]
    } else {
        Seq::empty()
    }
}

/// What the students hold, student by student.
pub open spec fn in_hands(w: World) -> Seq<Seq<EventView>> {
    Seq::new(w.students.len(), |i: int| holding(w.students[i]))
}

/// What went into the builds, build by build.
pub open spec fn in_builds(w: World) -> Seq<Seq<EventView>> {
    Seq::new(w.builds.len(), |j: int| used_up(Some(w.builds[j])))
}

/// The notices that the students who have left took along, student by student.
pub open spec fn with_leavers(w: World) -> Seq<Seq<EventView>> {
    Seq::new(w.left.len(), |i: int| gone_with(w.left[i]))
}

/// What everything in the run is worth together: what is yet to be
/// published, what is in the queue, what the students hold, what the builds
/// used, and the notices that went with the students who left.
pub open spec fn total<T>(w: World, v: spec_fn(EventView) -> Multiset<T>) -> Multiset<T> {
    worth_all(w.pending, v).add(worth(w.queue, v)).add(worth_all(in_hands(w), v)).add(
        worth_all(in_builds(w), v),
    ).add(worth_all(with_leavers(w), v))
}

/// Whether the run has a place for each student.
pub open spec fn well_formed(w: World) -> bool {
    w.students.len() == w.left.len()
}

/// One event alone is worth what it is worth.
pub proof fn lemma_worth_one<T>(event: EventView, v: spec_fn(EventView) -> Multiset<T>)
    ensures
        worth(seq![event], v) == v(event),
        worth(Seq::<EventView>::empty(), v) == Multiset::<T>::empty(),
{
    broadcast use vstd::multiset::group_multiset_axioms;

    reveal_with_fuel(worth, 2);
    let one = seq![event];
    assert(one.drop_last() =~= Seq::<EventView>::empty());
    assert(one.last() == event);
    assert(worth(one, v) =~= v(event));
}

/// An attempt to build is worth nothing: what the student held is worth
/// what it holds afterwards and what the build used.
pub proof fn lemma_build_keeps_worth<T>(s: StudentView, v: spec_fn(EventView) -> Multiset<T>)
    ensures
        worth(holding(s), v) == worth(holding(crate::student::after_build(s)), v).add(
            worth(used_up(crate::student::build_of(s)), v),
        ),
{
    broadcast use vstd::multiset::group_multiset_axioms;

    let after = crate::student::after_build(s);
    let built = crate::student::build_of(s);
    lemma_worth_one(EventView::OutOfIdeas, v);
    if crate::student::can_build(s) {
        let idea = s.idea->Some_0;
        let n = idea.num_pkg_required as int;
        let first = seq![EventView::NewIdea(idea)];
        let used = returned(s.pkgs.take(n));
        let kept = returned(s.pkgs.skip(n));
        assert(returned(s.pkgs) =~= used + kept);
        assert(holding(s) =~= (first + used) + kept);
        lemma_worth_concat(first + used, kept, v);
        assert(holding(after) == kept);
        assert(used_up(built) == first + used);
        assert(worth(holding(s), v) =~= worth(kept, v).add(worth(first + used, v)));
    } else {
        assert(worth(holding(s), v) =~= worth(holding(after), v).add(worth(used_up(built), v)));
    }
}

/// No event is lost and none is made up, whatever events are worth: what a
/// student held and the event that reached it are worth together what the
/// student holds afterwards, what a build used, what went back into the
/// queue, and the notice that went with the student.
pub proof fn lemma_react_keeps_worth<T>(
    s: StudentView,
    event: EventView,
    v: spec_fn(EventView) -> Multiset<T>,
)
    ensures
        ({
            let reaction = react(s, event);
            worth(holding(s), v).add(v(event)) == worth(holding(reaction.state), v).add(
                worth(used_up(reaction.built), v),
            ).add(worth(reaction.requeued, v)).add(worth(gone_with(reaction.finished), v))
        }),
{
    broadcast use vstd::multiset::group_multiset_axioms;

    let reaction = react(s, event);
    let before = worth(holding(s), v).add(v(event));
    let after = worth(holding(reaction.state), v).add(worth(used_up(reaction.built), v)).add(
        worth(reaction.requeued, v),
    ).add(worth(gone_with(reaction.finished), v));
    lemma_worth_one(event, v);
    match event {
        EventView::NewIdea(idea) => {
            if s.idea is None {
                let taken = StudentView { idea: Some(idea), pkgs: s.pkgs, skipped_idea: s.skipped_idea };
                lemma_build_keeps_worth(taken, v);
                lemma_worth_concat(seq![event], returned(s.pkgs), v);
                assert(holding(taken) == seq![event] + returned(s.pkgs));
                assert(before =~= after);
            } else {
                assert(holding(reaction.state) == holding(s));
                assert(before =~= after);
            }
        },
        EventView::DownloadComplete(pkg) => {
            let filled = StudentView {
                idea: s.idea,
                pkgs: s.pkgs.push(pkg),
                skipped_idea: s.skipped_idea,
            };
            lemma_build_keeps_worth(filled, v);
            assert(returned(filled.pkgs) =~= returned(s.pkgs) + seq![event]);
            lemma_worth_concat(returned(s.pkgs), seq![event], v);
            if s.idea is Some {
                let first = seq![EventView::NewIdea(s.idea->Some_0)];
                assert(holding(filled) =~= (first + returned(s.pkgs)) + seq![event]);
                lemma_worth_concat(first + returned(s.pkgs), seq![event], v);
            }
            assert(worth(holding(filled), v) =~= before);
            assert(before =~= after);
        },
        EventView::OutOfIdeas => {
            if s.skipped_idea || s.idea is Some {
                assert(holding(reaction.state) == holding(s));
                assert(before =~= after);
            } else {
                assert(returned(crate::student::idle().pkgs) =~= Seq::<EventView>::empty());
                assert(holding(reaction.state) =~= Seq::<EventView>::empty());
                assert(before =~= after);
            }
        },
    }
}

/// A generator's step loses nothing and makes nothing up.
pub proof fn lemma_publish_keeps_total<T>(w: World, g: int, v: spec_fn(EventView) -> Multiset<T>)
    requires
        can_publish(w, g),
    ensures
        total(publish(w, g), v) == total(w, v),
        well_formed(w) ==> well_formed(publish(w, g)),
{
    broadcast use vstd::multiset::group_multiset_axioms;

    let after = publish(w, g);
    let event = w.pending[g][0];
    lemma_worth_first(w.pending[g], v);
    lemma_worth_all_update(w.pending, g, w.pending[g].drop_first(), v);
    assert(after.queue.drop_last() =~= w.queue);
    assert(in_hands(after) =~= in_hands(w));
    assert(in_builds(after) =~= in_builds(w));
    assert(with_leavers(after) =~= with_leavers(w));
    let rest = worth(w.pending[g].drop_first(), v);
    assert forall|x: T| total(after, v).count(x) == total(w, v).count(x) by {
        assert(worth_all(after.pending, v).add(worth(w.pending[g], v)).count(x) == worth_all(
            w.pending,
            v,
        ).add(rest).count(x));
        assert(worth(w.pending[g], v).count(x) == rest.add(v(event)).count(x));
    }
    assert(total(after, v) =~= total(w, v));
}

/// A student's step loses nothing and makes nothing up.
pub proof fn lemma_work_keeps_total<T>(w: World, i: int, v: spec_fn(EventView) -> Multiset<T>)
    requires
        well_formed(w),
        can_work(w, i),
    ensures
        total(work(w, i), v) == total(w, v),
        well_formed(work(w, i)),
{
    broadcast use vstd::multiset::group_multiset_axioms;

    let after = work(w, i);
    let event = w.queue[0];
    let s = w.students[i];
    let reaction = react(s, event);
    lemma_react_keeps_worth(s, event, v);
    lemma_worth_first(w.queue, v);
    lemma_worth_concat(w.queue.drop_first(), reaction.requeued, v);
    lemma_worth_one(event, v);
    assert(in_hands(after) =~= in_hands(w).update(i, holding(reaction.state)));
    lemma_worth_all_update(in_hands(w), i, holding(reaction.state), v);
    assert(with_leavers(after) =~= with_leavers(w).update(i, gone_with(reaction.finished)));
    lemma_worth_all_update(with_leavers(w), i, gone_with(reaction.finished), v);
    assert(with_leavers(w)[i] == Seq::<EventView>::empty());
    if reaction.built is Some {
        assert(in_builds(after).drop_last() =~= in_builds(w));
        assert(in_builds(after).last() == used_up(reaction.built));
    } else {
        assert(in_builds(after) =~= in_builds(w));
    }
    assert(worth_all(in_builds(after), v) =~= worth_all(in_builds(w), v).add(
        worth(used_up(reaction.built), v),
    ));
    let rest = worth(w.queue.drop_first(), v);
    assert forall|x: T| total(after, v).count(x) == total(w, v).count(x) by {
        assert(worth_all(in_hands(after), v).add(worth(holding(s), v)).count(x) == worth_all(
            in_hands(w),
            v,
        ).add(worth(holding(reaction.state), v)).count(x));
        assert(worth_all(with_leavers(after), v).add(worth(with_leavers(w)[i], v)).count(x)
            == worth_all(with_leavers(w), v).add(worth(gone_with(reaction.finished), v)).count(x));
        assert(worth(holding(s), v).add(v(event)).count(x) == worth(
            holding(reaction.state),
            v,
        ).add(worth(used_up(reaction.built), v)).add(worth(reaction.requeued, v)).add(
            worth(gone_with(reaction.finished), v),
        ).count(x));
        assert(worth(w.queue, v).count(x) == rest.add(v(event)).count(x));
        assert(worth(after.queue, v).count(x) == rest.add(worth(reaction.requeued, v)).count(x));
    }
    assert(total(after, v) =~= total(w, v));
}

/// Conservation over a whole run: at every moment, everything that the
/// scripts hold is in exactly one place, whatever events are worth. It is
/// yet to be published, or in the queue, or with one student, or used by
/// one build, or it is the notice at which one student left.
pub proof fn lemma_run_keeps_total<T>(
    states: Seq<World>,
    scripts: Seq<Seq<EventView>>,
    students: nat,
    v: spec_fn(EventView) -> Multiset<T>,
)
    requires
        is_run(states, scripts, students),
    ensures
        well_formed(states.last()),
        total(states.last(), v) == worth_all(scripts, v),
    decreases states.len(),
{
    broadcast use vstd::multiset::group_multiset_axioms;

    if states.len() == 1 {
        let w = states[0];
        lemma_worth_one(EventView::OutOfIdeas, v);
        assert forall|i: int| 0 <= i < in_hands(w).len() implies worth(
            #[trigger] in_hands(w)[i],
            v,
        ).len() == 0 by {
            assert(returned(crate::student::idle().pkgs) =~= Seq::<EventView>::empty());
        }
        lemma_worth_all_nothing(in_hands(w), v);
        lemma_worth_all_nothing(with_leavers(w), v);
        assert(in_builds(w) =~= Seq::<Seq<EventView>>::empty());
        assert(total(w, v) =~= worth_all(scripts, v));
    } else {
        let earlier = states.drop_last();
        assert(is_run(earlier, scripts, students)) by {
            assert forall|k: int| 0 <= k < earlier.len() - 1 implies next(
                #[trigger] earlier[k],
                earlier[k + 1],
            ) by {
                assert(next(states[k], states[k + 1]));
            }
        }
        lemma_run_keeps_total(earlier, scripts, students, v);
        let before = states[states.len() - 2];
        let after = states.last();
        assert(before == earlier.last());
        assert(next(states[states.len() - 2], states[states.len() - 2 + 1]));
        lemma_step_keeps_total(before, after, v);
    }
}

/// One step loses nothing and makes nothing up.
pub proof fn lemma_step_keeps_total<T>(
    before: World,
    after: World,
    v: spec_fn(EventView) -> Multiset<T>,
)
    requires
        well_formed(before),
        next(before, after),
    ensures
        well_formed(after),
        total(after, v) == total(before, v),
{
    if exists|g: int| can_publish(before, g) && after == #[trigger] publish(before, g) {
        let g = choose|g: int| can_publish(before, g) && after == #[trigger] publish(before, g);
        lemma_publish_keeps_total(before, g, v);
    } else {
        let i = choose|i: int| can_work(before, i) && after == #[trigger] work(before, i);
        lemma_work_keeps_total(before, i, v);
    }
}

/// The place of the last event of `events` of which `p` holds, and -1 if
/// there is none.
pub open spec fn last_where(events: Seq<EventView>, p: spec_fn(EventView) -> bool) -> int
    decreases events.len(),
{
    if events.len() == 0 {
        -1
    } else if p(events.last()) {
        events.len() - 1
    } else {
        last_where(events.drop_last(), p)
    }
}

/// `last_where` finds an event of which `p` holds, and none comes after it.
pub proof fn lemma_last_where(events: Seq<EventView>, p: spec_fn(EventView) -> bool)
    ensures
        -1 <= last_where(events, p) < events.len(),
        last_where(events, p) >= 0 ==> p(events[last_where(events, p)]),
        forall|k: int| 0 <= k < events.len() && p(#[trigger] events[k]) ==> k <= last_where(events, p),
    decreases events.len(),
{
    if events.len() > 0 {
        lemma_last_where(events.drop_last(), p);
        assert forall|k: int| 0 <= k < events.len() && p(#[trigger] events[k]) implies k
            <= last_where(events, p) by {
            if k < events.len() - 1 {
                assert(events.drop_last()[k] == events[k]);
            }
        }
    }
}

/// Without the first event, every place moves down by one.
pub proof fn lemma_last_where_drop_first(events: Seq<EventView>, p: spec_fn(EventView) -> bool)
    requires
        events.len() > 0,
    ensures
        last_where(events.drop_first(), p) == if last_where(events, p) >= 1 {
            last_where(events, p) - 1
        } else {
            -1
        },
    decreases events.len(),
{
    if events.len() == 1 {
        assert(events.drop_first() =~= Seq::<EventView>::empty());
        lemma_last_where(events, p);
    } else {
        let rest = events.drop_first();
        assert(rest.last() == events.last());
        assert(rest.drop_last() =~= events.drop_last().drop_first());
        lemma_last_where_drop_first(events.drop_last(), p);
        lemma_last_where(events.drop_last(), p);
    }
}

/// Events of which `p` does not hold, put at the end, move no place.
pub proof fn lemma_last_where_concat(
    events: Seq<EventView>,
    more: Seq<EventView>,
    p: spec_fn(EventView) -> bool,
)
    requires
        forall|k: int| 0 <= k < more.len() ==> !p(#[trigger] more[k]),
    ensures
        last_where(events + more, p) == last_where(events, p),
    decreases more.len(),
{
    if more.len() == 0 {
        assert(events + more =~= events);
    } else {
        assert((events + more).drop_last() =~= events + more.drop_last());
        assert((events + more).last() == more[more.len() - 1]);
        assert forall|k: int| 0 <= k < more.drop_last().len() implies !p(
            #[trigger] more.drop_last()[k],
        ) by {
            assert(more.drop_last()[k] == more[k]);
        }
        lemma_last_where_concat(events, more.drop_last(), p);
    }
}

/// Events that are worth nothing each are worth nothing together.
pub proof fn lemma_worth_nothing<T>(events: Seq<EventView>, v: spec_fn(EventView) -> Multiset<T>)
    requires
        forall|k: int| 0 <= k < events.len() ==> v(#[trigger] events[k]).len() == 0,
    ensures
        worth(events, v) == Multiset::<T>::empty(),
    decreases events.len(),
{
    broadcast use vstd::multiset::group_multiset_axioms;

    if events.len() > 0 {
        assert forall|k: int| 0 <= k < events.drop_last().len() implies v(
            #[trigger] events.drop_last()[k],
        ).len() == 0 by {
            assert(events.drop_last()[k] == events[k]);
        }
        lemma_worth_nothing(events.drop_last(), v);
        assert(v(events[events.len() - 1]).len() == 0);
        assert(v(events.last()) =~= Multiset::<T>::empty());
    }
    assert(worth(events, v) =~= Multiset::<T>::empty());
}

/// No event is worth more than all of them.
pub proof fn lemma_worth_covers<T>(
    events: Seq<EventView>,
    k: int,
    v: spec_fn(EventView) -> Multiset<T>,
)
    requires
        0 <= k < events.len(),
    ensures
        v(events[k]).len() <= worth(events, v).len(),
    decreases events.len(),
{
    broadcast use vstd::multiset::group_multiset_axioms;

    if k < events.len() - 1 {
        assert(events.drop_last()[k] == events[k]);
        lemma_worth_covers(events.drop_last(), k, v);
    }
}

/// Whether an event is a new idea.
pub open spec fn is_idea() -> spec_fn(EventView) -> bool {
    |event: EventView| event is NewIdea
}

/// Whether an event is a notice that a generator has run out.
pub open spec fn is_notice() -> spec_fn(EventView) -> bool {
    |event: EventView| event is OutOfIdeas
}

/// Counts the notices: a notice is worth one, any other event nothing.
pub open spec fn notices() -> spec_fn(EventView) -> Multiset<()> {
    |event: EventView|
        if event is OutOfIdeas {
            Multiset::singleton(())
        } else {
            Multiset::empty()
        }
}

/// Whether `v` gives worth to nothing but events of which `p` holds.
pub open spec fn only_about<T>(
    v: spec_fn(EventView) -> Multiset<T>,
    p: spec_fn(EventView) -> bool,
) -> bool {
    forall|event: EventView| !p(event) ==> (#[trigger] v(event)).len() == 0
}

/// Events among which `p` holds of none are worth nothing to a `v` that is
/// only about `p`.
pub proof fn lemma_worth_without<T>(
    events: Seq<EventView>,
    v: spec_fn(EventView) -> Multiset<T>,
    p: spec_fn(EventView) -> bool,
)
    requires
        only_about(v, p),
        last_where(events, p) < 0,
    ensures
        worth(events, v) == Multiset::<T>::empty(),
{
    lemma_last_where(events, p);
    assert forall|k: int| 0 <= k < events.len() implies v(#[trigger] events[k]).len() == 0 by {
        assert(!p(events[k]));
    }
    lemma_worth_nothing(events, v);
}

/// Events that count no notice hold none.
pub proof fn lemma_no_notice(events: Seq<EventView>)
    requires
        worth(events, notices()).len() == 0,
    ensures
        last_where(events, is_notice()) < 0,
{
    broadcast use vstd::multiset::group_multiset_axioms;

    lemma_last_where(events, is_notice());
    let k = last_where(events, is_notice());
    if k >= 0 {
        lemma_worth_covers(events, k, notices());
        assert(notices()(events[k]) == Multiset::singleton(()));
    }
}

/// A student holds no notice, and no build has used one.
pub proof fn lemma_notices_are_not_kept(s: StudentView, built: Option<BuildView>)
    ensures
        worth(holding(s), notices()) == Multiset::<()>::empty(),
        worth(used_up(built), notices()) == Multiset::<()>::empty(),
{
    broadcast use vstd::multiset::group_multiset_axioms;

    lemma_worth_nothing(holding(s), notices());
    lemma_worth_nothing(used_up(built), notices());
}

/// The students who have left took one notice each: the notices gone with
/// them are as many as have left.
pub proof fn lemma_notices_of_leavers(left: Seq<bool>)
    ensures
        ({
            let shelves = Seq::new(left.len(), |i: int| gone_with(left[i]));
            let gone = worth_all(shelves, notices()).len();
            &&& gone <= left.len()
            &&& (exists|i: int| 0 <= i < left.len() && !left[i]) ==> gone < left.len()
            &&& (forall|i: int| 0 <= i < left.len() ==> left[i]) ==> gone == left.len()
        }),
    decreases left.len(),
{
    broadcast use vstd::multiset::group_multiset_axioms;

    let shelves = Seq::new(left.len(), |i: int| gone_with(left[i]));
    if left.len() > 0 {
        let front = left.drop_last();
        let front_shelves = Seq::new(front.len(), |i: int| gone_with(front[i]));
        lemma_notices_of_leavers(front);
        assert(shelves.drop_last() =~= front_shelves);
        lemma_worth_one(EventView::OutOfIdeas, notices());
        assert(shelves.last() == gone_with(left.last()));
        assert(worth(shelves.last(), notices()).len() == if left.last() {
            1nat
        } else {
            0nat
        });
        if exists|i: int| 0 <= i < left.len() && !left[i] {
            let i = choose|i: int| 0 <= i < left.len() && !left[i];
            if i < front.len() {
                assert(!front[i]);
            }
        }
        if forall|i: int| 0 <= i < left.len() ==> left[i] {
            assert forall|i: int| 0 <= i < front.len() implies front[i] by {
                assert(left[i]);
            }
        }
    }
}

/// Over a whole run the number of students stays what it was.
pub proof fn lemma_run_keeps_students(
    states: Seq<World>,
    scripts: Seq<Seq<EventView>>,
    students: nat,
)
    requires
        is_run(states, scripts, students),
    ensures
        states.last().students.len() == students,
        states.last().left.len() == students,
    decreases states.len(),
{
    if states.len() > 1 {
        let earlier = states.drop_last();
        lemma_run_prefix(states, scripts, students);
        lemma_run_keeps_students(earlier, scripts, students);
        let before = earlier.last();
        let after = states.last();
        assert(before == states[states.len() - 2]);
        assert(next(states[states.len() - 2], states[states.len() - 2 + 1]));
    }
}

/// A run without its last step is a run.
pub proof fn lemma_run_prefix(states: Seq<World>, scripts: Seq<Seq<EventView>>, students: nat)
    requires
        is_run(states, scripts, students),
        states.len() > 1,
    ensures
        is_run(states.drop_last(), scripts, students),
        next(states.drop_last().last(), states.last()),
{
    let earlier = states.drop_last();
    assert forall|k: int| 0 <= k < earlier.len() - 1 implies next(
        #[trigger] earlier[k],
        earlier[k + 1],
    ) by {
        assert(next(states[k], states[k + 1]));
    }
    assert(next(states[states.len() - 2], states[states.len() - 2 + 1]));
}

/// No deadlock: where the scripts hold one notice for each student, a
/// student who has not left never waits in vain. At every moment of every
/// run, if a student is still there then a generator has an event to
/// publish, or the queue holds one for the student to take.
pub proof fn lemma_no_deadlock(states: Seq<World>, scripts: Seq<Seq<EventView>>, students: nat)
    requires
        is_run(states, scripts, students),
        worth_all(scripts, notices()).len() == students,
    ensures
        ({
            let w = states.last();
            forall|i: int|
                0 <= i < w.students.len() && !w.left[i] ==> #[trigger] can_work(w, i) || exists|
                    g: int,
                | #[trigger] can_publish(w, g)
        }),
{
    broadcast use vstd::multiset::group_multiset_axioms;

    let w = states.last();
    let v = notices();
    lemma_run_keeps_total(states, scripts, students, v);
    lemma_run_keeps_students(states, scripts, students);
    assert forall|i: int| 0 <= i < w.students.len() && !w.left[i] implies #[trigger] can_work(
        w,
        i,
    ) || exists|g: int| #[trigger] can_publish(w, g) by {
        if !exists|g: int| #[trigger] can_publish(w, g) {
            assert forall|g: int| 0 <= g < w.pending.len() implies worth(
                #[trigger] w.pending[g],
                v,
            ).len() == 0 by {
                assert(!can_publish(w, g));
            }
            lemma_worth_all_nothing(w.pending, v);
            assert forall|j: int| 0 <= j < in_hands(w).len() implies worth(
                #[trigger] in_hands(w)[j],
                v,
            ).len() == 0 by {
                lemma_notices_are_not_kept(w.students[j], None);
            }
            lemma_worth_all_nothing(in_hands(w), v);
            assert forall|j: int| 0 <= j < in_builds(w).len() implies worth(
                #[trigger] in_builds(w)[j],
                v,
            ).len() == 0 by {
                lemma_notices_are_not_kept(crate::student::idle(), Some(w.builds[j]));
            }
            lemma_worth_all_nothing(in_builds(w), v);
            lemma_notices_of_leavers(w.left);
            assert(with_leavers(w) =~= Seq::new(w.left.len(), |k: int| gone_with(w.left[k])));
            assert(worth(w.queue, v).len() > 0);
            assert(w.queue.len() > 0);
        }
    }
}

/// Whether every idea of `events` has a notice somewhere after it.
pub open spec fn ideas_followed(events: Seq<EventView>) -> bool {
    last_where(events, is_idea()) <= last_where(events, is_notice())
}

/// Whether a student who is still there has sent an idea back since the
/// last notice that reached it.
pub open spec fn flagged(w: World) -> bool {
    exists|i: int|
        0 <= i < w.students.len() && !w.left[i] && (#[trigger] w.students[i]).skipped_idea
}

/// Whether a generator has a notice yet to publish.
pub open spec fn notice_pending(w: World) -> bool {
    exists|g: int|
        0 <= g < w.pending.len() && last_where(#[trigger] w.pending[g], is_notice()) >= 0
}

/// What holds at every moment of a run whose scripts let a notice follow
/// their ideas.
///
/// No idea waits in the queue behind the last notice unless another notice
/// is sure to come: from a generator, or from a student who sent an idea
/// back and therefore passes the next notice on. A student who has left
/// holds nothing. A build has used as many packages as its idea required.
pub open spec fn settled(w: World) -> bool {
    &&& well_formed(w)
    &&& forall|g: int| 0 <= g < w.pending.len() ==> ideas_followed(#[trigger] w.pending[g])
    &&& ideas_followed(w.queue) || flagged(w) || notice_pending(w)
    &&& forall|i: int|
        0 <= i < w.students.len() && w.left[i] ==> #[trigger] w.students[i]
            == crate::student::idle()
    &&& forall|j: int|
        0 <= j < w.builds.len() ==> (#[trigger] w.builds[j]).used.len()
            == w.builds[j].idea.num_pkg_required
}

/// Without its first event, a run of events still has a notice after every idea.
pub proof fn lemma_ideas_followed_drop_first(events: Seq<EventView>)
    requires
        events.len() > 0,
        ideas_followed(events),
    ensures
        ideas_followed(events.drop_first()),
{
    lemma_last_where_drop_first(events, is_idea());
    lemma_last_where_drop_first(events, is_notice());
}

/// What an event at the end does to the places of the last idea and notice.
pub proof fn lemma_last_where_push(
    events: Seq<EventView>,
    event: EventView,
    p: spec_fn(EventView) -> bool,
)
    ensures
        last_where(events.push(event), p) == if p(event) {
            events.len() as int
        } else {
            last_where(events, p)
        },
{
    assert(events.push(event).drop_last() =~= events);
    assert(events.push(event).last() == event);
}

/// A generator's step keeps the run settled.
pub proof fn lemma_publish_keeps_settled(w: World, g: int)
    requires
        settled(w),
        can_publish(w, g),
    ensures
        settled(publish(w, g)),
{
    let after = publish(w, g);
    let script = w.pending[g];
    let event = script[0];
    lemma_ideas_followed_drop_first(script);
    lemma_last_where_drop_first(script, is_notice());
    lemma_last_where(script, is_notice());
    lemma_last_where(script, is_idea());
    lemma_last_where(w.queue, is_idea());
    lemma_last_where(w.queue, is_notice());
    lemma_last_where_push(w.queue, event, is_idea());
    lemma_last_where_push(w.queue, event, is_notice());
    assert forall|h: int| 0 <= h < after.pending.len() implies ideas_followed(
        #[trigger] after.pending[h],
    ) by {
        if h != g {
            assert(after.pending[h] == w.pending[h]);
        }
    }
    if event is OutOfIdeas {
        assert(ideas_followed(after.queue));
    } else if event is NewIdea {
        assert(is_idea()(script[0]));
        assert(last_where(script, is_notice()) >= 1);
        assert(last_where(after.pending[g], is_notice()) >= 0);
        assert(notice_pending(after));
    } else {
        if ideas_followed(w.queue) {
            assert(ideas_followed(after.queue));
        } else if flagged(w) {
            let i = choose|i: int|
                0 <= i < w.students.len() && !w.left[i] && (#[trigger] w.students[i]).skipped_idea;
            assert(after.students[i].skipped_idea);
            assert(flagged(after));
        } else {
            let h = choose|h: int|
                0 <= h < w.pending.len() && last_where(#[trigger] w.pending[h], is_notice()) >= 0;
            if h == g {
                assert(last_where(script, is_notice()) >= 1);
            } else {
                assert(after.pending[h] == w.pending[h]);
            }
            assert(last_where(after.pending[h], is_notice()) >= 0);
            assert(notice_pending(after));
        }
    }
}

/// A student's step keeps the run settled.
pub proof fn lemma_work_keeps_settled(w: World, i: int)
    requires
        settled(w),
        can_work(w, i),
    ensures
        settled(work(w, i)),
{
    let after = work(w, i);
    let event = w.queue[0];
    let s = w.students[i];
    let reaction = react(s, event);
    let rest = w.queue.drop_first();
    lemma_last_where_drop_first(w.queue, is_idea());
    lemma_last_where_drop_first(w.queue, is_notice());
    lemma_last_where(rest, is_idea());
    lemma_last_where(rest, is_notice());
    crate::student::lemma_build_accounts_for_everything(
        StudentView { idea: Some(event->NewIdea_0), pkgs: s.pkgs, skipped_idea: s.skipped_idea },
    );
    crate::student::lemma_build_accounts_for_everything(
        StudentView {
            idea: s.idea,
            pkgs: s.pkgs.push(event->DownloadComplete_0),
            skipped_idea: s.skipped_idea,
        },
    );
    assert forall|j: int| 0 <= j < after.builds.len() implies (#[trigger] after.builds[j]).used.len()
        == after.builds[j].idea.num_pkg_required by {
        if j < w.builds.len() {
            assert(after.builds[j] == w.builds[j]);
        }
    }
    assert forall|k: int| 0 <= k < after.students.len() && after.left[k] implies #[trigger] after.students[k]
        == crate::student::idle() by {
        if k != i {
            assert(after.students[k] == w.students[k]);
        }
    }
    let quiet = reaction.requeued.len() == 0 || (event is OutOfIdeas && reaction.finished);
    if quiet {
        assert forall|k: int| 0 <= k < reaction.requeued.len() implies !is_idea()(
            #[trigger] reaction.requeued[k],
        ) && !is_notice()(reaction.requeued[k]) by {}
        lemma_last_where_concat(rest, reaction.requeued, is_idea());
        lemma_last_where_concat(rest, reaction.requeued, is_notice());
        if ideas_followed(w.queue) {
            assert(ideas_followed(after.queue));
        } else if flagged(w) {
            let k = choose|k: int|
                0 <= k < w.students.len() && !w.left[k] && (#[trigger] w.students[k]).skipped_idea;
            if k != i {
                assert(after.students[k] == w.students[k]);
            }
            assert(after.students[k].skipped_idea);
            assert(!after.left[k]);
            assert(flagged(after));
        } else {
            let h = choose|h: int|
                0 <= h < w.pending.len() && last_where(#[trigger] w.pending[h], is_notice()) >= 0;
            assert(last_where(after.pending[h], is_notice()) >= 0);
            assert(notice_pending(after));
        }
    } else {
        assert(reaction.requeued =~= seq![event]);
        assert(after.queue =~= rest.push(event));
        lemma_last_where_push(rest, event, is_idea());
        lemma_last_where_push(rest, event, is_notice());
        if event is OutOfIdeas {
            assert(ideas_followed(after.queue));
        } else {
            assert(after.students[i].skipped_idea);
            assert(!after.left[i]);
            assert(flagged(after));
        }
    }
}

/// A run whose scripts let a notice follow their ideas is settled at every
/// moment.
pub proof fn lemma_run_settled(states: Seq<World>, scripts: Seq<Seq<EventView>>, students: nat)
    requires
        is_run(states, scripts, students),
        forall|g: int| 0 <= g < scripts.len() ==> ideas_followed(#[trigger] scripts[g]),
    ensures
        settled(states.last()),
    decreases states.len(),
{
    if states.len() == 1 {
        assert(last_where(states[0].queue, is_idea()) == -1);
        assert(last_where(states[0].queue, is_notice()) == -1);
    } else {
        lemma_run_prefix(states, scripts, students);
        lemma_run_settled(states.drop_last(), scripts, students);
        let before = states.drop_last().last();
        let after = states.last();
        if exists|g: int| can_publish(before, g) && after == #[trigger] publish(before, g) {
            let g = choose|g: int| can_publish(before, g) && after == #[trigger] publish(before, g);
            lemma_publish_keeps_settled(before, g);
        } else {
            let i = choose|i: int| can_work(before, i) && after == #[trigger] work(before, i);
            lemma_work_keeps_settled(before, i);
        }
    }
}

/// Whether every student has left.
pub open spec fn all_left(w: World) -> bool {
    forall|i: int| 0 <= i < w.left.len() ==> w.left[i]
}

/// Once every student has left, no idea and no notice is left over: none is
/// yet to be published and none is in the queue. This holds of every run
/// whose scripts hold one notice for each student and let a notice follow
/// their ideas.
pub proof fn lemma_nothing_left_to_build(
    states: Seq<World>,
    scripts: Seq<Seq<EventView>>,
    students: nat,
)
    requires
        is_run(states, scripts, students),
        worth_all(scripts, notices()).len() == students,
        forall|g: int| 0 <= g < scripts.len() ==> ideas_followed(#[trigger] scripts[g]),
        all_left(states.last()),
    ensures
        ({
            let w = states.last();
            &&& settled(w)
            &&& last_where(w.queue, is_idea()) < 0
            &&& last_where(w.queue, is_notice()) < 0
            &&& forall|g: int|
                0 <= g < w.pending.len() ==> last_where(#[trigger] w.pending[g], is_idea()) < 0
            &&& forall|i: int|
                0 <= i < w.students.len() ==> #[trigger] w.students[i] == crate::student::idle()
        }),
{
    broadcast use vstd::multiset::group_multiset_axioms;

    let w = states.last();
    let v = notices();
    lemma_run_settled(states, scripts, students);
    lemma_run_keeps_total(states, scripts, students, v);
    lemma_run_keeps_students(states, scripts, students);
    lemma_notices_of_leavers(w.left);
    assert(with_leavers(w) =~= Seq::new(w.left.len(), |k: int| gone_with(w.left[k])));
    assert(worth_all(with_leavers(w), v).len() == students);
    assert(worth(w.queue, v).len() == 0);
    assert(worth_all(w.pending, v).len() == 0);
    lemma_no_notice(w.queue);
    lemma_last_where(w.queue, is_idea());
    assert forall|g: int| 0 <= g < w.pending.len() implies last_where(
        #[trigger] w.pending[g],
        is_idea(),
    ) < 0 && last_where(w.pending[g], is_notice()) < 0 by {
        lemma_worth_all_covers(w.pending, g, v);
        lemma_no_notice(w.pending[g]);
        lemma_last_where(w.pending[g], is_idea());
        assert(ideas_followed(w.pending[g]));
    }
    assert(!notice_pending(w));
    assert(!flagged(w));
    assert(ideas_followed(w.queue));
}

/// Whether an event is a package.
pub open spec fn is_package() -> spec_fn(EventView) -> bool {
    |event: EventView| event is DownloadComplete
}

/// An idea is worth the digest of its name, any other event nothing.
pub open spec fn idea_digest_of() -> spec_fn(EventView) -> Multiset<Seq<u8>> {
    |event: EventView|
        match event {
            EventView::NewIdea(idea) => Multiset::singleton(name_digest(idea.name)),
            _ => Multiset::empty(),
        }
}

/// A package is worth the digest of its name, any other event nothing.
pub open spec fn pkg_digest_of() -> spec_fn(EventView) -> Multiset<Seq<u8>> {
    |event: EventView|
        match event {
            EventView::DownloadComplete(pkg) => Multiset::singleton(name_digest(pkg)),
            _ => Multiset::empty(),
        }
}

/// `n` times the same thing.
pub open spec fn copies(n: nat) -> Multiset<()>
    decreases n,
{
    if n == 0 {
        Multiset::empty()
    } else {
        copies((n - 1) as nat).insert(())
    }
}

/// Counts the packages required: an idea is worth as many as it requires,
/// any other event nothing.
pub open spec fn demand() -> spec_fn(EventView) -> Multiset<()> {
    |event: EventView|
        match event {
            EventView::NewIdea(idea) => copies(idea.num_pkg_required),
            _ => Multiset::empty(),
        }
}

/// Counts the packages: a package is worth one, any other event nothing.
pub open spec fn supply() -> spec_fn(EventView) -> Multiset<()> {
    |event: EventView|
        if event is DownloadComplete {
            Multiset::singleton(())
        } else {
            Multiset::empty()
        }
}

/// The digests that the generators folded into the checksum of the ideas
/// generated, in the order in which the ideas were published.
pub open spec fn idea_digests_published(published: Seq<EventView>) -> Seq<Seq<u8>>
    decreases published.len(),
{
    if published.len() == 0 {
        Seq::empty()
    } else {
        let front = idea_digests_published(published.drop_last());
        match published.last() {
            EventView::NewIdea(idea) => front.push(name_digest(idea.name)),
            _ => front,
        }
    }
}

/// The digests that the downloaders folded into the checksum of the
/// packages downloaded, in the order in which the packages were published.
pub open spec fn pkg_digests_published(published: Seq<EventView>) -> Seq<Seq<u8>>
    decreases published.len(),
{
    if published.len() == 0 {
        Seq::empty()
    } else {
        let front = pkg_digests_published(published.drop_last());
        match published.last() {
            EventView::DownloadComplete(pkg) => front.push(name_digest(pkg)),
            _ => front,
        }
    }
}

/// The digests that the students folded into the checksum of the ideas
/// built, in the order of the builds.
pub open spec fn idea_digests_built(builds: Seq<BuildView>) -> Seq<Seq<u8>>
    decreases builds.len(),
{
    if builds.len() == 0 {
        Seq::empty()
    } else {
        idea_digests_built(builds.drop_last()) + idea_digests(Some(builds.last()))
    }
}

/// The digests that the students folded into the checksum of the packages
/// used, in the order of the builds and, within a build, of the buffer.
pub open spec fn pkg_digests_built(builds: Seq<BuildView>) -> Seq<Seq<u8>>
    decreases builds.len(),
{
    if builds.len() == 0 {
        Seq::empty()
    } else {
        pkg_digests_built(builds.drop_last()) + pkg_digests(Some(builds.last()))
    }
}

/// `copies(n)` holds `n` things.
pub proof fn lemma_copies(n: nat)
    ensures
        copies(n).len() == n,
    decreases n,
{
    broadcast use vstd::multiset::group_multiset_axioms;

    if n > 0 {
        lemma_copies((n - 1) as nat);
    }
}

/// Events that count for nothing hold none of the kind that counts.
pub proof fn lemma_none_counted<T>(
    events: Seq<EventView>,
    v: spec_fn(EventView) -> Multiset<T>,
    p: spec_fn(EventView) -> bool,
)
    requires
        worth(events, v).len() == 0,
        forall|event: EventView| p(event) ==> (#[trigger] v(event)).len() > 0,
    ensures
        last_where(events, p) < 0,
{
    lemma_last_where(events, p);
    let k = last_where(events, p);
    if k >= 0 {
        lemma_worth_covers(events, k, v);
    }
}

/// What the generators have published is worth, by ideas and by packages,
/// the digests that they folded.
pub proof fn lemma_published_digests(published: Seq<EventView>)
    ensures
        idea_digests_published(published).to_multiset() == worth(published, idea_digest_of()),
        pkg_digests_published(published).to_multiset() == worth(published, pkg_digest_of()),
        crate::checksum::all_have_width(idea_digests_published(published), DIGEST_LEN as nat),
        crate::checksum::all_have_width(pkg_digests_published(published), DIGEST_LEN as nat),
    decreases published.len(),
{
    broadcast use vstd::multiset::group_multiset_axioms;
    broadcast use vstd::seq_lib::group_to_multiset_ensures;

    if published.len() == 0 {
        assert(Seq::<Seq<u8>>::empty().to_multiset() =~= Multiset::empty());
    } else {
        lemma_published_digests(published.drop_last());
        assert(idea_digests_published(published).to_multiset() =~= worth(
            published,
            idea_digest_of(),
        ));
        assert(pkg_digests_published(published).to_multiset() =~= worth(published, pkg_digest_of()));
    }
}

/// Packages given back are worth, as packages, the digests of their names
/// and as many as they are; they hold no idea.
pub proof fn lemma_returned_worth(pkgs: Seq<Seq<char>>)
    ensures
        worth(returned(pkgs), pkg_digest_of()) == Seq::new(
            pkgs.len(),
            |i: int| name_digest(pkgs[i]),
        ).to_multiset(),
        worth(returned(pkgs), supply()).len() == pkgs.len(),
        worth(returned(pkgs), idea_digest_of()) == Multiset::<Seq<u8>>::empty(),
        worth(returned(pkgs), demand()) == Multiset::<()>::empty(),
    decreases pkgs.len(),
{
    broadcast use vstd::multiset::group_multiset_axioms;
    broadcast use vstd::seq_lib::group_to_multiset_ensures;

    let digests = Seq::new(pkgs.len(), |i: int| name_digest(pkgs[i]));
    lemma_worth_nothing(returned(pkgs), idea_digest_of());
    lemma_worth_nothing(returned(pkgs), demand());
    if pkgs.len() == 0 {
        assert(digests.to_multiset() =~= Multiset::empty());
    } else {
        let front = pkgs.drop_last();
        lemma_returned_worth(front);
        assert(returned(pkgs).drop_last() =~= returned(front));
        assert(digests =~= Seq::new(front.len(), |i: int| name_digest(front[i])).push(
            name_digest(pkgs.last()),
        ));
        assert(worth(returned(pkgs), pkg_digest_of()) =~= digests.to_multiset());
    }
}

/// What the builds used is worth, by ideas and by packages, the digests
/// that the students folded; and the builds used as many packages as their
/// ideas required.
pub proof fn lemma_built_digests(builds: Seq<BuildView>)
    requires
        forall|j: int|
            0 <= j < builds.len() ==> (#[trigger] builds[j]).used.len()
                == builds[j].idea.num_pkg_required,
    ensures
        ({
            let shelves = Seq::new(builds.len(), |j: int| used_up(Some(builds[j])));
            &&& idea_digests_built(builds).to_multiset() == worth_all(shelves, idea_digest_of())
            &&& pkg_digests_built(builds).to_multiset() == worth_all(shelves, pkg_digest_of())
            &&& worth_all(shelves, demand()).len() == worth_all(shelves, supply()).len()
            &&& crate::checksum::all_have_width(idea_digests_built(builds), DIGEST_LEN as nat)
            &&& crate::checksum::all_have_width(pkg_digests_built(builds), DIGEST_LEN as nat)
        }),
    decreases builds.len(),
{
    broadcast use vstd::multiset::group_multiset_axioms;
    broadcast use vstd::seq_lib::group_to_multiset_ensures;
    broadcast use vstd::seq_lib::lemma_multiset_commutative;

    let shelves = Seq::new(builds.len(), |j: int| used_up(Some(builds[j])));
    if builds.len() == 0 {
        assert(Seq::<Seq<u8>>::empty().to_multiset() =~= Multiset::empty());
    } else {
        let front = builds.drop_last();
        let build = builds.last();
        let front_shelves = Seq::new(front.len(), |j: int| used_up(Some(front[j])));
        assert forall|j: int| 0 <= j < front.len() implies (#[trigger] front[j]).used.len()
            == front[j].idea.num_pkg_required by {
            assert(front[j] == builds[j]);
        }
        lemma_built_digests(front);
        assert(shelves.drop_last() =~= front_shelves);
        assert(shelves.last() == used_up(Some(build)));
        let first = seq![EventView::NewIdea(build.idea)];
        let rest = returned(build.used);
        lemma_returned_worth(build.used);
        lemma_copies(build.idea.num_pkg_required);
        lemma_worth_one(first[0], idea_digest_of());
        lemma_worth_one(first[0], pkg_digest_of());
        lemma_worth_one(first[0], demand());
        lemma_worth_one(first[0], supply());
        lemma_worth_concat(first, rest, idea_digest_of());
        lemma_worth_concat(first, rest, pkg_digest_of());
        lemma_worth_concat(first, rest, demand());
        lemma_worth_concat(first, rest, supply());
        let one = seq![name_digest(build.idea.name)];
        assert(one =~= Seq::<Seq<u8>>::empty().push(name_digest(build.idea.name)));
        assert(one.to_multiset() =~= Multiset::singleton(name_digest(build.idea.name)));
        assert(idea_digests(Some(build)) == one);
        assert(worth(used_up(Some(build)), idea_digest_of()) =~= one.to_multiset());
        assert(worth(used_up(Some(build)), pkg_digest_of()) =~= pkg_digests(
            Some(build),
        ).to_multiset());
        assert(idea_digests_built(builds).to_multiset() =~= worth_all(shelves, idea_digest_of()));
        assert(pkg_digests_built(builds).to_multiset() =~= worth_all(shelves, pkg_digest_of()));
        assert(worth(used_up(Some(build)), demand()).len() == build.idea.num_pkg_required);
        assert(worth(used_up(Some(build)), supply()).len() == build.used.len());
    }
}

/// What has been published and what is yet to be published are together
/// what the scripts hold.
pub proof fn lemma_run_keeps_scripts<T>(
    states: Seq<World>,
    scripts: Seq<Seq<EventView>>,
    students: nat,
    v: spec_fn(EventView) -> Multiset<T>,
)
    requires
        is_run(states, scripts, students),
    ensures
        worth(states.last().published, v).add(worth_all(states.last().pending, v)) == worth_all(
            scripts,
            v,
        ),
    decreases states.len(),
{
    broadcast use vstd::multiset::group_multiset_axioms;

    let after = states.last();
    if states.len() == 1 {
        assert(worth(after.published, v).add(worth_all(after.pending, v)) =~= worth_all(scripts, v));
    } else {
        lemma_run_prefix(states, scripts, students);
        lemma_run_keeps_scripts(states.drop_last(), scripts, students, v);
        let before = states.drop_last().last();
        if exists|g: int| can_publish(before, g) && after == #[trigger] publish(before, g) {
            let g = choose|g: int| can_publish(before, g) && after == #[trigger] publish(before, g);
            let event = before.pending[g][0];
            let rest = worth(before.pending[g].drop_first(), v);
            lemma_worth_first(before.pending[g], v);
            lemma_worth_all_update(before.pending, g, before.pending[g].drop_first(), v);
            assert(after.published.drop_last() =~= before.published);
            assert forall|x: T|
                worth(after.published, v).add(worth_all(after.pending, v)).count(x) == worth_all(
                    scripts,
                    v,
                ).count(x) by {
                assert(worth_all(after.pending, v).add(worth(before.pending[g], v)).count(x)
                    == worth_all(before.pending, v).add(rest).count(x));
                assert(worth(before.pending[g], v).count(x) == rest.add(v(event)).count(x));
                assert(worth(before.published, v).add(worth_all(before.pending, v)).count(x)
                    == worth_all(scripts, v).count(x));
            }
            assert(worth(after.published, v).add(worth_all(after.pending, v)) =~= worth_all(
                scripts,
                v,
            ));
        } else {
            let i = choose|i: int| can_work(before, i) && after == #[trigger] work(before, i);
        }
    }
}

/// The checksums of the ideas match. Once every student has left, the
/// checksum of the ideas built is the checksum of the ideas generated,
/// whatever the order in which generators and students took their steps.
/// This holds of every run whose scripts hold one notice for each student
/// and let a notice follow their ideas.
pub proof fn lemma_idea_checksums_match(
    states: Seq<World>,
    scripts: Seq<Seq<EventView>>,
    students: nat,
)
    requires
        is_run(states, scripts, students),
        worth_all(scripts, notices()).len() == students,
        forall|g: int| 0 <= g < scripts.len() ==> ideas_followed(#[trigger] scripts[g]),
        all_left(states.last()),
    ensures
        idea_digests_built(states.last().builds).to_multiset() == worth_all(
            scripts,
            idea_digest_of(),
        ),
        idea_digests_published(states.last().published).to_multiset() == worth_all(
            scripts,
            idea_digest_of(),
        ),
        fold_all(None, idea_digests_built(states.last().builds)) == fold_all(
            None,
            idea_digests_published(states.last().published),
        ),
{
    let w = states.last();
    lemma_nothing_left_to_build(states, scripts, students);
    lemma_only_builds_count(states, scripts, students, idea_digest_of(), is_idea());
    lemma_built_digests(w.builds);
    lemma_published_digests(w.published);
    assert(in_builds(w) =~= Seq::new(w.builds.len(), |j: int| used_up(Some(w.builds[j]))));
    crate::checksum::lemma_fold_order_independent(
        None,
        idea_digests_built(w.builds),
        idea_digests_published(w.published),
        DIGEST_LEN as nat,
    );
}

/// Where nothing of a kind is left over, the builds have used all there
/// was of it: if no event of which `p` holds is in the queue or yet to be
/// published, and every student has left, then whatever is only about `p`
/// gives the builds the worth of the scripts, and all of it was published.
pub proof fn lemma_only_builds_count<T>(
    states: Seq<World>,
    scripts: Seq<Seq<EventView>>,
    students: nat,
    v: spec_fn(EventView) -> Multiset<T>,
    p: spec_fn(EventView) -> bool,
)
    requires
        is_run(states, scripts, students),
        only_about(v, p),
        !p(EventView::OutOfIdeas),
        all_left(states.last()),
        last_where(states.last().queue, p) < 0,
        forall|g: int|
            0 <= g < states.last().pending.len() ==> last_where(
                #[trigger] states.last().pending[g],
                p,
            ) < 0,
        forall|i: int|
            0 <= i < states.last().students.len() ==> #[trigger] states.last().students[i]
                == crate::student::idle(),
    ensures
        worth_all(in_builds(states.last()), v) == worth_all(scripts, v),
        worth(states.last().published, v) == worth_all(scripts, v),
{
    broadcast use vstd::multiset::group_multiset_axioms;

    let w = states.last();
    lemma_run_keeps_total(states, scripts, students, v);
    lemma_run_keeps_scripts(states, scripts, students, v);
    lemma_worth_without(w.queue, v, p);
    assert forall|g: int| 0 <= g < w.pending.len() implies worth(#[trigger] w.pending[g], v).len()
        == 0 by {
        lemma_worth_without(w.pending[g], v, p);
    }
    lemma_worth_all_nothing(w.pending, v);
    assert forall|i: int| 0 <= i < in_hands(w).len() implies worth(#[trigger] in_hands(w)[i], v).len()
        == 0 by {
        assert(w.students[i] == crate::student::idle());
        assert(returned(crate::student::idle().pkgs) =~= Seq::<EventView>::empty());
        lemma_worth_one(EventView::OutOfIdeas, v);
    }
    lemma_worth_all_nothing(in_hands(w), v);
    assert forall|i: int| 0 <= i < with_leavers(w).len() implies worth(
        #[trigger] with_leavers(w)[i],
        v,
    ).len() == 0 by {
        lemma_worth_one(EventView::OutOfIdeas, v);
    }
    lemma_worth_all_nothing(with_leavers(w), v);
    assert(worth_all(in_builds(w), v) =~= worth_all(scripts, v));
    assert(worth(w.published, v) =~= worth_all(scripts, v));
}

/// The checksums of the packages match. Once every student has left, the
/// checksum of the packages used is the checksum of the packages
/// downloaded, whatever the order in which generators and students took
/// their steps. This holds of every run whose scripts hold one notice for
/// each student, let a notice follow their ideas, and hold as many packages
/// as their ideas require together.
pub proof fn lemma_pkg_checksums_match(
    states: Seq<World>,
    scripts: Seq<Seq<EventView>>,
    students: nat,
)
    requires
        is_run(states, scripts, students),
        worth_all(scripts, notices()).len() == students,
        forall|g: int| 0 <= g < scripts.len() ==> ideas_followed(#[trigger] scripts[g]),
        worth_all(scripts, demand()).len() == worth_all(scripts, supply()).len(),
        all_left(states.last()),
    ensures
        pkg_digests_built(states.last().builds).to_multiset() == worth_all(
            scripts,
            pkg_digest_of(),
        ),
        pkg_digests_published(states.last().published).to_multiset() == worth_all(
            scripts,
            pkg_digest_of(),
        ),
        fold_all(None, pkg_digests_built(states.last().builds)) == fold_all(
            None,
            pkg_digests_published(states.last().published),
        ),
{
    broadcast use vstd::multiset::group_multiset_axioms;

    let w = states.last();
    lemma_nothing_left_to_build(states, scripts, students);
    lemma_only_builds_count(states, scripts, students, demand(), is_idea());
    lemma_built_digests(w.builds);
    assert(in_builds(w) =~= Seq::new(w.builds.len(), |j: int| used_up(Some(w.builds[j]))));
    lemma_run_keeps_total(states, scripts, students, supply());
    assert(worth(w.queue, supply()).len() == 0);
    assert(worth_all(w.pending, supply()).len() == 0);
    lemma_none_counted(w.queue, supply(), is_package());
    assert forall|g: int| 0 <= g < w.pending.len() implies last_where(
        #[trigger] w.pending[g],
        is_package(),
    ) < 0 by {
        lemma_worth_all_covers(w.pending, g, supply());
        lemma_none_counted(w.pending[g], supply(), is_package());
    }
    lemma_only_builds_count(states, scripts, students, pkg_digest_of(), is_package());
    lemma_published_digests(w.published);
    crate::checksum::lemma_fold_order_independent(
        None,
        pkg_digests_built(w.builds),
        pkg_digests_published(w.published),
        DIGEST_LEN as nat,
    );
}

} // verus!
