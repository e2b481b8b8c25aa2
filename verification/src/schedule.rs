//! How a run is divided among its threads.

use vstd::prelude::*;
use crate::partition::lemma_share_start_monotonic;
use crate::partition::lemma_shares_add_up;
use crate::partition::per_thread_amount;
use crate::partition::share;
use crate::partition::share_start;

verus! {

/// The size of a run.
pub struct Args {
    /// How many ideas are generated in all.
    pub num_ideas: usize,
    /// How many threads generate them.
    pub num_idea_gen: usize,
    /// How many packages are downloaded in all.
    pub num_pkgs: usize,
    /// How many threads download them.
    pub num_pkg_gen: usize,
    /// How many students build.
    pub num_students: usize,
}

/// What one package downloader is to do.
pub struct PackageTask {
    pub pkg_start_idx: usize,
    pub num_pkgs: usize,
}

/// What one idea generator is to do.
pub struct IdeaTask {
    pub idea_start_idx: usize,
    pub num_ideas: usize,
    pub num_students: usize,
    pub num_pkgs: usize,
}

/// The task of package downloader number `i`: its even share of the
/// packages, starting where the downloaders before it end.
pub open spec fn package_task(args: Args, i: nat) -> PackageTask {
    PackageTask {
        pkg_start_idx: share_start(i, args.num_pkgs as nat, args.num_pkg_gen as nat) as usize,
        num_pkgs: share(i, args.num_pkgs as nat, args.num_pkg_gen as nat) as usize,
    }
}

/// The task of idea generator number `i`: its even shares of the ideas, of
/// the students to notify and of the packages that its ideas require, the
/// ideas starting where those of the generators before it end.
pub open spec fn idea_task(args: Args, i: nat) -> IdeaTask {
    IdeaTask {
        idea_start_idx: share_start(i, args.num_ideas as nat, args.num_idea_gen as nat) as usize,
        num_ideas: share(i, args.num_ideas as nat, args.num_idea_gen as nat) as usize,
        num_students: share(i, args.num_students as nat, args.num_idea_gen as nat) as usize,
        num_pkgs: share(i, args.num_pkgs as nat, args.num_idea_gen as nat) as usize,
    }
}

/// The tasks are the shares themselves: no share is too large for its field.
pub proof fn lemma_tasks_are_shares(args: Args, i: nat)
    ensures
        args.num_pkg_gen > 0 && i < args.num_pkg_gen ==> {
            let task = package_task(args, i);
            &&& task.pkg_start_idx == share_start(i, args.num_pkgs as nat, args.num_pkg_gen as nat)
            &&& task.num_pkgs == share(i, args.num_pkgs as nat, args.num_pkg_gen as nat)
        },
        args.num_idea_gen > 0 && i < args.num_idea_gen ==> {
            let task = idea_task(args, i);
            let parts = args.num_idea_gen as nat;
            &&& task.idea_start_idx == share_start(i, args.num_ideas as nat, parts)
            &&& task.num_ideas == share(i, args.num_ideas as nat, parts)
            &&& task.num_students == share(i, args.num_students as nat, parts)
            &&& task.num_pkgs == share(i, args.num_pkgs as nat, parts)
        },
{
    if args.num_pkg_gen > 0 && i < args.num_pkg_gen {
        let parts = args.num_pkg_gen as nat;
        lemma_share_start_monotonic(i, parts, args.num_pkgs as nat, parts);
        crate::partition::lemma_share_bounded(i, args.num_pkgs as nat, parts);
    }
    if args.num_idea_gen > 0 && i < args.num_idea_gen {
        let parts = args.num_idea_gen as nat;
        lemma_share_start_monotonic(i, parts, args.num_ideas as nat, parts);
        crate::partition::lemma_share_bounded(i, args.num_ideas as nat, parts);
        crate::partition::lemma_share_bounded(i, args.num_students as nat, parts);
        crate::partition::lemma_share_bounded(i, args.num_pkgs as nat, parts);
    }
}

/// The tasks of the package downloaders, in the order of the threads.
pub fn plan_packages(args: &Args) -> (tasks: Vec<PackageTask>)
    ensures
        tasks.len() == args.num_pkg_gen,
        forall|i: int|
            0 <= i < tasks.len() ==> #[trigger] tasks[i] == package_task(*args, i as nat),
        forall|i: int|
            0 <= i < tasks.len() ==> (#[trigger] tasks[i]).pkg_start_idx + tasks[i].num_pkgs
                <= args.num_pkgs,
        args.num_pkg_gen > 0 ==> tasks[tasks.len() - 1].pkg_start_idx + tasks[tasks.len()
            - 1].num_pkgs == args.num_pkgs,
{
    let mut tasks: Vec<PackageTask> = Vec::new();
    let mut start_idx: usize = 0;
    let mut i: usize = 0;
    while i < args.num_pkg_gen
        invariant
            i <= args.num_pkg_gen,
            tasks.len() == i,
            start_idx == share_start(i as nat, args.num_pkgs as nat, args.num_pkg_gen as nat),
            start_idx <= args.num_pkgs,
            forall|j: int| 0 <= j < i ==> #[trigger] tasks[j] == package_task(*args, j as nat),
            forall|j: int|
                0 <= j < i ==> (#[trigger] tasks[j]).pkg_start_idx + tasks[j].num_pkgs
                    <= args.num_pkgs,
            i > 0 ==> tasks[i - 1].pkg_start_idx + tasks[i - 1].num_pkgs == start_idx,
        decreases args.num_pkg_gen - i,
    {
        let num_pkgs = per_thread_amount(i, args.num_pkgs, args.num_pkg_gen);
        proof {
            lemma_share_start_monotonic(
                (i + 1) as nat,
                args.num_pkg_gen as nat,
                args.num_pkgs as nat,
                args.num_pkg_gen as nat,
            );
        }
        tasks.push(PackageTask { pkg_start_idx: start_idx, num_pkgs });
        start_idx = start_idx + num_pkgs;
        i = i + 1;
    }
    proof {
        if args.num_pkg_gen > 0 {
            lemma_shares_add_up(args.num_pkgs as nat, args.num_pkg_gen as nat);
        }
    }
    tasks
}

/// The tasks of the idea generators, in the order of the threads.
pub fn plan_ideas(args: &Args) -> (tasks: Vec<IdeaTask>)
    ensures
        tasks.len() == args.num_idea_gen,
        forall|i: int| 0 <= i < tasks.len() ==> #[trigger] tasks[i] == idea_task(*args, i as nat),
        forall|i: int|
            0 <= i < tasks.len() ==> (#[trigger] tasks[i]).idea_start_idx + tasks[i].num_ideas
                <= args.num_ideas,
        args.num_idea_gen > 0 ==> tasks[tasks.len() - 1].idea_start_idx + tasks[tasks.len()
            - 1].num_ideas == args.num_ideas,
{
    let mut tasks: Vec<IdeaTask> = Vec::new();
    let mut start_idx: usize = 0;
    let mut i: usize = 0;
    while i < args.num_idea_gen
        invariant
            i <= args.num_idea_gen,
            tasks.len() == i,
            start_idx == share_start(i as nat, args.num_ideas as nat, args.num_idea_gen as nat),
            start_idx <= args.num_ideas,
            forall|j: int| 0 <= j < i ==> #[trigger] tasks[j] == idea_task(*args, j as nat),
            forall|j: int|
                0 <= j < i ==> (#[trigger] tasks[j]).idea_start_idx + tasks[j].num_ideas
                    <= args.num_ideas,
            i > 0 ==> tasks[i - 1].idea_start_idx + tasks[i - 1].num_ideas == start_idx,
        decreases args.num_idea_gen - i,
    {
        let num_ideas = per_thread_amount(i, args.num_ideas, args.num_idea_gen);
        let num_pkgs = per_thread_amount(i, args.num_pkgs, args.num_idea_gen);
        let num_students = per_thread_amount(i, args.num_students, args.num_idea_gen);
        proof {
            lemma_share_start_monotonic(
                (i + 1) as nat,
                args.num_idea_gen as nat,
                args.num_ideas as nat,
                args.num_idea_gen as nat,
            );
        }
        tasks.push(IdeaTask { idea_start_idx: start_idx, num_ideas, num_students, num_pkgs });
        start_idx = start_idx + num_ideas;
        i = i + 1;
    }
    proof {
        if args.num_idea_gen > 0 {
            lemma_shares_add_up(args.num_ideas as nat, args.num_idea_gen as nat);
        }
    }
    tasks
}

/// The packages that the ideas of one generator require together, when it
/// makes `num_ideas` ideas and shares `num_pkgs` packages out among them.
pub open spec fn required_by_generator(num_ideas: nat, num_pkgs: nat) -> nat {
    share_start(num_ideas, num_pkgs, num_ideas)
}

/// The packages that the ideas of the first `n` generators require together.
pub open spec fn required_by_generators(args: Args, n: nat) -> nat
    decreases n,
{
    if n == 0 {
        0
    } else {
        let g = (n - 1) as nat;
        required_by_generators(args, g) + required_by_generator(
            share(g, args.num_ideas as nat, args.num_idea_gen as nat),
            share(g, args.num_pkgs as nat, args.num_idea_gen as nat),
        )
    }
}

/// A generator that makes at least one idea shares its packages out
/// without loss: its ideas require together exactly what it was given.
pub proof fn lemma_generator_conserves(num_ideas: nat, num_pkgs: nat)
    requires
        num_ideas > 0,
    ensures
        required_by_generator(num_ideas, num_pkgs) == num_pkgs,
{
    lemma_shares_add_up(num_pkgs, num_ideas);
}

/// Conservation: the ideas of all generators require together exactly the
/// packages of the run, however many generators there are, as long as no
/// generator is given packages and no idea to spend them on. That is so
/// when there are at least as many ideas as generators, and also when
/// there are no more packages than ideas.
pub proof fn lemma_run_conserves(args: Args)
    requires
        args.num_idea_gen > 0,
        args.num_ideas >= args.num_idea_gen || args.num_pkgs <= args.num_ideas,
    ensures
        required_by_generators(args, args.num_idea_gen as nat) == args.num_pkgs,
{
    lemma_generators_conserve(args, args.num_idea_gen as nat);
    lemma_shares_add_up(args.num_pkgs as nat, args.num_idea_gen as nat);
}

proof fn lemma_generators_conserve(args: Args, n: nat)
    requires
        args.num_idea_gen > 0,
        args.num_ideas >= args.num_idea_gen || args.num_pkgs <= args.num_ideas,
        n <= args.num_idea_gen,
    ensures
        required_by_generators(args, n) == share_start(
            n,
            args.num_pkgs as nat,
            args.num_idea_gen as nat,
        ),
    decreases n,
{
    if n > 0 {
        let g = (n - 1) as nat;
        lemma_generators_conserve(args, g);
        let gens = args.num_idea_gen as nat;
        let ideas = args.num_ideas as nat;
        let pkgs = args.num_pkgs as nat;
        let count = share(g, ideas, gens);
        let quota = share(g, pkgs, gens);
        crate::partition::lemma_share_bounded(g, ideas, gens);
        crate::partition::lemma_share_bounded(g, pkgs, gens);
        if count > 0 {
            lemma_generator_conserves(count, quota);
        } else {
            assert(ideas / gens == 0 && ideas % gens == ideas && pkgs / gens == 0 && pkgs % gens
                == pkgs) by (nonlinear_arith)
                requires
                    gens > 0,
                    ideas / gens + if g < ideas % gens {
                        1nat
                    } else {
                        0nat
                    } == 0,
                    ideas >= gens || pkgs <= ideas,
            ;
            assert(quota == 0);
        }
    }
}

} // verus!
