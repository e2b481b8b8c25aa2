//! What holds of a run as the schedule plans it, whatever the order in which
//! its threads take their steps.

use vstd::prelude::*;
use vstd::multiset::Multiset;
use crate::checksum::fold_all;
use crate::checksum::name_digest;
use crate::idea::idea_name;
use crate::idea::idea_script;
use crate::idea::planned_idea;
use crate::package::package_name;
use crate::package::package_script;
use crate::partition::lemma_shares_add_up;
use crate::partition::share;
use crate::partition::share_start;
use crate::protocol::all_left;
use crate::protocol::can_publish;
use crate::protocol::can_work;
use crate::protocol::demand;
use crate::protocol::idea_digest_of;
use crate::protocol::idea_digests_built;
use crate::protocol::idea_digests_published;
use crate::protocol::ideas_followed;
use crate::protocol::is_idea;
use crate::protocol::is_notice;
use crate::protocol::is_run;
use crate::protocol::last_where;
use crate::protocol::lemma_copies;
use crate::protocol::lemma_last_where;
use crate::protocol::lemma_worth_concat;
use crate::protocol::lemma_worth_nothing;
use crate::protocol::notices;
use crate::protocol::pkg_digest_of;
use crate::protocol::pkg_digests_built;
use crate::protocol::pkg_digests_published;
use crate::protocol::supply;
use crate::protocol::worth;
use crate::protocol::worth_all;
use crate::protocol::World;
use crate::schedule::required_by_generators;
use crate::schedule::Args;
use crate::EventView;

verus! {

/// The first `m` ideas of a generator, as it publishes them.
pub open spec fn idea_prefix(
    start: nat,
    count: nat,
    quota: nat,
    m: nat,
    products: Seq<Seq<char>>,
    customers: Seq<Seq<char>>,
) -> Seq<EventView> {
    Seq::new(
        m,
        |k: int| EventView::NewIdea(planned_idea(start, count, quota, k as nat, products, customers)),
    )
}

/// The digests of the names of the ideas with the global numbers `from`,
/// `from + 1`, ..., `count` of them.
pub open spec fn idea_digests_from(
    from: nat,
    count: nat,
    products: Seq<Seq<char>>,
    customers: Seq<Seq<char>>,
) -> Seq<Seq<u8>> {
    Seq::new(count, |i: int| name_digest(idea_name((from + i) as nat, products, customers)))
}

/// The digests of the names of the packages with the global numbers `from`,
/// `from + 1`, ..., `count` of them.
pub open spec fn pkg_digests_from(from: nat, count: nat, file: Seq<Seq<char>>) -> Seq<Seq<u8>> {
    Seq::new(count, |i: int| name_digest(package_name((from + i) as nat, file)))
}

/// What the first ideas of a generator are worth: no notice and no package,
/// the packages that they require, and the digests of their names.
pub proof fn lemma_idea_prefix_worth(
    start: nat,
    count: nat,
    quota: nat,
    m: nat,
    products: Seq<Seq<char>>,
    customers: Seq<Seq<char>>,
)
    requires
        m <= count,
    ensures
        ({
            let ideas = idea_prefix(start, count, quota, m, products, customers);
            &&& worth(ideas, notices()) == Multiset::<()>::empty()
            &&& worth(ideas, supply()) == Multiset::<()>::empty()
            &&& worth(ideas, pkg_digest_of()) == Multiset::<Seq<u8>>::empty()
            &&& worth(ideas, demand()).len() == share_start(m, quota, count)
            &&& worth(ideas, idea_digest_of()) == idea_digests_from(
                start,
                m,
                products,
                customers,
            ).to_multiset()
        }),
    decreases m,
{
    broadcast use vstd::multiset::group_multiset_axioms;
    broadcast use vstd::seq_lib::group_to_multiset_ensures;

    let ideas = idea_prefix(start, count, quota, m, products, customers);
    let digests = idea_digests_from(start, m, products, customers);
    lemma_worth_nothing(ideas, notices());
    lemma_worth_nothing(ideas, supply());
    lemma_worth_nothing(ideas, pkg_digest_of());
    if m == 0 {
        assert(digests.to_multiset() =~= Multiset::empty());
    } else {
        let fewer = (m - 1) as nat;
        lemma_idea_prefix_worth(start, count, quota, fewer, products, customers);
        assert(ideas.drop_last() =~= idea_prefix(start, count, quota, fewer, products, customers));
        let idea = planned_idea(start, count, quota, fewer, products, customers);
        assert(ideas.last() == EventView::NewIdea(idea));
        lemma_copies(idea.num_pkg_required);
        assert(digests =~= idea_digests_from(start, fewer, products, customers).push(
            name_digest(idea.name),
        ));
        assert(worth(ideas, idea_digest_of()) =~= digests.to_multiset());
    }
}

/// What the script of an idea generator is worth: one notice for each of
/// its students, no package, the packages that its ideas require, and the
/// digests of their names. Where it has a student or no idea, a notice
/// follows its ideas.
pub proof fn lemma_idea_script_worth(
    start: nat,
    count: nat,
    students: nat,
    quota: nat,
    products: Seq<Seq<char>>,
    customers: Seq<Seq<char>>,
)
    ensures
        ({
            let script = idea_script(start, count, students, quota, products, customers);
            &&& worth(script, notices()).len() == students
            &&& worth(script, supply()) == Multiset::<()>::empty()
            &&& worth(script, pkg_digest_of()) == Multiset::<Seq<u8>>::empty()
            &&& worth(script, demand()).len() == share_start(count, quota, count)
            &&& worth(script, idea_digest_of()) == idea_digests_from(
                start,
                count,
                products,
                customers,
            ).to_multiset()
            &&& students > 0 || count == 0 ==> ideas_followed(script)
        }),
    decreases students,
{
    broadcast use vstd::multiset::group_multiset_axioms;

    let script = idea_script(start, count, students, quota, products, customers);
    if students == 0 {
        assert(script =~= idea_prefix(start, count, quota, count, products, customers));
        lemma_idea_prefix_worth(start, count, quota, count, products, customers);
        if count == 0 {
            assert(last_where(script, is_idea()) == -1);
            assert(last_where(script, is_notice()) == -1);
        }
    } else {
        let fewer = (students - 1) as nat;
        lemma_idea_script_worth(start, count, fewer, quota, products, customers);
        assert(script.drop_last() =~= idea_script(start, count, fewer, quota, products, customers));
        assert(script.last() == EventView::OutOfIdeas);
        lemma_last_where(script, is_idea());
        assert(is_notice()(script.last()));
        assert(worth(script, supply()) =~= Multiset::<()>::empty());
        assert(worth(script, pkg_digest_of()) =~= Multiset::<Seq<u8>>::empty());
        assert(worth(script, idea_digest_of()) =~= worth(script.drop_last(), idea_digest_of()));
    }
}

/// What the script of a package downloader is worth: no notice and no idea,
/// its packages, and the digests of their names.
pub proof fn lemma_package_script_worth(start: nat, count: nat, file: Seq<Seq<char>>)
    ensures
        ({
            let script = package_script(start, count, file);
            &&& worth(script, notices()) == Multiset::<()>::empty()
            &&& worth(script, demand()) == Multiset::<()>::empty()
            &&& worth(script, idea_digest_of()) == Multiset::<Seq<u8>>::empty()
            &&& worth(script, supply()).len() == count
            &&& worth(script, pkg_digest_of()) == pkg_digests_from(start, count, file).to_multiset()
            &&& ideas_followed(script)
        }),
    decreases count,
{
    broadcast use vstd::multiset::group_multiset_axioms;
    broadcast use vstd::seq_lib::group_to_multiset_ensures;

    let script = package_script(start, count, file);
    let digests = pkg_digests_from(start, count, file);
    lemma_worth_nothing(script, notices());
    lemma_worth_nothing(script, demand());
    lemma_worth_nothing(script, idea_digest_of());
    lemma_last_where(script, is_idea());
    lemma_last_where(script, is_notice());
    if count == 0 {
        assert(digests.to_multiset() =~= Multiset::empty());
    } else {
        let fewer = (count - 1) as nat;
        lemma_package_script_worth(start, fewer, file);
        assert(script.drop_last() =~= package_script(start, fewer, file));
        let name = package_name((start + fewer) as nat, file);
        assert(script.last() == EventView::DownloadComplete(name));
        assert(digests =~= pkg_digests_from(start, fewer, file).push(name_digest(name)));
        assert(worth(script, pkg_digest_of()) =~= digests.to_multiset());
    }
}

/// The scripts of the first `n` package downloaders of a run.
pub open spec fn package_scripts(args: Args, file: Seq<Seq<char>>, n: nat) -> Seq<Seq<EventView>> {
    Seq::new(
        n,
        |k: int|
            package_script(
                share_start(k as nat, args.num_pkgs as nat, args.num_pkg_gen as nat),
                share(k as nat, args.num_pkgs as nat, args.num_pkg_gen as nat),
                file,
            ),
    )
}

/// The scripts of the first `n` idea generators of a run.
pub open spec fn idea_scripts(
    args: Args,
    products: Seq<Seq<char>>,
    customers: Seq<Seq<char>>,
    n: nat,
) -> Seq<Seq<EventView>> {
    Seq::new(
        n,
        |g: int|
            idea_script(
                share_start(g as nat, args.num_ideas as nat, args.num_idea_gen as nat),
                share(g as nat, args.num_ideas as nat, args.num_idea_gen as nat),
                share(g as nat, args.num_students as nat, args.num_idea_gen as nat),
                share(g as nat, args.num_pkgs as nat, args.num_idea_gen as nat),
                products,
                customers,
            ),
    )
}

/// The scripts of all the generators of a run, as the schedule plans them:
/// those of the package downloaders, then those of the idea generators.
pub open spec fn scripts(
    args: Args,
    products: Seq<Seq<char>>,
    customers: Seq<Seq<char>>,
    file: Seq<Seq<char>>,
) -> Seq<Seq<EventView>> {
    package_scripts(args, file, args.num_pkg_gen as nat) + idea_scripts(
        args,
        products,
        customers,
        args.num_idea_gen as nat,
    )
}

/// Two rows of shelves joined are worth what they are worth apart.
pub proof fn lemma_worth_all_concat<T>(
    a: Seq<Seq<EventView>>,
    b: Seq<Seq<EventView>>,
    v: spec_fn(EventView) -> Multiset<T>,
)
    ensures
        worth_all(a + b, v) == worth_all(a, v).add(worth_all(b, v)),
    decreases b.len(),
{
    broadcast use vstd::multiset::group_multiset_axioms;

    if b.len() == 0 {
        assert(a + b =~= a);
    } else {
        assert((a + b).drop_last() =~= a + b.drop_last());
        assert((a + b).last() == b.last());
        lemma_worth_all_concat(a, b.drop_last(), v);
    }
    assert(worth_all(a + b, v) =~= worth_all(a, v).add(worth_all(b, v)));
}

/// What the scripts of the first `n` package downloaders are worth
/// together: the packages up to the first of downloader `n`, each once.
pub proof fn lemma_package_scripts_worth(args: Args, file: Seq<Seq<char>>, n: nat)
    requires
        n <= args.num_pkg_gen,
    ensures
        ({
            let shelves = package_scripts(args, file, n);
            let upto = share_start(n, args.num_pkgs as nat, args.num_pkg_gen as nat);
            &&& worth_all(shelves, notices()) == Multiset::<()>::empty()
            &&& worth_all(shelves, demand()) == Multiset::<()>::empty()
            &&& worth_all(shelves, idea_digest_of()) == Multiset::<Seq<u8>>::empty()
            &&& worth_all(shelves, supply()).len() == upto
            &&& worth_all(shelves, pkg_digest_of()) == pkg_digests_from(0, upto, file).to_multiset()
            &&& forall|k: int| 0 <= k < shelves.len() ==> ideas_followed(#[trigger] shelves[k])
        }),
    decreases n,
{
    broadcast use vstd::multiset::group_multiset_axioms;
    broadcast use vstd::seq_lib::lemma_multiset_commutative;
    broadcast use vstd::seq_lib::group_to_multiset_ensures;

    let shelves = package_scripts(args, file, n);
    let pkgs = args.num_pkgs as nat;
    let gens = args.num_pkg_gen as nat;
    if n == 0 {
        assert(pkg_digests_from(0, 0, file).to_multiset() =~= Multiset::empty());
    } else {
        let k = (n - 1) as nat;
        lemma_package_scripts_worth(args, file, k);
        let front = package_scripts(args, file, k);
        assert(shelves.drop_last() =~= front);
        let start = share_start(k, pkgs, gens);
        let count = share(k, pkgs, gens);
        lemma_package_script_worth(start, count, file);
        assert(shelves.last() == package_script(start, count, file));
        assert(pkg_digests_from(0, start + count, file) =~= pkg_digests_from(0, start, file)
            + pkg_digests_from(start, count, file));
        assert(worth_all(shelves, notices()) =~= Multiset::<()>::empty());
        assert(worth_all(shelves, demand()) =~= Multiset::<()>::empty());
        assert(worth_all(shelves, idea_digest_of()) =~= Multiset::<Seq<u8>>::empty());
        assert(worth_all(shelves, pkg_digest_of()) =~= pkg_digests_from(
            0,
            start + count,
            file,
        ).to_multiset());
        assert forall|j: int| 0 <= j < shelves.len() implies ideas_followed(
            #[trigger] shelves[j],
        ) by {
            if j < k {
                assert(shelves[j] == front[j]);
            }
        }
    }
}

/// What the scripts of the first `n` idea generators are worth together:
/// their shares of the notices, the packages that their ideas require, and
/// the ideas up to the first of generator `n`, each once.
pub proof fn lemma_idea_scripts_worth(
    args: Args,
    products: Seq<Seq<char>>,
    customers: Seq<Seq<char>>,
    n: nat,
)
    requires
        n <= args.num_idea_gen,
    ensures
        ({
            let shelves = idea_scripts(args, products, customers, n);
            let upto = share_start(n, args.num_ideas as nat, args.num_idea_gen as nat);
            &&& worth_all(shelves, notices()).len() == share_start(
                n,
                args.num_students as nat,
                args.num_idea_gen as nat,
            )
            &&& worth_all(shelves, demand()).len() == required_by_generators(args, n)
            &&& worth_all(shelves, supply()) == Multiset::<()>::empty()
            &&& worth_all(shelves, pkg_digest_of()) == Multiset::<Seq<u8>>::empty()
            &&& worth_all(shelves, idea_digest_of()) == idea_digests_from(
                0,
                upto,
                products,
                customers,
            ).to_multiset()
        }),
    decreases n,
{
    broadcast use vstd::multiset::group_multiset_axioms;
    broadcast use vstd::seq_lib::lemma_multiset_commutative;
    broadcast use vstd::seq_lib::group_to_multiset_ensures;

    let shelves = idea_scripts(args, products, customers, n);
    let gens = args.num_idea_gen as nat;
    if n == 0 {
        assert(idea_digests_from(0, 0, products, customers).to_multiset() =~= Multiset::empty());
    } else {
        let g = (n - 1) as nat;
        lemma_idea_scripts_worth(args, products, customers, g);
        let front = idea_scripts(args, products, customers, g);
        assert(shelves.drop_last() =~= front);
        let start = share_start(g, args.num_ideas as nat, gens);
        let count = share(g, args.num_ideas as nat, gens);
        let students = share(g, args.num_students as nat, gens);
        let quota = share(g, args.num_pkgs as nat, gens);
        lemma_idea_script_worth(start, count, students, quota, products, customers);
        assert(shelves.last() == idea_script(start, count, students, quota, products, customers));
        assert(idea_digests_from(0, start + count, products, customers) =~= idea_digests_from(
            0,
            start,
            products,
            customers,
        ) + idea_digests_from(start, count, products, customers));
        assert(worth_all(shelves, supply()) =~= Multiset::<()>::empty());
        assert(worth_all(shelves, pkg_digest_of()) =~= Multiset::<Seq<u8>>::empty());
        assert(worth_all(shelves, idea_digest_of()) =~= idea_digests_from(
            0,
            start + count,
            products,
            customers,
        ).to_multiset());
    }
}

/// Whether a run of this size is one of which the laws below speak.
///
/// There is a thread of each kind where there is something for it to do.
/// No idea generator that makes ideas is without a student to notify: that
/// is so when there are at least as many students as idea generators, and
/// also when there are no more ideas than students. No idea generator is
/// given packages and no idea to spend them on: that is so when there are
/// at least as many ideas as generators, and also when there are no more
/// packages than ideas.
pub open spec fn balanced(args: Args) -> bool {
    &&& args.num_idea_gen > 0
    &&& args.num_pkg_gen > 0 || args.num_pkgs == 0
    &&& args.num_students >= args.num_idea_gen || args.num_ideas <= args.num_students
    &&& args.num_ideas >= args.num_idea_gen || args.num_pkgs <= args.num_ideas
}

/// The scripts of a balanced run hold one notice for each student, let a
/// notice follow their ideas, and hold as many packages as their ideas
/// require together. They hold every idea and every package of the run
/// once, by its global number, however many threads generate them.
pub proof fn lemma_scripts_of_balanced_run(
    args: Args,
    products: Seq<Seq<char>>,
    customers: Seq<Seq<char>>,
    file: Seq<Seq<char>>,
)
    requires
        balanced(args),
    ensures
        ({
            let all = scripts(args, products, customers, file);
            &&& worth_all(all, notices()).len() == args.num_students
            &&& worth_all(all, demand()).len() == args.num_pkgs
            &&& worth_all(all, supply()).len() == args.num_pkgs
            &&& forall|g: int| 0 <= g < all.len() ==> ideas_followed(#[trigger] all[g])
            &&& worth_all(all, idea_digest_of()) == idea_digests_from(
                0,
                args.num_ideas as nat,
                products,
                customers,
            ).to_multiset()
            &&& worth_all(all, pkg_digest_of()) == pkg_digests_from(
                0,
                args.num_pkgs as nat,
                file,
            ).to_multiset()
        }),
{
    broadcast use vstd::multiset::group_multiset_axioms;

    let gens = args.num_idea_gen as nat;
    let loaders = args.num_pkg_gen as nat;
    let first = package_scripts(args, file, loaders);
    let second = idea_scripts(args, products, customers, gens);
    let all = scripts(args, products, customers, file);
    lemma_package_scripts_worth(args, file, loaders);
    lemma_idea_scripts_worth(args, products, customers, gens);
    lemma_worth_all_concat(first, second, notices());
    lemma_worth_all_concat(first, second, demand());
    lemma_worth_all_concat(first, second, supply());
    lemma_worth_all_concat(first, second, idea_digest_of());
    lemma_worth_all_concat(first, second, pkg_digest_of());
    lemma_shares_add_up(args.num_students as nat, gens);
    lemma_shares_add_up(args.num_ideas as nat, gens);
    crate::schedule::lemma_run_conserves(args);
    if loaders > 0 {
        lemma_shares_add_up(args.num_pkgs as nat, loaders);
    }
    assert(worth_all(all, idea_digest_of()) =~= worth_all(second, idea_digest_of()));
    assert(worth_all(all, pkg_digest_of()) =~= worth_all(first, pkg_digest_of()));
    assert forall|g: int| 0 <= g < all.len() implies ideas_followed(#[trigger] all[g]) by {
        if g < loaders {
            assert(all[g] == first[g]);
        } else {
            let h = (g - loaders) as nat;
            assert(all[g] == second[h as int]);
            let count = share(h, args.num_ideas as nat, gens);
            let students = share(h, args.num_students as nat, gens);
            lemma_idea_script_worth(
                share_start(h, args.num_ideas as nat, gens),
                count,
                students,
                share(h, args.num_pkgs as nat, gens),
                products,
                customers,
            );
            lemma_share_positive(h, args.num_students as nat, args.num_ideas as nat, gens);
        }
    }
}

/// Where a total is at least the number of parts, every part gets
/// something; and where one total is no greater than another, a part that
/// gets nothing of the second gets nothing of the first.
pub proof fn lemma_share_positive(idx: nat, students: nat, ideas: nat, parts: nat)
    requires
        parts > 0,
        idx < parts,
        students >= parts || ideas <= students,
    ensures
        share(idx, students, parts) > 0 || share(idx, ideas, parts) == 0,
{
    if students >= parts {
        assert(students / parts >= 1) by (nonlinear_arith)
            requires
                students >= parts,
                parts > 0,
        ;
    } else {
        assert(students / parts == 0 && students % parts == students && ideas / parts == 0 && ideas
            % parts == ideas) by (nonlinear_arith)
            requires
                parts > 0,
                ideas <= students,
                students < parts,
        ;
    }
}

/// Order independence of a whole run. In every run of a balanced size,
/// whatever the order in which the threads take their steps and however
/// many threads of each kind there are: once every student has left, the
/// checksum of the ideas built is the checksum of the ideas generated, the
/// checksum of the packages used is the checksum of the packages
/// downloaded, and both are what folding the digests of all the names by
/// their global numbers gives.
pub proof fn lemma_checksums_match(
    args: Args,
    products: Seq<Seq<char>>,
    customers: Seq<Seq<char>>,
    file: Seq<Seq<char>>,
    states: Seq<World>,
)
    requires
        balanced(args),
        is_run(states, scripts(args, products, customers, file), args.num_students as nat),
        all_left(states.last()),
    ensures
        fold_all(None, idea_digests_built(states.last().builds)) == fold_all(
            None,
            idea_digests_published(states.last().published),
        ),
        fold_all(None, pkg_digests_built(states.last().builds)) == fold_all(
            None,
            pkg_digests_published(states.last().published),
        ),
        fold_all(None, idea_digests_published(states.last().published)) == fold_all(
            None,
            idea_digests_from(0, args.num_ideas as nat, products, customers),
        ),
        fold_all(None, pkg_digests_published(states.last().published)) == fold_all(
            None,
            pkg_digests_from(0, args.num_pkgs as nat, file),
        ),
{
    let all = scripts(args, products, customers, file);
    let students = args.num_students as nat;
    let w = states.last();
    lemma_scripts_of_balanced_run(args, products, customers, file);
    crate::protocol::lemma_idea_checksums_match(states, all, students);
    crate::protocol::lemma_pkg_checksums_match(states, all, students);
    crate::protocol::lemma_published_digests(w.published);
    crate::checksum::lemma_fold_order_independent(
        None,
        idea_digests_published(w.published),
        idea_digests_from(0, args.num_ideas as nat, products, customers),
        crate::encoding::DIGEST_LEN as nat,
    );
    crate::checksum::lemma_fold_order_independent(
        None,
        pkg_digests_published(w.published),
        pkg_digests_from(0, args.num_pkgs as nat, file),
        crate::encoding::DIGEST_LEN as nat,
    );
}

/// No deadlock in a whole run. At every moment of every run with at least
/// one idea generator, a student who has not left finds an event in the
/// queue, or a generator has one yet to publish: no student waits in vain,
/// also where there is no idea or no package at all.
pub proof fn lemma_students_never_wait_in_vain(
    args: Args,
    products: Seq<Seq<char>>,
    customers: Seq<Seq<char>>,
    file: Seq<Seq<char>>,
    states: Seq<World>,
)
    requires
        args.num_idea_gen > 0,
        is_run(states, scripts(args, products, customers, file), args.num_students as nat),
    ensures
        ({
            let w = states.last();
            forall|i: int|
                0 <= i < w.students.len() && !w.left[i] ==> #[trigger] can_work(w, i) || exists|
                    g: int,
                | #[trigger] can_publish(w, g)
        }),
{
    broadcast use vstd::multiset::group_multiset_axioms;

    let gens = args.num_idea_gen as nat;
    let loaders = args.num_pkg_gen as nat;
    let first = package_scripts(args, file, loaders);
    let second = idea_scripts(args, products, customers, gens);
    lemma_package_scripts_worth(args, file, loaders);
    lemma_idea_scripts_worth(args, products, customers, gens);
    lemma_worth_all_concat(first, second, notices());
    lemma_shares_add_up(args.num_students as nat, gens);
    crate::protocol::lemma_no_deadlock(
        states,
        scripts(args, products, customers, file),
        args.num_students as nat,
    );
}

} // verus!
