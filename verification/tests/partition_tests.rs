use hackathon::partition::per_thread_amount;
use hackathon::schedule::plan_ideas;
use hackathon::schedule::plan_packages;
use hackathon::schedule::Args;

#[test]
fn amounts_with_a_remainder() {
    assert_eq!(per_thread_amount(0, 10, 3), 4);
    assert_eq!(per_thread_amount(1, 10, 3), 3);
    assert_eq!(per_thread_amount(2, 10, 3), 3);
}

#[test]
fn amounts_without_a_remainder() {
    assert_eq!(per_thread_amount(0, 4000, 4), 1000);
    assert_eq!(per_thread_amount(3, 4000, 4), 1000);
}

#[test]
fn amounts_for_one_thread() {
    assert_eq!(per_thread_amount(0, 80, 1), 80);
    assert_eq!(per_thread_amount(0, 0, 1), 0);
}

#[test]
fn amounts_with_more_threads_than_units() {
    assert_eq!(per_thread_amount(0, 2, 5), 1);
    assert_eq!(per_thread_amount(1, 2, 5), 1);
    assert_eq!(per_thread_amount(2, 2, 5), 0);
    assert_eq!(per_thread_amount(4, 2, 5), 0);
}

#[test]
fn amounts_add_up_to_the_total() {
    for total in 0..40usize {
        for threads in 1..9usize {
            let args = Args {
                num_ideas: 0,
                num_idea_gen: 1,
                num_pkgs: total,
                num_pkg_gen: threads,
                num_students: 0,
            };
            let plan = plan_packages(&args);
            let mut sum = 0;
            for i in 0..threads {
                assert_eq!(plan[i].pkg_start_idx, sum);
                assert_eq!(plan[i].num_pkgs, per_thread_amount(i, total, threads));
                sum += per_thread_amount(i, total, threads);
            }
            assert_eq!(sum, total);
        }
    }
}

#[test]
fn default_run_is_planned_as_expected() {
    let args = Args { num_ideas: 80, num_idea_gen: 2, num_pkgs: 4000, num_pkg_gen: 6, num_students: 6 };
    let pkgs = plan_packages(&args);
    assert_eq!(pkgs.len(), 6);
    let counts: Vec<usize> = pkgs.iter().map(|t| t.num_pkgs).collect();
    assert_eq!(counts, vec![667, 667, 667, 667, 666, 666]);
    let starts: Vec<usize> = pkgs.iter().map(|t| t.pkg_start_idx).collect();
    assert_eq!(starts, vec![0, 667, 1334, 2001, 2668, 3334]);
    let ideas = plan_ideas(&args);
    assert_eq!(ideas.len(), 2);
    assert_eq!(ideas[0].idea_start_idx, 0);
    assert_eq!(ideas[0].num_ideas, 40);
    assert_eq!(ideas[0].num_students, 3);
    assert_eq!(ideas[0].num_pkgs, 2000);
    assert_eq!(ideas[1].idea_start_idx, 40);
    assert_eq!(ideas[1].num_ideas, 40);
    assert_eq!(ideas[1].num_students, 3);
    assert_eq!(ideas[1].num_pkgs, 2000);
}

#[test]
fn plans_without_threads_are_empty() {
    let args = Args { num_ideas: 0, num_idea_gen: 0, num_pkgs: 0, num_pkg_gen: 0, num_students: 0 };
    assert_eq!(plan_packages(&args).len(), 0);
    assert_eq!(plan_ideas(&args).len(), 0);
}

#[test]
fn required_packages_add_up_to_the_total() {
    for (ideas, gens, pkgs) in [(2usize, 1usize, 4usize), (7, 3, 50), (80, 2, 4000), (5, 5, 3), (3, 3, 0)] {
        let args = Args { num_ideas: ideas, num_idea_gen: gens, num_pkgs: pkgs, num_pkg_gen: 1, num_students: 1 };
        let mut required = 0;
        for task in plan_ideas(&args) {
            for i in 0..task.num_ideas {
                required += per_thread_amount(i, task.num_pkgs, task.num_ideas);
            }
        }
        assert_eq!(required, pkgs);
    }
}
