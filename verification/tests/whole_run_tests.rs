use crossbeam::channel::unbounded;
use hackathon::accumulator::Accumulator;
use hackathon::accumulator::SharedChecksum;
use hackathon::cache::MemoCache;
use hackathon::checksum::Checksum;
use hackathon::idea::IdeaGenerator;
use hackathon::package::PackageDownloader;
use hackathon::schedule::plan_ideas;
use hackathon::schedule::plan_packages;
use hackathon::schedule::Args;
use hackathon::student::Student;
use hackathon::Event;
use std::sync::Arc;

struct Outcome {
    generated_ideas: String,
    built_ideas: String,
    downloaded_pkgs: String,
    used_pkgs: String,
    students_left: usize,
    ideas_left_over: usize,
    pkgs_left_over: usize,
    notices_left_over: usize,
}

fn names(list: &[&str]) -> Vec<String> {
    list.iter().map(|n| n.to_string()).collect()
}

fn fold(list: &[String]) -> String {
    let mut c = Checksum::new();
    for n in list {
        c.update(Checksum::with_sha256(n));
    }
    c.to_string()
}

// Runs the generators one after the other, then the students one after the
// other, on one queue.
fn run(args: &Args, products: &[&str], customers: &[&str], file: &[&str]) -> Outcome {
    let products = names(products);
    let customers = names(customers);
    let file = names(file);
    let (send, recv) = unbounded::<Event>();
    let sums: Vec<Arc<SharedChecksum>> = (0..4).map(|_| Arc::new(SharedChecksum::new())).collect();
    let caches: Vec<Arc<MemoCache>> = (0..4).map(|_| Arc::new(MemoCache::new())).collect();

    for task in plan_ideas(args) {
        let mut generator = IdeaGenerator::new(
            task.idea_start_idx,
            task.num_ideas,
            task.num_students,
            task.num_pkgs,
            send.clone(),
        );
        let mut acc = Accumulator::new(Arc::clone(&sums[0]));
        assert_eq!(generator.run(&products, &customers, &mut acc, &caches[0]), Ok(()));
    }
    for task in plan_packages(args) {
        let mut downloader = PackageDownloader::new(task.pkg_start_idx, task.num_pkgs, send.clone());
        let mut acc = Accumulator::new(Arc::clone(&sums[2]));
        assert_eq!(downloader.run(&file, &mut acc, &caches[2]), Ok(()));
    }
    let mut students_left = 0;
    for id in 0..args.num_students {
        let mut student = Student::new(id, send.clone(), recv.clone());
        let mut ideas = Accumulator::new(Arc::clone(&sums[1]));
        let mut pkgs = Accumulator::new(Arc::clone(&sums[3]));
        assert_eq!(student.run(&mut ideas, &mut pkgs, &caches[1], &caches[3], 1_000_000), Ok(true));
        assert_eq!(student.snapshot(), (None, Vec::new(), false));
        students_left += 1;
    }
    let mut outcome = Outcome {
        generated_ideas: sums[0].current().to_string(),
        built_ideas: sums[1].current().to_string(),
        downloaded_pkgs: sums[2].current().to_string(),
        used_pkgs: sums[3].current().to_string(),
        students_left,
        ideas_left_over: 0,
        pkgs_left_over: 0,
        notices_left_over: 0,
    };
    for event in recv.try_iter() {
        match event {
            Event::NewIdea(_) => outcome.ideas_left_over += 1,
            Event::DownloadComplete(_) => outcome.pkgs_left_over += 1,
            Event::OutOfIdeas => outcome.notices_left_over += 1,
        }
    }
    outcome
}

fn size(ideas: usize, idea_gen: usize, pkgs: usize, pkg_gen: usize, students: usize) -> Args {
    Args {
        num_ideas: ideas,
        num_idea_gen: idea_gen,
        num_pkgs: pkgs,
        num_pkg_gen: pkg_gen,
        num_students: students,
    }
}

const PRODUCTS: [&str; 3] = ["app", "site", "game"];
const CUSTOMERS: [&str; 2] = ["cats", "dogs"];
const FILE: [&str; 4] = ["serde", "rand", "syn", "libc"];

#[test]
fn balanced_run_ends_with_matching_checksums() {
    let out = run(&size(7, 2, 23, 3, 4), &PRODUCTS, &CUSTOMERS, &FILE);
    assert_eq!(out.students_left, 4);
    assert_eq!(out.generated_ideas, out.built_ideas);
    assert_eq!(out.downloaded_pkgs, out.used_pkgs);
    assert_eq!(out.generated_ideas.len(), 64);
    assert_eq!((out.ideas_left_over, out.pkgs_left_over, out.notices_left_over), (0, 0, 0));
}

#[test]
fn checksums_are_those_of_the_names_by_number() {
    let out = run(&size(5, 2, 6, 2, 2), &PRODUCTS, &CUSTOMERS, &FILE);
    let ideas = names(&[
        "app for cats",
        "app for dogs",
        "site for cats",
        "site for dogs",
        "game for cats",
    ]);
    let pkgs = names(&["serde", "rand", "syn", "libc", "serde", "rand"]);
    assert_eq!(out.generated_ideas, fold(&ideas));
    assert_eq!(out.built_ideas, fold(&ideas));
    assert_eq!(out.downloaded_pkgs, fold(&pkgs));
    assert_eq!(out.used_pkgs, fold(&pkgs));
    assert_eq!(out.downloaded_pkgs, fold(&names(&["syn", "libc"])));
}

#[test]
fn checksums_do_not_depend_on_the_number_of_threads() {
    let one = run(&size(9, 1, 20, 1, 3), &PRODUCTS, &CUSTOMERS, &FILE);
    for (idea_gen, pkg_gen, students) in [(2, 3, 3), (3, 7, 5), (3, 20, 9), (1, 25, 1)] {
        let other = run(&size(9, idea_gen, 20, pkg_gen, students), &PRODUCTS, &CUSTOMERS, &FILE);
        assert_eq!(other.generated_ideas, one.generated_ideas);
        assert_eq!(other.built_ideas, one.built_ideas);
        assert_eq!(other.downloaded_pkgs, one.downloaded_pkgs);
        assert_eq!(other.used_pkgs, one.used_pkgs);
        assert_eq!(other.students_left, students);
    }
}

#[test]
fn run_without_ideas_and_packages_ends() {
    let out = run(&size(0, 1, 0, 1, 3), &PRODUCTS, &CUSTOMERS, &FILE);
    assert_eq!(out.students_left, 3);
    assert_eq!(out.generated_ideas, "");
    assert_eq!(out.built_ideas, "");
    assert_eq!(out.downloaded_pkgs, "");
    assert_eq!(out.used_pkgs, "");
    assert_eq!((out.ideas_left_over, out.pkgs_left_over, out.notices_left_over), (0, 0, 0));
}

#[test]
fn run_without_ideas_gives_the_packages_back() {
    let out = run(&size(0, 2, 5, 2, 2), &PRODUCTS, &CUSTOMERS, &FILE);
    assert_eq!(out.students_left, 2);
    assert_eq!(out.used_pkgs, "");
    assert_eq!(out.downloaded_pkgs.len(), 64);
    assert_eq!((out.ideas_left_over, out.pkgs_left_over, out.notices_left_over), (0, 5, 0));
}

#[test]
fn run_with_more_generators_than_ideas_ends() {
    let out = run(&size(2, 3, 2, 5, 3), &PRODUCTS, &CUSTOMERS, &FILE);
    assert_eq!(out.students_left, 3);
    assert_eq!(out.generated_ideas, out.built_ideas);
    assert_eq!(out.downloaded_pkgs, out.used_pkgs);
    assert_eq!((out.ideas_left_over, out.pkgs_left_over, out.notices_left_over), (0, 0, 0));
}

#[test]
fn generator_without_ideas_leaves_its_packages_unused() {
    let out = run(&size(1, 2, 4, 1, 2), &PRODUCTS, &CUSTOMERS, &FILE);
    assert_eq!(out.students_left, 2);
    assert_eq!(out.generated_ideas, out.built_ideas);
    assert_ne!(out.downloaded_pkgs, out.used_pkgs);
    assert_eq!((out.ideas_left_over, out.pkgs_left_over, out.notices_left_over), (0, 2, 0));
}

#[test]
fn one_student_handles_every_idea() {
    let out = run(&size(6, 1, 12, 2, 1), &PRODUCTS, &CUSTOMERS, &FILE);
    assert_eq!(out.students_left, 1);
    assert_eq!(out.generated_ideas, out.built_ideas);
    assert_eq!(out.downloaded_pkgs, out.used_pkgs);
    assert_eq!((out.ideas_left_over, out.pkgs_left_over, out.notices_left_over), (0, 0, 0));
}
