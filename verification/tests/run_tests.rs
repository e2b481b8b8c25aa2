use crossbeam::channel::unbounded;
use crossbeam::channel::Receiver;
use hackathon::accumulator::Accumulator;
use hackathon::accumulator::SharedChecksum;
use hackathon::cache::MemoCache;
use hackathon::checksum::Checksum;
use hackathon::idea::Idea;
use hackathon::idea::IdeaGenerator;
use hackathon::package::Package;
use hackathon::package::PackageDownloader;
use hackathon::queue::QueueError;
use hackathon::student::Student;
use hackathon::Event;
use std::sync::Arc;

fn pool(names: &[&str]) -> Vec<String> {
    names.iter().map(|n| n.to_string()).collect()
}

fn describe(event: &Event) -> String {
    match event {
        Event::NewIdea(idea) => format!("idea {} needs {}", idea.name, idea.num_pkg_required),
        Event::DownloadComplete(pkg) => format!("package {}", pkg.name),
        Event::OutOfIdeas => "out of ideas".to_string(),
    }
}

fn drain(recv: &Receiver<Event>) -> Vec<String> {
    let mut seen = Vec::new();
    while let Ok(event) = recv.try_recv() {
        seen.push(describe(&event));
    }
    seen
}

fn fold_names(names: &[&str]) -> String {
    let mut c = Checksum::new();
    for n in names {
        c.update(Checksum::with_sha256(n));
    }
    c.to_string()
}

struct Shared {
    sum: Arc<SharedChecksum>,
    cache: Arc<MemoCache>,
}

fn shared() -> Shared {
    Shared { sum: Arc::new(SharedChecksum::new()), cache: Arc::new(MemoCache::new()) }
}

#[test]
fn idea_names_run_through_the_pools() {
    let products = pool(&["app", "site"]);
    let customers = pool(&["cats", "dogs", "owls"]);
    let name = |i| IdeaGenerator::get_next_idea_name(i, &products, &customers);
    assert_eq!(name(0), "app for cats");
    assert_eq!(name(1), "app for dogs");
    assert_eq!(name(2), "app for owls");
    assert_eq!(name(3), "site for cats");
    assert_eq!(name(5), "site for owls");
    assert_eq!(name(6), "app for cats");
    assert_eq!(name(10), "site for dogs");
}

#[test]
fn idea_generator_publishes_ideas_then_notices() {
    let (send, recv) = unbounded::<Event>();
    let s = shared();
    let mut acc = Accumulator::new(Arc::clone(&s.sum));
    let mut generator = IdeaGenerator::new(1, 3, 2, 7, send);
    let products = pool(&["app", "site"]);
    let customers = pool(&["cats", "dogs"]);
    assert_eq!(generator.run(&products, &customers, &mut acc, &s.cache), Ok(()));
    assert_eq!(
        drain(&recv),
        vec![
            "idea app for dogs needs 3",
            "idea site for cats needs 2",
            "idea site for dogs needs 2",
            "out of ideas",
            "out of ideas",
        ]
    );
    assert_eq!(
        s.sum.current().to_string(),
        fold_names(&["app for dogs", "site for cats", "site for dogs"])
    );
}

#[test]
fn idea_generator_without_ideas_only_sends_notices() {
    let (send, recv) = unbounded::<Event>();
    let s = shared();
    let mut acc = Accumulator::new(Arc::clone(&s.sum));
    let mut generator = IdeaGenerator::new(0, 0, 3, 5, send);
    assert_eq!(generator.run(&Vec::new(), &Vec::new(), &mut acc, &s.cache), Ok(()));
    assert_eq!(drain(&recv), vec!["out of ideas", "out of ideas", "out of ideas"]);
    assert_eq!(s.sum.current().to_string(), "");
}

#[test]
fn idea_generator_stops_when_nobody_listens() {
    let (send, recv) = unbounded::<Event>();
    drop(recv);
    let s = shared();
    let mut acc = Accumulator::new(Arc::clone(&s.sum));
    let mut generator = IdeaGenerator::new(0, 2, 1, 2, send);
    let products = pool(&["app"]);
    let customers = pool(&["cats"]);
    assert_eq!(
        generator.run(&products, &customers, &mut acc, &s.cache),
        Err(QueueError::NoReceiver)
    );
    assert_eq!(s.sum.current().to_string(), fold_names(&["app for cats"]));
}

#[test]
fn package_downloader_runs_through_the_pool() {
    let (send, recv) = unbounded::<Event>();
    let s = shared();
    let mut acc = Accumulator::new(Arc::clone(&s.sum));
    let mut downloader = PackageDownloader::new(3, 4, send);
    let file = pool(&["serde", "rand", "syn", "libc"]);
    assert_eq!(downloader.run(&file, &mut acc, &s.cache), Ok(()));
    assert_eq!(
        drain(&recv),
        vec!["package libc", "package serde", "package rand", "package syn"]
    );
    assert_eq!(s.sum.current().to_string(), fold_names(&["libc", "serde", "rand", "syn"]));
}

#[test]
fn package_downloader_without_packages_does_nothing() {
    let (send, recv) = unbounded::<Event>();
    let s = shared();
    let mut acc = Accumulator::new(Arc::clone(&s.sum));
    let mut downloader = PackageDownloader::new(0, 0, send);
    assert_eq!(downloader.run(&Vec::new(), &mut acc, &s.cache), Ok(()));
    assert!(drain(&recv).is_empty());
    assert_eq!(s.sum.current().to_string(), "");
}

#[test]
fn package_downloader_stops_when_nobody_listens() {
    let (send, recv) = unbounded::<Event>();
    drop(recv);
    let s = shared();
    let mut acc = Accumulator::new(Arc::clone(&s.sum));
    let mut downloader = PackageDownloader::new(0, 2, send);
    assert_eq!(
        downloader.run(&pool(&["serde"]), &mut acc, &s.cache),
        Err(QueueError::NoReceiver)
    );
}

#[test]
fn cache_gives_the_digest_of_the_name() {
    let cache = Arc::new(MemoCache::new());
    let name = "serde".to_string();
    let direct = Checksum::with_sha256("serde").to_string();
    assert!(cache.lookup(&name).is_none());
    assert_eq!(hackathon::idea::access_or_write(&cache, &name).to_string(), direct);
    assert_eq!(cache.lookup(&name).map(|c| c.to_string()), Some(direct.clone()));
    for _ in 0..5 {
        assert_eq!(hackathon::idea::access_or_write(&cache, &name).to_string(), direct);
        assert_eq!(hackathon::package::access_or_write(&cache, &name).to_string(), direct);
        assert_eq!(hackathon::student::access_or_write(&cache, &name).to_string(), direct);
    }
    let other = "rand".to_string();
    assert_eq!(
        hackathon::student::access_or_write(&cache, &other).to_string(),
        Checksum::with_sha256("rand").to_string()
    );
    assert_eq!(hackathon::student::access_or_write(&cache, &name).to_string(), direct);
}

#[test]
fn accumulator_folds_into_the_shared_checksum() {
    let sum = Arc::new(SharedChecksum::new());
    let mut one = Accumulator::new(Arc::clone(&sum));
    let mut two = Accumulator::new(Arc::clone(&sum));
    assert_eq!(sum.current().to_string(), "");
    one.fold(Checksum::with_sha256("a"));
    two.fold(Checksum::with_sha256("b"));
    one.fold(Checksum::new());
    assert_eq!(sum.current().to_string(), fold_names(&["a", "b"]));
}

#[test]
fn fold_build_folds_into_both_checksums() {
    let ideas = Arc::new(SharedChecksum::new());
    let pkgs = Arc::new(SharedChecksum::new());
    let mut idea_acc = Accumulator::new(Arc::clone(&ideas));
    let mut pkg_acc = Accumulator::new(Arc::clone(&pkgs));
    let used = vec![Checksum::with_sha256("serde"), Checksum::with_sha256("rand")];
    Accumulator::fold_build(&mut idea_acc, Checksum::with_sha256("app"), &mut pkg_acc, &used);
    assert_eq!(ideas.current().to_string(), fold_names(&["app"]));
    assert_eq!(pkgs.current().to_string(), fold_names(&["serde", "rand"]));
}

struct Bench {
    student: Student,
    recv: Receiver<Event>,
    ideas: Arc<SharedChecksum>,
    pkgs: Arc<SharedChecksum>,
    idea_acc: Accumulator,
    pkg_acc: Accumulator,
    cache1: Arc<MemoCache>,
    cache2: Arc<MemoCache>,
}

fn bench() -> Bench {
    let (send, recv) = unbounded::<Event>();
    let ideas = Arc::new(SharedChecksum::new());
    let pkgs = Arc::new(SharedChecksum::new());
    Bench {
        student: Student::new(7, send, recv.clone()),
        recv,
        idea_acc: Accumulator::new(Arc::clone(&ideas)),
        pkg_acc: Accumulator::new(Arc::clone(&pkgs)),
        ideas,
        pkgs,
        cache1: Arc::new(MemoCache::new()),
        cache2: Arc::new(MemoCache::new()),
    }
}

impl Bench {
    fn handle(&mut self, event: Event) -> Result<bool, QueueError> {
        self.student.handle(event, &mut self.idea_acc, &mut self.pkg_acc, &self.cache1, &self.cache2)
    }
}

fn idea(name: &str, required: usize) -> Event {
    Event::NewIdea(Idea { name: name.to_string(), num_pkg_required: required })
}

fn package(name: &str) -> Event {
    Event::DownloadComplete(Package { name: name.to_string() })
}

#[test]
fn new_student_holds_nothing() {
    let b = bench();
    assert_eq!(b.student.snapshot(), (None, Vec::new(), false));
}

#[test]
fn student_takes_an_idea_and_waits_for_packages() {
    let mut b = bench();
    assert_eq!(b.handle(idea("app", 2)), Ok(false));
    assert_eq!(b.student.snapshot(), (Some(("app".to_string(), 2)), Vec::new(), false));
    assert_eq!(b.handle(package("serde")), Ok(false));
    assert_eq!(b.student.snapshot(), (Some(("app".to_string(), 2)), pool(&["serde"]), false));
    assert_eq!(b.ideas.current().to_string(), "");
    assert_eq!(b.handle(package("rand")), Ok(false));
    assert_eq!(b.student.snapshot(), (None, Vec::new(), false));
    assert_eq!(b.ideas.current().to_string(), fold_names(&["app"]));
    assert_eq!(b.pkgs.current().to_string(), fold_names(&["serde", "rand"]));
    assert!(drain(&b.recv).is_empty());
}

#[test]
fn student_builds_from_the_oldest_packages() {
    let mut b = bench();
    for p in ["serde", "rand", "syn"] {
        assert_eq!(b.handle(package(p)), Ok(false));
    }
    assert_eq!(b.student.snapshot(), (None, pool(&["serde", "rand", "syn"]), false));
    assert_eq!(b.handle(idea("app", 2)), Ok(false));
    assert_eq!(b.student.snapshot(), (None, pool(&["syn"]), false));
    assert_eq!(b.pkgs.current().to_string(), fold_names(&["serde", "rand"]));
    assert_eq!(b.ideas.current().to_string(), fold_names(&["app"]));
}

#[test]
fn idea_that_requires_nothing_is_built_at_once() {
    let mut b = bench();
    assert_eq!(b.handle(idea("app", 0)), Ok(false));
    assert_eq!(b.student.snapshot(), (None, Vec::new(), false));
    assert_eq!(b.ideas.current().to_string(), fold_names(&["app"]));
    assert_eq!(b.pkgs.current().to_string(), "");
}

#[test]
fn busy_student_sends_the_idea_back() {
    let mut b = bench();
    assert_eq!(b.handle(idea("app", 1)), Ok(false));
    assert_eq!(b.handle(idea("site", 3)), Ok(false));
    assert_eq!(b.student.snapshot(), (Some(("app".to_string(), 1)), Vec::new(), true));
    assert_eq!(drain(&b.recv), vec!["idea site needs 3"]);
}

#[test]
fn student_with_an_idea_passes_the_notice_on() {
    let mut b = bench();
    assert_eq!(b.handle(idea("app", 1)), Ok(false));
    assert_eq!(b.handle(Event::OutOfIdeas), Ok(false));
    assert_eq!(b.student.snapshot(), (Some(("app".to_string(), 1)), Vec::new(), false));
    assert_eq!(drain(&b.recv), vec!["out of ideas"]);
}

#[test]
fn student_that_skipped_passes_one_notice_on() {
    let mut b = bench();
    assert_eq!(b.handle(idea("app", 1)), Ok(false));
    assert_eq!(b.handle(idea("site", 1)), Ok(false));
    assert_eq!(b.handle(package("serde")), Ok(false));
    assert_eq!(b.student.snapshot(), (None, Vec::new(), true));
    assert_eq!(b.handle(Event::OutOfIdeas), Ok(false));
    assert_eq!(b.student.snapshot(), (None, Vec::new(), false));
    assert_eq!(drain(&b.recv), vec!["idea site needs 1", "out of ideas"]);
    assert_eq!(b.handle(Event::OutOfIdeas), Ok(true));
    assert!(drain(&b.recv).is_empty());
}

#[test]
fn leaving_student_gives_its_packages_back() {
    let mut b = bench();
    for p in ["serde", "rand", "syn"] {
        assert_eq!(b.handle(package(p)), Ok(false));
    }
    assert_eq!(b.handle(Event::OutOfIdeas), Ok(true));
    assert_eq!(b.student.snapshot(), (None, Vec::new(), false));
    assert_eq!(drain(&b.recv), vec!["package serde", "package rand", "package syn"]);
    assert_eq!(b.pkgs.current().to_string(), "");
}

#[test]
fn handle_fails_when_nobody_listens() {
    let (send, recv) = unbounded::<Event>();
    let (_other_send, other_recv) = unbounded::<Event>();
    drop(recv);
    let mut b = bench();
    b.student = Student::new(1, send, other_recv);
    assert_eq!(b.handle(idea("app", 1)), Ok(false));
    assert_eq!(b.handle(idea("site", 1)), Err(QueueError::NoReceiver));
    assert_eq!(b.student.snapshot(), (Some(("app".to_string(), 1)), Vec::new(), false));
    assert_eq!(b.handle(Event::OutOfIdeas), Err(QueueError::NoReceiver));
    assert_eq!(b.student.snapshot(), (Some(("app".to_string(), 1)), Vec::new(), false));
    assert_eq!(b.ideas.current().to_string(), "");
    assert_eq!(b.pkgs.current().to_string(), "");
}

#[test]
fn student_interrupted_while_leaving_loses_the_package_refused() {
    let (send, recv) = unbounded::<Event>();
    let (_other_send, other_recv) = unbounded::<Event>();
    drop(recv);
    let mut b = bench();
    b.student = Student::new(1, send, other_recv);
    for p in ["serde", "rand", "syn"] {
        assert_eq!(b.handle(package(p)), Ok(false));
    }
    assert_eq!(b.handle(Event::OutOfIdeas), Err(QueueError::NoReceiver));
    assert_eq!(b.student.snapshot(), (None, pool(&["rand", "syn"]), false));
    assert_eq!(b.pkgs.current().to_string(), "");
}

#[test]
fn run_reports_the_event_that_the_queue_refused() {
    let (feed, recv) = unbounded::<Event>();
    let (send, gone) = unbounded::<Event>();
    drop(gone);
    feed.send(package("serde")).unwrap();
    feed.send(idea("app", 2)).unwrap();
    feed.send(idea("site", 1)).unwrap();
    feed.send(package("rand")).unwrap();
    let mut b = bench();
    b.student = Student::new(1, send, recv);
    assert_eq!(
        b.student.run(&mut b.idea_acc, &mut b.pkg_acc, &b.cache1, &b.cache2, 10),
        Err(QueueError::NoReceiver)
    );
    assert_eq!(b.student.snapshot(), (Some(("app".to_string(), 2)), pool(&["serde"]), false));
    assert_eq!(feed.len(), 1);
}

#[test]
fn run_with_no_events_allowed_takes_nothing() {
    let (send, recv) = unbounded::<Event>();
    send.send(package("serde")).unwrap();
    let mut b = bench();
    b.student = Student::new(1, send, recv.clone());
    assert_eq!(b.student.run(&mut b.idea_acc, &mut b.pkg_acc, &b.cache1, &b.cache2, 0), Ok(false));
    assert_eq!(b.student.snapshot(), (None, Vec::new(), false));
    assert_eq!(drain(&recv), vec!["package serde"]);
}

#[test]
fn run_fails_when_the_queue_runs_dry() {
    let (send, recv) = unbounded::<Event>();
    let (own_send, _own_recv) = unbounded::<Event>();
    send.send(package("serde")).unwrap();
    drop(send);
    let mut b = bench();
    b.student = Student::new(1, own_send, recv);
    assert_eq!(
        b.student.run(&mut b.idea_acc, &mut b.pkg_acc, &b.cache1, &b.cache2, 10),
        Err(QueueError::NoSender)
    );
    assert_eq!(b.student.snapshot(), (None, pool(&["serde"]), false));
}

#[test]
fn run_stops_at_the_limit() {
    let (send, recv) = unbounded::<Event>();
    for p in ["serde", "rand", "syn"] {
        send.send(package(p)).unwrap();
    }
    let mut b = bench();
    b.student = Student::new(1, send, recv);
    assert_eq!(b.student.run(&mut b.idea_acc, &mut b.pkg_acc, &b.cache1, &b.cache2, 2), Ok(false));
    assert_eq!(b.student.snapshot(), (None, pool(&["serde", "rand"]), false));
    assert_eq!(b.student.run(&mut b.idea_acc, &mut b.pkg_acc, &b.cache1, &b.cache2, 0), Ok(false));
    assert_eq!(b.student.snapshot(), (None, pool(&["serde", "rand"]), false));
}

#[test]
fn two_ideas_four_packages_two_students() {
    let (send, recv) = unbounded::<Event>();
    let gen_ideas = Arc::new(SharedChecksum::new());
    let gen_pkgs = Arc::new(SharedChecksum::new());
    let built_ideas = Arc::new(SharedChecksum::new());
    let used_pkgs = Arc::new(SharedChecksum::new());
    let caches: Vec<Arc<MemoCache>> = (0..4).map(|_| Arc::new(MemoCache::new())).collect();
    let products = pool(&["app", "site"]);
    let customers = pool(&["cats", "dogs"]);
    let file = pool(&["serde", "rand", "syn", "libc"]);

    let mut generator = IdeaGenerator::new(0, 2, 2, 4, send.clone());
    let mut acc = Accumulator::new(Arc::clone(&gen_ideas));
    assert_eq!(generator.run(&products, &customers, &mut acc, &caches[1]), Ok(()));
    let published: Vec<Event> = recv.try_iter().collect();
    let described: Vec<String> = published.iter().map(describe).collect();
    assert_eq!(
        described,
        vec!["idea app for cats needs 2", "idea app for dogs needs 2", "out of ideas", "out of ideas"]
    );
    for event in published {
        send.send(event).unwrap();
    }

    let mut downloader = PackageDownloader::new(0, 4, send.clone());
    let mut acc = Accumulator::new(Arc::clone(&gen_pkgs));
    assert_eq!(downloader.run(&file, &mut acc, &caches[0]), Ok(()));

    let mut left = 0;
    for id in 0..2 {
        let mut student = Student::new(id, send.clone(), recv.clone());
        let mut idea_acc = Accumulator::new(Arc::clone(&built_ideas));
        let mut pkg_acc = Accumulator::new(Arc::clone(&used_pkgs));
        assert_eq!(
            student.run(&mut idea_acc, &mut pkg_acc, &caches[2], &caches[3], 1000),
            Ok(true)
        );
        assert_eq!(student.snapshot(), (None, Vec::new(), false));
        left += 1;
    }
    assert_eq!(left, 2);
    assert!(recv.try_recv().is_err());

    assert_eq!(gen_ideas.current().to_string(), fold_names(&["app for cats", "app for dogs"]));
    assert_eq!(gen_pkgs.current().to_string(), fold_names(&["serde", "rand", "syn", "libc"]));
    assert_eq!(gen_ideas.current().to_string(), built_ideas.current().to_string());
    assert_eq!(gen_pkgs.current().to_string(), used_pkgs.current().to_string());
    assert_eq!(gen_ideas.current().to_string().len(), 64);
}
