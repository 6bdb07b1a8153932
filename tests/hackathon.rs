use std::collections::VecDeque;
use hackathon::checksum::Checksum;
use hackathon::distribution::per_thread_amount;
use hackathon::event::{Event, Idea, Package};
use hackathon::idea::IdeaGenerator;
use hackathon::package::PackageDownloader;
use hackathon::student::{Step, Student};

fn strings(xs: &[&str]) -> Vec<String> {
    xs.iter().map(|s| s.to_string()).collect()
}

fn idea(name: &str, n: usize) -> Event {
    Event::NewIdea(Idea { name: name.to_string(), num_pkg_required: n })
}

fn pkg(name: &str) -> Event {
    Event::DownloadComplete(Package { name: name.to_string() })
}

fn checksum_of(names: &[&str]) -> Checksum {
    let mut c = Checksum::default();
    for n in names {
        c.update(Checksum::with_sha256(n));
    }
    c
}

const ABC_SHA256: &str = "ba7816bf8f01cfea414140de5dae2223b00361a396177a9cb410ff61f20015ad";

#[test]
fn digest_of_known_text() {
    assert_eq!(Checksum::with_sha256("abc").to_hex(), ABC_SHA256);
}

#[test]
fn identity_checksum_is_empty() {
    assert_eq!(Checksum::default().to_hex(), "");
}

#[test]
fn combine_with_identity() {
    let mut a = Checksum::with_sha256("abc");
    a.update(Checksum::default());
    assert_eq!(a.to_hex(), ABC_SHA256);
    let mut b = Checksum::default();
    b.update(Checksum::with_sha256("abc"));
    assert_eq!(b.to_hex(), ABC_SHA256);
}

#[test]
fn combine_is_xor() {
    let mut a = Checksum::with_sha256("abc");
    a.update(Checksum::with_sha256("abc"));
    assert_eq!(a.to_hex(), "00".repeat(32));
}

#[test]
fn combine_commutative_and_associative() {
    let ab_c = {
        let mut x = checksum_of(&["a", "b"]);
        x.update(Checksum::with_sha256("c"));
        x
    };
    let a_bc = {
        let mut x = Checksum::with_sha256("a");
        x.update(checksum_of(&["b", "c"]));
        x
    };
    assert_eq!(ab_c.to_hex(), a_bc.to_hex());
    assert_eq!(checksum_of(&["c", "a", "b"]).to_hex(), ab_c.to_hex());
    assert_ne!(ab_c.to_hex(), checksum_of(&["a", "b"]).to_hex());
}

#[test]
fn even_distribution() {
    let shares: Vec<usize> = (0..3).map(|i| per_thread_amount(i, 10, 3)).collect();
    assert_eq!(shares, vec![4, 3, 3]);
    let shares: Vec<usize> = (0..6).map(|i| per_thread_amount(i, 4000, 6)).collect();
    assert_eq!(shares, vec![667, 667, 667, 667, 666, 666]);
    assert_eq!(shares.iter().sum::<usize>(), 4000);
    let shares: Vec<usize> = (0..4).map(|i| per_thread_amount(i, 2, 4)).collect();
    assert_eq!(shares, vec![1, 1, 0, 0]);
    assert_eq!(per_thread_amount(0, usize::MAX, 1), usize::MAX);
    assert_eq!(per_thread_amount(0, usize::MAX, 2), usize::MAX / 2 + 1);
    assert_eq!(per_thread_amount(1, usize::MAX, 2), usize::MAX / 2);
}

#[test]
fn idea_names_wrap() {
    let g = IdeaGenerator::new(0, 1, 0, 0, strings(&["A", "B"]), strings(&["X", "Y"]));
    assert_eq!(g.get_next_idea_name(0), "A for X");
    assert_eq!(g.get_next_idea_name(1), "A for Y");
    assert_eq!(g.get_next_idea_name(2), "B for X");
    assert_eq!(g.get_next_idea_name(3), "B for Y");
    assert_eq!(g.get_next_idea_name(4), "A for X");
    assert_eq!(g.get_next_idea_name(7), g.get_next_idea_name(3));
}

#[test]
fn package_requirements_split() {
    let g = IdeaGenerator::new(0, 3, 2, 10, strings(&["A", "B"]), strings(&["X", "Y"]));
    let mut c = Checksum::default();
    let events = g.run(&mut c);
    assert_eq!(events.len(), 5);
    let mut reqs = vec![];
    let mut names = vec![];
    for e in &events[..3] {
        match e {
            Event::NewIdea(i) => {
                reqs.push(i.num_pkg_required);
                names.push(i.name.clone());
            }
            _ => panic!("expected an idea"),
        }
    }
    assert_eq!(reqs, vec![4, 3, 3]);
    assert_eq!(names, vec!["A for X", "A for Y", "B for X"]);
    assert!(events[3..].iter().all(|e| matches!(e, Event::OutOfIdeas)));
    assert_eq!(c.to_hex(), checksum_of(&["A for X", "A for Y", "B for X"]).to_hex());
}

#[test]
fn idea_generator_offset() {
    let g = IdeaGenerator::new(3, 2, 0, 5, strings(&["A", "B"]), strings(&["X", "Y"]));
    let mut c = Checksum::default();
    let events = g.run(&mut c);
    let names: Vec<String> = events
        .iter()
        .map(|e| match e {
            Event::NewIdea(i) => i.name.clone(),
            _ => panic!("expected an idea"),
        })
        .collect();
    assert_eq!(names, vec!["B for Y", "A for X"]);
}

#[test]
fn packages_cycle_through_catalog() {
    let d = PackageDownloader::new(2, 4, strings(&["p", "q", "r"]));
    let mut c = Checksum::default();
    let events = d.run(&mut c);
    let names: Vec<String> = events
        .iter()
        .map(|e| match e {
            Event::DownloadComplete(p) => p.name.clone(),
            _ => panic!("expected a package"),
        })
        .collect();
    assert_eq!(names, vec!["r", "p", "q", "r"]);
    assert_eq!(c.to_hex(), checksum_of(&["r", "p", "q", "r"]).to_hex());
    assert_eq!(c.to_hex(), checksum_of(&["p", "q"]).to_hex());
}

fn no_action(step: &Step) -> bool {
    step.sends.is_empty() && step.build.is_none() && !step.done
}

#[test]
fn one_student_builds_then_exits() {
    let mut s = Student::new(0);
    assert!(no_action(&s.handle_event(idea("A for X", 2))));
    assert!(s.is_busy());
    assert!(no_action(&s.handle_event(pkg("p1"))));
    let step = s.handle_event(pkg("p2"));
    assert!(step.sends.is_empty());
    assert!(!step.done);
    let build = step.build.expect("the build fires");
    assert_eq!(build.idea.name, "A for X");
    let used: Vec<&str> = build.pkgs.iter().map(|p| p.name.as_str()).collect();
    assert_eq!(used, vec!["p1", "p2"]);
    assert!(!s.is_busy());
    assert_eq!(s.num_pkgs(), 0);

    let mut idea_cs = Checksum::default();
    let mut pkg_cs = Checksum::default();
    build.record(&mut idea_cs, &mut pkg_cs);
    assert_eq!(idea_cs.to_hex(), Checksum::with_sha256("A for X").to_hex());
    assert_eq!(pkg_cs.to_hex(), checksum_of(&["p1", "p2"]).to_hex());

    let step = s.handle_event(Event::OutOfIdeas);
    assert!(step.done);
    assert!(step.sends.is_empty());
    assert!(step.build.is_none());
}

#[test]
fn busy_student_defers_idea_and_sentinel() {
    let mut s = Student::new(1);
    assert!(no_action(&s.handle_event(idea("first", 1))));
    let step = s.handle_event(idea("second", 3));
    assert!(step.build.is_none());
    assert!(!step.done);
    assert_eq!(step.sends.len(), 1);
    match &step.sends[0] {
        Event::NewIdea(i) => {
            assert_eq!(i.name, "second");
            assert_eq!(i.num_pkg_required, 3);
        }
        _ => panic!("expected the idea back"),
    }
    assert!(s.skipped_idea());

    let step = s.handle_event(Event::OutOfIdeas);
    assert!(!step.done);
    assert_eq!(step.sends.len(), 1);
    assert!(matches!(step.sends[0], Event::OutOfIdeas));
    assert!(!s.skipped_idea());
    assert!(s.is_busy());
}

#[test]
fn idle_student_after_skip_still_defers_once() {
    let mut s = Student::new(2);
    s.handle_event(idea("first", 1));
    s.handle_event(idea("second", 1));
    let step = s.handle_event(pkg("p"));
    assert!(step.build.is_some());
    assert!(!s.is_busy());
    let step = s.handle_event(Event::OutOfIdeas);
    assert!(!step.done);
    assert!(matches!(step.sends[0], Event::OutOfIdeas));
    let step = s.handle_event(Event::OutOfIdeas);
    assert!(step.done);
}

#[test]
fn exiting_student_returns_inventory_in_order() {
    let mut s = Student::new(3);
    s.handle_event(pkg("a"));
    s.handle_event(pkg("b"));
    assert_eq!(s.num_pkgs(), 2);
    let step = s.handle_event(Event::OutOfIdeas);
    assert!(step.done);
    let names: Vec<String> = step
        .sends
        .iter()
        .map(|e| match e {
            Event::DownloadComplete(p) => p.name.clone(),
            _ => panic!("expected a package"),
        })
        .collect();
    assert_eq!(names, vec!["a", "b"]);
    assert_eq!(s.num_pkgs(), 0);
}

#[test]
fn idea_needing_no_packages_builds_at_once() {
    let mut s = Student::new(4);
    let step = s.handle_event(idea("free", 0));
    let build = step.build.expect("builds immediately");
    assert!(build.pkgs.is_empty());
    assert!(!s.is_busy());
}

/// A whole run on one thread, with a FIFO queue: the producer-side and the
/// student-side checksums agree.
#[test]
fn single_threaded_run_checksums_agree() {
    let products = strings(&["A", "B", "C"]);
    let customers = strings(&["X", "Y"]);
    let catalog = strings(&["p", "q", "r", "s", "t"]);
    let (num_ideas, num_pkgs, num_students) = (5usize, 23usize, 2usize);

    let mut idea_cs = Checksum::default();
    let mut pkg_cs = Checksum::default();
    let mut queue: VecDeque<Event> = VecDeque::new();
    let mut start = 0;
    for i in 0..2 {
        let n = per_thread_amount(i, num_pkgs, 2);
        let d = PackageDownloader::new(start, n, catalog.clone());
        queue.extend(d.run(&mut pkg_cs));
        start += n;
    }
    let mut start = 0;
    for i in 0..2 {
        let n = per_thread_amount(i, num_ideas, 2);
        let p = per_thread_amount(i, num_pkgs, 2);
        let st = per_thread_amount(i, num_students, 2);
        let g = IdeaGenerator::new(start, n, st, p, products.clone(), customers.clone());
        queue.extend(g.run(&mut idea_cs));
        start += n;
    }

    let mut students: Vec<Student> = (0..num_students).map(Student::new).collect();
    let mut alive = vec![true; num_students];
    let mut s_idea_cs = Checksum::default();
    let mut s_pkg_cs = Checksum::default();
    let mut builds = 0;
    let mut turn = 0;
    while alive.iter().any(|a| *a) {
        let who = turn % num_students;
        turn += 1;
        if !alive[who] {
            continue;
        }
        let event = queue.pop_front().expect("queue drained while students remain");
        let step = students[who].handle_event(event);
        if let Some(b) = step.build {
            b.record(&mut s_idea_cs, &mut s_pkg_cs);
            builds += 1;
        }
        queue.extend(step.sends);
        if step.done {
            alive[who] = false;
        }
    }
    assert_eq!(builds, num_ideas);
    assert_eq!(idea_cs.to_hex(), s_idea_cs.to_hex());
    assert_eq!(pkg_cs.to_hex(), s_pkg_cs.to_hex());
}
