use crate::checksum::{
    all_digests, checksum_of, combine, lemma_checksum_of_push, lemma_checksum_of_valid,
    lemma_combine_associative, Checksum,
};
use crate::event::{Event, EventView, Idea, IdeaView, Package};
use vstd::multiset::Multiset;
use vstd::prelude::*;

verus! {

/// A student's state, as a value.
pub struct StudentView {
    pub id: usize,
    pub idea: Option<IdeaView>,
    pub pkgs: Seq<Seq<char>>,
    pub skipped_idea: bool,
}

/// A completed build: the idea and the packages it consumed, oldest first.
pub struct Build {
    pub idea: Idea,
    pub pkgs: Vec<Package>,
}

pub struct BuildView {
    pub idea: IdeaView,
    pub pkgs: Seq<Seq<char>>,
}

impl View for Build {
    type V = BuildView;

    open spec fn view(&self) -> BuildView {
        BuildView { idea: self.idea@, pkgs: self.pkgs@.map_values(|p: Package| p@) }
    }
}

pub open spec fn build_view(b: Option<Build>) -> Option<BuildView> {
    match b {
        Some(b) => Some(b@),
        None => None,
    }
}

/// What handling one event asks of the surrounding loop: events to send back
/// to the queue, at most one build to record, and whether the student exits.
pub struct Step {
    pub sends: Vec<Event>,
    pub build: Option<Build>,
    pub done: bool,
}

pub struct StepView {
    pub sends: Seq<EventView>,
    pub build: Option<BuildView>,
    pub done: bool,
}

impl View for Step {
    type V = StepView;

    open spec fn view(&self) -> StepView {
        StepView {
            sends: self.sends@.map_values(|e: Event| e@),
            build: build_view(self.build),
            done: self.done,
        }
    }
}

/// Builds the held idea if enough packages are in the inventory, taking the
/// oldest ones; otherwise nothing changes.
pub open spec fn try_build(s: StudentView) -> (StudentView, Option<BuildView>) {
    match s.idea {
        Some(i) => if i.num_pkg_required <= s.pkgs.len() {
            (
                StudentView { idea: None, pkgs: s.pkgs.skip(i.num_pkg_required as int), ..s },
                Some(BuildView { idea: i, pkgs: s.pkgs.take(i.num_pkg_required as int) }),
            )
        } else {
            (s, None)
        },
        None => (s, None),
    }
}

/// The state and the step that follow from handling event `e` in state `s`.
pub open spec fn step(s: StudentView, e: EventView) -> (StudentView, StepView) {
    match e {
        EventView::NewIdea(i) => if s.idea is None {
            let (t, b) = try_build(StudentView { idea: Some(i), ..s });
            (t, StepView { sends: Seq::empty(), build: b, done: false })
        } else {
            (
                StudentView { skipped_idea: true, ..s },
                StepView { sends: seq![EventView::NewIdea(i)], build: None, done: false },
            )
        },
        EventView::DownloadComplete(p) => {
            let (t, b) = try_build(StudentView { pkgs: s.pkgs.push(p), ..s });
            (t, StepView { sends: Seq::empty(), build: b, done: false })
        },
        EventView::OutOfIdeas => if s.skipped_idea || s.idea is Some {
            (
                StudentView { skipped_idea: false, ..s },
                StepView { sends: seq![EventView::OutOfIdeas], build: None, done: false },
            )
        } else {
            (
                StudentView { pkgs: Seq::empty(), ..s },
                StepView {
                    sends: s.pkgs.map_values(|p: Seq<char>| EventView::DownloadComplete(p)),
                    build: None,
                    done: true,
                },
            )
        },
    }
}

/// The idea a student holds, as a multiset of at most one.
pub open spec fn held_ideas(s: StudentView) -> Multiset<IdeaView> {
    match s.idea {
        Some(i) => Multiset::singleton(i),
        None => Multiset::empty(),
    }
}

/// The ideas carried by a sequence of events.
pub open spec fn ideas_in(es: Seq<EventView>) -> Multiset<IdeaView>
    decreases es.len(),
{
    if es.len() == 0 {
        Multiset::empty()
    } else {
        ideas_in(es.drop_last()).add(
            match es.last() {
                EventView::NewIdea(i) => Multiset::singleton(i),
                _ => Multiset::empty(),
            },
        )
    }
}

/// The packages carried by a sequence of events.
pub open spec fn packages_in(es: Seq<EventView>) -> Multiset<Seq<char>>
    decreases es.len(),
{
    if es.len() == 0 {
        Multiset::empty()
    } else {
        packages_in(es.drop_last()).add(
            match es.last() {
                EventView::DownloadComplete(p) => Multiset::singleton(p),
                _ => Multiset::empty(),
            },
        )
    }
}

/// The number of termination sentinels in a sequence of events.
pub open spec fn sentinels_in(es: Seq<EventView>) -> nat
    decreases es.len(),
{
    if es.len() == 0 {
        0
    } else {
        sentinels_in(es.drop_last()) + if es.last() is OutOfIdeas {
            1nat
        } else {
            0nat
        }
    }
}

/// The idea consumed by a build, if any.
pub open spec fn built_ideas(b: Option<BuildView>) -> Multiset<IdeaView> {
    match b {
        Some(b) => Multiset::singleton(b.idea),
        None => Multiset::empty(),
    }
}

/// The packages consumed by a build, if any.
pub open spec fn built_packages(b: Option<BuildView>) -> Multiset<Seq<char>> {
    match b {
        Some(b) => b.pkgs.to_multiset(),
        None => Multiset::empty(),
    }
}

proof fn lemma_single_event(e: EventView)
    ensures
        ideas_in(seq![e]) == match e {
            EventView::NewIdea(i) => Multiset::singleton(i),
            _ => Multiset::<IdeaView>::empty(),
        },
        packages_in(seq![e]) == match e {
            EventView::DownloadComplete(p) => Multiset::singleton(p),
            _ => Multiset::<Seq<char>>::empty(),
        },
        sentinels_in(seq![e]) == if e is OutOfIdeas {
            1nat
        } else {
            0nat
        },
{
    broadcast use vstd::multiset::group_multiset_axioms;

    let s = seq![e];
    assert(s.drop_last() =~= Seq::<EventView>::empty());
    assert(ideas_in(Seq::<EventView>::empty()) == Multiset::<IdeaView>::empty());
    assert(packages_in(Seq::<EventView>::empty()) == Multiset::<Seq<char>>::empty());
    assert(sentinels_in(Seq::<EventView>::empty()) == 0);
    assert(ideas_in(s) =~= ideas_in(Seq::<EventView>::empty()).add(
        match e {
            EventView::NewIdea(i) => Multiset::singleton(i),
            _ => Multiset::<IdeaView>::empty(),
        },
    ));
    assert(packages_in(s) =~= packages_in(Seq::<EventView>::empty()).add(
        match e {
            EventView::DownloadComplete(p) => Multiset::singleton(p),
            _ => Multiset::<Seq<char>>::empty(),
        },
    ));
}

proof fn lemma_returned_packages(pkgs: Seq<Seq<char>>)
    ensures
        ideas_in(pkgs.map_values(|p: Seq<char>| EventView::DownloadComplete(p))) =~= Multiset::<
            IdeaView,
        >::empty(),
        packages_in(pkgs.map_values(|p: Seq<char>| EventView::DownloadComplete(p)))
            =~= pkgs.to_multiset(),
        sentinels_in(pkgs.map_values(|p: Seq<char>| EventView::DownloadComplete(p))) == 0,
    decreases pkgs.len(),
{
    broadcast use vstd::multiset::group_multiset_axioms;
    broadcast use vstd::seq_lib::group_to_multiset_ensures;

    let es = pkgs.map_values(|p: Seq<char>| EventView::DownloadComplete(p));
    if pkgs.len() > 0 {
        let front = pkgs.drop_last();
        lemma_returned_packages(front);
        assert(es.drop_last() =~= front.map_values(
            |p: Seq<char>| EventView::DownloadComplete(p),
        ));
        assert(pkgs =~= front.push(pkgs.last()));
    } else {
        assert(pkgs.to_multiset() =~= Multiset::empty()) by {
            assert(pkgs.to_multiset().len() == 0);
        }
    }
}

proof fn lemma_try_build_conserves(s: StudentView)
    ensures
        ({
            let (t, b) = try_build(s);
            &&& held_ideas(s) =~= held_ideas(t).add(built_ideas(b))
            &&& s.pkgs.to_multiset() =~= t.pkgs.to_multiset().add(built_packages(b))
            &&& t.skipped_idea == s.skipped_idea
            &&& b matches Some(bv) ==> bv.pkgs.len() == bv.idea.num_pkg_required
        }),
{
    broadcast use vstd::multiset::group_multiset_axioms;
    broadcast use vstd::seq_lib::lemma_multiset_commutative;

    if let Some(i) = s.idea {
        if i.num_pkg_required <= s.pkgs.len() {
            let n = i.num_pkg_required as int;
            assert(s.pkgs =~= s.pkgs.take(n) + s.pkgs.skip(n));
        }
    }
}

/// No loss, no duplication: across one step of a student, every idea and
/// every package that was held or arrived is still held, sent back to the
/// queue, or consumed by the build, exactly once; a build consumes exactly
/// the packages its idea requires; and a termination sentinel is either sent
/// back or spent by the student's exit.
pub proof fn lemma_step_conserves(s: StudentView, e: EventView)
    ensures
        ({
            let (t, r) = step(s, e);
            &&& held_ideas(s).add(ideas_in(seq![e])) == held_ideas(t).add(ideas_in(r.sends)).add(
                built_ideas(r.build),
            )
            &&& s.pkgs.to_multiset().add(packages_in(seq![e])) == t.pkgs.to_multiset().add(
                packages_in(r.sends),
            ).add(built_packages(r.build))
            &&& sentinels_in(seq![e]) == sentinels_in(r.sends) + if r.done {
                1nat
            } else {
                0nat
            }
            &&& r.build matches Some(b) ==> b.pkgs.len() == b.idea.num_pkg_required
        }),
{
    broadcast use vstd::multiset::group_multiset_axioms;
    broadcast use vstd::seq_lib::group_to_multiset_ensures;

    lemma_single_event(e);
    let (t, r) = step(s, e);
    match e {
        EventView::NewIdea(i) => {
            if s.idea is None {
                lemma_try_build_conserves(StudentView { idea: Some(i), ..s });
            } else {
                lemma_single_event(EventView::NewIdea(i));
            }
        },
        EventView::DownloadComplete(p) => {
            lemma_try_build_conserves(StudentView { pkgs: s.pkgs.push(p), ..s });
        },
        EventView::OutOfIdeas => {
            if s.skipped_idea || s.idea is Some {
                lemma_single_event(EventView::OutOfIdeas);
            } else {
                lemma_returned_packages(s.pkgs);
            }
        },
    }
    assert(held_ideas(s).add(ideas_in(seq![e])) =~= held_ideas(t).add(ideas_in(r.sends)).add(
        built_ideas(r.build),
    ));
    assert(s.pkgs.to_multiset().add(packages_in(seq![e])) =~= t.pkgs.to_multiset().add(
        packages_in(r.sends),
    ).add(built_packages(r.build)));
}

/// A consumer that adopts ideas, collects packages and builds.
pub struct Student {
    id: usize,
    idea: Option<Idea>,
    pkgs: Vec<Package>,
    skipped_idea: bool,
}

impl View for Student {
    type V = StudentView;

    closed spec fn view(&self) -> StudentView {
        StudentView {
            id: self.id,
            idea: match self.idea {
                Some(i) => Some(i@),
                None => None,
            },
            pkgs: self.pkgs@.map_values(|p: Package| p@),
            skipped_idea: self.skipped_idea,
        }
    }
}

impl Student {
    /// An idle student with an empty inventory.
    pub fn new(id: usize) -> (r: Self)
        ensures
            r@ == (StudentView { id, idea: None, pkgs: Seq::empty(), skipped_idea: false }),
    {
        let r = Student { id, idea: None, pkgs: Vec::new(), skipped_idea: false };
        assert(r@.pkgs =~= Seq::<Seq<char>>::empty());
        r
    }

    pub fn id(&self) -> (r: usize)
        ensures
            r == self@.id,
    {
        self.id
    }

    /// Whether an idea was sent back since the last deferred sentinel.
    pub fn skipped_idea(&self) -> (r: bool)
        ensures
            r == self@.skipped_idea,
    {
        self.skipped_idea
    }

    /// Whether the student holds an idea.
    pub fn is_busy(&self) -> (r: bool)
        ensures
            r == self@.idea is Some,
    {
        self.idea.is_some()
    }

    /// The number of packages in the inventory.
    pub fn num_pkgs(&self) -> (r: usize)
        ensures
            r == self@.pkgs.len(),
    {
        self.pkgs.len()
    }

    fn build_idea(&mut self) -> (r: Option<Build>)
        ensures
            (final(self)@, build_view(r)) == try_build(old(self)@),
    {
        let ready = match &self.idea {
            Some(idea) => idea.num_pkg_required <= self.pkgs.len(),
            None => false,
        };
        if ready {
            let idea = self.idea.take().unwrap();
            let mut used = self.pkgs.split_off(idea.num_pkg_required);
            std::mem::swap(&mut used, &mut self.pkgs);
            let b = Build { idea, pkgs: used };
            proof {
                let n = b.idea.num_pkg_required as int;
                assert(self@.pkgs =~= old(self)@.pkgs.skip(n));
                assert(b@.pkgs =~= old(self)@.pkgs.take(n));
                assert(self@ == try_build(old(self)@).0);
            }
            Some(b)
        } else {
            None
        }
    }

    /// Handles one event from the queue.
    pub fn handle_event(&mut self, event: Event) -> (r: Step)
        ensures
            (final(self)@, r@) == step(old(self)@, event@),
    {
        match event {
            Event::NewIdea(idea) => {
                if self.idea.is_none() {
                    self.idea = Some(idea);
                    let build = self.build_idea();
                    let r = Step { sends: Vec::new(), build, done: false };
                    assert(r@.sends =~= Seq::<EventView>::empty());
                    r
                } else {
                    self.skipped_idea = true;
                    let r = Step { sends: vec![Event::NewIdea(idea)], build: None, done: false };
                    assert(r@.sends =~= seq![EventView::NewIdea(idea@)]);
                    r
                }
            },
            Event::DownloadComplete(pkg) => {
                proof {
                    assert(self.pkgs@.push(pkg).map_values(|p: Package| p@) =~= self@.pkgs.push(pkg@));
                }
                self.pkgs.push(pkg);
                let build = self.build_idea();
                let r = Step { sends: Vec::new(), build, done: false };
                assert(r@.sends =~= Seq::<EventView>::empty());
                r
            },
            Event::OutOfIdeas => {
                if self.skipped_idea || self.idea.is_some() {
                    self.skipped_idea = false;
                    let r = Step { sends: vec![Event::OutOfIdeas], build: None, done: false };
                    assert(r@.sends =~= seq![EventView::OutOfIdeas]);
                    r
                } else {
                    let mut rest: Vec<Package> = Vec::new();
                    std::mem::swap(&mut rest, &mut self.pkgs);
                    let ghost all = rest@;
                    let mut sends: Vec<Event> = Vec::new();
                    while rest.len() > 0
                        invariant
                            sends@.len() + rest@.len() == all.len(),
                            rest@ == all.skip(all.len() - rest@.len()),
                            sends@.map_values(|e: Event| e@) =~= all.take(
                                all.len() - rest@.len(),
                            ).map_values(|p: Package| EventView::DownloadComplete(p@)),
                        decreases rest@.len(),
                    {
                        let ghost k = all.len() - rest@.len();
                        let ghost before = sends@.map_values(|e: Event| e@);
                        let pkg = rest.remove(0);
                        sends.push(Event::DownloadComplete(pkg));
                        proof {
                            assert(pkg == all[k]);
                            assert(sends@.map_values(|e: Event| e@) =~= before.push(
                                EventView::DownloadComplete(pkg@),
                            ));
                            assert(all.take(k + 1).map_values(
                                |p: Package| EventView::DownloadComplete(p@),
                            ) =~= all.take(k).map_values(
                                |p: Package| EventView::DownloadComplete(p@),
                            ).push(EventView::DownloadComplete(pkg@)));
                            assert(rest@ =~= all.skip(k + 1));
                        }
                    }
                    let r = Step { sends, build: None, done: true };
                    proof {
                        assert(self@.pkgs =~= Seq::<Seq<char>>::empty());
                        assert(r@.sends =~= old(self)@.pkgs.map_values(
                            |p: Seq<char>| EventView::DownloadComplete(p),
                        ));
                    }
                    r
                }
            },
        }
    }
}

impl Build {
    /// Records this build: the idea's name is folded into `idea_checksum` and
    /// each consumed package's name into `pkg_checksum`.
    pub fn record(&self, idea_checksum: &mut Checksum, pkg_checksum: &mut Checksum)
        requires
            old(idea_checksum).wf(),
            old(pkg_checksum).wf(),
        ensures
            final(idea_checksum).wf(),
            final(pkg_checksum).wf(),
            final(idea_checksum)@ == combine(
                old(idea_checksum)@,
                checksum_of(seq![self.idea.name@]),
            ),
            final(pkg_checksum)@ == combine(old(pkg_checksum)@, checksum_of(self@.pkgs)),
            all_digests(seq![self.idea.name@]),
            all_digests(self@.pkgs),
    {
        let digest = Checksum::with_sha256(self.idea.name.as_str());
        proof {
            let s = seq![self.idea.name@];
            assert(s =~= Seq::<Seq<char>>::empty().push(self.idea.name@));
            lemma_checksum_of_push(Seq::empty(), self.idea.name@);
            assert(checksum_of(Seq::<Seq<char>>::empty()) == Seq::<u8>::empty());
            assert(checksum_of(s) == digest@);
        }
        idea_checksum.update(digest);
        let names = Ghost(self@.pkgs);
        let mut i: usize = 0;
        while i < self.pkgs.len()
            invariant
                names@ == self@.pkgs,
                old(pkg_checksum).wf(),
                i <= names@.len(),
                pkg_checksum.wf(),
                all_digests(names@.subrange(0, i as int)),
                pkg_checksum@ == combine(
                    old(pkg_checksum)@,
                    checksum_of(names@.subrange(0, i as int)),
                ),
            decreases names@.len() - i,
        {
            let digest = Checksum::with_sha256(self.pkgs[i].name.as_str());
            proof {
                let done = names@.subrange(0, i as int);
                assert(names@.subrange(0, i + 1) =~= done.push(names@[i as int]));
                lemma_checksum_of_push(done, names@[i as int]);
                lemma_checksum_of_valid(done);
                lemma_combine_associative(old(pkg_checksum)@, checksum_of(done), digest@);
            }
            pkg_checksum.update(digest);
            i = i + 1;
        }
        assert(names@.subrange(0, i as int) =~= names@);
    }
}

} // verus!
