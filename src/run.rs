use crate::event::{EventView, IdeaView};
use crate::student::{
    built_ideas, built_packages, held_ideas, ideas_in, lemma_step_conserves, packages_in,
    sentinels_in, step, StudentView,
};
use vstd::multiset::Multiset;
use vstd::prelude::*;

verus! {

/// A whole run at one moment: the events in the queue (in no particular
/// order), every student's state, and what the builds so far consumed.
pub struct RunView {
    pub queue: Seq<EventView>,
    pub students: Seq<StudentView>,
    pub built_ideas: Multiset<IdeaView>,
    pub built_pkgs: Multiset<Seq<char>>,
    pub exited: nat,
}

/// Student `k` receives the event at position `j` of the queue, whichever
/// it is.
pub open spec fn deliver(r: RunView, k: int, j: int) -> RunView {
    let (t, s) = step(r.students[k], r.queue[j]);
    RunView {
        queue: r.queue.remove(j) + s.sends,
        students: r.students.update(k, t),
        built_ideas: r.built_ideas.add(built_ideas(s.build)),
        built_pkgs: r.built_pkgs.add(built_packages(s.build)),
        exited: r.exited + if s.done {
            1nat
        } else {
            0nat
        },
    }
}

/// The ideas held by a sequence of students.
pub open spec fn held_by(ss: Seq<StudentView>) -> Multiset<IdeaView>
    decreases ss.len(),
{
    if ss.len() == 0 {
        Multiset::empty()
    } else {
        held_by(ss.drop_last()).add(held_ideas(ss.last()))
    }
}

/// The packages in the inventories of a sequence of students.
pub open spec fn stocked_by(ss: Seq<StudentView>) -> Multiset<Seq<char>>
    decreases ss.len(),
{
    if ss.len() == 0 {
        Multiset::empty()
    } else {
        stocked_by(ss.drop_last()).add(ss.last().pkgs.to_multiset())
    }
}

/// Every idea of the run: queued, held or built.
pub open spec fn run_ideas(r: RunView) -> Multiset<IdeaView> {
    ideas_in(r.queue).add(held_by(r.students)).add(r.built_ideas)
}

/// Every package of the run: queued, in an inventory or built.
pub open spec fn run_packages(r: RunView) -> Multiset<Seq<char>> {
    packages_in(r.queue).add(stocked_by(r.students)).add(r.built_pkgs)
}

/// The sentinels of the run: those queued and those spent by exits.
pub open spec fn run_sentinels(r: RunView) -> nat {
    sentinels_in(r.queue) + r.exited
}

proof fn lemma_events_concat(a: Seq<EventView>, b: Seq<EventView>)
    ensures
        ideas_in(a + b) == ideas_in(a).add(ideas_in(b)),
        packages_in(a + b) == packages_in(a).add(packages_in(b)),
        sentinels_in(a + b) == sentinels_in(a) + sentinels_in(b),
    decreases b.len(),
{
    broadcast use vstd::multiset::group_multiset_axioms;

    if b.len() == 0 {
        assert(a + b =~= a);
        assert(ideas_in(a).add(ideas_in(b)) =~= ideas_in(a));
        assert(packages_in(a).add(packages_in(b)) =~= packages_in(a));
    } else {
        lemma_events_concat(a, b.drop_last());
        assert((a + b).drop_last() =~= a + b.drop_last());
        assert((a + b).last() == b.last());
        assert(ideas_in(a + b) =~= ideas_in(a).add(ideas_in(b)));
        assert(packages_in(a + b) =~= packages_in(a).add(packages_in(b)));
    }
}

proof fn lemma_events_remove(q: Seq<EventView>, j: int)
    requires
        0 <= j < q.len(),
    ensures
        ideas_in(q) == ideas_in(q.remove(j)).add(ideas_in(seq![q[j]])),
        packages_in(q) == packages_in(q.remove(j)).add(packages_in(seq![q[j]])),
        sentinels_in(q) == sentinels_in(q.remove(j)) + sentinels_in(seq![q[j]]),
{
    broadcast use vstd::multiset::group_multiset_axioms;

    let (a, b) = (q.subrange(0, j), q.subrange(j + 1, q.len() as int));
    let x = seq![q[j]];
    assert(q =~= (a + x) + b);
    assert(q.remove(j) =~= a + b);
    lemma_events_concat(a + x, b);
    lemma_events_concat(a, x);
    lemma_events_concat(a, b);
    assert(ideas_in(q) =~= ideas_in(q.remove(j)).add(ideas_in(x)));
    assert(packages_in(q) =~= packages_in(q.remove(j)).add(packages_in(x)));
}

proof fn lemma_students_update(ss: Seq<StudentView>, k: int, t: StudentView)
    requires
        0 <= k < ss.len(),
    ensures
        held_by(ss.update(k, t)).add(held_ideas(ss[k])) == held_by(ss).add(held_ideas(t)),
        stocked_by(ss.update(k, t)).add(ss[k].pkgs.to_multiset()) == stocked_by(ss).add(
            t.pkgs.to_multiset(),
        ),
    decreases ss.len(),
{
    broadcast use vstd::multiset::group_multiset_axioms;

    let u = ss.update(k, t);
    let last = ss.len() - 1;
    assert(held_by(u) == held_by(u.drop_last()).add(held_ideas(u.last())));
    assert(held_by(ss) == held_by(ss.drop_last()).add(held_ideas(ss.last())));
    assert(stocked_by(u) == stocked_by(u.drop_last()).add(u.last().pkgs.to_multiset()));
    assert(stocked_by(ss) == stocked_by(ss.drop_last()).add(ss.last().pkgs.to_multiset()));
    if k == last {
        assert(u.drop_last() =~= ss.drop_last());
        assert(u.last() == t);
        assert(held_by(u).add(held_ideas(ss[k])) =~= held_by(ss).add(held_ideas(t)));
        assert(stocked_by(u).add(ss[k].pkgs.to_multiset()) =~= stocked_by(ss).add(
            t.pkgs.to_multiset(),
        ));
    } else {
        lemma_students_update(ss.drop_last(), k, t);
        assert(u.drop_last() =~= ss.drop_last().update(k, t));
        assert(u.last() == ss.last());
        let v = ss.drop_last().update(k, t);
        assert(ss.drop_last()[k] == ss[k]);
        assert forall|x: IdeaView|
            #[trigger] held_by(u).add(held_ideas(ss[k])).count(x) == held_by(ss).add(
                held_ideas(t),
            ).count(x) by {
            assert(held_by(v).add(held_ideas(ss[k])).count(x) == held_by(ss.drop_last()).add(
                held_ideas(t),
            ).count(x));
        }
        assert forall|x: Seq<char>|
            #[trigger] stocked_by(u).add(ss[k].pkgs.to_multiset()).count(x) == stocked_by(
                ss,
            ).add(t.pkgs.to_multiset()).count(x) by {
            assert(stocked_by(v).add(ss[k].pkgs.to_multiset()).count(x) == stocked_by(
                ss.drop_last(),
            ).add(t.pkgs.to_multiset()).count(x));
        }
        assert(held_by(u).add(held_ideas(ss[k])) =~= held_by(ss).add(held_ideas(t)));
        assert(stocked_by(u).add(ss[k].pkgs.to_multiset()) =~= stocked_by(ss).add(
            t.pkgs.to_multiset(),
        ));
    }
}

/// No duplication and no loss in a run: whichever student receives
/// whichever queued event, the ideas and the packages that are queued, held
/// or built stay the same multisets, and every sentinel is either queued or
/// spent by exactly one exit.
pub proof fn lemma_deliver_conserves(r: RunView, k: int, j: int)
    requires
        0 <= k < r.students.len(),
        0 <= j < r.queue.len(),
    ensures
        run_ideas(deliver(r, k, j)) == run_ideas(r),
        run_packages(deliver(r, k, j)) == run_packages(r),
        run_sentinels(deliver(r, k, j)) == run_sentinels(r),
{
    broadcast use vstd::multiset::group_multiset_axioms;

    let s = r.students[k];
    let e = r.queue[j];
    let (t, st) = step(s, e);
    let n = deliver(r, k, j);
    lemma_step_conserves(s, e);
    lemma_events_remove(r.queue, j);
    lemma_events_concat(r.queue.remove(j), st.sends);
    lemma_students_update(r.students, k, t);
    assert(n.queue == r.queue.remove(j) + st.sends);
    assert(n.students == r.students.update(k, t));
    assert(n.built_ideas == r.built_ideas.add(built_ideas(st.build)));
    assert(n.built_pkgs == r.built_pkgs.add(built_packages(st.build)));
    let (q, ss) = (r.queue, r.students);
    let rest = q.remove(j);
    let u = ss.update(k, t);
    assert forall|x: IdeaView| #[trigger] run_ideas(n).count(x) == run_ideas(r).count(x) by {
        assert(held_ideas(s).add(ideas_in(seq![e])).count(x) == held_ideas(t).add(
            ideas_in(st.sends),
        ).add(built_ideas(st.build)).count(x));
        assert(ideas_in(q).count(x) == ideas_in(rest).add(ideas_in(seq![e])).count(x));
        assert(ideas_in(rest + st.sends).count(x) == ideas_in(rest).add(ideas_in(st.sends)).count(
            x,
        ));
        assert(held_by(u).add(held_ideas(s)).count(x) == held_by(ss).add(held_ideas(t)).count(x));
        assert(held_ideas(t).add(ideas_in(st.sends)).count(x) == held_ideas(t).count(x)
            + ideas_in(st.sends).count(x));
    }
    assert forall|x: Seq<char>|
        #[trigger] run_packages(n).count(x) == run_packages(r).count(x) by {
        assert(s.pkgs.to_multiset().add(packages_in(seq![e])).count(x)
            == t.pkgs.to_multiset().add(packages_in(st.sends)).add(
            built_packages(st.build),
        ).count(x));
        assert(packages_in(q).count(x) == packages_in(rest).add(packages_in(seq![e])).count(x));
        assert(packages_in(rest + st.sends).count(x) == packages_in(rest).add(
            packages_in(st.sends),
        ).count(x));
        assert(stocked_by(u).add(s.pkgs.to_multiset()).count(x) == stocked_by(ss).add(
            t.pkgs.to_multiset(),
        ).count(x));
        assert(t.pkgs.to_multiset().add(packages_in(st.sends)).count(x)
            == t.pkgs.to_multiset().count(x) + packages_in(st.sends).count(x));
    }
    assert(run_ideas(n) =~= run_ideas(r));
    assert(run_packages(n) =~= run_packages(r));
}

/// The run after a sequence of deliveries, each a (student, queue position)
/// pair, if every one of them names a student and a queued event.
pub open spec fn run_after(r: RunView, moves: Seq<(int, int)>) -> Option<RunView>
    decreases moves.len(),
{
    if moves.len() == 0 {
        Some(r)
    } else {
        match run_after(r, moves.drop_last()) {
            Some(m) => {
                let (k, j) = moves.last();
                if 0 <= k < m.students.len() && 0 <= j < m.queue.len() {
                    Some(deliver(m, k, j))
                } else {
                    None
                }
            },
            None => None,
        }
    }
}

/// Whatever the interleaving: after any sequence of deliveries, the ideas,
/// packages and sentinels of the run are those it started with.
pub proof fn lemma_any_interleaving_conserves(r: RunView, moves: Seq<(int, int)>)
    requires
        run_after(r, moves) is Some,
    ensures
        run_ideas(run_after(r, moves).unwrap()) == run_ideas(r),
        run_packages(run_after(r, moves).unwrap()) == run_packages(r),
        run_sentinels(run_after(r, moves).unwrap()) == run_sentinels(r),
    decreases moves.len(),
{
    if moves.len() > 0 {
        lemma_any_interleaving_conserves(r, moves.drop_last());
        let m = run_after(r, moves.drop_last()).unwrap();
        let (k, j) = moves.last();
        lemma_deliver_conserves(m, k, j);
    }
}

/// Idle students with empty inventories hold nothing.
pub proof fn lemma_idle_students_hold_nothing(ss: Seq<StudentView>)
    requires
        forall|i: int| 0 <= i < ss.len() ==> (#[trigger] ss[i]).idea is None && ss[i].pkgs.len() == 0,
    ensures
        held_by(ss) =~= Multiset::empty(),
        stocked_by(ss) =~= Multiset::empty(),
    decreases ss.len(),
{
    broadcast use vstd::multiset::group_multiset_axioms;
    broadcast use vstd::seq_lib::group_to_multiset_ensures;

    if ss.len() > 0 {
        lemma_idle_students_hold_nothing(ss.drop_last());
        let l = ss.last();
        assert(ss[ss.len() - 1] == l);
        assert(l.pkgs.len() == 0);
        l.pkgs.to_multiset_ensures();
        assert(l.pkgs.to_multiset().len() == 0);
        assert(l.pkgs.to_multiset() =~= Multiset::empty());
    }
}

/// Every idea produced is built exactly once: a run that starts with the
/// produced events queued, idle students with empty inventories and nothing
/// built, and that reaches, by any interleaving, a state where no idea is
/// queued or held, has built exactly the produced ideas; likewise for the
/// packages once none is queued or in an inventory.
pub proof fn lemma_quiescent_run_built_all(r: RunView, moves: Seq<(int, int)>)
    requires
        forall|i: int|
            0 <= i < r.students.len() ==> (#[trigger] r.students[i]).idea is None
                && r.students[i].pkgs.len() == 0,
        r.built_ideas == Multiset::<IdeaView>::empty(),
        r.built_pkgs == Multiset::<Seq<char>>::empty(),
        run_after(r, moves) is Some,
    ensures
        ({
            let e = run_after(r, moves).unwrap();
            &&& ideas_in(e.queue) =~= Multiset::empty() && held_by(e.students) =~= Multiset::empty()
                ==> e.built_ideas == ideas_in(r.queue)
            &&& packages_in(e.queue) =~= Multiset::empty() && stocked_by(e.students)
                =~= Multiset::empty() ==> e.built_pkgs == packages_in(r.queue)
        }),
{
    broadcast use vstd::multiset::group_multiset_axioms;

    lemma_idle_students_hold_nothing(r.students);
    lemma_any_interleaving_conserves(r, moves);
    let e = run_after(r, moves).unwrap();
    assert(run_ideas(r) =~= ideas_in(r.queue));
    assert(run_packages(r) =~= packages_in(r.queue));
    if ideas_in(e.queue) =~= Multiset::empty() && held_by(e.students) =~= Multiset::empty() {
        assert(run_ideas(e) =~= e.built_ideas);
    }
    if packages_in(e.queue) =~= Multiset::empty() && stocked_by(e.students) =~= Multiset::empty() {
        assert(run_packages(e) =~= e.built_pkgs);
    }
}

} // verus!
