use crate::checksum::{
    all_digests, checksum_of, combine, lemma_checksum_of_push, lemma_checksum_of_valid,
    lemma_combine_associative, Checksum,
};
use crate::distribution::{per_thread_amount, share};
use crate::event::{Event, EventView, Idea, IdeaView};
use vstd::arithmetic::div_mod::lemma_mod_add_multiples_vanish;
use vstd::prelude::*;

verus! {

/// All (product, customer) pairs, product-major.
pub open spec fn cross(products: Seq<Seq<char>>, customers: Seq<Seq<char>>) -> Seq<
    (Seq<char>, Seq<char>),
> {
    Seq::new(
        products.len() * customers.len(),
        |k: int| (products[k / customers.len() as int], customers[k % customers.len() as int]),
    )
}

/// The name of idea number `idx`: the pair at `idx` modulo the number of
/// pairs, written "{product} for {customer}".
pub open spec fn idea_name(products: Seq<Seq<char>>, customers: Seq<Seq<char>>, idx: int) -> Seq<
    char,
> {
    let pairs = cross(products, customers);
    let pair = pairs[idx % pairs.len() as int];
    pair.0 + " for "@ + pair.1
}

/// The names of `count` consecutive ideas from index `start`.
pub open spec fn idea_names(
    products: Seq<Seq<char>>,
    customers: Seq<Seq<char>>,
    start: int,
    count: int,
) -> Seq<Seq<char>> {
    Seq::new(count as nat, |i: int| idea_name(products, customers, start + i))
}

/// Idea names repeat with period |products| × |customers|.
pub proof fn lemma_idea_name_periodic(
    products: Seq<Seq<char>>,
    customers: Seq<Seq<char>>,
    idx: int,
)
    requires
        products.len() > 0,
        customers.len() > 0,
        idx >= 0,
    ensures
        idea_name(products, customers, idx + products.len() * customers.len()) == idea_name(
            products,
            customers,
            idx,
        ),
{
    let n = products.len() * customers.len();
    assert(n > 0) by (nonlinear_arith)
        requires products.len() > 0, customers.len() > 0, n == products.len() * customers.len();
    lemma_mod_add_multiples_vanish(idx, n as int);
    assert(idx + n == n + idx);
}

/// Produces a batch of ideas and as many termination sentinels as the
/// students it answers for.
pub struct IdeaGenerator {
    idea_start_idx: usize,
    num_ideas: usize,
    num_students: usize,
    num_pkgs: usize,
    products: Vec<String>,
    customers: Vec<String>,
}

impl IdeaGenerator {
    pub closed spec fn start(&self) -> int {
        self.idea_start_idx as int
    }

    pub closed spec fn count(&self) -> int {
        self.num_ideas as int
    }

    pub closed spec fn students(&self) -> int {
        self.num_students as int
    }

    pub closed spec fn packages(&self) -> int {
        self.num_pkgs as int
    }

    pub closed spec fn products(&self) -> Seq<Seq<char>> {
        crate::event::texts_view(self.products@)
    }

    pub closed spec fn customers(&self) -> Seq<Seq<char>> {
        crate::event::texts_view(self.customers@)
    }

    /// Names can be derived: both lists are non-empty and their pairs can be
    /// counted in a `usize`.
    pub open spec fn wf(&self) -> bool {
        &&& self.products().len() > 0
        &&& self.customers().len() > 0
        &&& self.products().len() * self.customers().len() <= usize::MAX
    }

    /// The names of the ideas this generator produces.
    pub open spec fn names(&self) -> Seq<Seq<char>> {
        idea_names(self.products(), self.customers(), self.start(), self.count())
    }

    pub fn new(
        idea_start_idx: usize,
        num_ideas: usize,
        num_students: usize,
        num_pkgs: usize,
        products: Vec<String>,
        customers: Vec<String>,
    ) -> (r: Self)
        ensures
            r.start() == idea_start_idx,
            r.count() == num_ideas,
            r.students() == num_students,
            r.packages() == num_pkgs,
            r.products() == crate::event::texts_view(products@),
            r.customers() == crate::event::texts_view(customers@),
    {
        IdeaGenerator { idea_start_idx, num_ideas, num_students, num_pkgs, products, customers }
    }

    /// The name of idea number `idx`.
    pub fn get_next_idea_name(&self, idx: usize) -> (r: String)
        requires
            self.wf(),
        ensures
            r@ == idea_name(self.products(), self.customers(), idx as int),
    {
        let n_p = self.products.len();
        let n_c = self.customers.len();
        let total = n_p * n_c;
        assert(total > 0) by (nonlinear_arith)
            requires n_p > 0, n_c > 0, total == n_p * n_c;
        let k = idx % total;
        assert(k / n_c < n_p) by (nonlinear_arith)
            requires k < n_p * n_c, n_c > 0;
        let p = &self.products[k / n_c];
        let c = &self.customers[k % n_c];
        let mut name = p.clone();
        name.push_str(" for ");
        name.push_str(c.as_str());
        proof {
            let pairs = cross(self.products(), self.customers());
            assert(pairs[k as int] == (p@, c@));
        }
        name
    }

    /// The ideas of this batch, each announced as a `NewIdea` event, followed
    /// by one `OutOfIdeas` sentinel per student; every idea's name is folded
    /// into `idea_checksum`.
    pub fn run(&self, idea_checksum: &mut Checksum) -> (r: Vec<Event>)
        requires
            self.wf(),
            self.count() > 0,
            self.start() + self.count() <= usize::MAX,
            old(idea_checksum).wf(),
        ensures
            final(idea_checksum).wf(),
            final(idea_checksum)@ == combine(old(idea_checksum)@, checksum_of(self.names())),
            all_digests(self.names()),
            r@.len() == self.count() + self.students(),
            forall|i: int|
                0 <= i < self.count() ==> #[trigger] r@[i]@ == EventView::NewIdea(
                    IdeaView {
                        name: idea_name(self.products(), self.customers(), self.start() + i),
                        num_pkg_required: share(i, self.packages(), self.count()) as usize,
                    },
                ),
            forall|i: int| self.count() <= i < r@.len() ==> #[trigger] r@[i]@ == EventView::OutOfIdeas,
    {
        let mut events: Vec<Event> = Vec::new();
        let mut i: usize = 0;
        while i < self.num_ideas
            invariant
                self.wf(),
                self.count() > 0,
                self.start() + self.count() <= usize::MAX,
                old(idea_checksum).wf(),
                i <= self.count(),
                idea_checksum.wf(),
                all_digests(self.names().subrange(0, i as int)),
                idea_checksum@ == combine(
                    old(idea_checksum)@,
                    checksum_of(self.names().subrange(0, i as int)),
                ),
                events@.len() == i,
                forall|j: int|
                    0 <= j < i ==> #[trigger] events@[j]@ == EventView::NewIdea(
                        IdeaView {
                            name: idea_name(self.products(), self.customers(), self.start() + j),
                            num_pkg_required: share(j, self.packages(), self.count()) as usize,
                        },
                    ),
            decreases self.count() - i,
        {
            let name = self.get_next_idea_name(self.idea_start_idx + i);
            let num_pkg_required = per_thread_amount(i, self.num_pkgs, self.num_ideas);
            let digest = Checksum::with_sha256(name.as_str());
            proof {
                let done = self.names().subrange(0, i as int);
                let next = self.names().subrange(0, i + 1);
                assert(next =~= done.push(name@));
                lemma_checksum_of_push(done, name@);
                lemma_checksum_of_valid(done);
                lemma_combine_associative(old(idea_checksum)@, checksum_of(done), digest@);
            }
            idea_checksum.update(digest);
            events.push(Event::NewIdea(Idea { name, num_pkg_required }));
            i = i + 1;
        }
        assert(self.names().subrange(0, i as int) =~= self.names());
        let mut k: usize = 0;
        while k < self.num_students
            invariant
                i == self.count(),
                k <= self.students(),
                events@.len() == i + k,
                forall|j: int|
                    0 <= j < i ==> #[trigger] events@[j]@ == EventView::NewIdea(
                        IdeaView {
                            name: idea_name(self.products(), self.customers(), self.start() + j),
                            num_pkg_required: share(j, self.packages(), self.count()) as usize,
                        },
                    ),
                forall|j: int| i <= j < events@.len() ==> #[trigger] events@[j]@ == EventView::OutOfIdeas,
            decreases self.students() - k,
        {
            events.push(Event::OutOfIdeas);
            k = k + 1;
        }
        events
    }
}

} // verus!
