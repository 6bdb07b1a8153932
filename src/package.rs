use crate::checksum::{
    all_digests, checksum_of, combine, lemma_checksum_of_push, lemma_checksum_of_valid,
    lemma_combine_associative, Checksum,
};
use crate::event::{texts_view, Event, EventView, Package};
use vstd::arithmetic::div_mod::{lemma_add_mod_noop, lemma_mod_self_0, lemma_small_mod};
use vstd::prelude::*;

verus! {

/// The names of `count` packages taken cyclically from `catalog`, starting at
/// `start`.
pub open spec fn package_names(catalog: Seq<Seq<char>>, start: int, count: int) -> Seq<Seq<char>> {
    Seq::new(count as nat, |i: int| catalog[(start + i) % catalog.len() as int])
}

/// Produces a batch of packages drawn cyclically from a fixed catalog.
pub struct PackageDownloader {
    pkg_start_idx: usize,
    num_pkgs: usize,
    package_names: Vec<String>,
}

impl PackageDownloader {
    pub closed spec fn start(&self) -> int {
        self.pkg_start_idx as int
    }

    pub closed spec fn count(&self) -> int {
        self.num_pkgs as int
    }

    pub closed spec fn catalog(&self) -> Seq<Seq<char>> {
        texts_view(self.package_names@)
    }

    /// The names of the packages this downloader produces.
    pub open spec fn names(&self) -> Seq<Seq<char>> {
        package_names(self.catalog(), self.start(), self.count())
    }

    pub fn new(pkg_start_idx: usize, num_pkgs: usize, package_names: Vec<String>) -> (r: Self)
        ensures
            r.start() == pkg_start_idx,
            r.count() == num_pkgs,
            r.catalog() == texts_view(package_names@),
    {
        PackageDownloader { pkg_start_idx, num_pkgs, package_names }
    }

    /// The packages of this batch, each announced as a `DownloadComplete`
    /// event; every package's name is folded into `pkg_checksum`.
    pub fn run(&self, pkg_checksum: &mut Checksum) -> (r: Vec<Event>)
        requires
            self.catalog().len() > 0,
            old(pkg_checksum).wf(),
        ensures
            final(pkg_checksum).wf(),
            final(pkg_checksum)@ == combine(old(pkg_checksum)@, checksum_of(self.names())),
            all_digests(self.names()),
            r@.len() == self.count(),
            forall|i: int|
                0 <= i < self.count() ==> #[trigger] r@[i]@ == EventView::DownloadComplete(
                    self.names()[i],
                ),
    {
        let total = self.package_names.len();
        let mut events: Vec<Event> = Vec::new();
        let mut j: usize = self.pkg_start_idx % total;
        let mut i: usize = 0;
        while i < self.num_pkgs
            invariant
                total == self.catalog().len(),
                total > 0,
                old(pkg_checksum).wf(),
                i <= self.count(),
                j == (self.start() + i) % total as int,
                pkg_checksum.wf(),
                all_digests(self.names().subrange(0, i as int)),
                pkg_checksum@ == combine(
                    old(pkg_checksum)@,
                    checksum_of(self.names().subrange(0, i as int)),
                ),
                events@.len() == i,
                forall|k: int|
                    0 <= k < i ==> #[trigger] events@[k]@ == EventView::DownloadComplete(
                        self.names()[k],
                    ),
            decreases self.count() - i,
        {
            let name = self.package_names[j].clone();
            let digest = Checksum::with_sha256(name.as_str());
            proof {
                let done = self.names().subrange(0, i as int);
                let next = self.names().subrange(0, i + 1);
                assert(next =~= done.push(name@));
                lemma_checksum_of_push(done, name@);
                lemma_checksum_of_valid(done);
                lemma_combine_associative(old(pkg_checksum)@, checksum_of(done), digest@);
            }
            pkg_checksum.update(digest);
            events.push(Event::DownloadComplete(Package { name }));
            proof {
                let a = self.start() + i;
                let m = total as int;
                lemma_add_mod_noop(a, 1, m);
                if m == 1 {
                    assert(1int % 1 == 0);
                } else {
                    lemma_small_mod(1, m as nat);
                    if j + 1 < m {
                        lemma_small_mod((j + 1) as nat, m as nat);
                    } else {
                        lemma_mod_self_0(m);
                    }
                }
            }
            j = if j + 1 == total {
                0
            } else {
                j + 1
            };
            i = i + 1;
        }
        assert(self.names().subrange(0, i as int) =~= self.names());
        events
    }
}

} // verus!
