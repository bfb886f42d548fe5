//! Bookkeeping of a photon's path through the slab: its scatter count, the clumps it has already
//! been tested against, the clumps it is currently inside, and the way it leaves the slab.

use vstd::prelude::*;

verus! {

/// Particle that can scatter through clumps; `R` is the ray along which it currently travels.
pub struct Photon<R> {
    pub ray: R,
    pub n_scatters: u32,
}

/// Describes how a photon exits the slab, including the number of scatters.
#[derive(Clone, Copy, Debug, PartialEq, Eq, Structural)]
pub enum PhotonEscape {
    Top(u32),
    Bottom(u32),
    Side(u32),
}

impl PhotonEscape {
    /// The number of scatters recorded with the escape.
    pub open spec fn scatters(self) -> u32 {
        match self {
            PhotonEscape::Top(n) => n,
            PhotonEscape::Bottom(n) => n,
            PhotonEscape::Side(n) => n,
        }
    }

    /// The way out of a photon that has scattered `n_scatters` times: through the side when its
    /// last ray leaves the lateral boundary before the top or bottom, else through the top when it
    /// moves upward, else through the bottom.
    pub open spec fn of(exits_side_first: bool, moving_up: bool, n_scatters: u32) -> PhotonEscape {
        if exits_side_first {
            PhotonEscape::Side(n_scatters)
        } else if moving_up {
            PhotonEscape::Top(n_scatters)
        } else {
            PhotonEscape::Bottom(n_scatters)
        }
    }

    /// Returns the number of scatters recorded with the escape.
    pub fn n_scatters(&self) -> (n: u32)
        ensures
            n == self.scatters(),
            self matches PhotonEscape::Top(k) ==> n == k,
            self matches PhotonEscape::Bottom(k) ==> n == k,
            self matches PhotonEscape::Side(k) ==> n == k,
    {
        match self {
            PhotonEscape::Top(n) => *n,
            PhotonEscape::Bottom(n) => *n,
            PhotonEscape::Side(n) => *n,
        }
    }
}

/// A photon whose ray reaches the lateral boundary first leaves through the side, whatever its
/// direction and scatter count; otherwise it leaves through the top when it moves upward and
/// through the bottom when it does not; the escape always carries the scatter count.
pub proof fn lemma_escape_of(exits_side_first: bool, moving_up: bool, n_scatters: u32)
    ensures
        exits_side_first ==> PhotonEscape::of(exits_side_first, moving_up, n_scatters)
            == PhotonEscape::Side(n_scatters),
        !exits_side_first && moving_up ==> PhotonEscape::of(exits_side_first, moving_up, n_scatters)
            == PhotonEscape::Top(n_scatters),
        !exits_side_first && !moving_up ==> PhotonEscape::of(exits_side_first, moving_up, n_scatters)
            == PhotonEscape::Bottom(n_scatters),
        PhotonEscape::of(exits_side_first, moving_up, n_scatters).scatters() == n_scatters,
{
}

impl<R> Photon<R> {
    /// Creates a new photon that has not scattered yet.
    pub fn new(ray: R) -> (photon: Self)
        ensures
            photon.ray == ray,
            photon.n_scatters == 0,
    {
        Photon { ray, n_scatters: 0 }
    }

    /// Scatters the photon onto the ray `ray`, counting one more scatter.
    pub fn scatter(&mut self, ray: R)
        requires
            old(self).n_scatters < u32::MAX,
        ensures
            final(self).ray == ray,
            final(self).n_scatters == old(self).n_scatters + 1,
    {
        self.ray = ray;
        self.n_scatters = self.n_scatters + 1;
    }

    /// How the photon leaves the slab, given whether its ray reaches the lateral boundary before
    /// the top or bottom, and whether it moves upward.
    pub fn escape(&self, exits_side_first: bool, moving_up: bool) -> (escape: PhotonEscape)
        ensures
            escape == PhotonEscape::of(exits_side_first, moving_up, self.n_scatters),
            exits_side_first ==> escape == PhotonEscape::Side(self.n_scatters),
            !exits_side_first && moving_up ==> escape == PhotonEscape::Top(self.n_scatters),
            !exits_side_first && !moving_up ==> escape == PhotonEscape::Bottom(self.n_scatters),
    {
        if exits_side_first {
            PhotonEscape::Side(self.n_scatters)
        } else if moving_up {
            PhotonEscape::Top(self.n_scatters)
        } else {
            PhotonEscape::Bottom(self.n_scatters)
        }
    }
}

/// Walks `cell` from left to right over the flags `seen`: returns the clumps met for the first
/// time, in order, and the flags with those clumps marked.
pub open spec fn mark_unseen(seen: Seq<bool>, cell: Seq<usize>) -> (Seq<usize>, Seq<bool>)
    decreases cell.len(),
{
    if cell.len() == 0 {
        (Seq::empty(), seen)
    } else {
        let (fresh, marked) = mark_unseen(seen, cell.drop_last());
        let si = cell.last();
        if marked[si as int] {
            (fresh, marked)
        } else {
            (fresh.push(si), marked.update(si as int, true))
        }
    }
}

/// The clumps that a photon's ray has already been tested against; a clump may occupy several
/// voxels but is tested only once.
pub struct SeenClumps {
    pub seen: Vec<bool>,
}

impl SeenClumps {
    /// No clump of a slab with `n_clumps` clumps has been seen yet.
    pub fn new(n_clumps: usize) -> (s: Self)
        ensures
            s.seen@.len() == n_clumps,
            forall|i: int| 0 <= i < n_clumps ==> !(#[trigger] s.seen@[i]),
    {
        let mut seen: Vec<bool> = Vec::new();
        let mut i: usize = 0;
        while i < n_clumps
            invariant
                i <= n_clumps,
                seen@.len() == i,
                forall|j: int| 0 <= j < i ==> !(#[trigger] seen@[j]),
            decreases n_clumps - i,
        {
            seen.push(false);
            i = i + 1;
        }
        SeenClumps { seen }
    }

    /// Returns, in order, the clumps of `cell` not seen before, and marks them as seen.
    pub fn take_unseen(&mut self, cell: &Vec<usize>) -> (fresh: Vec<usize>)
        requires
            forall|i: int| 0 <= i < cell@.len() ==> #[trigger] cell@[i] < old(self).seen@.len(),
        ensures
            (fresh@, final(self).seen@) == mark_unseen(old(self).seen@, cell@),
            final(self).seen@.len() == old(self).seen@.len(),
            forall|k: int| 0 <= k < cell@.len() ==> final(self).seen@[#[trigger] cell@[k] as int],
            forall|i: int|
                0 <= i < old(self).seen@.len() ==> #[trigger] final(self).seen@[i] == (old(self).seen@[i]
                    || cell@.contains(i as usize)),
            forall|k: int|
                0 <= k < cell@.len() && !old(self).seen@[#[trigger] cell@[k] as int] ==> fresh@.contains(
                    cell@[k],
                ),
            forall|i: int|
                0 <= i < fresh@.len() ==> cell@.contains(#[trigger] fresh@[i]) && !old(
                    self,
                ).seen@[fresh@[i] as int],
            forall|i: int, j: int| 0 <= i < j < fresh@.len() ==> fresh@[i] != fresh@[j],
    {
        let mut fresh: Vec<usize> = Vec::new();
        let mut i: usize = 0;
        while i < cell.len()
            invariant
                i <= cell@.len(),
                self.seen@.len() == old(self).seen@.len(),
                forall|k: int| 0 <= k < cell@.len() ==> #[trigger] cell@[k] < old(self).seen@.len(),
                (fresh@, self.seen@) == mark_unseen(old(self).seen@, cell@.take(i as int)),
            decreases cell@.len() - i,
        {
            let si = cell[i];
            assert(cell@.take(i + 1).drop_last() == cell@.take(i as int));
            if !self.seen[si] {
                self.seen.set(si, true);
                fresh.push(si);
            }
            i = i + 1;
        }
        assert(cell@.take(cell@.len() as int) == cell@);
        proof {
            assert(self.seen.len() == self.seen@.len());
            lemma_mark_unseen(old(self).seen@, cell@);
            lemma_mark_unseen_takes_cell(old(self).seen@, cell@);
            let res = mark_unseen(old(self).seen@, cell@);
            assert(fresh@ == res.0);
            assert forall|i: int| 0 <= i < fresh@.len() implies cell@.contains(#[trigger] fresh@[i])
                && !old(self).seen@[fresh@[i] as int] by {
                assert(res.0[i] == fresh@[i]);
            }
            assert forall|i: int, j: int| 0 <= i < j < fresh@.len() implies fresh@[i] != fresh@[j] by {
                assert(res.0[i] == fresh@[i]);
                assert(res.0[j] == fresh@[j]);
            }
        }
        fresh
    }
}

/// A clump is reported by `mark_unseen` only if it was unseen before; afterwards it is seen; no
/// clump is reported twice; and the other flags are unchanged.
pub proof fn lemma_mark_unseen(seen: Seq<bool>, cell: Seq<usize>)
    requires
        seen.len() <= usize::MAX,
        forall|i: int| 0 <= i < cell.len() ==> #[trigger] cell[i] < seen.len(),
    ensures
        mark_unseen(seen, cell).1.len() == seen.len(),
        forall|i: int|
            0 <= i < mark_unseen(seen, cell).0.len() ==> {
                let si = #[trigger] mark_unseen(seen, cell).0[i];
                &&& si < seen.len()
                &&& !seen[si as int]
                &&& mark_unseen(seen, cell).1[si as int]
            },
        forall|i: int, j: int|
            0 <= i < j < mark_unseen(seen, cell).0.len() ==> mark_unseen(seen, cell).0[i]
                != mark_unseen(seen, cell).0[j],
        forall|k: int|
            0 <= k < seen.len() ==> (#[trigger] mark_unseen(seen, cell).1[k] == (seen[k]
                || mark_unseen(seen, cell).0.contains(k as usize))),
    decreases cell.len(),
{
    if cell.len() > 0 {
        let rest = cell.drop_last();
        lemma_mark_unseen(seen, rest);
        let (fresh, marked) = mark_unseen(seen, rest);
        let si = cell.last();
        assert(si == cell[cell.len() - 1]);
        if !marked[si as int] {
            let f2 = fresh.push(si);
            assert(f2[fresh.len() as int] == si);
            assert forall|k: int| 0 <= k < seen.len() implies (#[trigger] marked.update(
                si as int,
                true,
            )[k] == (seen[k] || f2.contains(k as usize))) by {
                if k == si as int {
                    assert(f2.contains(si));
                } else if fresh.contains(k as usize) {
                    let w = choose|w: int| 0 <= w < fresh.len() && fresh[w] == k as usize;
                    assert(f2[w] == k as usize);
                } else if f2.contains(k as usize) {
                    let w = choose|w: int| 0 <= w < f2.len() && f2[w] == k as usize;
                    assert(w < fresh.len() ==> fresh[w] == k as usize);
                }
            }
            assert forall|i: int, j: int| 0 <= i < j < f2.len() implies f2[i] != f2[j] by {
                if j == fresh.len() {
                    assert(marked[fresh[i] as int]);
                }
            }
        }
    }
}

/// Walking a cell marks every clump it lists as seen, reports every one of them that was unseen,
/// and reports only clumps of the cell: afterwards a clump is seen exactly when it was seen
/// before or the cell lists it.
pub proof fn lemma_mark_unseen_takes_cell(seen: Seq<bool>, cell: Seq<usize>)
    requires
        seen.len() <= usize::MAX,
        forall|i: int| 0 <= i < cell.len() ==> #[trigger] cell[i] < seen.len(),
    ensures
        forall|k: int| 0 <= k < cell.len() ==> mark_unseen(seen, cell).1[#[trigger] cell[k] as int],
        forall|k: int|
            0 <= k < cell.len() && !seen[#[trigger] cell[k] as int] ==> mark_unseen(
                seen,
                cell,
            ).0.contains(cell[k]),
        forall|i: int|
            0 <= i < mark_unseen(seen, cell).0.len() ==> cell.contains(
                #[trigger] mark_unseen(seen, cell).0[i],
            ),
        forall|i: int|
            0 <= i < seen.len() ==> #[trigger] mark_unseen(seen, cell).1[i] == (seen[i] || cell.contains(
                i as usize,
            )),
    decreases cell.len(),
{
    lemma_mark_unseen(seen, cell);
    if cell.len() > 0 {
        let rest = cell.drop_last();
        lemma_mark_unseen(seen, rest);
        lemma_mark_unseen_takes_cell(seen, rest);
        let (fresh, marked) = mark_unseen(seen, rest);
        let (fresh2, marked2) = mark_unseen(seen, cell);
        let si = cell.last();
        assert(si == cell[cell.len() - 1]);
        assert forall|k: int| 0 <= k < cell.len() implies marked2[#[trigger] cell[k] as int] by {
            if k < cell.len() - 1 {
                assert(cell[k] == rest[k]);
            }
        }
        assert forall|k: int|
            0 <= k < cell.len() && !seen[#[trigger] cell[k] as int] implies fresh2.contains(
            cell[k],
        ) by {
            if k < cell.len() - 1 {
                assert(cell[k] == rest[k]);
                let w = choose|w: int| 0 <= w < fresh.len() && fresh[w] == rest[k];
                if !marked[si as int] {
                    assert(fresh2[w] == fresh[w]);
                }
            } else if marked[si as int] {
                assert(fresh.contains(si));
            } else {
                assert(fresh2[fresh.len() as int] == si);
            }
        }
        assert forall|i: int| 0 <= i < fresh2.len() implies cell.contains(#[trigger] fresh2[i]) by {
            if i < fresh.len() {
                assert(fresh2[i] == fresh[i]);
                assert(rest.contains(fresh[i]));
                let k = choose|k: int| 0 <= k < rest.len() && rest[k] == fresh[i];
                assert(cell[k] == rest[k]);
            } else {
                assert(fresh2[i] == si);
            }
        }
        assert forall|i: int| 0 <= i < seen.len() implies #[trigger] marked2[i] == (seen[i]
            || cell.contains(i as usize)) by {
            if cell.contains(i as usize) {
                let k = choose|k: int| 0 <= k < cell.len() && cell[k] == i as usize;
                assert(marked2[cell[k] as int]);
            }
            if fresh2.contains(i as usize) {
                let w = choose|w: int| 0 <= w < fresh2.len() && fresh2[w] == i as usize;
                assert(cell.contains(fresh2[w]));
            }
        }
    }
}

/// The clumps that a photon's ray is currently inside, in order of entry.
pub struct ActiveClumps {
    pub members: Vec<usize>,
}

/// The sequence `s` with every occurrence of `x` removed.
pub open spec fn without(s: Seq<usize>, x: usize) -> Seq<usize>
    decreases s.len(),
{
    if s.len() == 0 {
        s
    } else {
        let rest = without(s.drop_last(), x);
        if s.last() == x {
            rest
        } else {
            rest.push(s.last())
        }
    }
}

impl ActiveClumps {
    /// No clump is active.
    pub fn new() -> (a: Self)
        ensures
            a.members@ == Seq::<usize>::empty(),
    {
        ActiveClumps { members: Vec::new() }
    }

    /// Returns `true` if the ray is inside no clump.
    pub fn is_empty(&self) -> (empty: bool)
        ensures
            empty == (self.members@.len() == 0),
    {
        self.members.len() == 0
    }

    /// Records that the ray enters clump `si`.
    pub fn enter(&mut self, si: usize)
        ensures
            final(self).members@ == old(self).members@.push(si),
    {
        self.members.push(si);
    }

    /// Records that the ray leaves clump `si`.
    pub fn exit(&mut self, si: usize)
        ensures
            final(self).members@ == without(old(self).members@, si),
            final(self).members@ == old(self).members@.filter(|y: usize| y != si),
    {
        let mut kept: Vec<usize> = Vec::new();
        let mut i: usize = 0;
        while i < self.members.len()
            invariant
                i <= self.members@.len(),
                kept@ == without(self.members@.take(i as int), si),
            decreases self.members@.len() - i,
        {
            let s = self.members[i];
            assert(self.members@.take(i + 1).drop_last() == self.members@.take(i as int));
            if s != si {
                kept.push(s);
            }
            i = i + 1;
        }
        assert(self.members@.take(self.members@.len() as int) == self.members@);
        proof {
            lemma_without_is_filter(self.members@, si);
        }
        self.members = kept;
    }
}

/// Leaving a clump removes it from the active clumps and keeps the others.
pub proof fn lemma_without(s: Seq<usize>, x: usize)
    ensures
        !without(s, x).contains(x),
        forall|y: usize| y != x ==> (s.contains(y) <==> without(s, x).contains(y)),
        !s.contains(x) ==> without(s, x) == s,
    decreases s.len(),
{
    if s.len() > 0 {
        let rest = s.drop_last();
        lemma_without(rest, x);
        let w = without(rest, x);
        assert forall|y: usize| y != x implies (s.contains(y) <==> without(s, x).contains(y)) by {
            if s.last() == x {
                assert(without(s, x) == w);
                if s.contains(y) {
                    let k = choose|k: int| 0 <= k < s.len() && s[k] == y;
                    assert(s[s.len() - 1] == x);
                    assert(rest[k] == y);
                    assert(rest.contains(y));
                }
                if w.contains(y) {
                    assert(rest.contains(y));
                    let k = choose|k: int| 0 <= k < rest.len() && rest[k] == y;
                    assert(s[k] == y);
                }
            } else {
                let w2 = w.push(s.last());
                assert(without(s, x) == w2);
                if s.contains(y) {
                    let k = choose|k: int| 0 <= k < s.len() && s[k] == y;
                    if k < s.len() - 1 {
                        assert(rest[k] == y);
                        assert(rest.contains(y));
                        assert(w.contains(y));
                        let j = choose|j: int| 0 <= j < w.len() && w[j] == y;
                        assert(w2[j] == y);
                    } else {
                        assert(w2[w.len() as int] == y);
                    }
                }
                if w2.contains(y) {
                    let j = choose|j: int| 0 <= j < w2.len() && w2[j] == y;
                    if j < w.len() {
                        assert(w[j] == y);
                        assert(w.contains(y));
                        assert(rest.contains(y));
                        let k = choose|k: int| 0 <= k < rest.len() && rest[k] == y;
                        assert(s[k] == y);
                    } else {
                        assert(s[s.len() - 1] == y);
                    }
                }
            }
        }
        if !s.contains(x) {
            assert forall|k: int| 0 <= k < rest.len() implies rest[k] != x by {
                assert(s[k] == rest[k]);
            }
            assert(s.last() != x) by {
                assert(s[s.len() - 1] == s.last());
            }
            assert(s == rest.push(s.last()));
        }
    }
}

/// Leaving clump `x` keeps every other clump, in order and as often as before: the result is
/// the sequence filtered by `y != x`.
pub proof fn lemma_without_is_filter(s: Seq<usize>, x: usize)
    ensures
        without(s, x) == s.filter(|y: usize| y != x),
    decreases s.len(),
{
    reveal(Seq::filter);
    if s.len() > 0 {
        lemma_without_is_filter(s.drop_last(), x);
    }
}

/// Entering a clump that is not active and leaving it again restores the active clumps.
pub proof fn lemma_enter_then_exit(members: Seq<usize>, si: usize)
    requires
        !members.contains(si),
    ensures
        without(members.push(si), si) == members,
{
    assert(members.push(si).drop_last() == members);
    lemma_without(members, si);
}

} // verus!
