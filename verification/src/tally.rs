//! Counting how the photons of a run left the slab.

use vstd::prelude::*;
use crate::photon::PhotonEscape;

verus! {

/// Number of photons among `s` that escaped through the top.
pub open spec fn count_top(s: Seq<PhotonEscape>) -> nat
    decreases s.len(),
{
    if s.len() == 0 {
        0
    } else {
        count_top(s.drop_last()) + if s.last() is Top {
            1nat
        } else {
            0nat
        }
    }
}

/// Number of photons among `s` that escaped through the bottom.
pub open spec fn count_bottom(s: Seq<PhotonEscape>) -> nat
    decreases s.len(),
{
    if s.len() == 0 {
        0
    } else {
        count_bottom(s.drop_last()) + if s.last() is Bottom {
            1nat
        } else {
            0nat
        }
    }
}

/// Number of photons among `s` that escaped through the side.
pub open spec fn count_side(s: Seq<PhotonEscape>) -> nat
    decreases s.len(),
{
    if s.len() == 0 {
        0
    } else {
        count_side(s.drop_last()) + if s.last() is Side {
            1nat
        } else {
            0nat
        }
    }
}

/// Total number of scatters of the photons in `s`.
pub open spec fn sum_scatters(s: Seq<PhotonEscape>) -> nat
    decreases s.len(),
{
    if s.len() == 0 {
        0
    } else {
        sum_scatters(s.drop_last()) + s.last().scatters() as nat
    }
}

/// The modulus of 32-bit counters.
pub open spec fn u32_modulus() -> nat {
    0x1_0000_0000
}

/// The counts that a simulation run reports.
#[derive(Clone, Copy, Debug, PartialEq, Eq, Structural)]
pub struct EscapeTally {
    pub n_escaped_top: u32,
    pub n_escaped_bottom: u32,
    pub n_escaped_side: u32,
    pub total_scatters: u32,
}

/// Adding `n` to a 32-bit counter that holds `total` modulo 2^32 gives `total + n` modulo 2^32.
proof fn lemma_wrapping_step(counter: u32, total: nat, n: u32)
    requires
        counter == total % u32_modulus(),
    ensures
        counter.wrapping_add(n) == (total + n as nat) % u32_modulus(),
{
    let m = u32_modulus() as int;
    vstd::arithmetic::div_mod::lemma_add_mod_noop(total as int, n as int, m);
    vstd::arithmetic::div_mod::lemma_small_mod(n as nat, m as nat);
    if counter + n < m {
        vstd::arithmetic::div_mod::lemma_small_mod((counter + n) as nat, m as nat);
    } else {
        vstd::arithmetic::div_mod::lemma_mod_add_multiples_vanish(counter + n - m, m);
        vstd::arithmetic::div_mod::lemma_small_mod((counter + n - m) as nat, m as nat);
    }
}

impl EscapeTally {
    /// No photon has been counted yet.
    pub fn new() -> (t: Self)
        ensures
            t.n_escaped_top == 0,
            t.n_escaped_bottom == 0,
            t.n_escaped_side == 0,
            t.total_scatters == 0,
    {
        EscapeTally { n_escaped_top: 0, n_escaped_bottom: 0, n_escaped_side: 0, total_scatters: 0 }
    }

    /// Counts one escaped photon; the counters wrap around at 2^32.
    pub fn record(&mut self, escape: PhotonEscape)
        ensures
            final(self).n_escaped_top == if escape is Top {
                old(self).n_escaped_top.wrapping_add(1)
            } else {
                old(self).n_escaped_top
            },
            final(self).n_escaped_bottom == if escape is Bottom {
                old(self).n_escaped_bottom.wrapping_add(1)
            } else {
                old(self).n_escaped_bottom
            },
            final(self).n_escaped_side == if escape is Side {
                old(self).n_escaped_side.wrapping_add(1)
            } else {
                old(self).n_escaped_side
            },
            final(self).total_scatters == old(self).total_scatters.wrapping_add(escape.scatters()),
    {
        match escape {
            PhotonEscape::Top(_) => {
                self.n_escaped_top = self.n_escaped_top.wrapping_add(1);
            },
            PhotonEscape::Bottom(_) => {
                self.n_escaped_bottom = self.n_escaped_bottom.wrapping_add(1);
            },
            PhotonEscape::Side(_) => {
                self.n_escaped_side = self.n_escaped_side.wrapping_add(1);
            },
        }
        self.total_scatters = self.total_scatters.wrapping_add(escape.n_scatters());
    }

    /// Counts the escapes of all photons of a run, of which there are at most `u32::MAX`.
    pub fn from_escapes(escapes: &Vec<PhotonEscape>) -> (t: Self)
        requires
            escapes@.len() <= u32::MAX,
        ensures
            t.n_escaped_top == count_top(escapes@),
            t.n_escaped_bottom == count_bottom(escapes@),
            t.n_escaped_side == count_side(escapes@),
            t.total_scatters == sum_scatters(escapes@) % u32_modulus(),
            t.n_escaped_top + t.n_escaped_bottom + t.n_escaped_side == escapes@.len(),
            t.n_escaped_top == escapes@.filter(|e: PhotonEscape| e is Top).len(),
            t.n_escaped_bottom == escapes@.filter(|e: PhotonEscape| e is Bottom).len(),
            t.n_escaped_side == escapes@.filter(|e: PhotonEscape| e is Side).len(),
    {
        let mut t = EscapeTally::new();
        let mut i: usize = 0;
        while i < escapes.len()
            invariant
                i <= escapes@.len() <= u32::MAX,
                t.n_escaped_top == count_top(escapes@.take(i as int)),
                t.n_escaped_bottom == count_bottom(escapes@.take(i as int)),
                t.n_escaped_side == count_side(escapes@.take(i as int)),
                t.total_scatters == sum_scatters(escapes@.take(i as int)) % u32_modulus(),
            decreases escapes@.len() - i,
        {
            let e = escapes[i];
            let ghost prefix = escapes@.take(i as int);
            let ghost next = escapes@.take(i + 1);
            assert(next.drop_last() == prefix);
            assert(next.last() == e);
            proof {
                lemma_every_photon_counted_once(prefix);
                lemma_wrapping_step(t.total_scatters, sum_scatters(prefix), e.scatters());
            }
            t.record(e);
            i = i + 1;
        }
        assert(escapes@.take(escapes@.len() as int) == escapes@);
        proof {
            lemma_every_photon_counted_once(escapes@);
            lemma_counts_are_filters(escapes@);
        }
        t
    }
}

/// One more photon adds one to the count of the way it left by, whatever its scatter count, and
/// its scatters to the total.
pub proof fn lemma_count_push(s: Seq<PhotonEscape>, e: PhotonEscape)
    ensures
        count_top(s.push(e)) == count_top(s) + if e is Top {
            1int
        } else {
            0int
        },
        count_bottom(s.push(e)) == count_bottom(s) + if e is Bottom {
            1int
        } else {
            0int
        },
        count_side(s.push(e)) == count_side(s) + if e is Side {
            1int
        } else {
            0int
        },
        sum_scatters(s.push(e)) == sum_scatters(s) + match e {
            PhotonEscape::Top(n) => n as int,
            PhotonEscape::Bottom(n) => n as int,
            PhotonEscape::Side(n) => n as int,
        },
{
    assert(s.push(e).drop_last() == s);
}

/// The counts are the numbers of photons that left through the top, the bottom and the side.
pub proof fn lemma_counts_are_filters(s: Seq<PhotonEscape>)
    ensures
        count_top(s) == s.filter(|e: PhotonEscape| e is Top).len(),
        count_bottom(s) == s.filter(|e: PhotonEscape| e is Bottom).len(),
        count_side(s) == s.filter(|e: PhotonEscape| e is Side).len(),
    decreases s.len(),
{
    reveal(Seq::filter);
    if s.len() > 0 {
        lemma_counts_are_filters(s.drop_last());
    }
}

/// Every photon leaves the slab through exactly one of the top, the bottom or the side.
pub proof fn lemma_every_photon_counted_once(s: Seq<PhotonEscape>)
    ensures
        count_top(s) + count_bottom(s) + count_side(s) == s.len(),
    decreases s.len(),
{
    if s.len() > 0 {
        lemma_every_photon_counted_once(s.drop_last());
    }
}

/// The counts of two batches of photons add up; hence the counts of a run do not depend on the
/// order in which its photons finish.
pub proof fn lemma_tally_concat(a: Seq<PhotonEscape>, b: Seq<PhotonEscape>)
    ensures
        count_top(a + b) == count_top(a) + count_top(b),
        count_bottom(a + b) == count_bottom(a) + count_bottom(b),
        count_side(a + b) == count_side(a) + count_side(b),
        sum_scatters(a + b) == sum_scatters(a) + sum_scatters(b),
    decreases b.len(),
{
    if b.len() > 0 {
        lemma_tally_concat(a, b.drop_last());
        assert((a + b).drop_last() == a + b.drop_last());
        assert((a + b).last() == b.last());
    } else {
        assert(a + b == a);
    }
}

/// The counts of a run are the same whichever of two batches of photons finishes first.
pub proof fn lemma_tally_order_independent(a: Seq<PhotonEscape>, b: Seq<PhotonEscape>)
    ensures
        count_top(a + b) == count_top(b + a),
        count_bottom(a + b) == count_bottom(b + a),
        count_side(a + b) == count_side(b + a),
        sum_scatters(a + b) == sum_scatters(b + a),
{
    lemma_tally_concat(a, b);
    lemma_tally_concat(b, a);
}

} // verus!
