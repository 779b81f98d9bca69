//! The comparison of two git libraries on the same operations: which one
//! won a trial.
use vstd::prelude::*;

verus! {

/// One operation timed with both libraries (durations in nanoseconds).
#[derive(Debug)]
pub struct Trial {
    pub label: &'static str,
    pub git2_ok: bool,
    pub gix_ok: bool,
    pub git2_nanos: u128,
    pub gix_nanos: u128,
}

/// The winner of a trial: a library that failed loses; of two that
/// succeeded the faster wins, equal times tie.
pub open spec fn winner_spec(t: Trial) -> Seq<char> {
    if !t.git2_ok && !t.gix_ok {
        "both failed"@
    } else if !t.git2_ok {
        "gix only"@
    } else if !t.gix_ok {
        "git2 only"@
    } else if t.git2_nanos < t.gix_nanos {
        "git2"@
    } else if t.gix_nanos < t.git2_nanos {
        "gix"@
    } else {
        "tie"@
    }
}

impl Trial {
    pub fn winner(&self) -> (r: &'static str)
        ensures
            r@ == winner_spec(*self),
    {
        if !self.git2_ok && !self.gix_ok {
            "both failed"
        } else if !self.git2_ok {
            "gix only"
        } else if !self.gix_ok {
            "git2 only"
        } else {
            let a = self.git2_nanos;
            let b = self.gix_nanos;
            if a < b {
                "git2"
            } else if b < a {
                "gix"
            } else {
                "tie"
            }
        }
    }
}

/// Counts over a run of trials: wins of git2 and of gix among the trials
/// where both libraries succeeded, and the trials where both failed.
pub open spec fn tally_spec(ts: Seq<Trial>) -> (nat, nat, nat)
    decreases ts.len(),
{
    if ts.len() == 0 {
        (0, 0, 0)
    } else {
        let r = tally_spec(ts.drop_last());
        let t = ts.last();
        let both = t.git2_ok && t.gix_ok;
        (
            r.0 + if both && winner_spec(t) == "git2"@ {
                1nat
            } else {
                0nat
            },
            r.1 + if both && winner_spec(t) == "gix"@ {
                1nat
            } else {
                0nat
            },
            r.2 + if !t.git2_ok && !t.gix_ok {
                1nat
            } else {
                0nat
            },
        )
    }
}

proof fn lemma_tally_le(ts: Seq<Trial>)
    ensures
        tally_spec(ts).0 <= ts.len(),
        tally_spec(ts).1 <= ts.len(),
        tally_spec(ts).2 <= ts.len(),
    decreases ts.len(),
{
    if ts.len() > 0 {
        lemma_tally_le(ts.drop_last());
    }
}

/// Counts the trials git2 won, those gix won (both libraries having
/// succeeded), and those where both failed.
pub fn tally(trials: &[Trial]) -> (r: (usize, usize, usize))
    ensures
        (r.0 as nat, r.1 as nat, r.2 as nat) == tally_spec(trials@),
{
    let mut a: usize = 0;
    let mut b: usize = 0;
    let mut c: usize = 0;
    let mut i: usize = 0;
    while i < trials.len()
        invariant
            i <= trials.len(),
            (a as nat, b as nat, c as nat) == tally_spec(trials@.take(i as int)),
        decreases trials.len() - i,
    {
        proof {
            assert(trials@.take(i + 1).drop_last() =~= trials@.take(i as int));
            lemma_tally_le(trials@.take(i as int));
        }
        let t = &trials[i];
        let w = t.winner();
        let both = t.git2_ok && t.gix_ok;
        if both && crate::text::str_is(w, "git2") {
            a += 1;
        }
        if both && crate::text::str_is(w, "gix") {
            b += 1;
        }
        if !t.git2_ok && !t.gix_ok {
            c += 1;
        }
        i += 1;
    }
    proof {
        assert(trials@.take(i as int) =~= trials@);
    }
    (a, b, c)
}

} // verus!
