//! The escape-time count, decided from what the caller observes.
//!
//! Whether a point of an orbit lies outside the disc of radius two is a
//! question about real numbers, and so is the step from one point to the
//! next: the caller answers both. The scan kept here is told, point after
//! point, whether the orbit has escaped, and settles the count: the step of
//! the first escape, or the cap where the first `cap + 1` points stay inside.

use vstd::prelude::*;

verus! {

/// The place of the first `true` in `seen`, or the length of `seen` where
/// there is none.
pub open spec fn first_escape(seen: Seq<bool>) -> int
    decreases seen.len(),
{
    if seen.len() == 0 || seen[0] {
        0
    } else {
        1 + first_escape(seen.drop_first())
    }
}

/// The count that is settled once the observations `seen` are in, under the
/// cap `limit`: nothing is asked under a negative cap, which is the count
/// itself; an escape at a step up to the cap gives that step; with more
/// observations than the cap and no escape among them the count is the cap.
/// Otherwise the count is open.
pub open spec fn count_after(limit: i32, seen: Seq<bool>) -> Option<i32> {
    if limit < 0 {
        Some(limit)
    } else if first_escape(seen) < seen.len() && first_escape(seen) <= limit {
        Some(first_escape(seen) as i32)
    } else if seen.len() > limit {
        Some(limit)
    } else {
        None
    }
}

/// The first escape lies within the observations, nothing before it is an
/// escape, and it is one where it is not the length.
pub proof fn lemma_first_escape(seen: Seq<bool>)
    ensures
        0 <= first_escape(seen) <= seen.len(),
        forall|j: int| 0 <= j < first_escape(seen) ==> !seen[j],
        first_escape(seen) < seen.len() ==> seen[first_escape(seen)],
    decreases seen.len(),
{
    if !(seen.len() == 0 || seen[0]) {
        let rest = seen.drop_first();
        lemma_first_escape(rest);
        assert forall|j: int| 0 <= j < first_escape(seen) implies !seen[j] by {
            if j > 0 {
                assert(seen[j] == rest[j - 1]);
            }
        }
        if first_escape(seen) < seen.len() {
            assert(seen[first_escape(seen)] == rest[first_escape(rest)]);
        }
    }
}

/// A place with no escape before it, which is an escape or the end, is the
/// first escape.
pub proof fn lemma_first_escape_is(seen: Seq<bool>, at: int)
    requires
        0 <= at <= seen.len(),
        forall|j: int| 0 <= j < at ==> !seen[j],
        at < seen.len() ==> seen[at],
    ensures
        first_escape(seen) == at,
    decreases seen.len(),
{
    if at > 0 {
        let rest = seen.drop_first();
        assert(!seen[0]);
        assert forall|j: int| 0 <= j < at - 1 implies !rest[j] by {
            assert(rest[j] == seen[j + 1]);
        }
        if at - 1 < rest.len() {
            assert(rest[at - 1] == seen[at]);
        }
        lemma_first_escape_is(rest, at - 1);
    }
}

/// One more observation leaves a first escape where it was, and is itself
/// the first escape where there was none and it is one.
pub proof fn lemma_first_escape_push(seen: Seq<bool>, escaped: bool)
    ensures
        first_escape(seen.push(escaped)) == if first_escape(seen) < seen.len() {
            first_escape(seen)
        } else if escaped {
            seen.len() as int
        } else {
            (seen.len() + 1) as int
        },
{
    lemma_first_escape(seen);
    let more = seen.push(escaped);
    let at = if first_escape(seen) < seen.len() {
        first_escape(seen)
    } else if escaped {
        seen.len() as int
    } else {
        (seen.len() + 1) as int
    };
    assert forall|j: int| 0 <= j < at implies !more[j] by {
        if j < seen.len() {
            assert(more[j] == seen[j]);
        }
    }
    if at < seen.len() {
        assert(more[at] == seen[at]);
    }
    lemma_first_escape_is(more, at);
}

/// A settled count is a step from the first to the cap, where the cap is not
/// negative.
pub proof fn lemma_count_in_range(limit: i32, seen: Seq<bool>)
    requires
        limit >= 0,
    ensures
        match count_after(limit, seen) {
            Some(v) => 0 <= v <= limit,
            None => seen.len() <= limit,
        },
{
    lemma_first_escape(seen);
}

/// A count that is settled stays what it is, whatever is observed later.
pub proof fn lemma_count_is_final(limit: i32, seen: Seq<bool>, escaped: bool)
    requires
        count_after(limit, seen) is Some,
    ensures
        count_after(limit, seen.push(escaped)) == count_after(limit, seen),
{
    lemma_first_escape(seen);
    lemma_first_escape_push(seen, escaped);
}

/// An orbit that never escapes has the cap for its count, as soon as more
/// points than the cap have been observed.
pub proof fn lemma_count_without_escape(limit: i32, seen: Seq<bool>)
    requires
        limit >= 0,
        seen.len() > limit,
        forall|j: int| 0 <= j < seen.len() ==> !seen[j],
    ensures
        count_after(limit, seen) == Some(limit),
{
    lemma_first_escape_is(seen, seen.len() as int);
}

/// An orbit that is outside at its first point has the count zero.
pub proof fn lemma_count_of_immediate_escape(limit: i32, seen: Seq<bool>)
    requires
        limit >= 0,
        seen.len() > 0,
        seen[0],
    ensures
        count_after(limit, seen) == Some(0i32),
{
}

/// The scan of one orbit: the cap, and what has been observed so far.
pub struct EscapeScan {
    limit: i32,
    step: i32,
    settled: Option<i32>,
    seen: Ghost<Seq<bool>>,
}

impl EscapeScan {
    #[verifier::type_invariant]
    spec fn well_formed(self) -> bool {
        &&& self.settled == count_after(self.limit, self.seen@)
        &&& self.settled is None ==> self.step == self.seen@.len()
    }

    /// The cap that the scan was begun with.
    pub closed spec fn cap(&self) -> i32 {
        self.limit
    }

    /// What the scan has been told, in order.
    pub closed spec fn observations(&self) -> Seq<bool> {
        self.seen@
    }

    /// Begins the scan of an orbit under the cap `limit`.
    pub fn new(limit: i32) -> (scan: EscapeScan)
        ensures
            scan.cap() == limit,
            scan.observations() == Seq::<bool>::empty(),
    {
        EscapeScan {
            limit,
            step: 0,
            settled: if limit < 0 {
                Some(limit)
            } else {
                None
            },
            seen: Ghost(Seq::empty()),
        }
    }

    /// The count, once it is settled; `None` while the next point of the orbit
    /// has to be observed.
    pub fn count(&self) -> (r: Option<i32>)
        ensures
            r == count_after(self.cap(), self.observations()),
    {
        proof {
            use_type_invariant(self);
        }
        self.settled
    }

    /// Tells the scan whether the next point of the orbit has escaped.
    pub fn observe(&mut self, escaped: bool)
        ensures
            final(self).cap() == old(self).cap(),
            final(self).observations() == old(self).observations().push(escaped),
    {
        proof {
            use_type_invariant(&*self);
            lemma_first_escape(self.seen@);
            lemma_first_escape_push(self.seen@, escaped);
        }
        let ghost seen = self.seen@.push(escaped);
        let limit = self.limit;
        match self.settled {
            Some(v) => {
                *self = EscapeScan { limit, step: self.step, settled: Some(v), seen: Ghost(seen) };
            },
            None => {
                if escaped {
                    *self = EscapeScan {
                        limit,
                        step: self.step,
                        settled: Some(self.step),
                        seen: Ghost(seen),
                    };
                } else if self.step == limit {
                    *self = EscapeScan {
                        limit,
                        step: self.step,
                        settled: Some(limit),
                        seen: Ghost(seen),
                    };
                } else {
                    *self = EscapeScan {
                        limit,
                        step: self.step + 1,
                        settled: None,
                        seen: Ghost(seen),
                    };
                }
            },
        }
    }
}

} // verus!
