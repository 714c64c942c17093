//! Index-aligned pairing of two sequences of possibly different lengths.
//!
//! Unlike a fixed-length zip, which stops at the shorter input, the pairing
//! visits every index up to the longer input's length, representing a missing
//! element on either side as `None`.

use vstd::prelude::*;

verus! {

/// The number of pairs the pairing of `a` and `b` produces: `max(|a|, |b|)`.
pub open spec fn pair_count<T>(a: Seq<T>, b: Seq<T>) -> nat {
    if a.len() >= b.len() {
        a.len()
    } else {
        b.len()
    }
}

/// The pair at index `i`: each side is present exactly when `i` is a valid
/// index of that side's sequence.
pub open spec fn pair_at<T>(a: Seq<T>, b: Seq<T>, i: int) -> (Option<T>, Option<T>) {
    (
        if 0 <= i < a.len() {
            Some(a[i])
        } else {
            None
        },
        if 0 <= i < b.len() {
            Some(b[i])
        } else {
            None
        },
    )
}

/// The full pairing of `a` and `b`: `max(|a|, |b|)` pairs, in index order.
pub open spec fn pairing<T>(a: Seq<T>, b: Seq<T>) -> Seq<(Option<T>, Option<T>)> {
    Seq::new(pair_count(a, b), |i: int| pair_at(a, b, i))
}

/// The pairing yields exactly `max(m, n)` pairs, and at every index valid for
/// both inputs the pair holds both elements.
pub proof fn lemma_pairing_completeness<T>(a: Seq<T>, b: Seq<T>)
    ensures
        pairing(a, b).len() == pair_count(a, b),
        a.len() <= pair_count(a, b) && b.len() <= pair_count(a, b),
        pair_count(a, b) == a.len() || pair_count(a, b) == b.len(),
        forall|i: int|
            0 <= i < a.len() && i < b.len() ==> #[trigger] pairing(a, b)[i] == (
            Some(a[i]),
            Some(b[i]),
            ),
{
}

/// Past the end of the shorter input, each pair holds only the longer input's
/// element: the side that ran out contributes `None`.
pub proof fn lemma_pairing_tail<T>(a: Seq<T>, b: Seq<T>)
    ensures
        forall|i: int|
            a.len() <= i < b.len() ==> #[trigger] pairing(a, b)[i] == (
            None::<T>,
            Some(b[i]),
            ),
        forall|i: int|
            b.len() <= i < a.len() ==> #[trigger] pairing(a, b)[i] == (
            Some(a[i]),
            None::<T>,
            ),
{
}

/// An iterator-like pairing of two owned sequences. It behaves like a zip,
/// but keeps producing pairs until *both* inputs are exhausted; a side that
/// ran out early contributes `None` for every remaining position.
pub struct OptionZip<T> {
    a: Vec<T>,
    b: Vec<T>,
    pos: usize,
}

impl<T: Copy> OptionZip<T> {
    /// The first input sequence.
    pub closed spec fn seq_a(&self) -> Seq<T> {
        self.a@
    }

    /// The second input sequence.
    pub closed spec fn seq_b(&self) -> Seq<T> {
        self.b@
    }

    /// The index of the next pair to be produced.
    pub closed spec fn position(&self) -> nat {
        self.pos as nat
    }

    /// Takes ownership of both inputs; the pairing starts at index 0.
    pub fn new(a: Vec<T>, b: Vec<T>) -> (z: OptionZip<T>)
        ensures
            z.seq_a() == a@,
            z.seq_b() == b@,
            z.position() == 0,
    {
        OptionZip { a, b, pos: 0 }
    }

    /// Produces the pair at the current position and advances, or reports
    /// exhaustion once every position of both inputs has been visited.
    /// Exhaustion is stable: further calls keep returning `None`.
    pub fn next(&mut self) -> (r: Option<(Option<T>, Option<T>)>)
        ensures
            final(self).seq_a() == old(self).seq_a(),
            final(self).seq_b() == old(self).seq_b(),
            old(self).position() < pair_count(old(self).seq_a(), old(self).seq_b()) ==> {
                &&& final(self).position() == old(self).position() + 1
                &&& r == Some(
                    pair_at(old(self).seq_a(), old(self).seq_b(), old(self).position() as int),
                )
            },
            old(self).position() >= pair_count(old(self).seq_a(), old(self).seq_b()) ==> {
                &&& final(self).position() == old(self).position()
                &&& r is None
            },
    {
        let i = self.pos;
        let in_a = i < self.a.len();
        let in_b = i < self.b.len();
        if !in_a && !in_b {
            None
        } else {
            self.pos = i + 1;
            let x: Option<T> = if in_a {
                Some(self.a[i])
            } else {
                None
            };
            let y: Option<T> = if in_b {
                Some(self.b[i])
            } else {
                None
            };
            Some((x, y))
        }
    }
}

} // verus!
