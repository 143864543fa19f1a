//! The generator itself: an incremental sieve of Eratosthenes. Each pull tests
//! odd candidates by trial division against the table of previously discovered
//! primes, each table entry keeping a cursor to its next relevant multiple so
//! that no multiple is ever rechecked, and overflow of the width is absorbed
//! into `retired`/`exhausted` transitions instead of wrapping or panicking.

use vstd::prelude::*;
use crate::number::{
    divides, is_prime, lemma_composite_has_small_prime_factor, lemma_even_not_prime,
    lemma_no_multiple_strictly_between, lemma_retired_prime_excluded, lemma_small_primes,
};
use crate::width::PrimeInt;
use vstd::arithmetic::div_mod::lemma_mod_multiples_basic;

verus! {

/// The state of the generator for the integer width `T`: the primes discovered
/// so far that can still matter as trial divisors, a cursor per prime to its
/// next relevant multiple, a retirement flag per prime set once its cursor can
/// no longer step without overflowing, the next candidate, and the terminal
/// exhaustion flag.
pub struct Primes<T> {
    primes: Vec<T>,
    multiples: Vec<T>,
    overflowed: Vec<bool>,
    current: T,
    done: bool,
}

impl<T: PrimeInt> Primes<T> {
    /// The next odd candidate the sieve will examine. Right at the start the
    /// generator still has to produce 2, which is handled specially and never
    /// enters the table, so the first candidate proper is 3.
    pub closed spec fn cand(self) -> int {
        if self.current.v() == 2 {
            3
        } else {
            self.current.v()
        }
    }

    /// The frontier of the generator: every prime below it has been produced,
    /// and every representable prime at or above it is still to come. Once the
    /// generator is exhausted the frontier lies past the whole range.
    pub closed spec fn lo(self) -> int {
        if self.done {
            T::max_v() + 2
        } else if self.current.v() == 2 {
            2
        } else {
            self.current.v()
        }
    }

    /// Well-formedness of the table entry at index `i`, relative to the
    /// current candidate: the entry holds an odd prime below the candidate
    /// whose square is representable, its cursor is a multiple of it, and
    /// either the entry is retired with its cursor stuck below the candidate
    /// and unable to step, or the cursor still sits at the prime's square or
    /// within one step of the candidate.
    pub closed spec fn entry_ok(self, i: int) -> bool {
        let p = self.primes@[i].v();
        let m = self.multiples@[i].v();
        &&& is_prime(p)
        &&& 3 <= p < self.cand()
        &&& p * p <= T::max_v()
        &&& divides(p, m)
        &&& p <= m
        &&& if self.overflowed@[i] {
                m + p > T::max_v() && m < self.cand()
            } else {
                m <= T::max_v() && (m == p * p || m - p < self.cand())
            }
    }

    /// The table is complete: every odd prime below the candidate whose square
    /// is representable has an entry. Primes whose square overflows the width
    /// are produced but never stored, since no representable candidate could
    /// ever reach their square.
    pub closed spec fn table_complete(self) -> bool {
        forall|q: int|
            3 <= q < self.cand() && is_prime(q) && #[trigger] (q * q) <= T::max_v()
                ==> exists|i: int| 0 <= i < self.primes@.len() && self.primes@[i].v() == q
    }

    /// The generator invariant, established by construction and preserved by
    /// every pull.
    pub closed spec fn wf(self) -> bool {
        &&& self.multiples@.len() == self.primes@.len()
        &&& self.overflowed@.len() == self.primes@.len()
        &&& (self.done ==> 3 <= self.current.v() <= T::max_v()
                && self.current.v() + 2 > T::max_v())
        &&& (!self.done ==> {
            &&& (self.current.v() == 2
                    || (3 <= self.current.v() <= T::max_v() && self.current.v() % 2 == 1))
            &&& (self.current.v() == 2 ==> self.primes@.len() == 0)
            &&& (forall|i: int| 0 <= i < self.primes@.len() ==> self.entry_ok(i))
            &&& (forall|i: int, j: int|
                    0 <= i < j < self.primes@.len()
                        ==> self.primes@[i].v() < self.primes@[j].v())
            &&& self.table_complete()
        })
    }

    /// Advances the table entry at index `i` until its cursor reaches or
    /// passes the current candidate, retiring the entry if stepping the cursor
    /// would overflow the width. Reports whether the cursor landed exactly on
    /// the candidate; when it did not, the entry's prime either does not
    /// divide the candidate or its square exceeds the candidate.
    fn advance_entry(&mut self, i: usize) -> (hit: bool)
        requires
            old(self).wf(),
            !old(self).done,
            3 <= old(self).current.v(),
            i < old(self).primes@.len(),
            !old(self).overflowed@[i as int],
        ensures
            final(self).wf(),
            !final(self).done,
            final(self).current == old(self).current,
            final(self).primes@ == old(self).primes@,
            hit ==> divides(final(self).primes@[i as int].v(), final(self).current.v()),
            !hit ==> !divides(final(self).primes@[i as int].v(), final(self).current.v())
                || final(self).primes@[i as int].v() * final(self).primes@[i as int].v()
                    > final(self).current.v(),
    {
        let c = self.current;
        let p = self.primes[i];
        while !self.overflowed[i] && self.multiples[i].less_than(c)
            invariant
                self.wf(),
                !self.done,
                self.current == old(self).current,
                self.primes@ == old(self).primes@,
                i < self.primes@.len(),
                c == self.current,
                p == self.primes@[i as int],
                3 <= self.current.v(),
            decreases
                (if self.overflowed@[i as int] { 0int } else { 1int }),
                (if c.v() - self.multiples@[i as int].v() >= 0 {
                    c.v() - self.multiples@[i as int].v()
                } else {
                    0int
                }),
        {
            let m = self.multiples[i];
            let ghost pre = *self;
            proof {
                assert(pre.entry_ok(i as int));
            }
            match m.add_checked(p) {
                Some(x) => {
                    self.multiples.set(i, x);
                    proof {
                        assert(divides(p.v(), x.v())) by {
                            vstd::arithmetic::div_mod::lemma_mod_add_multiples_vanish(
                                m.v(), p.v());
                        }
                        assert(self.entry_ok(i as int));
                    }
                }
                None => {
                    self.overflowed.set(i, true);
                    proof {
                        assert(self.entry_ok(i as int));
                    }
                }
            }
            proof {
                assert(self.primes@ == pre.primes@);
                assert(self.cand() == pre.cand());
                assert forall|j: int| 0 <= j < self.primes@.len()
                    implies self.entry_ok(j) by {
                    if j != i as int {
                        assert(pre.entry_ok(j));
                    }
                }
                assert forall|a: int, b: int| 0 <= a < b < self.primes@.len()
                    implies self.primes@[a].v() < self.primes@[b].v() by {
                    assert(pre.primes@[a].v() < pre.primes@[b].v());
                }
                assert(self.table_complete()) by {
                    assert forall|q: int|
                        3 <= q < self.cand() && is_prime(q)
                            && #[trigger] (q * q) <= T::max_v()
                        implies exists|idx: int|
                            0 <= idx < self.primes@.len()
                                && self.primes@[idx].v() == q by {
                        let idx = choose|idx: int|
                            0 <= idx < pre.primes@.len() && pre.primes@[idx].v() == q;
                        assert(self.primes@[idx].v() == q);
                    }
                }
                assert(self.wf());
            }
        }
        proof {
            assert(self.entry_ok(i as int));
        }
        if self.overflowed[i] {
            proof {
                let pv = self.primes@[i as int].v();
                let mv = self.multiples@[i as int].v();
                lemma_retired_prime_excluded(pv, mv, self.current.v(), T::max_v());
            }
            false
        } else {
            let hit = self.multiples[i].same_value(c);
            proof {
                let pv = self.primes@[i as int].v();
                let mv = self.multiples@[i as int].v();
                if !hit && mv != pv * pv {
                    lemma_no_multiple_strictly_between(pv, mv, self.current.v());
                }
                if !hit && mv == pv * pv {
                    assert(pv * pv > self.current.v());
                }
            }
            hit
        }
    }

    /// Tests the current candidate against every table entry, advancing the
    /// cursors as it goes. Returns true exactly when the candidate is
    /// composite: a hit is a genuine factor, and a clean pass together with
    /// the completeness of the table rules every factor out.
    fn scan_composite(&mut self) -> (comp: bool)
        requires
            old(self).wf(),
            !old(self).done,
            3 <= old(self).current.v(),
            old(self).current.v() % 2 == 1,
        ensures
            final(self).wf(),
            !final(self).done,
            final(self).current == old(self).current,
            final(self).primes@ == old(self).primes@,
            comp == !is_prime(old(self).current.v()),
    {
        let ghost c: int = self.current.v();
        let n = self.primes.len();
        let mut i: usize = 0;
        let mut comp = false;
        while i < n && !comp
            invariant
                self.wf(),
                !self.done,
                self.current == old(self).current,
                self.primes@ == old(self).primes@,
                n == self.primes@.len(),
                i <= n,
                c == self.current.v(),
                3 <= c && c % 2 == 1,
                comp ==> !is_prime(c),
                !comp ==> forall|j: int|
                    0 <= j < i
                        ==> !divides(#[trigger] self.primes@[j].v(), c)
                            || self.primes@[j].v() * self.primes@[j].v() > c,
            decreases n - i,
        {
            if self.overflowed[i] {
                proof {
                    assert(self.entry_ok(i as int));
                    lemma_retired_prime_excluded(
                        self.primes@[i as int].v(),
                        self.multiples@[i as int].v(),
                        c,
                        T::max_v(),
                    );
                }
            } else {
                let hit = self.advance_entry(i);
                if hit {
                    comp = true;
                    proof {
                        let pv = self.primes@[i as int].v();
                        assert(self.entry_ok(i as int));
                        assert(2 <= pv < c && divides(pv, c));
                        assert(!is_prime(c));
                    }
                }
            }
            i += 1;
        }
        proof {
            if !comp && !is_prime(c) {
                lemma_composite_has_small_prime_factor(c);
                let q = choose|q: int| is_prime(q) && divides(q, c) && q * q <= c;
                assert(q != 2);
                assert(q < c) by (nonlinear_arith)
                    requires
                        q >= 2,
                        q * q <= c,
                ;
                assert(c <= T::max_v());
                assert(q * q <= T::max_v());
                let j = choose|j: int|
                    0 <= j < self.primes@.len() && self.primes@[j].v() == q;
                assert(false);
            }
        }
        comp
    }
}

/// Where the frontier stands right after a pull has produced the prime `p`:
/// just past `p`, at the next odd candidate, or past the whole representable
/// range when stepping past `p` leaves it.
pub open spec fn next_frontier<T: PrimeInt>(p: int) -> int {
    if p == 2 {
        3
    } else if p + 2 <= T::max_v() {
        p + 2
    } else {
        T::max_v() + 2
    }
}

/// The complete behaviour of one pull, relating the generator before the
/// call, the generator after it, and the outcome. A pull produces `Some`
/// exactly when a representable prime at or above the frontier remains, and
/// then produces the least such prime; it produces `None` exactly when none
/// remains, and the frontier then sits past the whole range, so every later
/// pull produces `None` as well.
pub open spec fn next_rel<T: PrimeInt>(pre: Primes<T>, post: Primes<T>, r: Option<T>) -> bool {
    match r {
        Some(p) => {
            &&& pre.lo() <= p.v() <= T::max_v()
            &&& is_prime(p.v())
            &&& forall|q: int| pre.lo() <= q < p.v() ==> !is_prime(q)
            &&& post.lo() == next_frontier::<T>(p.v())
        }
        None => {
            &&& forall|q: int| pre.lo() <= q <= T::max_v() ==> !is_prime(q)
            &&& post.lo() == T::max_v() + 2
        }
    }
}

/// The integer a pull produced, with -1 standing for an empty pull.
pub open spec fn out_val<T: PrimeInt>(r: Option<T>) -> int {
    match r {
        Some(p) => p.v(),
        None => -1,
    }
}

impl<T: PrimeInt> Primes<T> {
    /// Pulls the next prime: the least representable prime at or above the
    /// frontier, or `None` exactly when no such prime exists.
    pub fn next(&mut self) -> (r: Option<T>)
        requires
            old(self).wf(),
        ensures
            final(self).wf(),
            next_rel(*old(self), *final(self), r),
    {
        if self.done {
            return None;
        }
        let two = T::two();
        if self.current.same_value(two) {
            self.current = T::three();
            proof {
                T::max_v_at_least();
                lemma_small_primes();
            }
            return Some(two);
        }
        let ghost lo0: int = self.lo();
        loop
            invariant
                self.wf(),
                !self.done,
                3 <= self.current.v() <= T::max_v(),
                self.current.v() % 2 == 1,
                lo0 == old(self).lo(),
                lo0 <= self.current.v(),
                forall|q: int| lo0 <= q < self.current.v() ==> !is_prime(q),
            decreases T::max_v() - self.current.v(),
        {
            let comp = self.scan_composite();
            let c = self.current;
            let ghost mid = *self;
            let mut did_push = false;
            if !comp {
                if let Some(sq) = c.mul_checked(c) {
                    self.primes.push(c);
                    self.multiples.push(sq);
                    self.overflowed.push(false);
                    did_push = true;
                    proof {
                        lemma_mod_multiples_basic(c.v(), c.v());
                    }
                }
            }
            match c.add_checked(T::two()) {
                Some(nx) => {
                    self.current = nx;
                    proof {
                        let cv = c.v();
                        assert(self.cand() == cv + 2);
                        assert(mid.cand() == cv);
                        assert forall|j: int| 0 <= j < self.primes@.len()
                            implies self.entry_ok(j) by {
                            if j < mid.primes@.len() {
                                assert(mid.entry_ok(j));
                            } else {
                                assert(did_push);
                                assert(self.primes@[j] == c);
                                assert(self.multiples@[j].v() == cv * cv);
                                assert(!self.overflowed@[j]);
                                assert(divides(cv, cv * cv));
                                assert(cv <= cv * cv) by (nonlinear_arith)
                                    requires
                                        cv >= 3,
                                ;
                            }
                        }
                        assert forall|a: int, b: int| 0 <= a < b < self.primes@.len()
                            implies self.primes@[a].v() < self.primes@[b].v() by {
                            if b < mid.primes@.len() {
                                assert(mid.primes@[a].v() < mid.primes@[b].v());
                            } else {
                                assert(mid.entry_ok(a));
                            }
                        }
                        assert forall|q: int|
                            3 <= q < cv + 2 && is_prime(q) && #[trigger] (q * q) <= T::max_v()
                            implies exists|idx: int|
                                0 <= idx < self.primes@.len()
                                    && self.primes@[idx].v() == q by {
                            if q < cv {
                                assert(exists|idx: int|
                                    0 <= idx < mid.primes@.len()
                                        && mid.primes@[idx].v() == q);
                                let idx = choose|idx: int|
                                    0 <= idx < mid.primes@.len()
                                        && mid.primes@[idx].v() == q;
                                assert(self.primes@[idx].v() == q);
                            } else if q == cv {
                                assert(did_push);
                                assert(self.primes@[mid.primes@.len() as int].v() == q);
                            } else {
                                assert(q == cv + 1);
                                lemma_even_not_prime(q);
                                assert(false);
                            }
                        }
                        assert(self.wf());
                        if comp {
                            assert forall|q: int| lo0 <= q < cv + 2
                                implies !is_prime(q) by {
                                if q == cv + 1 {
                                    lemma_even_not_prime(q);
                                }
                            }
                        }
                    }
                    if !comp {
                        return Some(c);
                    }
                }
                None => {
                    self.done = true;
                    proof {
                        let cv = c.v();
                        assert(self.wf());
                        assert forall|q: int| lo0 <= q <= T::max_v() && q != cv
                            implies !is_prime(q) by {
                            if q > cv {
                                assert(q == cv + 1);
                                lemma_even_not_prime(q);
                            }
                        }
                    }
                    if comp {
                        return None;
                    } else {
                        return Some(c);
                    }
                }
            }
        }
    }
}

/// Determinism: the outcome of a pull is a function of the frontier alone.
/// Two generators at the same frontier produce the same value (or both
/// produce none) and land at the same frontier again, so independently
/// constructed generators of one width produce identical sequences however
/// many times they are pulled.
pub proof fn lemma_next_deterministic<T: PrimeInt>(
    pre1: Primes<T>,
    post1: Primes<T>,
    r1: Option<T>,
    pre2: Primes<T>,
    post2: Primes<T>,
    r2: Option<T>,
)
    requires
        pre1.lo() == pre2.lo(),
        next_rel(pre1, post1, r1),
        next_rel(pre2, post2, r2),
    ensures
        r1 is Some <==> r2 is Some,
        out_val(r1) == out_val(r2),
        post1.lo() == post2.lo(),
{
    match (r1, r2) {
        (Some(p1), Some(p2)) => {
            if p1.v() < p2.v() {
                assert(!is_prime(p1.v()));
                assert(false);
            }
            if p2.v() < p1.v() {
                assert(!is_prime(p2.v()));
                assert(false);
            }
        }
        (Some(p1), None) => {
            assert(!is_prime(p1.v()));
            assert(false);
        }
        (None, Some(p2)) => {
            assert(!is_prime(p2.v()));
            assert(false);
        }
        (None, None) => {}
    }
}

/// The frontier never moves backwards: pulling can only advance a generator.
pub proof fn lemma_lo_monotone<T: PrimeInt>(pre: Primes<T>, post: Primes<T>, r: Option<T>)
    requires
        pre.wf(),
        next_rel(pre, post, r),
    ensures
        pre.lo() <= post.lo(),
{
    T::max_v_at_least();
    match r {
        Some(p) => {
            assert(post.lo() == next_frontier::<T>(p.v()));
            assert(next_frontier::<T>(p.v()) > p.v());
        }
        None => {}
    }
}

/// Output is strictly ascending, and no later output is evenly divisible by
/// an earlier one: a pull made at or after another pull produces a strictly
/// larger prime, which the earlier prime does not divide.
pub proof fn lemma_outputs_ascending<T: PrimeInt>(
    pre1: Primes<T>,
    post1: Primes<T>,
    p1: T,
    pre2: Primes<T>,
    post2: Primes<T>,
    p2: T,
)
    requires
        next_rel(pre1, post1, Some(p1)),
        next_rel(pre2, post2, Some(p2)),
        post1.lo() <= pre2.lo(),
    ensures
        p1.v() < p2.v(),
        p2.v() % p1.v() != 0,
{
    assert(next_frontier::<T>(p1.v()) > p1.v());
    assert(!divides(p1.v(), p2.v()));
}

/// Exhaustion is permanent: once the frontier lies past the representable
/// range, every pull produces nothing and leaves the frontier where it was.
pub proof fn lemma_exhausted_forever<T: PrimeInt>(pre: Primes<T>, post: Primes<T>, r: Option<T>)
    requires
        next_rel(pre, post, r),
        pre.lo() > T::max_v(),
    ensures
        r is None,
        post.lo() == T::max_v() + 2,
{
    match r {
        Some(p) => {
            assert(p.v() <= T::max_v());
            assert(false);
        }
        None => {}
    }
}

/// From a fresh generator, at any width, the first five pulls produce
/// 2, 3, 5, 7 and 11.
pub proof fn lemma_first_five<T: PrimeInt>(
    s0: Primes<T>,
    s1: Primes<T>,
    s2: Primes<T>,
    s3: Primes<T>,
    s4: Primes<T>,
    s5: Primes<T>,
    r1: Option<T>,
    r2: Option<T>,
    r3: Option<T>,
    r4: Option<T>,
    r5: Option<T>,
)
    requires
        s0.lo() == 2,
        next_rel(s0, s1, r1),
        next_rel(s1, s2, r2),
        next_rel(s2, s3, r3),
        next_rel(s3, s4, r4),
        next_rel(s4, s5, r5),
    ensures
        out_val(r1) == 2,
        out_val(r2) == 3,
        out_val(r3) == 5,
        out_val(r4) == 7,
        out_val(r5) == 11,
{
    T::max_v_at_least();
    lemma_small_primes();
    match r1 {
        Some(p) => {
            if p.v() != 2 {
                assert(!is_prime(2));
                assert(false);
            }
        }
        None => {
            assert(!is_prime(2));
            assert(false);
        }
    }
    assert(s1.lo() == 3);
    match r2 {
        Some(p) => {
            if p.v() != 3 {
                assert(!is_prime(3));
                assert(false);
            }
        }
        None => {
            assert(!is_prime(3));
            assert(false);
        }
    }
    assert(s2.lo() == 5);
    match r3 {
        Some(p) => {
            if p.v() != 5 {
                assert(!is_prime(5));
                assert(false);
            }
        }
        None => {
            assert(!is_prime(5));
            assert(false);
        }
    }
    assert(s3.lo() == 7);
    match r4 {
        Some(p) => {
            if p.v() != 7 {
                assert(!is_prime(7));
                assert(false);
            }
        }
        None => {
            assert(!is_prime(7));
            assert(false);
        }
    }
    assert(s4.lo() == 9);
    match r5 {
        Some(p) => {
            if p.v() > 11 {
                assert(!is_prime(11));
                assert(false);
            }
            assert(p.v() != 9 && p.v() != 10);
            assert(p.v() == 11);
        }
        None => {
            assert(!is_prime(11));
            assert(false);
        }
    }
}

/// Cross-width consistency, one pull at a time: with the two frontiers
/// aligned, the narrower width produces exactly what the wider width
/// produces whenever that value fits the narrower width, and produces
/// nothing when it does not. The frontiers stay aligned while the narrower
/// range lasts and leave it together, so discarding from the wider stream
/// every value that does not fit the narrower width yields exactly the
/// narrower stream.
pub proof fn lemma_cross_width_step<A: PrimeInt, B: PrimeInt>(
    pre_a: Primes<A>,
    post_a: Primes<A>,
    r_a: Option<A>,
    pre_b: Primes<B>,
    post_b: Primes<B>,
    r_b: Option<B>,
)
    requires
        A::max_v() <= B::max_v(),
        pre_a.lo() == pre_b.lo(),
        next_rel(pre_a, post_a, r_a),
        next_rel(pre_b, post_b, r_b),
    ensures
        (r_b is Some && out_val(r_b) <= A::max_v())
            ==> (r_a is Some && out_val(r_a) == out_val(r_b)),
        (r_b is None || out_val(r_b) > A::max_v()) ==> r_a is None,
        post_b.lo() <= A::max_v() ==> post_a.lo() == post_b.lo(),
        post_b.lo() > A::max_v() ==> post_a.lo() > A::max_v(),
{
    A::max_v_at_least();
    match r_b {
        Some(pb) => {
            if pb.v() <= A::max_v() {
                match r_a {
                    Some(pa) => {
                        if pa.v() < pb.v() {
                            assert(!is_prime(pa.v()));
                            assert(false);
                        }
                        if pb.v() < pa.v() {
                            assert(!is_prime(pb.v()));
                            assert(false);
                        }
                    }
                    None => {
                        assert(!is_prime(pb.v()));
                        assert(false);
                    }
                }
            } else {
                match r_a {
                    Some(pa) => {
                        assert(!is_prime(pa.v()));
                        assert(false);
                    }
                    None => {}
                }
            }
        }
        None => {
            match r_a {
                Some(pa) => {
                    assert(!is_prime(pa.v()));
                    assert(false);
                }
                None => {}
            }
        }
    }
}

/// Returns a fresh generator that produces every prime representable at the
/// width `T`, in increasing order, one per pull.
pub fn primes<T: PrimeInt>() -> (r: Primes<T>)
    ensures
        r.wf(),
        r.lo() == 2,
{
    Primes {
        primes: Vec::new(),
        multiples: Vec::new(),
        overflowed: Vec::new(),
        current: T::two(),
        done: false,
    }
}

impl<T: PrimeInt> Default for Primes<T> {
    /// A fresh generator, positioned before the first prime.
    fn default() -> (r: Self)
        ensures
            r.wf(),
            r.lo() == 2,
    {
        primes()
    }
}

} // verus!
