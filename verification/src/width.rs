//! The numeric capabilities the sieve asks of a machine-integer width: a view
//! as a mathematical integer, the largest representable value, the small
//! constants it steps with, overflow-checked addition and multiplication, and
//! the order and equality tests. One implementation per primitive integer
//! type makes the single generic algorithm available at every width.

use vstd::prelude::*;

verus! {

pub trait PrimeInt: Sized + Copy {
    /// The mathematical value of this machine integer.
    spec fn v(self) -> int;

    /// The largest value representable at this width.
    spec fn max_v() -> int;

    /// Every width admits at least the values of an eight-bit signed integer.
    proof fn max_v_at_least()
        ensures
            Self::max_v() >= 127,
    ;

    fn two() -> (r: Self)
        ensures
            r.v() == 2,
    ;

    fn three() -> (r: Self)
        ensures
            r.v() == 3,
    ;

    /// Overflow-checked addition of two nonnegative values.
    fn add_checked(self, rhs: Self) -> (r: Option<Self>)
        requires
            0 <= self.v(),
            0 <= rhs.v(),
        ensures
            match r {
                Some(s) => s.v() == self.v() + rhs.v() && s.v() <= Self::max_v(),
                None => self.v() + rhs.v() > Self::max_v(),
            },
    ;

    /// Overflow-checked multiplication of two nonnegative values.
    fn mul_checked(self, rhs: Self) -> (r: Option<Self>)
        requires
            0 <= self.v(),
            0 <= rhs.v(),
        ensures
            match r {
                Some(s) => s.v() == self.v() * rhs.v() && s.v() <= Self::max_v(),
                None => self.v() * rhs.v() > Self::max_v(),
            },
    ;

    fn less_than(self, rhs: Self) -> (r: bool)
        ensures
            r == (self.v() < rhs.v()),
    ;

    fn same_value(self, rhs: Self) -> (r: bool)
        ensures
            r == (self.v() == rhs.v()),
    ;
}

impl PrimeInt for u8 {
    open spec fn v(self) -> int {
        self as int
    }

    open spec fn max_v() -> int {
        u8::MAX as int
    }

    proof fn max_v_at_least() {
    }

    fn two() -> (r: Self) {
        2
    }

    fn three() -> (r: Self) {
        3
    }

    fn add_checked(self, rhs: Self) -> (r: Option<Self>) {
        self.checked_add(rhs)
    }

    fn mul_checked(self, rhs: Self) -> (r: Option<Self>) {
        proof {
            vstd::arithmetic::mul::lemma_mul_nonnegative(self as int, rhs as int);
        }
        self.checked_mul(rhs)
    }

    fn less_than(self, rhs: Self) -> (r: bool) {
        self < rhs
    }

    fn same_value(self, rhs: Self) -> (r: bool) {
        self == rhs
    }
}


impl PrimeInt for u16 {
    open spec fn v(self) -> int {
        self as int
    }

    open spec fn max_v() -> int {
        u16::MAX as int
    }

    proof fn max_v_at_least() {
    }

    fn two() -> (r: Self) {
        2
    }

    fn three() -> (r: Self) {
        3
    }

    fn add_checked(self, rhs: Self) -> (r: Option<Self>) {
        self.checked_add(rhs)
    }

    fn mul_checked(self, rhs: Self) -> (r: Option<Self>) {
        proof {
            vstd::arithmetic::mul::lemma_mul_nonnegative(self as int, rhs as int);
        }
        self.checked_mul(rhs)
    }

    fn less_than(self, rhs: Self) -> (r: bool) {
        self < rhs
    }

    fn same_value(self, rhs: Self) -> (r: bool) {
        self == rhs
    }
}


impl PrimeInt for u32 {
    open spec fn v(self) -> int {
        self as int
    }

    open spec fn max_v() -> int {
        u32::MAX as int
    }

    proof fn max_v_at_least() {
    }

    fn two() -> (r: Self) {
        2
    }

    fn three() -> (r: Self) {
        3
    }

    fn add_checked(self, rhs: Self) -> (r: Option<Self>) {
        self.checked_add(rhs)
    }

    fn mul_checked(self, rhs: Self) -> (r: Option<Self>) {
        proof {
            vstd::arithmetic::mul::lemma_mul_nonnegative(self as int, rhs as int);
        }
        self.checked_mul(rhs)
    }

    fn less_than(self, rhs: Self) -> (r: bool) {
        self < rhs
    }

    fn same_value(self, rhs: Self) -> (r: bool) {
        self == rhs
    }
}


impl PrimeInt for u64 {
    open spec fn v(self) -> int {
        self as int
    }

    open spec fn max_v() -> int {
        u64::MAX as int
    }

    proof fn max_v_at_least() {
    }

    fn two() -> (r: Self) {
        2
    }

    fn three() -> (r: Self) {
        3
    }

    fn add_checked(self, rhs: Self) -> (r: Option<Self>) {
        self.checked_add(rhs)
    }

    fn mul_checked(self, rhs: Self) -> (r: Option<Self>) {
        proof {
            vstd::arithmetic::mul::lemma_mul_nonnegative(self as int, rhs as int);
        }
        self.checked_mul(rhs)
    }

    fn less_than(self, rhs: Self) -> (r: bool) {
        self < rhs
    }

    fn same_value(self, rhs: Self) -> (r: bool) {
        self == rhs
    }
}


impl PrimeInt for u128 {
    open spec fn v(self) -> int {
        self as int
    }

    open spec fn max_v() -> int {
        u128::MAX as int
    }

    proof fn max_v_at_least() {
    }

    fn two() -> (r: Self) {
        2
    }

    fn three() -> (r: Self) {
        3
    }

    fn add_checked(self, rhs: Self) -> (r: Option<Self>) {
        self.checked_add(rhs)
    }

    fn mul_checked(self, rhs: Self) -> (r: Option<Self>) {
        proof {
            vstd::arithmetic::mul::lemma_mul_nonnegative(self as int, rhs as int);
        }
        self.checked_mul(rhs)
    }

    fn less_than(self, rhs: Self) -> (r: bool) {
        self < rhs
    }

    fn same_value(self, rhs: Self) -> (r: bool) {
        self == rhs
    }
}


impl PrimeInt for usize {
    open spec fn v(self) -> int {
        self as int
    }

    open spec fn max_v() -> int {
        usize::MAX as int
    }

    proof fn max_v_at_least() {
    }

    fn two() -> (r: Self) {
        2
    }

    fn three() -> (r: Self) {
        3
    }

    fn add_checked(self, rhs: Self) -> (r: Option<Self>) {
        self.checked_add(rhs)
    }

    fn mul_checked(self, rhs: Self) -> (r: Option<Self>) {
        proof {
            vstd::arithmetic::mul::lemma_mul_nonnegative(self as int, rhs as int);
        }
        self.checked_mul(rhs)
    }

    fn less_than(self, rhs: Self) -> (r: bool) {
        self < rhs
    }

    fn same_value(self, rhs: Self) -> (r: bool) {
        self == rhs
    }
}


impl PrimeInt for i8 {
    open spec fn v(self) -> int {
        self as int
    }

    open spec fn max_v() -> int {
        i8::MAX as int
    }

    proof fn max_v_at_least() {
    }

    fn two() -> (r: Self) {
        2
    }

    fn three() -> (r: Self) {
        3
    }

    fn add_checked(self, rhs: Self) -> (r: Option<Self>) {
        self.checked_add(rhs)
    }

    fn mul_checked(self, rhs: Self) -> (r: Option<Self>) {
        proof {
            vstd::arithmetic::mul::lemma_mul_nonnegative(self as int, rhs as int);
        }
        self.checked_mul(rhs)
    }

    fn less_than(self, rhs: Self) -> (r: bool) {
        self < rhs
    }

    fn same_value(self, rhs: Self) -> (r: bool) {
        self == rhs
    }
}


impl PrimeInt for i16 {
    open spec fn v(self) -> int {
        self as int
    }

    open spec fn max_v() -> int {
        i16::MAX as int
    }

    proof fn max_v_at_least() {
    }

    fn two() -> (r: Self) {
        2
    }

    fn three() -> (r: Self) {
        3
    }

    fn add_checked(self, rhs: Self) -> (r: Option<Self>) {
        self.checked_add(rhs)
    }

    fn mul_checked(self, rhs: Self) -> (r: Option<Self>) {
        proof {
            vstd::arithmetic::mul::lemma_mul_nonnegative(self as int, rhs as int);
        }
        self.checked_mul(rhs)
    }

    fn less_than(self, rhs: Self) -> (r: bool) {
        self < rhs
    }

    fn same_value(self, rhs: Self) -> (r: bool) {
        self == rhs
    }
}


impl PrimeInt for i32 {
    open spec fn v(self) -> int {
        self as int
    }

    open spec fn max_v() -> int {
        i32::MAX as int
    }

    proof fn max_v_at_least() {
    }

    fn two() -> (r: Self) {
        2
    }

    fn three() -> (r: Self) {
        3
    }

    fn add_checked(self, rhs: Self) -> (r: Option<Self>) {
        self.checked_add(rhs)
    }

    fn mul_checked(self, rhs: Self) -> (r: Option<Self>) {
        proof {
            vstd::arithmetic::mul::lemma_mul_nonnegative(self as int, rhs as int);
        }
        self.checked_mul(rhs)
    }

    fn less_than(self, rhs: Self) -> (r: bool) {
        self < rhs
    }

    fn same_value(self, rhs: Self) -> (r: bool) {
        self == rhs
    }
}


impl PrimeInt for i64 {
    open spec fn v(self) -> int {
        self as int
    }

    open spec fn max_v() -> int {
        i64::MAX as int
    }

    proof fn max_v_at_least() {
    }

    fn two() -> (r: Self) {
        2
    }

    fn three() -> (r: Self) {
        3
    }

    fn add_checked(self, rhs: Self) -> (r: Option<Self>) {
        self.checked_add(rhs)
    }

    fn mul_checked(self, rhs: Self) -> (r: Option<Self>) {
        proof {
            vstd::arithmetic::mul::lemma_mul_nonnegative(self as int, rhs as int);
        }
        self.checked_mul(rhs)
    }

    fn less_than(self, rhs: Self) -> (r: bool) {
        self < rhs
    }

    fn same_value(self, rhs: Self) -> (r: bool) {
        self == rhs
    }
}


impl PrimeInt for i128 {
    open spec fn v(self) -> int {
        self as int
    }

    open spec fn max_v() -> int {
        i128::MAX as int
    }

    proof fn max_v_at_least() {
    }

    fn two() -> (r: Self) {
        2
    }

    fn three() -> (r: Self) {
        3
    }

    fn add_checked(self, rhs: Self) -> (r: Option<Self>) {
        self.checked_add(rhs)
    }

    fn mul_checked(self, rhs: Self) -> (r: Option<Self>) {
        proof {
            vstd::arithmetic::mul::lemma_mul_nonnegative(self as int, rhs as int);
        }
        self.checked_mul(rhs)
    }

    fn less_than(self, rhs: Self) -> (r: bool) {
        self < rhs
    }

    fn same_value(self, rhs: Self) -> (r: bool) {
        self == rhs
    }
}


impl PrimeInt for isize {
    open spec fn v(self) -> int {
        self as int
    }

    open spec fn max_v() -> int {
        isize::MAX as int
    }

    proof fn max_v_at_least() {
    }

    fn two() -> (r: Self) {
        2
    }

    fn three() -> (r: Self) {
        3
    }

    fn add_checked(self, rhs: Self) -> (r: Option<Self>) {
        self.checked_add(rhs)
    }

    fn mul_checked(self, rhs: Self) -> (r: Option<Self>) {
        proof {
            vstd::arithmetic::mul::lemma_mul_nonnegative(self as int, rhs as int);
        }
        self.checked_mul(rhs)
    }

    fn less_than(self, rhs: Self) -> (r: bool) {
        self < rhs
    }

    fn same_value(self, rhs: Self) -> (r: bool) {
        self == rhs
    }
}


} // verus!
