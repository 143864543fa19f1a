//! An incremental sieve of Eratosthenes: a pull-based generator that produces
//! every prime representable at a chosen machine-integer width, in strictly
//! increasing order, and silently signals exhaustion once no further prime
//! fits the width.

pub mod number;
pub mod width;
pub mod sieve;

pub use number::is_prime;
pub use sieve::primes;
pub use sieve::Primes;
pub use width::PrimeInt;
