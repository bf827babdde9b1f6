//! Greatest common divisors of unsigned integers, and the argument-list
//! driver that folds them over a list of decimal numbers.
pub mod euclid;

pub use euclid::gcd;
pub mod driver;

pub use driver::{gcd_all, parse_numbers, run, CliError, Report, USAGE};
