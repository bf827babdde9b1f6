//! The command-line contract: a list of decimal arguments is parsed into
//! `u64` values, and the greatest common divisor is folded over them from
//! left to right.
use crate::euclid::{gcd, gcd_of, lemma_gcd_is_gcd};
use vstd::prelude::*;

verus! {

/// The message written when no number is given.
pub const USAGE: &'static str = "Usage: gcd NUMBER ...";

/// Why an argument list yields no greatest common divisor.
#[derive(Debug, PartialEq, Eq)]
pub enum CliError {
    /// No number was given.
    Usage,
    /// This argument is not the decimal text of a `u64`.
    Parse(String),
    /// Two or more numbers were given and one of them is zero.
    PreconditionViolation,
}

/// The numbers that were read and their greatest common divisor.
#[derive(Debug, PartialEq, Eq)]
pub struct Report {
    pub numbers: Vec<u64>,
    pub divisor: u64,
}

/// One of the ASCII digits `0` to `9`.
pub open spec fn is_decimal_digit(c: char) -> bool {
    '0' <= c <= '9'
}

/// The number that a string of decimal digits denotes.
pub open spec fn digits_value(s: Seq<char>) -> nat
    decreases s.len(),
{
    if s.len() == 0 {
        0
    } else {
        10 * digits_value(s.drop_last()) + (s.last() as nat - '0' as nat) as nat
    }
}

/// The text after an optional leading `+`.
pub open spec fn unsigned_digits(s: Seq<char>) -> Seq<char> {
    if s.len() > 0 && s[0] == '+' {
        s.drop_first()
    } else {
        s
    }
}

/// The value of `s` read as an unsigned decimal: an optional `+` and then
/// one or more digits, whose value fits in a `u64`.
pub open spec fn u64_value(s: Seq<char>) -> Option<u64> {
    let d = unsigned_digits(s);
    if d.len() > 0 && (forall|i: int| 0 <= i < d.len() ==> is_decimal_digit(#[trigger] d[i]))
        && digits_value(d) <= u64::MAX {
        Some(digits_value(d) as u64)
    } else {
        None
    }
}

/// The values of all arguments, in order, or the first argument that is
/// not a number.
pub open spec fn parse_all(args: Seq<String>) -> Result<Seq<u64>, String>
    decreases args.len(),
{
    if args.len() == 0 {
        Ok(Seq::empty())
    } else {
        match parse_all(args.drop_last()) {
            Err(bad) => Err(bad),
            Ok(vs) => match u64_value(args.last()@) {
                Some(v) => Ok(vs.push(v)),
                None => Err(args.last()),
            },
        }
    }
}

/// The greatest common divisor folded over `ns` from the left, starting
/// from its first element.
pub open spec fn gcd_fold(ns: Seq<u64>) -> nat
    decreases ns.len(),
{
    if ns.len() == 0 {
        0
    } else if ns.len() == 1 {
        ns[0] as nat
    } else {
        gcd_of(gcd_fold(ns.drop_last()), ns.last() as nat)
    }
}

/// Some element of `ns` is zero.
pub open spec fn has_zero(ns: Seq<u64>) -> bool {
    exists|i: int| 0 <= i < ns.len() && ns[i] == 0
}

/// Relies on `u64::from_str`: an optional `+` followed by one or more
/// decimal digits parses to their value when it fits in a `u64`; any other
/// text is an error.
#[verifier::external_body]
fn parse_u64(s: &str) -> (r: Option<u64>)
    ensures
        r == u64_value(s@),
{
    <u64 as std::str::FromStr>::from_str(s).ok()
}

/// Once a prefix of the arguments holds a bad one, so does the whole list.
proof fn lemma_parse_error_persists(args: Seq<String>, i: int)
    requires
        0 <= i <= args.len(),
        parse_all(args.take(i)) is Err,
    ensures
        parse_all(args) == parse_all(args.take(i)),
    decreases args.len() - i,
{
    if i == args.len() {
        assert(args.take(i) =~= args);
    } else {
        assert(args.take(i + 1).drop_last() =~= args.take(i));
        lemma_parse_error_persists(args, i + 1);
    }
}

/// Reads every argument as a `u64`, stopping at the first that is not one.
pub fn parse_numbers(args: &Vec<String>) -> (r: Result<Vec<u64>, CliError>)
    ensures
        match parse_all(args@) {
            Ok(vs) => r matches Ok(v) && v@ == vs,
            Err(bad) => r == Err::<Vec<u64>, CliError>(CliError::Parse(bad)),
        },
{
    let mut numbers: Vec<u64> = Vec::new();
    let mut i: usize = 0;
    while i < args.len()
        invariant
            i <= args.len(),
            parse_all(args@.take(i as int)) == Ok::<Seq<u64>, String>(numbers@),
        decreases args.len() - i,
    {
        assert(args@.take(i + 1).drop_last() =~= args@.take(i as int));
        match parse_u64(args[i].as_str()) {
            Some(v) => {
                numbers.push(v);
            },
            None => {
                proof {
                    lemma_parse_error_persists(args@, i + 1);
                }
                return Err(CliError::Parse(args[i].clone()));
            },
        }
        i = i + 1;
    }
    assert(args@.take(i as int) =~= args@);
    Ok(numbers)
}

/// Folds `gcd` over the numbers from left to right, starting from the first.
pub fn gcd_all(numbers: &Vec<u64>) -> (d: u64)
    requires
        numbers.len() >= 1,
        numbers.len() >= 2 ==> !has_zero(numbers@),
    ensures
        d == gcd_fold(numbers@),
{
    let mut d: u64 = numbers[0];
    let mut i: usize = 1;
    assert(numbers@.take(1).drop_last().len() == 0);
    while i < numbers.len()
        invariant
            1 <= i <= numbers.len(),
            numbers.len() >= 2 ==> !has_zero(numbers@),
            numbers.len() >= 2 ==> d != 0,
            d == gcd_fold(numbers@.take(i as int)),
        decreases numbers.len() - i,
    {
        assert(numbers@.take(i + 1).drop_last() =~= numbers@.take(i as int));
        assert(numbers[i as int] != 0);
        d = gcd(d, numbers[i]);
        i = i + 1;
    }
    assert(numbers@.take(i as int) =~= numbers@);
    d
}

/// Whether any of the numbers is zero.
fn any_zero(numbers: &Vec<u64>) -> (z: bool)
    ensures
        z == has_zero(numbers@),
{
    let mut i: usize = 0;
    while i < numbers.len()
        invariant
            i <= numbers.len(),
            forall|j: int| 0 <= j < i ==> numbers[j] != 0,
        decreases numbers.len() - i,
    {
        if numbers[i] == 0 {
            return true;
        }
        i = i + 1;
    }
    false
}

/// Reads the arguments and folds `gcd` over their values.
pub fn run(args: &Vec<String>) -> (r: Result<Report, CliError>)
    ensures
        match parse_all(args@) {
            Err(bad) => r == Err::<Report, CliError>(CliError::Parse(bad)),
            Ok(ns) => if ns.len() == 0 {
                r == Err::<Report, CliError>(CliError::Usage)
            } else if ns.len() >= 2 && has_zero(ns) {
                r == Err::<Report, CliError>(CliError::PreconditionViolation)
            } else {
                r matches Ok(rep) && rep.numbers@ == ns && rep.divisor == gcd_fold(ns)
            },
        },
{
    let numbers = match parse_numbers(args) {
        Ok(v) => v,
        Err(e) => {
            return Err(e);
        },
    };
    if numbers.len() == 0 {
        return Err(CliError::Usage);
    }
    if numbers.len() >= 2 && any_zero(&numbers) {
        return Err(CliError::PreconditionViolation);
    }
    let divisor = gcd_all(&numbers);
    Ok(Report { numbers, divisor })
}

} // verus!
