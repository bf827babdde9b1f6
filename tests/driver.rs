use gcd::{gcd_all, parse_numbers, run, CliError, Report, USAGE};

fn strings(args: &[&str]) -> Vec<String> {
    args.iter().map(|a| a.to_string()).collect()
}

#[test]
fn no_arguments_is_a_usage_error() {
    assert_eq!(run(&strings(&[])), Err(CliError::Usage));
    assert_eq!(USAGE, "Usage: gcd NUMBER ...");
}

#[test]
fn two_arguments_report_their_gcd() {
    assert_eq!(
        run(&strings(&["12", "18"])),
        Ok(Report { numbers: vec![12, 18], divisor: 6 })
    );
}

#[test]
fn single_argument_is_its_own_gcd() {
    assert_eq!(
        run(&strings(&["42"])),
        Ok(Report { numbers: vec![42], divisor: 42 })
    );
}

#[test]
fn non_numeric_argument_is_named() {
    assert_eq!(
        run(&strings(&["12", "abc"])),
        Err(CliError::Parse("abc".to_string()))
    );
}

#[test]
fn first_bad_argument_is_named() {
    assert_eq!(
        run(&strings(&["x1", "7", "-3"])),
        Err(CliError::Parse("x1".to_string()))
    );
    assert_eq!(
        parse_numbers(&strings(&["7", "-3", "y"])),
        Err(CliError::Parse("-3".to_string()))
    );
}

#[test]
fn parse_error_comes_before_usage_and_zero_checks() {
    assert_eq!(
        run(&strings(&["0", "", "5"])),
        Err(CliError::Parse("".to_string()))
    );
}

#[test]
fn parsing_follows_unsigned_decimal_text() {
    assert_eq!(parse_numbers(&strings(&["+8", "007", "18446744073709551615"])),
        Ok(vec![8, 7, u64::MAX]));
    assert_eq!(
        parse_numbers(&strings(&["18446744073709551616"])),
        Err(CliError::Parse("18446744073709551616".to_string()))
    );
    assert_eq!(parse_numbers(&strings(&["+"])), Err(CliError::Parse("+".to_string())));
    assert_eq!(parse_numbers(&strings(&[" 1"])), Err(CliError::Parse(" 1".to_string())));
    assert_eq!(parse_numbers(&strings(&["1_0"])), Err(CliError::Parse("1_0".to_string())));
    assert_eq!(parse_numbers(&strings(&[])), Ok(vec![]));
}

#[test]
fn zero_among_several_numbers_is_refused() {
    assert_eq!(run(&strings(&["12", "0"])), Err(CliError::PreconditionViolation));
    assert_eq!(run(&strings(&["0", "12", "4"])), Err(CliError::PreconditionViolation));
}

#[test]
fn lone_zero_is_reported_as_is() {
    assert_eq!(
        run(&strings(&["0"])),
        Ok(Report { numbers: vec![0], divisor: 0 })
    );
}

#[test]
fn fold_runs_left_to_right_over_many_numbers() {
    assert_eq!(gcd_all(&vec![2 * 3 * 5 * 7, 3 * 5 * 11, 5 * 3 * 13]), 15);
    assert_eq!(gcd_all(&vec![9]), 9);
    assert_eq!(
        run(&strings(&["48", "180", "+64"])),
        Ok(Report { numbers: vec![48, 180, 64], divisor: 4 })
    );
}
