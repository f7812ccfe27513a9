//! End-to-end tests: source text through the lexer, parser and evaluator.

use touch_grass::run_source;
use touch_grass::interpreter::EvalError;

const FUEL: u64 = 1_000_000;

fn outputs(source: &str) -> Vec<String> {
    let outcome = run_source(source.to_string(), FUEL);
    assert!(outcome.error.is_none(), "unexpected error: {:?}", outcome.error);
    assert!(
        outcome.diagnostics.is_empty(),
        "unexpected diagnostics: {:?}",
        outcome.diagnostics
    );
    outcome.output
}

#[test]
fn declaration_then_read_prints_value() {
    assert_eq!(outputs("touch grass number x as 5 print x"), vec!["5".to_string()]);
}

#[test]
fn boolean_literals_render_as_cap_words() {
    assert_eq!(outputs("print no_cap"), vec!["no cap".to_string()]);
    assert_eq!(outputs("print cap"), vec!["cap".to_string()]);
}

#[test]
fn comparison_renders_booleans() {
    assert_eq!(outputs("print 3 > 2"), vec!["no cap".to_string()]);
    assert_eq!(outputs("print 2 > 3"), vec!["cap".to_string()]);
}

#[test]
fn subtraction_is_left_associative() {
    assert_eq!(outputs("print 10 - 3 - 2"), vec!["5".to_string()]);
}

#[test]
fn while_loop_runs_body_exactly_three_times() {
    let out = outputs("touch grass number x as 0 while x < 3 then print x set x to x + 1 fr fr print x");
    assert_eq!(
        out,
        vec!["0".to_string(), "1".to_string(), "2".to_string(), "3".to_string()]
    );
}

#[test]
fn bad_token_does_not_abort_the_program() {
    let outcome = run_source("? print \"ok\"".to_string(), FUEL);
    assert!(outcome.error.is_none());
    assert_eq!(outcome.output, vec!["ok".to_string()]);
    assert_eq!(
        outcome.diagnostics,
        vec!["Error: Unexpected token in statement position".to_string()]
    );
}

#[test]
fn malformed_declaration_is_reported_and_skipped() {
    let outcome = run_source("touch grass x as 5 print 1".to_string(), FUEL);
    assert!(outcome.error.is_none());
    assert_eq!(outcome.output, vec!["1".to_string()]);
    assert_eq!(
        outcome.diagnostics,
        vec![
            "Error: Expected number type after touch grass".to_string(),
            // the statement loop then skips forward through the leftovers
            "Error: Unexpected token in statement position".to_string(),
            "Error: Unexpected token in statement position".to_string(),
        ]
    );
}

#[test]
fn missing_then_in_a_conditional_is_reported() {
    let outcome = run_source("go outside if 1 > 2 print 1 fr fr".to_string(), FUEL);
    assert!(outcome.error.is_none());
    assert_eq!(
        outcome.diagnostics[0],
        "Error: Expected 'then' after condition".to_string()
    );
}

#[test]
fn unbound_identifier_is_a_hard_error() {
    let outcome = run_source("print y".to_string(), FUEL);
    assert_eq!(outcome.error, Some(EvalError::UnboundIdentifier("y".to_string())));
    assert!(outcome.output.is_empty());
}

#[test]
fn addition_and_equality() {
    assert_eq!(outputs("print 2 + 3"), vec!["5".to_string()]);
    assert_eq!(outputs("print 2 = 2"), vec!["no cap".to_string()]);
    assert_eq!(outputs("print 2 = 3"), vec!["cap".to_string()]);
    assert_eq!(outputs("print 2 < 3"), vec!["no cap".to_string()]);
}

#[test]
fn negative_numbers_render_with_a_minus_sign() {
    assert_eq!(outputs("print 0 - 5"), vec!["-5".to_string()]);
    assert_eq!(outputs("print 3 - 10 - 2"), vec!["-9".to_string()]);
}

#[test]
fn null_literal_prints_bugatti() {
    assert_eq!(outputs("print bugatti"), vec!["bugatti".to_string()]);
}

#[test]
fn string_literal_prints_raw_contents() {
    assert_eq!(outputs("print \"hello world\""), vec!["hello world".to_string()]);
}

#[test]
fn unterminated_string_is_reported_but_still_printed() {
    let outcome = run_source("print \"abc".to_string(), FUEL);
    assert!(outcome.error.is_none());
    assert_eq!(outcome.output, vec!["abc".to_string()]);
    assert_eq!(
        outcome.diagnostics,
        vec!["Error: Unterminated string literal".to_string()]
    );
}

#[test]
fn oversized_number_literal_becomes_zero() {
    assert_eq!(outputs("print 99999999999999999999"), vec!["0".to_string()]);
    assert_eq!(outputs("print 9223372036854775807"), vec!["9223372036854775807".to_string()]);
}

#[test]
fn assignment_to_undeclared_name_fails() {
    let outcome = run_source("set y to 5".to_string(), FUEL);
    assert_eq!(outcome.error, Some(EvalError::UndeclaredAssignment("y".to_string())));
}

#[test]
fn redeclaration_shadows_the_earlier_binding() {
    assert_eq!(
        outputs("touch grass number x as 1 touch grass number x as 2 print x"),
        vec!["2".to_string()]
    );
}

#[test]
fn assignment_overwrites_declared_name() {
    assert_eq!(
        outputs("touch grass number x as 1 set x to 7 print x"),
        vec!["7".to_string()]
    );
}

#[test]
fn conditional_takes_the_right_branch() {
    assert_eq!(
        outputs("go outside if 2 > 1 then print \"yes\" fr fr instead print \"no\" fr fr"),
        vec!["yes".to_string()]
    );
    assert_eq!(
        outputs("go outside if 1 > 2 then print \"yes\" fr fr instead print \"no\" fr fr"),
        vec!["no".to_string()]
    );
    assert_eq!(outputs("go outside if 1 > 2 then print \"yes\" fr fr"), Vec::<String>::new());
}

#[test]
fn non_boolean_conditional_condition_is_an_error() {
    let outcome = run_source("go outside if 1 then print 1 fr fr".to_string(), FUEL);
    assert_eq!(outcome.error, Some(EvalError::NonBooleanCondition));
}

#[test]
fn operators_on_non_numbers_are_an_error() {
    let outcome = run_source("print 1 + \"a\"".to_string(), FUEL);
    assert_eq!(outcome.error, Some(EvalError::InvalidOperands));
    let outcome = run_source("print no_cap + cap".to_string(), FUEL);
    assert_eq!(outcome.error, Some(EvalError::InvalidOperands));
}

#[test]
fn exhausted_step_budget_is_reported() {
    let outcome = run_source("while no_cap then fr fr".to_string(), 50);
    assert_eq!(outcome.error, Some(EvalError::OutOfFuel));
}

#[test]
fn a_larger_budget_finishes_the_same_loop() {
    let outcome = run_source(
        "touch grass number x as 0 while x < 100 then set x to x + 1 fr fr print x".to_string(),
        FUEL,
    );
    assert!(outcome.error.is_none());
    assert_eq!(outcome.output, vec!["100".to_string()]);
}

#[test]
fn empty_source_runs_quietly() {
    let outcome = run_source(String::new(), FUEL);
    assert!(outcome.error.is_none());
    assert!(outcome.output.is_empty());
    assert!(outcome.diagnostics.is_empty());
}

#[test]
fn addition_wraps_on_overflow() {
    assert_eq!(
        outputs("print 9223372036854775807 + 1"),
        vec!["-9223372036854775808".to_string()]
    );
}

#[test]
fn a_loop_can_accumulate_a_sum() {
    let source = "touch grass number i as 0 touch grass number s as 0 \
                  while i < 5 then set i to i + 1 set s to s + i fr fr print s";
    assert_eq!(outputs(source), vec!["15".to_string()]);
}

#[test]
fn truthiness_drives_while_conditions() {
    // A number condition is false exactly at zero.
    assert_eq!(
        outputs("touch grass number x as 2 while x then set x to x - 1 fr fr print x"),
        vec!["0".to_string()]
    );
}
