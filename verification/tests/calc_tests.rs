use expenses::calc::CalcError;
use expenses::calc::Expr;
use expenses::calc::Operator;

fn operand_value(token: &str) -> f64 {
    token.replace(',', ".").parse().unwrap()
}

fn apply(lhs: f64, op: &Operator, rhs: f64) -> f64 {
    match op {
        Operator::Add => lhs + rhs,
        Operator::Sub => lhs - rhs,
        Operator::Mul => lhs * rhs,
        Operator::Div => lhs / rhs,
    }
}

fn evaluate(plan: &Expr) -> f64 {
    let mut acc = operand_value(&plan.first);
    for (op, token) in &plan.steps {
        acc = apply(acc, op, operand_value(token));
    }
    acc
}

fn calc(expression: &str) -> Result<f64, CalcError> {
    let plan = expenses::calc::calc(expression)?;
    Ok(evaluate(&plan))
}

#[test]
fn calc_test() {
    let result = calc("10+10").unwrap();
    assert_eq!(result, 20.0);

    let result = calc("10+10+10").unwrap();
    assert_eq!(result, 30.0);

    let result = calc("10+10.1+10").unwrap();
    assert_eq!(result, 30.1);

    let result = calc("10+10+10-30").unwrap();
    assert_eq!(result, 0.0);

    let result = calc("10-30+10+10+3").unwrap();
    assert_eq!(result, 3.0);

    let result = calc("10/2").unwrap();
    assert_eq!(result, 5.0);

    let result = calc("10*2").unwrap();
    assert_eq!(result, 20.0);

    let result = calc("10").unwrap();
    assert_eq!(result, 10.0);

    let result = calc("10.1").unwrap();
    assert_eq!(result, 10.1);

    let result = calc("10-10").unwrap();
    assert_eq!(result, 0.0);

    let result = calc("10*10").unwrap();
    assert_eq!(result, 100.0);

    let result = calc("10/10").unwrap();
    assert_eq!(result, 1.0);
}

#[test]
fn left_fold_ignores_precedence() {
    // (10 + 10) * 2, not 10 + (10 * 2)
    assert_eq!(calc("10+10*2").unwrap(), 40.0);
    // (2 * 10) + 1
    assert_eq!(calc("2*10+1").unwrap(), 21.0);
}

#[test]
fn single_operand_expressions_are_valid() {
    assert_eq!(calc("10.1").unwrap(), 10.1);
    assert_eq!(calc("10").unwrap(), 10.0);
    assert_eq!(calc("7.").unwrap(), 7.0);
}

#[test]
fn division_by_zero_is_not_an_error() {
    let result = calc("10/0").unwrap();
    assert!(!result.is_finite());
    assert!(result.is_infinite());
}

#[test]
fn dangling_operator_fails() {
    assert_eq!(calc("10+"), Err(CalcError::UnexpectedShape));
    assert_eq!(calc("10*"), Err(CalcError::UnexpectedShape));
    assert_eq!(calc("+"), Err(CalcError::UnexpectedShape));
    assert_eq!(calc(""), Err(CalcError::UnexpectedShape));
}

#[test]
fn comma_reads_as_decimal_point() {
    assert_eq!(calc("10,5+1").unwrap(), 11.5);
    assert_eq!(calc("1,25*2").unwrap(), 2.5);
}

#[test]
fn doubled_separators_are_malformed() {
    assert_eq!(calc("10.5.3"), Err(CalcError::MalformedNumber));
    assert_eq!(calc("1..2+3"), Err(CalcError::MalformedNumber));
    assert_eq!(calc("1.,2"), Err(CalcError::MalformedNumber));
}

#[test]
fn stray_characters_separate_tokens() {
    // a stray character ends the operand but is otherwise ignored
    assert_eq!(calc("10+x10").unwrap(), 20.0);
    // two operands with no operator between them cannot be folded
    assert_eq!(calc("10 10"), Err(CalcError::UnexpectedShape));
}

#[test]
fn plan_structure_is_left_to_right() {
    let plan = expenses::calc::calc("10+10*2").unwrap();
    assert_eq!(plan.first, "10");
    assert_eq!(plan.steps.len(), 2);
    assert!(matches!(plan.steps[0], (Operator::Add, _)));
    assert_eq!(plan.steps[0].1, "10");
    assert!(matches!(plan.steps[1], (Operator::Mul, _)));
    assert_eq!(plan.steps[1].1, "2");
}

#[test]
fn operator_from_recognizes_the_four_characters() {
    assert!(matches!(Operator::from(&'+'), Some(Operator::Add)));
    assert!(matches!(Operator::from(&'-'), Some(Operator::Sub)));
    assert!(matches!(Operator::from(&'*'), Some(Operator::Mul)));
    assert!(matches!(Operator::from(&'/'), Some(Operator::Div)));
    assert!(Operator::from(&'x').is_none());
    assert!(Operator::from(&'.').is_none());
}
