use dom_logo::ast::Expression;
use dom_logo::error::LogoError;
use dom_logo::executor::Executor;
use dom_logo::num::{Num, RAW_MAX};
use dom_logo::parser::parse;
use dom_logo::turtle::{Command, Turtle};

fn n(units: i64) -> Num {
    Num { raw: units * 10000 }
}

fn origin() -> (Num, Num) {
    (n(0), n(0))
}

fn run_script(script: &str) -> Result<Vec<Command>, LogoError> {
    let mut ex = Executor::new();
    let mut t = Turtle::new(origin(), 130000);
    ex.run(&mut t, script)?;
    Ok(t.commands())
}

#[test]
fn forward_draws_north() {
    let cmds = run_script("forward 100").unwrap();
    assert_eq!(
        cmds,
        vec![
            Command::Move(origin(), origin()),
            Command::Line(origin(), (n(0), n(-100))),
        ]
    );
}

#[test]
fn square_by_repeat_closes_and_heads_north() {
    let cmds = run_script("repeat 4 [ forward 50 right 90 ]").unwrap();
    assert_eq!(
        cmds,
        vec![
            Command::Move(origin(), origin()),
            Command::Line(origin(), (n(0), n(-50))),
            Command::Heading(90),
            Command::Line((n(0), n(-50)), (n(50), n(-50))),
            Command::Heading(180),
            Command::Line((n(50), n(-50)), (n(50), n(0))),
            Command::Heading(270),
            Command::Line((n(50), n(0)), (n(0), n(0))),
            Command::Heading(0),
        ]
    );
}

#[test]
fn procedure_square_closes() {
    let cmds = run_script(
        "to sq :s forward :s right 90 forward :s right 90 forward :s right 90 forward :s end  sq 20",
    )
    .unwrap();
    assert_eq!(cmds.len(), 8);
    match cmds[7] {
        Command::Line(_, to) => assert_eq!(to, origin()),
        _ => panic!("expected a line"),
    }
}

#[test]
fn procedure_binding_does_not_leak() {
    let err = run_script("to sq :s forward :s end sq 20 forward :s").unwrap_err();
    assert_eq!(err, LogoError::UndefinedParameter(String::from(":s")));
}

#[test]
fn setcolor_saturates_channels() {
    let cmds = run_script("setcolor 300 -10 128").unwrap();
    assert_eq!(
        cmds,
        vec![Command::Move(origin(), origin()), Command::Color((255, 0, 128))]
    );
}

#[test]
fn undefined_procedure_is_an_error() {
    let err = run_script("foo 1").unwrap_err();
    assert_eq!(err, LogoError::UndefinedExpression(String::from("foo")));
}

#[test]
fn budget_is_cut_off_on_the_crossing_operation() {
    let mut ex = Executor::new();
    let mut t = Turtle::new(origin(), 2);
    let r = ex.run(&mut t, "forward 10 forward 10");
    assert_eq!(r.unwrap_err(), LogoError::RuntimeBudgetExceeded(2));
    // the first operation still went through: initial move plus one line,
    // and the log never grew beyond the ceiling
    assert_eq!(t.commands().len(), 2);
}

#[test]
fn budget_allows_up_to_the_ceiling() {
    let mut ex = Executor::new();
    let mut t = Turtle::new(origin(), 2);
    assert!(ex.run(&mut t, "forward 10").is_ok());
    // the log reaches the ceiling exactly and no further
    assert_eq!(t.commands().len(), 2);
}

#[test]
fn initial_move_counts_toward_the_budget() {
    let mut ex = Executor::new();
    let mut t = Turtle::new(origin(), 1);
    let r = ex.run(&mut t, "forward 10");
    assert_eq!(r.unwrap_err(), LogoError::RuntimeBudgetExceeded(1));
    assert_eq!(t.commands().len(), 1);
}

#[test]
fn recursion_ceiling_is_enforced() {
    let err = run_script("to f f end f").unwrap_err();
    assert_eq!(err, LogoError::RecursionBudgetExceeded(1000));
}

#[test]
fn aliases_match_long_forms() {
    let long = run_script("forward 30 right 90 back 10 left 45 clear penup pendown").unwrap();
    let short = run_script("fd 30 rt 90 bk 10 lt 45 cs pu pd").unwrap();
    assert_eq!(long, short);
}

#[test]
fn uppercase_source_is_lowercased() {
    let upper = run_script("FORWARD 100").unwrap();
    let lower = run_script("forward 100").unwrap();
    assert_eq!(upper, lower);
}

#[test]
fn fractional_distance_keeps_four_digits() {
    let cmds = run_script("forward 1.23456").unwrap();
    assert_eq!(
        cmds[1],
        Command::Line(origin(), (n(0), Num { raw: -12345 }))
    );
}

#[test]
fn one_level_arithmetic() {
    let cmds = run_script("forward 2 + 3").unwrap();
    assert_eq!(cmds[1], Command::Line(origin(), (n(0), n(-5))));
    let cmds = run_script("forward 10 / 4").unwrap();
    assert_eq!(cmds[1], Command::Line(origin(), (n(0), Num { raw: -25000 })));
    let cmds = run_script("forward 7 - 2").unwrap();
    assert_eq!(cmds[1], Command::Line(origin(), (n(0), n(-5))));
    let cmds = run_script("forward 6 * 2").unwrap();
    assert_eq!(cmds[1], Command::Line(origin(), (n(0), n(-12))));
}

#[test]
fn division_by_zero_saturates() {
    let cmds = run_script("forward 10 / 0").unwrap();
    assert_eq!(
        cmds[1],
        Command::Line(origin(), (n(0), Num { raw: -RAW_MAX }))
    );
}

#[test]
fn missing_block_bracket_is_a_syntax_error() {
    let err = run_script("repeat 4 forward 1").unwrap_err();
    assert!(matches!(err, LogoError::SyntaxError { .. }));
}

#[test]
fn unterminated_procedure_is_a_syntax_error() {
    let err = run_script("to f forward 1").unwrap_err();
    match err {
        LogoError::SyntaxError { err, .. } => assert_eq!(err, "Expected closing token 'end'."),
        _ => panic!("expected a syntax error"),
    }
}

#[test]
fn unmatched_open_bracket_is_a_syntax_error() {
    let err = run_script("repeat 2 [ forward 1").unwrap_err();
    match err {
        LogoError::SyntaxError { err, .. } => assert_eq!(err, "Expected closing token ']'."),
        _ => panic!("expected a syntax error"),
    }
}

#[test]
fn closer_without_opener_is_a_syntax_error() {
    let err = run_script("fd 10 ]").unwrap_err();
    match err {
        LogoError::SyntaxError { err, .. } => {
            assert_eq!(err, "Expected opening token 'LBracket' before 'RBracket'.")
        }
        _ => panic!("expected a syntax error"),
    }
    let err = run_script("fd 10 end").unwrap_err();
    match err {
        LogoError::SyntaxError { err, .. } => {
            assert_eq!(err, "Expected opening token 'To' before 'End'.")
        }
        _ => panic!("expected a syntax error"),
    }
}

#[test]
fn no_such_operator_is_reported() {
    let ex = Executor::new();
    let r = ex.eval_math(
        &Expression::Number(n(1)),
        &Expression::Clear,
        &Expression::Number(n(2)),
        &None,
    );
    assert_eq!(r.unwrap_err(), LogoError::NoSuchOperator(String::from("Clear")));
}

#[test]
fn control_node_is_no_value() {
    let ex = Executor::new();
    let r = ex.eval_arg(&Expression::Penup, &None);
    assert_eq!(r.unwrap_err(), LogoError::UndefinedExpression(String::from("Penup")));
}

#[test]
fn repeat_nonpositive_count_is_omitted() {
    let zero = run_script("repeat 0 [ forward 10 ]").unwrap();
    let negative = run_script("repeat 2 - 5 [ forward 10 ]").unwrap();
    let omitted = run_script("").unwrap();
    assert_eq!(zero, omitted);
    assert_eq!(negative, omitted);
}

#[test]
fn repeat_equals_unrolled_body() {
    let repeated = run_script("repeat 3 [ forward 10 right 45 ]").unwrap();
    let unrolled =
        run_script("forward 10 right 45 forward 10 right 45 forward 10 right 45").unwrap();
    assert_eq!(repeated, unrolled);
}

#[test]
fn penup_moves_without_drawing() {
    let cmds = run_script("penup forward 10 pendown forward 10").unwrap();
    assert_eq!(cmds[1], Command::Move(origin(), (n(0), n(-10))));
    assert_eq!(cmds[2], Command::Line((n(0), n(-10)), (n(0), n(-20))));
}

#[test]
fn setpos_repositions_without_drawing() {
    let cmds = run_script("setpos 10 20 forward 5").unwrap();
    assert_eq!(cmds[1], Command::Move(origin(), (n(10), n(20))));
    assert_eq!(cmds[2], Command::Line((n(10), n(20)), (n(10), n(15))));
}

#[test]
fn setpos_never_draws_even_pen_down() {
    let cmds = run_script("pendown setpos 3 4").unwrap();
    assert_eq!(cmds[1], Command::Move(origin(), (n(3), n(4))));
}

#[test]
fn back_equals_negated_forward() {
    assert_eq!(run_script("back 7").unwrap(), run_script("forward -7").unwrap());
}

#[test]
fn left_equals_negated_right() {
    assert_eq!(run_script("left 90").unwrap(), run_script("right -90").unwrap());
}

#[test]
fn headings_wrap_mod_360() {
    let cmds = run_script("right 450").unwrap();
    assert_eq!(cmds[1], Command::Heading(90));
    let cmds = run_script("left 90").unwrap();
    assert_eq!(cmds[1], Command::Heading(-90));
    let cmds = run_script("right 90.7").unwrap();
    assert_eq!(cmds[1], Command::Heading(90));
}

#[test]
fn arc_circle_pensize_clear_commands() {
    let cmds = run_script("arc 90 50 circle 30 setpensize 2 clear").unwrap();
    assert_eq!(
        cmds,
        vec![
            Command::Move(origin(), origin()),
            Command::Arc(n(90), n(50)),
            Command::Circle(n(30)),
            Command::Pensize(n(2)),
            Command::Clear,
        ]
    );
}

#[test]
fn later_definition_replaces_earlier() {
    let cmds = run_script("to f forward 1 end to f forward 2 end f").unwrap();
    assert_eq!(cmds[1], Command::Line(origin(), (n(0), n(-2))));
}

#[test]
fn extra_call_arguments_are_ignored() {
    let cmds = run_script("to f :a forward :a end f 5 6").unwrap();
    assert_eq!(cmds[1], Command::Line(origin(), (n(0), n(-5))));
}

#[test]
fn missing_call_arguments_surface_on_reference() {
    let err = run_script("to g :a :b forward :b end g 1").unwrap_err();
    assert_eq!(err, LogoError::UndefinedParameter(String::from(":b")));
}

#[test]
fn conditionals_compare_numbers() {
    assert_eq!(run_script("if 1 < 2 [ forward 1 ]").unwrap().len(), 2);
    assert_eq!(run_script("if 2 < 1 [ forward 1 ]").unwrap().len(), 1);
    assert_eq!(run_script("if 3 == 3 [ forward 1 ]").unwrap().len(), 2);
    assert_eq!(run_script("if 3 != 3 [ forward 1 ]").unwrap().len(), 1);
    assert_eq!(run_script("if 4 > 1 [ forward 1 ]").unwrap().len(), 2);
}

#[test]
fn unknown_characters_are_skipped() {
    assert_eq!(
        run_script("forward %$@ 100").unwrap(),
        run_script("forward 100").unwrap()
    );
}

#[test]
fn canonical_script_parses_to_the_same_tree() {
    let a = parse("repeat 4 [ forward 50 right 90 ]").unwrap();
    let b = parse("repeat 4 [ forward 50 right 90 ]").unwrap();
    assert_eq!(a, b);
    let fd = parse("fd 50").unwrap();
    let forward = parse("forward 50").unwrap();
    assert_eq!(fd, forward);
}

#[test]
fn bare_value_at_statement_position_is_a_syntax_error() {
    let err = run_script("42").unwrap_err();
    assert!(matches!(err, LogoError::SyntaxError { .. }));
}
