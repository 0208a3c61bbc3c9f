use risp::{
    parse_and_evaluate, parse_node, tokenize, ASTNode, Error, ErrorType, Function, Interpreter,
    TokenStream, Type, Value,
};

fn run(interpreter: &mut Interpreter, text: &str) -> Result<Value, Error> {
    let mut tokens = TokenStream::new(tokenize(text));
    let expression = parse_node(&mut tokens)?;
    interpreter.evaluate(&expression)
}

fn err(error_type: ErrorType) -> Result<Value, Error> {
    Err(Error::new("", error_type))
}

#[test]
fn test_reading_variables() {
    let mut interpreter = Interpreter::new();
    interpreter
        .environment_stack
        .set("my-var", Value::Number(3));

    let result = interpreter.evaluate(&ASTNode::Identifier("my-var".to_string()));

    assert_eq!(result, Ok(Value::Number(3)));
}

#[test]
fn number_literal_round_trips_through_the_pipeline() {
    let tokens = tokenize("123");
    assert_eq!(tokens, vec![risp::Token::Number(123)]);
    let mut stream = TokenStream::new(tokens);
    let node = parse_node(&mut stream).unwrap();
    assert_eq!(node, ASTNode::NumberLiteral(123));
    let value = Interpreter::new().evaluate(&node).unwrap();
    assert_eq!(value, Value::Number(123));
    assert_eq!(value.to_display_string(), "123");
}

#[test]
fn add_sums_its_arguments() {
    assert_eq!(parse_and_evaluate("(add 1 2 3)"), Ok(Value::Number(6)));
    assert_eq!(parse_and_evaluate("(add -4 10)"), Ok(Value::Number(6)));
    assert_eq!(parse_and_evaluate("(add 5)"), Ok(Value::Number(5)));
    assert_eq!(parse_and_evaluate("(add)"), err(ErrorType::TooFewArguments));
}

#[test]
fn add_wraps_on_overflow() {
    assert_eq!(
        parse_and_evaluate("(add 9223372036854775807 1)"),
        Ok(Value::Number(i64::MIN))
    );
}

#[test]
fn add_rejects_a_non_number() {
    assert_eq!(
        parse_and_evaluate("(add 1 true)"),
        err(ErrorType::TypeError { expected_type: Type::Number, actual_type: Type::Boolean })
    );
}

#[test]
fn subtract_folds_from_the_left() {
    assert_eq!(parse_and_evaluate("(subtract 10 3 2)"), Ok(Value::Number(5)));
    assert_eq!(parse_and_evaluate("(subtract 7)"), Ok(Value::Number(7)));
    assert_eq!(parse_and_evaluate("(subtract)"), err(ErrorType::TooFewArguments));
}

#[test]
fn define_then_read() {
    let mut interpreter = Interpreter::new();
    assert_eq!(run(&mut interpreter, "(define x 5)"), Ok(Value::Number(5)));
    assert_eq!(
        interpreter.evaluate(&ASTNode::Identifier("x".to_string())),
        Ok(Value::Number(5))
    );
    assert_eq!(run(&mut interpreter, "never-defined"), Ok(Value::Nil));
}

#[test]
fn define_needs_a_name_and_a_value() {
    assert_eq!(parse_and_evaluate("(define x)"), err(ErrorType::ArgumentError));
    assert_eq!(parse_and_evaluate("(define 1 2)"), err(ErrorType::ArgumentError));
}

#[test]
fn user_function_is_called_with_its_arguments() {
    let mut interpreter = Interpreter::new();
    let declared = run(&mut interpreter, "(defn add-one [a] (add a 1))").unwrap();
    assert_eq!(declared.to_display_string(), "#<Function:add-one>");
    assert_eq!(run(&mut interpreter, "(add-one 4)"), Ok(Value::Number(5)));
    assert_eq!(
        run(&mut interpreter, "(add-one 4 5)"),
        err(ErrorType::TooFewArguments)
    );
}

#[test]
fn call_frames_are_popped_after_a_call() {
    let mut interpreter = Interpreter::new();
    run(&mut interpreter, "(defn f [a] (define b a))").unwrap();
    assert_eq!(run(&mut interpreter, "(f 3)"), Ok(Value::Number(3)));
    assert_eq!(run(&mut interpreter, "a"), Ok(Value::Nil));
    assert_eq!(run(&mut interpreter, "b"), Ok(Value::Nil));
}

#[test]
fn scoping_is_dynamic() {
    let mut interpreter = Interpreter::new();
    run(&mut interpreter, "(defn inner [] y)").unwrap();
    run(&mut interpreter, "(defn outer [y] (inner))").unwrap();
    assert_eq!(run(&mut interpreter, "(outer 9)"), Ok(Value::Number(9)));
}

#[test]
fn unknown_and_non_function_callees() {
    let mut interpreter = Interpreter::new();
    assert_eq!(
        run(&mut interpreter, "(nothing 1)"),
        err(ErrorType::UndefinedFunction("nothing".to_string()))
    );
    run(&mut interpreter, "(define five 5)").unwrap();
    assert_eq!(
        run(&mut interpreter, "(five 1)"),
        err(ErrorType::NotAFunction("five".to_string()))
    );
}

#[test]
fn deep_recursion_is_not_capped() {
    let mut interpreter = Interpreter::new();
    run(&mut interpreter, "(defn f [n] (if n (f (subtract n 1)) 0))").unwrap();
    assert_eq!(run(&mut interpreter, "(f 300)"), Ok(Value::Number(0)));
    assert_eq!(run(&mut interpreter, "n"), Ok(Value::Nil));
}

#[test]
fn if_picks_one_branch() {
    assert_eq!(parse_and_evaluate("(if true 1 2)"), Ok(Value::Number(1)));
    assert_eq!(parse_and_evaluate("(if false 1 2)"), Ok(Value::Number(2)));
    assert_eq!(parse_and_evaluate("(if 0 1 2)"), Ok(Value::Number(2)));
    assert_eq!(parse_and_evaluate("(if \"s\" 1 2)"), Ok(Value::Number(1)));
}

#[test]
fn untaken_branch_is_not_evaluated() {
    let mut interpreter = Interpreter::new();
    assert_eq!(
        run(&mut interpreter, "(if true (println 1) (println 2))"),
        Ok(Value::List(vec![Value::Number(1)]))
    );
    assert_eq!(interpreter.take_output(), vec!["1".to_string()]);
    assert_eq!(
        run(&mut interpreter, "(if false (println 1) (println 2))"),
        Ok(Value::List(vec![Value::Number(2)]))
    );
    assert_eq!(interpreter.take_output(), vec!["2".to_string()]);
    assert_eq!(interpreter.take_output(), Vec::<String>::new());
}

#[test]
fn println_joins_display_forms() {
    let mut interpreter = Interpreter::new();
    assert_eq!(
        run(&mut interpreter, "(println \"a b\" -3 (list 1 2) true)"),
        Ok(Value::List(vec![
            Value::String("a b".to_string()),
            Value::Number(-3),
            Value::List(vec![Value::Number(1), Value::Number(2)]),
            Value::Boolean(true),
        ]))
    );
    assert_eq!(interpreter.take_output(), vec!["a b -3 (1 2) true".to_string()]);
    assert_eq!(run(&mut interpreter, "(println)"), Ok(Value::List(vec![])));
    assert_eq!(interpreter.take_output(), vec!["".to_string()]);
}

#[test]
fn list_primitives() {
    assert_eq!(parse_and_evaluate("(car (list 1 2 3))"), Ok(Value::Number(1)));
    assert_eq!(
        parse_and_evaluate("(cdr (list 1 2 3))"),
        Ok(Value::List(vec![Value::Number(2), Value::Number(3)]))
    );
    assert_eq!(parse_and_evaluate("(is-empty (list))"), Ok(Value::Boolean(true)));
    assert_eq!(parse_and_evaluate("(is-empty (list 1))"), Ok(Value::Boolean(false)));
    assert_eq!(parse_and_evaluate("(car (list))"), Ok(Value::Nil));
    assert_eq!(parse_and_evaluate("(cdr (list))"), Ok(Value::List(vec![])));
    assert_eq!(
        parse_and_evaluate("(car 5)"),
        err(ErrorType::TypeError { expected_type: Type::List, actual_type: Type::Number })
    );
    assert_eq!(
        parse_and_evaluate("(cdr \"s\")"),
        err(ErrorType::TypeError { expected_type: Type::List, actual_type: Type::String })
    );
    assert_eq!(parse_and_evaluate("(car)"), err(ErrorType::ArgumentError));
}

#[test]
fn append_prepend_and_is_nil() {
    assert_eq!(
        parse_and_evaluate("(append (list 1) 2)"),
        Ok(Value::List(vec![Value::Number(1), Value::Number(2)]))
    );
    assert_eq!(
        parse_and_evaluate("(prepend (list 1) 2)"),
        Ok(Value::List(vec![Value::Number(2), Value::Number(1)]))
    );
    assert_eq!(
        parse_and_evaluate("(append true 2)"),
        err(ErrorType::TypeError { expected_type: Type::List, actual_type: Type::Boolean })
    );
    assert_eq!(parse_and_evaluate("(append (list))"), err(ErrorType::ArgumentError));
    assert_eq!(parse_and_evaluate("(is-nil nope)"), Ok(Value::Boolean(true)));
    assert_eq!(parse_and_evaluate("(is-nil 0)"), Ok(Value::Boolean(false)));
    assert_eq!(parse_and_evaluate("(is-nil)"), err(ErrorType::ArgumentError));
}

#[test]
fn parse_errors_come_back_from_parse_and_evaluate() {
    assert_eq!(parse_and_evaluate("(add 1 2"), err(ErrorType::MissingToken));
    assert_eq!(
        parse_and_evaluate("(1 2)"),
        err(ErrorType::UnexpectedToken(risp::Token::Number(1)))
    );
}

#[test]
fn evaluate_source_runs_every_expression() {
    let mut interpreter = Interpreter::new();
    assert_eq!(
        interpreter.evaluate_source("(defn twice [x] (add x x)) (println (twice 21))"),
        Ok(())
    );
    assert_eq!(interpreter.take_output(), vec!["42".to_string()]);
    assert_eq!(
        interpreter.evaluate_source("(println 1) (car 2) (println 3)"),
        Err(Error::new("", ErrorType::TypeError { expected_type: Type::List, actual_type: Type::Number }))
    );
    assert_eq!(interpreter.take_output(), vec!["1".to_string()]);
    assert_eq!(
        interpreter.evaluate_source("(println 1) )"),
        Err(Error::new("", ErrorType::UnexpectedToken(risp::Token::ClosingParenthesis)))
    );
    assert_eq!(interpreter.take_output(), Vec::<String>::new());
}

#[test]
fn values_display_and_type() {
    assert_eq!(Value::Number(-9223372036854775808).to_display_string(), "-9223372036854775808");
    assert_eq!(Value::Number(0).to_display_string(), "0");
    assert_eq!(Value::Nil.to_display_string(), "nil");
    assert_eq!(Value::Boolean(false).to_display_string(), "false");
    assert_eq!(Value::String("hi".to_string()).to_display_string(), "hi");
    assert_eq!(Value::List(vec![]).to_display_string(), "()");
    let f = Function::new(
        "f".to_string(),
        vec!["a".to_string()],
        ASTNode::Identifier("a".to_string()),
    );
    assert_eq!(f.identifier(), "f");
    assert_eq!(f.parameter_list(), &vec!["a".to_string()]);
    assert_eq!(f.body(), &ASTNode::Identifier("a".to_string()));
    assert_eq!(Value::Function(f.clone()).to_display_string(), "#<Function:f>");
    assert_eq!(Value::Function(f).value_type(), Type::Function);
    assert_eq!(Value::Nil.value_type(), Type::Nil);
    assert_eq!(Value::List(vec![]).value_type(), Type::List);
}

#[test]
fn truthiness() {
    assert!(Value::Number(1).is_truthy());
    assert!(!Value::Number(0).is_truthy());
    assert!(!Value::Number(-1).is_truthy());
    assert!(!Value::String(String::new()).is_truthy());
    assert!(Value::List(vec![Value::Nil]).is_truthy());
    assert!(!Value::List(vec![]).is_truthy());
    assert!(!Value::Nil.is_truthy());
    assert!(Value::Boolean(true).is_truthy());
}
