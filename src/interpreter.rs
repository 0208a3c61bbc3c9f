use vstd::prelude::*;

use crate::environment::{Environment, EnvironmentStack};
use crate::error::{Error, ErrorModel, ErrorType};
use crate::parser::{
    clone_strings, lemma_nodes_view, nodes_view, parse, parse_all_at, strings_view, ASTNode,
    NodeModel, TokenStream,
};
use crate::semantics::{
    bind_params, eval, eval_call, eval_numbers, eval_seq, wrapping_difference, wrapping_sum,
    InterpreterState, MAX_CALL_DEPTH,
};
use crate::tokenizer::{is_word, tokenize, tokens_of};
use crate::value::{
    lemma_values_view, lemma_values_view_push, joined_display, values_view, Function, Type, Value,
    ValueModel,
};

verus! {

/// An interpreter: the scope stack that evaluations share, and the lines that
/// `println` has printed and nobody has taken yet.
pub struct Interpreter {
    pub environment_stack: EnvironmentStack,
    output: Vec<String>,
}

impl View for Interpreter {
    type V = InterpreterState;

    closed spec fn view(&self) -> InterpreterState {
        InterpreterState { scopes: self.environment_stack@, output: strings_view(self.output@) }
    }
}

/// The model of an evaluation's outcome.
pub open spec fn value_outcome(r: Result<Value, Error>) -> Result<ValueModel, ErrorModel> {
    match r {
        Ok(v) => Ok(v@),
        Err(e) => Err(e@),
    }
}

/// The model of the outcome of evaluating several expressions.
pub open spec fn values_outcome(r: Result<Vec<Value>, Error>) -> Result<Seq<ValueModel>, ErrorModel> {
    match r {
        Ok(v) => Ok(values_view(v@)),
        Err(e) => Err(e@),
    }
}

/// The model of the outcome of evaluating several expressions as numbers.
pub open spec fn numbers_outcome(r: Result<Vec<i64>, Error>) -> Result<Seq<i64>, ErrorModel> {
    match r {
        Ok(v) => Ok(v@),
        Err(e) => Err(e@),
    }
}

/// The model of the outcome of running a program.
pub open spec fn unit_outcome(r: Result<(), Error>) -> Result<(), ErrorModel> {
    match r {
        Ok(_) => Ok(()),
        Err(e) => Err(e@),
    }
}

/// Prefixes the items of a successful evaluation with `pre`.
pub open spec fn prefixed<T>(pre: Seq<T>, x: (Result<Seq<T>, ErrorModel>, InterpreterState)) -> (
    Result<Seq<T>, ErrorModel>,
    InterpreterState,
) {
    match x.0 {
        Ok(rest) => (Ok(pre + rest), x.1),
        Err(e) => (Err(e), x.1),
    }
}

/// Runs the expressions `nodes[i..]` in turn, stopping at the first failure.
pub open spec fn run_all(st: InterpreterState, nodes: Seq<NodeModel>, i: int) -> (
    Result<(), ErrorModel>,
    InterpreterState,
)
    decreases nodes.len() - i,
{
    if i < 0 || i >= nodes.len() {
        (Ok(()), st)
    } else {
        match eval(st, nodes[i], MAX_CALL_DEPTH as nat) {
            (Err(e), s1) => (Err(e), s1),
            (Ok(_), s1) => run_all(s1, nodes, i + 1),
        }
    }
}

/// Runs a whole source text: its tokens are parsed as a program, which runs
/// only when it parses.
pub open spec fn run_source(st: InterpreterState, source: Seq<char>) -> (
    Result<(), ErrorModel>,
    InterpreterState,
) {
    match parse_all_at(tokens_of(source), 0) {
        Err(e) => (Err(e), st),
        Ok(nodes) => run_all(st, nodes, 0),
    }
}

proof fn lemma_prefixed_empty<T>(x: (Result<Seq<T>, ErrorModel>, InterpreterState))
    ensures
        prefixed(Seq::<T>::empty(), x) == x,
{
    match x.0 {
        Ok(rest) => {
            assert(Seq::<T>::empty() + rest =~= rest);
        },
        Err(e) => {},
    }
}

proof fn lemma_prefixed_push<T>(pre: Seq<T>, v: T, x: (Result<Seq<T>, ErrorModel>, InterpreterState))
    ensures
        prefixed(pre, prefixed(seq![v], x)) == prefixed(pre.push(v), x),
{
    match x.0 {
        Ok(rest) => {
            assert(pre + (seq![v] + rest) =~= pre.push(v) + rest);
        },
        Err(e) => {},
    }
}

/// A successful evaluation of `nodes[i..]` gives one value per expression.
proof fn lemma_eval_seq_len(st: InterpreterState, nodes: Seq<NodeModel>, i: int, budget: nat)
    requires
        0 <= i <= nodes.len(),
    ensures
        eval_seq(st, nodes, i, budget).0 matches Ok(vs) ==> vs.len() == nodes.len() - i,
    decreases nodes.len() - i,
{
    if i < nodes.len() {
        let (r, s1) = eval(st, nodes[i], budget);
        if r is Ok {
            lemma_eval_seq_len(s1, nodes, i + 1, budget);
        }
    }
}

/// The sum of the numbers, wrapping on overflow.
fn sum_of(numbers: &Vec<i64>) -> (r: i64)
    ensures
        r == wrapping_sum(numbers@),
{
    let mut acc: i64 = 0;
    let mut i: usize = 0;
    assert(numbers@.take(0) =~= Seq::<i64>::empty());
    while i < numbers.len()
        invariant
            0 <= i <= numbers@.len(),
            acc == wrapping_sum(numbers@.take(i as int)),
        decreases numbers@.len() - i,
    {
        assert(numbers@.take(i + 1).drop_last() =~= numbers@.take(i as int));
        acc = acc.wrapping_add(numbers[i]);
        i = i + 1;
    }
    assert(numbers@.take(numbers@.len() as int) =~= numbers@);
    acc
}

/// The first number minus each of the others in turn, wrapping on overflow.
fn difference_of(numbers: &Vec<i64>) -> (r: i64)
    requires
        numbers@.len() > 0,
    ensures
        r == wrapping_difference(numbers@),
{
    let mut acc: i64 = numbers[0];
    let mut i: usize = 1;
    assert(numbers@.take(1) =~= seq![numbers@[0]]);
    while i < numbers.len()
        invariant
            1 <= i <= numbers@.len(),
            acc == wrapping_difference(numbers@.take(i as int)),
        decreases numbers@.len() - i,
    {
        assert(numbers@.take(i + 1).drop_last() =~= numbers@.take(i as int));
        acc = acc.wrapping_sub(numbers[i]);
        i = i + 1;
    }
    assert(numbers@.take(numbers@.len() as int) =~= numbers@);
    acc
}

/// The call-local environment of a call: each parameter bound to its argument.
fn bind_arguments(parameters: &Vec<String>, values: &Vec<Value>) -> (r: Environment)
    requires
        parameters@.len() == values@.len(),
    ensures
        r@ == bind_params(strings_view(parameters@), values_view(values@)),
{
    let ghost ps = strings_view(parameters@);
    let ghost vs = values_view(values@);
    proof {
        lemma_values_view(values@);
    }
    let mut frame = Environment::new();
    let mut i: usize = 0;
    assert(ps.take(0).len() == 0);
    while i < parameters.len()
        invariant
            0 <= i <= parameters@.len(),
            parameters@.len() == values@.len(),
            ps == strings_view(parameters@),
            vs == values_view(values@),
            vs.len() == values@.len(),
            forall|j: int| 0 <= j < values@.len() ==> #[trigger] vs[j] == values@[j]@,
            frame@ == bind_params(ps.take(i as int), vs.take(i as int)),
        decreases parameters@.len() - i,
    {
        assert(ps.take(i + 1).drop_last() =~= ps.take(i as int));
        assert(vs.take(i + 1).drop_last() =~= vs.take(i as int));
        frame.set(parameters[i].as_str(), values[i].clone());
        i = i + 1;
    }
    assert(ps.take(parameters@.len() as int) =~= ps);
    assert(vs.take(values@.len() as int) =~= vs);
    frame
}

/// The type failure for a value given where a list is required.
fn list_expected(value: &Value) -> (r: Error)
    ensures
        r@ == (ErrorModel::TypeError { expected_type: Type::List, actual_type: crate::value::type_of(value@) }),
{
    Error::new(
        "Type error",
        ErrorType::TypeError { expected_type: Type::List, actual_type: value.value_type() },
    )
}

impl Interpreter {
    /// An interpreter with no bindings and nothing printed.
    pub fn new() -> (r: Self)
        ensures
            r@ == InterpreterState::initial(),
    {
        let r = Interpreter { environment_stack: EnvironmentStack::new(), output: Vec::new() };
        assert(r@.output =~= Seq::<Seq<char>>::empty());
        r
    }

    /// Hands out the lines printed so far, and forgets them.
    pub fn take_output(&mut self) -> (r: Vec<String>)
        ensures
            strings_view(r@) == old(self)@.output,
            final(self)@ == (InterpreterState { scopes: old(self)@.scopes, output: Seq::empty() }),
    {
        let mut out: Vec<String> = Vec::new();
        std::mem::swap(&mut out, &mut self.output);
        assert(self@.output =~= Seq::<Seq<char>>::empty());
        out
    }

    /// Evaluates one expression against the shared scopes.
    pub fn evaluate(&mut self, expression: &ASTNode) -> (r: Result<Value, Error>)
        ensures
            (value_outcome(r), final(self)@) == eval(old(self)@, expression@, MAX_CALL_DEPTH as nat),
    {
        self.eval_node(expression, MAX_CALL_DEPTH)
    }

    /// Tokenizes, parses and runs a whole source text, expression by expression,
    /// stopping at the first failure.
    pub fn evaluate_source(&mut self, source: &str) -> (r: Result<(), Error>)
        ensures
            (unit_outcome(r), final(self)@) == run_source(old(self)@, source@),
    {
        let tokens = tokenize(source);
        let mut stream = TokenStream::new(tokens);
        let expressions = match parse(&mut stream) {
            Ok(e) => e,
            Err(e) => {
                assert(parse_all_at(tokens_of(source@), 0) == Err::<Seq<NodeModel>, ErrorModel>(e@));
                assert(run_source(self@, source@) == (Err::<(), ErrorModel>(e@), self@));
                return Err(e);
            },
        };
        let ghost nodes = nodes_view(expressions@);
        let ghost start = self@;
        proof {
            lemma_nodes_view(expressions@);
        }
        assert(run_source(start, source@) == run_all(start, nodes, 0));
        let mut i: usize = 0;
        while i < expressions.len()
            invariant
                0 <= i <= expressions@.len(),
                run_source(start, source@) == run_all(start, nodes, 0),
                nodes == nodes_view(expressions@),
                nodes.len() == expressions@.len(),
                forall|j: int| 0 <= j < expressions@.len() ==> #[trigger] nodes[j] == expressions@[j]@,
                start == old(self)@,
                run_all(start, nodes, 0) == run_all(self@, nodes, i as int),
            decreases expressions@.len() - i,
        {
            let ghost before = self@;
            match self.evaluate(&expressions[i]) {
                Ok(_) => {},
                Err(e) => {
                    assert(run_all(before, nodes, i as int) == (Err::<(), ErrorModel>(e@), self@));
                    return Err(e);
                },
            }
            i = i + 1;
        }
        Ok(())
    }

    /// Evaluates `expression` with `budget` further user-defined calls allowed to nest.
    fn eval_node(&mut self, expression: &ASTNode, budget: u64) -> (r: Result<Value, Error>)
        ensures
            (value_outcome(r), final(self)@) == eval(old(self)@, expression@, budget as nat),
        decreases budget, expression, 0int,
    {
        match expression {
            ASTNode::NumberLiteral(n) => Ok(Value::Number(*n)),
            ASTNode::BooleanLiteral(b) => Ok(Value::Boolean(*b)),
            ASTNode::StringLiteral(s) => Ok(Value::String(s.clone())),
            ASTNode::Identifier(name) => match self.environment_stack.get(name.as_str()) {
                Some(value) => Ok(value),
                None => Ok(Value::Nil),
            },
            ASTNode::ListExpression(expressions) => match self.eval_all(expressions, budget) {
                Ok(values) => Ok(Value::List(values)),
                Err(e) => Err(e),
            },
            ASTNode::CallExpression(name, arguments) => self.evaluate_call_expression(
                name,
                arguments,
                budget,
            ),
            ASTNode::IfExpression { expression, when_true, when_false } => {
                match self.eval_node(expression, budget) {
                    Err(e) => Err(e),
                    Ok(condition) => if condition.is_truthy() {
                        self.eval_node(when_true, budget)
                    } else {
                        self.eval_node(when_false, budget)
                    },
                }
            },
            ASTNode::FunctionDeclaration { identifier, parameter_list, body } => {
                let function = Function::new(
                    identifier.clone(),
                    clone_strings(parameter_list),
                    (**body).clone(),
                );
                self.environment_stack.set(identifier.as_str(), Value::Function(function.clone()));
                Ok(Value::Function(function))
            },
        }
    }

    /// Evaluates the expressions left to right, stopping at the first failure.
    fn eval_all(&mut self, expressions: &Vec<ASTNode>, budget: u64) -> (r: Result<Vec<Value>, Error>)
        ensures
            (values_outcome(r), final(self)@) == eval_seq(old(self)@, nodes_view(expressions@), 0, budget as nat),
        decreases budget, expressions, 0int,
    {
        let ghost ns = nodes_view(expressions@);
        let ghost start = self@;
        proof {
            lemma_nodes_view(expressions@);
        }
        let mut values: Vec<Value> = Vec::new();
        proof {
            assert(values_view(values@) =~= Seq::<ValueModel>::empty());
            lemma_prefixed_empty(eval_seq(start, ns, 0, budget as nat));
        }
        let mut i: usize = 0;
        while i < expressions.len()
            invariant
                0 <= i <= expressions@.len(),
                ns == nodes_view(expressions@),
                ns.len() == expressions@.len(),
                forall|j: int| 0 <= j < expressions@.len() ==> #[trigger] ns[j] == expressions@[j]@,
                start == old(self)@,
                eval_seq(start, ns, 0, budget as nat) == prefixed(values_view(values@), eval_seq(self@, ns, i as int, budget as nat)),
            decreases expressions@.len() - i,
        {
            proof {
                assert(decreases_to!(expressions => expressions@[i as int]));
            }
            let ghost before = self@;
            match self.eval_node(&expressions[i], budget) {
                Err(e) => {
                    assert(eval_seq(before, ns, i as int, budget as nat) == (Err::<Seq<ValueModel>, ErrorModel>(e@), self@));
                    return Err(e);
                },
                Ok(value) => {
                    proof {
                        lemma_prefixed_push(values_view(values@), value@, eval_seq(self@, ns, i + 1, budget as nat));
                        lemma_values_view_push(values@, value);
                    }
                    values.push(value);
                },
            }
            i = i + 1;
        }
        proof {
            assert(values_view(values@) + Seq::<ValueModel>::empty() =~= values_view(values@));
        }
        Ok(values)
    }

    /// Evaluates the expressions left to right as numbers, stopping at the first
    /// failure or the first value that is not a number.
    fn number_arguments(&mut self, arguments: &Vec<ASTNode>, budget: u64) -> (r: Result<Vec<i64>, Error>)
        ensures
            (numbers_outcome(r), final(self)@) == eval_numbers(old(self)@, nodes_view(arguments@), 0, budget as nat),
        decreases budget, arguments, 0int,
    {
        let ghost ns = nodes_view(arguments@);
        let ghost start = self@;
        proof {
            lemma_nodes_view(arguments@);
        }
        let mut numbers: Vec<i64> = Vec::new();
        proof {
            lemma_prefixed_empty(eval_numbers(start, ns, 0, budget as nat));
        }
        let mut i: usize = 0;
        while i < arguments.len()
            invariant
                0 <= i <= arguments@.len(),
                ns == nodes_view(arguments@),
                ns.len() == arguments@.len(),
                forall|j: int| 0 <= j < arguments@.len() ==> #[trigger] ns[j] == arguments@[j]@,
                start == old(self)@,
                eval_numbers(start, ns, 0, budget as nat) == prefixed(numbers@, eval_numbers(self@, ns, i as int, budget as nat)),
            decreases arguments@.len() - i,
        {
            proof {
                assert(decreases_to!(arguments => arguments@[i as int]));
            }
            let ghost before = self@;
            match self.eval_node(&arguments[i], budget) {
                Err(e) => {
                    assert(eval_numbers(before, ns, i as int, budget as nat) == (Err::<Seq<i64>, ErrorModel>(e@), self@));
                    return Err(e);
                },
                Ok(Value::Number(number)) => {
                    proof {
                        lemma_prefixed_push(numbers@, number, eval_numbers(self@, ns, i + 1, budget as nat));
                    }
                    numbers.push(number);
                },
                Ok(value) => {
                    let err = Error::new(
                        "add requires all arguments to be Numbers",
                        ErrorType::TypeError { expected_type: Type::Number, actual_type: value.value_type() },
                    );
                    assert(eval_numbers(before, ns, i as int, budget as nat) == (Err::<Seq<i64>, ErrorModel>(err@), self@));
                    return Err(err);
                },
            }
            i = i + 1;
        }
        proof {
            assert(numbers@ + Seq::<i64>::empty() =~= numbers@);
        }
        Ok(numbers)
    }

    /// Evaluates a call: a builtin when `name` is one, else the user-defined
    /// function bound to `name`.
    fn evaluate_call_expression(&mut self, name: &String, arguments: &Vec<ASTNode>, budget: u64) -> (r: Result<Value, Error>)
        ensures
            (value_outcome(r), final(self)@) == eval_call(old(self)@, name@, nodes_view(arguments@), budget as nat),
        decreases budget, arguments, 1int,
    {
        let ghost args = nodes_view(arguments@);
        proof {
            lemma_nodes_view(arguments@);
        }
        if is_word(name, "add") || is_word(name, "subtract") {
            let numbers = match self.number_arguments(arguments, budget) {
                Ok(ns) => ns,
                Err(e) => {
                    return Err(e);
                },
            };
            if numbers.len() == 0 {
                return Err(Error::new("Too few arguments", ErrorType::TooFewArguments));
            }
            if is_word(name, "add") {
                Ok(Value::Number(sum_of(&numbers)))
            } else {
                Ok(Value::Number(difference_of(&numbers)))
            }
        } else if is_word(name, "define") {
            if arguments.len() == 2 {
                if let ASTNode::Identifier(target) = &arguments[0] {
                    proof {
                        assert(decreases_to!(arguments => arguments@[1]));
                    }
                    let value = match self.eval_node(&arguments[1], budget) {
                        Ok(v) => v,
                        Err(e) => {
                            return Err(e);
                        },
                    };
                    self.environment_stack.set(target.as_str(), value.clone());
                    return Ok(value);
                }
            }
            Err(Error::new("Wrong number of arguments", ErrorType::ArgumentError))
        } else if is_word(name, "car") || is_word(name, "cdr") || is_word(name, "is-empty")
            || is_word(name, "is-nil") {
            if arguments.len() != 1 {
                return Err(Error::new("Wrong number of arguments", ErrorType::ArgumentError));
            }
            proof {
                assert(decreases_to!(arguments => arguments@[0]));
            }
            let value = match self.eval_node(&arguments[0], budget) {
                Ok(v) => v,
                Err(e) => {
                    return Err(e);
                },
            };
            if is_word(name, "is-nil") {
                return Ok(Value::Boolean(value.value_type() == Type::Nil));
            }
            match value {
                Value::List(mut values) => {
                    let ghost vs = values_view(values@);
                    proof {
                        lemma_values_view(values@);
                    }
                    if is_word(name, "car") {
                        if values.len() > 0 {
                            Ok(values.remove(0))
                        } else {
                            Ok(Value::Nil)
                        }
                    } else if is_word(name, "cdr") {
                        if values.len() > 0 {
                            let _ = values.remove(0);
                            proof {
                                lemma_values_view(values@);
                                assert(values_view(values@) =~= vs.drop_first());
                            }
                        }
                        Ok(Value::List(values))
                    } else {
                        Ok(Value::Boolean(values.len() == 0))
                    }
                },
                other => Err(list_expected(&other)),
            }
        } else if is_word(name, "append") || is_word(name, "prepend") {
            if arguments.len() != 2 {
                return Err(Error::new("Wrong number of arguments", ErrorType::ArgumentError));
            }
            proof {
                assert(decreases_to!(arguments => arguments@[0]));
                assert(decreases_to!(arguments => arguments@[1]));
            }
            let list = match self.eval_node(&arguments[0], budget) {
                Ok(v) => v,
                Err(e) => {
                    return Err(e);
                },
            };
            let value = match self.eval_node(&arguments[1], budget) {
                Ok(v) => v,
                Err(e) => {
                    return Err(e);
                },
            };
            match list {
                Value::List(mut values) => {
                    let ghost vs = values_view(values@);
                    let ghost v = value@;
                    if is_word(name, "append") {
                        proof {
                            lemma_values_view_push(values@, value);
                        }
                        values.push(value);
                    } else {
                        let ghost before = values@;
                        values.insert(0, value);
                        proof {
                            lemma_values_view(before);
                            lemma_values_view(values@);
                            assert(values_view(values@) =~= seq![v] + vs);
                        }
                    }
                    Ok(Value::List(values))
                },
                other => Err(list_expected(&other)),
            }
        } else if is_word(name, "println") {
            let values = match self.eval_all(arguments, budget) {
                Ok(vs) => vs,
                Err(e) => {
                    return Err(e);
                },
            };
            let line = joined_display(&values);
            let ghost before = self.output@;
            self.output.push(line);
            assert(strings_view(self.output@) =~= strings_view(before).push(line@));
            Ok(Value::List(values))
        } else {
            match self.environment_stack.get(name.as_str()) {
                None => Err(Error::new("Undefined", ErrorType::UndefinedFunction(name.clone()))),
                Some(Value::Function(function)) => {
                    if function.parameter_list.len() != arguments.len() {
                        return Err(Error::new("Too few arguments", ErrorType::TooFewArguments));
                    }
                    proof {
                        lemma_eval_seq_len(self@, args, 0, budget as nat);
                    }
                    let values = match self.eval_all(arguments, budget) {
                        Ok(vs) => vs,
                        Err(e) => {
                            return Err(e);
                        },
                    };
                    if budget == 0 {
                        return Err(
                            Error::new("Calls nested too deeply", ErrorType::CallDepthExceeded),
                        );
                    }
                    proof {
                        lemma_values_view(values@);
                        assert(function.parameter_list@.len() == strings_view(function.parameter_list@).len());
                    }
                    let frame = bind_arguments(&function.parameter_list, &values);
                    self.environment_stack.push_environment(frame);
                    let result = self.eval_node(&function.body, budget - 1);
                    self.environment_stack.pop_environment();
                    result
                },
                Some(_) => Err(Error::new("Not a function", ErrorType::NotAFunction(name.clone()))),
            }
        }
    }
}

} // verus!
