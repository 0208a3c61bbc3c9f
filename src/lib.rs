use vstd::prelude::*;

mod environment;
mod error;
mod interpreter;
mod laws;
mod parser;
mod semantics;
mod tokenizer;
mod value;

pub use environment::{Environment, EnvironmentStack, Scopes};
pub use error::{Error, ErrorModel, ErrorType};
pub use interpreter::{Interpreter, run_source, value_outcome};
pub use laws::{
    law_add_nothing, law_add_sums, law_define_then_read, law_if_runs_one_branch, law_list_access,
    law_number_round_trip, law_shadowing, law_subtract_folds, law_unbound_is_nil,
};
pub use parser::{parse, parse_node, parse_node_at, parse_all_at, ASTNode, NodeModel, TokenStream};
pub use semantics::{eval, InterpreterState, MAX_CALL_DEPTH};
pub use tokenizer::{tokenize, tokens_of, Token, TokenModel};
pub use value::{display, Function, FunctionModel, Type, Value, ValueModel};

verus! {

/// What parsing one expression from `input` and evaluating it in a fresh
/// interpreter comes to.
pub open spec fn evaluation_of(input: Seq<char>) -> Result<ValueModel, ErrorModel> {
    match parse_node_at(tokens_of(input), 0) {
        Err(e) => Err(e),
        Ok((node, _)) => eval(InterpreterState::initial(), node, MAX_CALL_DEPTH as nat).0,
    }
}

/// Tokenizes `input`, parses its first expression and evaluates that in a
/// fresh interpreter; anything it prints is dropped.
pub fn parse_and_evaluate(input: &str) -> (r: Result<Value, Error>)
    ensures
        value_outcome(r) == evaluation_of(input@),
{
    let mut interpreter = Interpreter::new();
    let tokens = tokenize(input);
    let mut stream = TokenStream::new(tokens);
    let expression = match parse_node(&mut stream) {
        Ok(e) => e,
        Err(e) => {
            return Err(e);
        },
    };
    interpreter.evaluate(&expression)
}

} // verus!
