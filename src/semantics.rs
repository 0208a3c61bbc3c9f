use vstd::prelude::*;

use crate::environment::Scopes;
use crate::error::ErrorModel;
use crate::parser::NodeModel;
use crate::value::{display_joined, truthy, type_of, FunctionModel, Type, ValueModel};

verus! {

/// How many user-defined calls may be nested in one evaluation: as many as a
/// 64-bit count holds, so that in practice only the host's stack bounds the depth.
pub const MAX_CALL_DEPTH: u64 = 18446744073709551615;

/// The model of an interpreter: its scopes, and the lines printed so far.
pub struct InterpreterState {
    pub scopes: Scopes,
    pub output: Seq<Seq<char>>,
}

impl InterpreterState {
    /// No bindings, no call-local scope, nothing printed.
    pub open spec fn initial() -> InterpreterState {
        InterpreterState { scopes: Scopes::empty(), output: Seq::empty() }
    }

    /// The same state with other scopes.
    pub open spec fn with_scopes(self, scopes: Scopes) -> InterpreterState {
        InterpreterState { scopes, output: self.output }
    }

    /// The same state with one more printed line.
    pub open spec fn printed(self, line: Seq<char>) -> InterpreterState {
        InterpreterState { scopes: self.scopes, output: self.output.push(line) }
    }
}

/// The sum of the numbers, wrapping on overflow.
pub open spec fn wrapping_sum(ns: Seq<i64>) -> i64
    decreases ns.len(),
{
    if ns.len() == 0 {
        0
    } else {
        wrapping_sum(ns.drop_last()).wrapping_add(ns.last())
    }
}

/// The first number minus each of the others in turn, wrapping on overflow.
pub open spec fn wrapping_difference(ns: Seq<i64>) -> i64
    decreases ns.len(),
{
    if ns.len() == 0 {
        0
    } else if ns.len() == 1 {
        ns[0]
    } else {
        wrapping_difference(ns.drop_last()).wrapping_sub(ns.last())
    }
}

/// The call-local scope of a call: each parameter bound to its argument; a
/// later parameter of the same name wins.
pub open spec fn bind_params(params: Seq<Seq<char>>, vals: Seq<ValueModel>) -> Map<Seq<char>, ValueModel>
    decreases params.len(),
{
    if params.len() == 0 || vals.len() == 0 {
        Map::empty()
    } else {
        bind_params(params.drop_last(), vals.drop_last()).insert(params.last(), vals.last())
    }
}

/// The value of an identifier: its binding, or `Nil` when unbound.
pub open spec fn identifier_value(scopes: Scopes, name: Seq<char>) -> ValueModel {
    match scopes.lookup(name) {
        Some(v) => v,
        None => ValueModel::Nil,
    }
}

/// Evaluates `node` in state `st`, with `budget` further user-defined calls
/// allowed to nest: the result, and the state after.
pub open spec fn eval(st: InterpreterState, node: NodeModel, budget: nat) -> (
    Result<ValueModel, ErrorModel>,
    InterpreterState,
)
    decreases budget, node, 0int,
{
    match node {
        NodeModel::NumberLiteral(n) => (Ok(ValueModel::Number(n)), st),
        NodeModel::BooleanLiteral(b) => (Ok(ValueModel::Boolean(b)), st),
        NodeModel::StringLiteral(s) => (Ok(ValueModel::String(s)), st),
        NodeModel::Identifier(name) => (Ok(identifier_value(st.scopes, name)), st),
        NodeModel::ListExpression(items) => match eval_seq(st, items, 0, budget) {
            (Ok(vs), s1) => (Ok(ValueModel::List(vs)), s1),
            (Err(e), s1) => (Err(e), s1),
        },
        NodeModel::CallExpression(name, args) => eval_call(st, name, args, budget),
        NodeModel::IfExpression { expression, when_true, when_false } => match eval(
            st,
            *expression,
            budget,
        ) {
            (Err(e), s1) => (Err(e), s1),
            (Ok(v), s1) => if truthy(v) {
                eval(s1, *when_true, budget)
            } else {
                eval(s1, *when_false, budget)
            },
        },
        NodeModel::FunctionDeclaration { identifier, parameter_list, body } => {
            let f = ValueModel::Function(FunctionModel { identifier, parameter_list, body: *body });
            (Ok(f), st.with_scopes(st.scopes.assign(identifier, f)))
        },
    }
}

/// Evaluates `nodes[i..]` left to right, stopping at the first failure.
pub open spec fn eval_seq(st: InterpreterState, nodes: Seq<NodeModel>, i: int, budget: nat) -> (
    Result<Seq<ValueModel>, ErrorModel>,
    InterpreterState,
)
    decreases budget, nodes, nodes.len() - i,
{
    if i < 0 || i >= nodes.len() {
        (Ok(Seq::empty()), st)
    } else {
        match eval(st, nodes[i], budget) {
            (Err(e), s1) => (Err(e), s1),
            (Ok(v), s1) => match eval_seq(s1, nodes, i + 1, budget) {
                (Ok(vs), s2) => (Ok(seq![v] + vs), s2),
                (Err(e), s2) => (Err(e), s2),
            },
        }
    }
}

/// Evaluates `nodes[i..]` left to right as numbers: the first failure, or the
/// first value that is not a number, stops it.
pub open spec fn eval_numbers(st: InterpreterState, nodes: Seq<NodeModel>, i: int, budget: nat) -> (
    Result<Seq<i64>, ErrorModel>,
    InterpreterState,
)
    decreases budget, nodes, nodes.len() - i,
{
    if i < 0 || i >= nodes.len() {
        (Ok(Seq::empty()), st)
    } else {
        match eval(st, nodes[i], budget) {
            (Err(e), s1) => (Err(e), s1),
            (Ok(ValueModel::Number(n)), s1) => match eval_numbers(s1, nodes, i + 1, budget) {
                (Ok(ns), s2) => (Ok(seq![n] + ns), s2),
                (Err(e), s2) => (Err(e), s2),
            },
            (Ok(v), s1) => (
                Err(ErrorModel::TypeError { expected_type: Type::Number, actual_type: type_of(v) }),
                s1,
            ),
        }
    }
}

/// The failure for a value given where a list is required.
pub open spec fn not_a_list(v: ValueModel) -> ErrorModel {
    ErrorModel::TypeError { expected_type: Type::List, actual_type: type_of(v) }
}

/// Evaluates a call of `name` on the argument expressions `args`: a builtin
/// when the name is one, else a user-defined function bound to the name.
pub open spec fn eval_call(st: InterpreterState, name: Seq<char>, args: Seq<NodeModel>, budget: nat) -> (
    Result<ValueModel, ErrorModel>,
    InterpreterState,
)
    decreases budget, args, args.len() + 1,
{
    if name == "add"@ || name == "subtract"@ {
        match eval_numbers(st, args, 0, budget) {
            (Err(e), s1) => (Err(e), s1),
            (Ok(ns), s1) => if ns.len() == 0 {
                (Err(ErrorModel::TooFewArguments), s1)
            } else if name == "add"@ {
                (Ok(ValueModel::Number(wrapping_sum(ns))), s1)
            } else {
                (Ok(ValueModel::Number(wrapping_difference(ns))), s1)
            },
        }
    } else if name == "define"@ {
        if args.len() == 2 && args[0] is Identifier {
            match eval(st, args[1], budget) {
                (Err(e), s1) => (Err(e), s1),
                (Ok(v), s1) => (Ok(v), s1.with_scopes(s1.scopes.assign(args[0]->Identifier_0, v))),
            }
        } else {
            (Err(ErrorModel::ArgumentError), st)
        }
    } else if name == "car"@ || name == "cdr"@ || name == "is-empty"@ || name == "is-nil"@ {
        if args.len() == 1 {
            match eval(st, args[0], budget) {
                (Err(e), s1) => (Err(e), s1),
                (Ok(v), s1) => if name == "is-nil"@ {
                    (Ok(ValueModel::Boolean(v is Nil)), s1)
                } else {
                    match v {
                        ValueModel::List(vs) => if name == "car"@ {
                            (Ok(if vs.len() > 0 { vs[0] } else { ValueModel::Nil }), s1)
                        } else if name == "cdr"@ {
                            (Ok(ValueModel::List(if vs.len() > 0 { vs.drop_first() } else { vs })), s1)
                        } else {
                            (Ok(ValueModel::Boolean(vs.len() == 0)), s1)
                        },
                        _ => (Err(not_a_list(v)), s1),
                    }
                },
            }
        } else {
            (Err(ErrorModel::ArgumentError), st)
        }
    } else if name == "append"@ || name == "prepend"@ {
        if args.len() == 2 {
            match eval(st, args[0], budget) {
                (Err(e), s1) => (Err(e), s1),
                (Ok(l), s1) => match eval(s1, args[1], budget) {
                    (Err(e), s2) => (Err(e), s2),
                    (Ok(v), s2) => match l {
                        ValueModel::List(vs) => if name == "append"@ {
                            (Ok(ValueModel::List(vs.push(v))), s2)
                        } else {
                            (Ok(ValueModel::List(seq![v] + vs)), s2)
                        },
                        _ => (Err(not_a_list(l)), s2),
                    },
                },
            }
        } else {
            (Err(ErrorModel::ArgumentError), st)
        }
    } else if name == "println"@ {
        match eval_seq(st, args, 0, budget) {
            (Err(e), s1) => (Err(e), s1),
            (Ok(vs), s1) => (Ok(ValueModel::List(vs)), s1.printed(display_joined(vs))),
        }
    } else {
        match st.scopes.lookup(name) {
            None => (Err(ErrorModel::UndefinedFunction(name)), st),
            Some(ValueModel::Function(f)) => if f.parameter_list.len() != args.len() {
                (Err(ErrorModel::TooFewArguments), st)
            } else {
                match eval_seq(st, args, 0, budget) {
                    (Err(e), s1) => (Err(e), s1),
                    (Ok(vs), s1) => if budget == 0 {
                        (Err(ErrorModel::CallDepthExceeded), s1)
                    } else {
                        let entered = s1.with_scopes(s1.scopes.push(bind_params(f.parameter_list, vs)));
                        let (r, s2) = eval(entered, f.body, (budget - 1) as nat);
                        (r, s2.with_scopes(s2.scopes.pop()))
                    },
                }
            },
            Some(_) => (Err(ErrorModel::NotAFunction(name)), st),
        }
    }
}

} // verus!
