use vstd::prelude::*;

use crate::environment::{frames_lookup, Scopes};
use crate::error::ErrorModel;
use crate::parser::{parse_node_at, NodeModel};
use crate::semantics::{
    eval, eval_call, eval_numbers, not_a_list, wrapping_difference, wrapping_sum, InterpreterState,
};
use crate::tokenizer::{
    all_ascii_digits, decimal_value, digit_value, digits_value, number_end, scan, tokens_of,
    TokenModel,
};
use crate::value::{digit_char, digits_of, display, truthy, ValueModel};

verus! {

/// Number literals for the given integers.
pub open spec fn number_literals(ns: Seq<i64>) -> Seq<NodeModel> {
    ns.map_values(|n: i64| NodeModel::NumberLiteral(n))
}

/// The exact sum of the integers.
pub open spec fn total(ns: Seq<i64>) -> int
    decreases ns.len(),
{
    if ns.len() == 0 {
        0
    } else {
        total(ns.drop_last()) + ns.last()
    }
}

proof fn lemma_numbers_of_literals(st: InterpreterState, ns: Seq<i64>, i: int, budget: nat)
    requires
        0 <= i <= ns.len(),
    ensures
        eval_numbers(st, number_literals(ns), i, budget) == (Ok::<Seq<i64>, ErrorModel>(ns.subrange(i, ns.len() as int)), st),
    decreases ns.len() - i,
{
    if i < ns.len() {
        lemma_numbers_of_literals(st, ns, i + 1, budget);
        assert(number_literals(ns)[i] == NodeModel::NumberLiteral(ns[i]));
        assert(eval(st, NodeModel::NumberLiteral(ns[i]), budget) == (
            Ok::<ValueModel, ErrorModel>(ValueModel::Number(ns[i])),
            st,
        ));
        assert(seq![ns[i]] + ns.subrange(i + 1, ns.len() as int) =~= ns.subrange(i, ns.len() as int));
    } else {
        assert(ns.subrange(i, ns.len() as int) =~= Seq::<i64>::empty());
    }
}

/// The wrapping sum differs from the exact sum by a multiple of 2^64.
proof fn lemma_wrapping_sum(ns: Seq<i64>) -> (k: int)
    ensures
        wrapping_sum(ns) as int == total(ns) + k * 0x1_0000_0000_0000_0000,
    decreases ns.len(),
{
    if ns.len() == 0 {
        0
    } else {
        let k0 = lemma_wrapping_sum(ns.drop_last());
        let a = wrapping_sum(ns.drop_last());
        let x = ns.last();
        if a + x > i64::MAX {
            assert((k0 + 1) * 0x1_0000_0000_0000_0000 == k0 * 0x1_0000_0000_0000_0000 + 0x1_0000_0000_0000_0000)
                by (nonlinear_arith);
            k0 - 1
        } else if a + x < i64::MIN {
            assert((k0 + 1) * 0x1_0000_0000_0000_0000 == k0 * 0x1_0000_0000_0000_0000 + 0x1_0000_0000_0000_0000)
                by (nonlinear_arith);
            k0 + 1
        } else {
            k0
        }
    }
}

/// Adding integers: `(add n1 n2 ...)` on one or more integer literals gives
/// their sum whenever that fits in 64 bits, and changes no state.
pub proof fn law_add_sums(st: InterpreterState, ns: Seq<i64>, budget: nat)
    requires
        ns.len() > 0,
        i64::MIN <= total(ns) <= i64::MAX,
    ensures
        eval(st, NodeModel::CallExpression("add"@, number_literals(ns)), budget) == (
            Ok::<ValueModel, ErrorModel>(ValueModel::Number(total(ns) as i64)),
            st,
        ),
{
    lemma_numbers_of_literals(st, ns, 0, budget);
    assert(ns.subrange(0, ns.len() as int) =~= ns);
    let k = lemma_wrapping_sum(ns);
    let w = wrapping_sum(ns) as int;
    let t = total(ns);
    assert(k == 0) by {
        if k >= 1 {
            assert(k * 0x1_0000_0000_0000_0000 >= 0x1_0000_0000_0000_0000) by (nonlinear_arith)
                requires
                    k >= 1,
            ;
        } else if k <= -1 {
            assert(k * 0x1_0000_0000_0000_0000 <= -0x1_0000_0000_0000_0000) by (nonlinear_arith)
                requires
                    k <= -1,
            ;
        }
    }
    assert(w == t);
    let args = number_literals(ns);
    assert(eval_numbers(st, args, 0, budget) == (Ok::<Seq<i64>, ErrorModel>(ns), st));
    assert(eval_call(st, "add"@, args, budget) == (
        Ok::<ValueModel, ErrorModel>(ValueModel::Number(wrapping_sum(ns))),
        st,
    ));
}

/// Adding nothing: `(add)` fails with too few arguments, and changes no state.
pub proof fn law_add_nothing(st: InterpreterState, budget: nat)
    ensures
        eval(st, NodeModel::CallExpression("add"@, Seq::empty()), budget) == (
            Err::<ValueModel, ErrorModel>(ErrorModel::TooFewArguments),
            st,
        ),
{
    assert(eval_numbers(st, Seq::<NodeModel>::empty(), 0, budget) == (
        Ok::<Seq<i64>, ErrorModel>(Seq::empty()),
        st,
    ));
    assert(eval_call(st, "add"@, Seq::empty(), budget) == (
        Err::<ValueModel, ErrorModel>(ErrorModel::TooFewArguments),
        st,
    ));
}

/// A lookup of a name just assigned finds the assigned value.
proof fn lemma_lookup_assigned(sc: Scopes, k: Seq<char>, v: ValueModel)
    ensures
        sc.assign(k, v).lookup(k) == Some(v),
{
    let s1 = sc.assign(k, v);
    if sc.frames.len() > 0 {
        assert(s1.frames.last() == sc.frames.last().insert(k, v));
    } else {
        assert(frames_lookup(s1.frames, k) is None);
    }
}

/// Defining then reading: once `(define name e)` has given a value, the
/// identifier `name` evaluates to that same value, in the state it left.
pub proof fn law_define_then_read(st: InterpreterState, name: Seq<char>, e: NodeModel, budget: nat)
    ensures
        ({
            let (r, s1) = eval(st, NodeModel::CallExpression("define"@, seq![NodeModel::Identifier(name), e]), budget);
            r is Ok ==> eval(s1, NodeModel::Identifier(name), budget) == (r, s1)
        }),
{
    reveal_strlit("define");
    reveal_strlit("add");
    reveal_strlit("subtract");
    let args = seq![NodeModel::Identifier(name), e];
    assert(args.len() == 2 && args[0] == NodeModel::Identifier(name) && args[1] == e);
    assert("define"@.len() == 6 && "add"@.len() == 3 && "subtract"@.len() == 8);
    let (r, s0) = eval(st, e, budget);
    let whole = eval(st, NodeModel::CallExpression("define"@, args), budget);
    assert(whole == eval_call(st, "define"@, args, budget));
    if let Ok(v) = r {
        lemma_lookup_assigned(s0.scopes, name, v);
        assert(whole == (r, s0.with_scopes(s0.scopes.assign(name, v))));
    }
}

/// An identifier bound nowhere evaluates to nil, without failing and without
/// changing the state.
pub proof fn law_unbound_is_nil(st: InterpreterState, name: Seq<char>, budget: nat)
    requires
        st.scopes.lookup(name) is None,
    ensures
        eval(st, NodeModel::Identifier(name), budget) == (Ok::<ValueModel, ErrorModel>(ValueModel::Nil), st),
{
}

/// Shadowing: with no call-local scope, after binding `k` to `g` (globally),
/// entering a scope that binds `k` to `a` makes `k` read `a`; entering another
/// that binds it to `b` makes it read `b`; leaving three times, one more than
/// was entered, leaves `k` reading `g` again.
pub proof fn law_shadowing(sc: Scopes, k: Seq<char>, g: ValueModel, a: ValueModel, b: ValueModel)
    requires
        sc.frames.len() == 0,
    ensures
        sc.assign(k, g).lookup(k) == Some(g),
        sc.assign(k, g).push(map![k => a]).lookup(k) == Some(a),
        sc.assign(k, g).push(map![k => a]).push(map![k => b]).lookup(k) == Some(b),
        sc.assign(k, g).push(map![k => a]).push(map![k => b]).pop().pop().pop().lookup(k) == Some(g),
{
    lemma_lookup_assigned(sc, k, g);
    let s1 = sc.assign(k, g);
    let s2 = s1.push(map![k => a]);
    let s3 = s2.push(map![k => b]);
    assert(s2.frames.last() == map![k => a]);
    assert(s3.frames.last() == map![k => b]);
    assert(s1.frames.len() == 0);
    assert(s3.pop().frames =~= s2.frames);
    assert(s3.pop().pop().frames =~= s1.frames);
    assert(s3.pop().pop() == s1);
    assert(s3.pop().pop().pop() == s1);
}

/// Only the chosen branch runs: an if-expression evaluates its condition, then
/// exactly one branch from the state the condition left (the true branch when
/// the condition's value is truthy, else the false one); a failing condition
/// fails the whole and runs neither branch.
pub proof fn law_if_runs_one_branch(st: InterpreterState, c: NodeModel, t: NodeModel, f: NodeModel, budget: nat)
    ensures
        ({
            let whole = eval(
                st,
                NodeModel::IfExpression { expression: Box::new(c), when_true: Box::new(t), when_false: Box::new(f) },
                budget,
            );
            let (rc, s1) = eval(st, c, budget);
            &&& (rc is Ok && truthy(rc->Ok_0)) ==> whole == eval(s1, t, budget)
            &&& (rc is Ok && !truthy(rc->Ok_0)) ==> whole == eval(s1, f, budget)
            &&& rc is Err ==> whole == (rc, s1)
        }),
{
}

/// The exact left-fold difference: the first integer minus each of the others in turn.
pub open spec fn difference(ns: Seq<i64>) -> int
    decreases ns.len(),
{
    if ns.len() == 0 {
        0
    } else if ns.len() == 1 {
        ns[0] as int
    } else {
        difference(ns.drop_last()) - ns.last()
    }
}

/// The wrapping difference differs from the exact one by a multiple of 2^64.
proof fn lemma_wrapping_difference(ns: Seq<i64>) -> (k: int)
    ensures
        wrapping_difference(ns) as int == difference(ns) + k * 0x1_0000_0000_0000_0000,
    decreases ns.len(),
{
    if ns.len() <= 1 {
        0
    } else {
        let k0 = lemma_wrapping_difference(ns.drop_last());
        let a = wrapping_difference(ns.drop_last());
        let x = ns.last();
        assert((k0 + 1) * 0x1_0000_0000_0000_0000 == k0 * 0x1_0000_0000_0000_0000 + 0x1_0000_0000_0000_0000)
            by (nonlinear_arith);
        if a - x > i64::MAX {
            k0 - 1
        } else if a - x < i64::MIN {
            k0 + 1
        } else {
            k0
        }
    }
}

/// A multiple of 2^64 that keeps a 64-bit value in range is zero.
proof fn lemma_no_wrap(w: int, t: int, k: int)
    requires
        i64::MIN <= w <= i64::MAX,
        i64::MIN <= t <= i64::MAX,
        w == t + k * 0x1_0000_0000_0000_0000,
    ensures
        k == 0,
{
    if k >= 1 {
        assert(k * 0x1_0000_0000_0000_0000 >= 0x1_0000_0000_0000_0000) by (nonlinear_arith)
            requires
                k >= 1,
        ;
    } else if k <= -1 {
        assert(k * 0x1_0000_0000_0000_0000 <= -0x1_0000_0000_0000_0000) by (nonlinear_arith)
            requires
                k <= -1,
        ;
    }
}

/// Subtracting integers: `(subtract n1 n2 ...)` on one or more integer literals
/// gives the first minus each of the others in turn whenever that fits in 64
/// bits, and changes no state; `(subtract)` fails with too few arguments.
pub proof fn law_subtract_folds(st: InterpreterState, ns: Seq<i64>, budget: nat)
    ensures
        ns.len() > 0 && i64::MIN <= difference(ns) <= i64::MAX ==> eval(
            st,
            NodeModel::CallExpression("subtract"@, number_literals(ns)),
            budget,
        ) == (Ok::<ValueModel, ErrorModel>(ValueModel::Number(difference(ns) as i64)), st),
        eval(st, NodeModel::CallExpression("subtract"@, Seq::empty()), budget) == (
            Err::<ValueModel, ErrorModel>(ErrorModel::TooFewArguments),
            st,
        ),
{
    reveal_strlit("subtract");
    reveal_strlit("add");
    assert("subtract"@.len() == 8 && "add"@.len() == 3);
    assert(eval_numbers(st, Seq::<NodeModel>::empty(), 0, budget) == (
        Ok::<Seq<i64>, ErrorModel>(Seq::empty()),
        st,
    ));
    assert(eval_call(st, "subtract"@, Seq::empty(), budget) == (
        Err::<ValueModel, ErrorModel>(ErrorModel::TooFewArguments),
        st,
    ));
    if ns.len() > 0 && i64::MIN <= difference(ns) <= i64::MAX {
        lemma_numbers_of_literals(st, ns, 0, budget);
        assert(ns.subrange(0, ns.len() as int) =~= ns);
        let k = lemma_wrapping_difference(ns);
        lemma_no_wrap(wrapping_difference(ns) as int, difference(ns), k);
        let args = number_literals(ns);
        assert(eval_numbers(st, args, 0, budget) == (Ok::<Seq<i64>, ErrorModel>(ns), st));
        assert(eval_call(st, "subtract"@, args, budget) == (
            Ok::<ValueModel, ErrorModel>(ValueModel::Number(wrapping_difference(ns))),
            st,
        ));
    }
}

/// What `car` gives for a value: the first element of a list, nil for an empty
/// list, and a type failure for anything else.
pub open spec fn car_of(v: ValueModel) -> Result<ValueModel, ErrorModel> {
    match v {
        ValueModel::List(vs) => Ok(if vs.len() > 0 { vs[0] } else { ValueModel::Nil }),
        _ => Err(not_a_list(v)),
    }
}

/// What `cdr` gives for a value: a list without its first element (an empty
/// list stays empty), and a type failure for anything else.
pub open spec fn cdr_of(v: ValueModel) -> Result<ValueModel, ErrorModel> {
    match v {
        ValueModel::List(vs) => Ok(ValueModel::List(if vs.len() > 0 { vs.drop_first() } else { vs })),
        _ => Err(not_a_list(v)),
    }
}

/// What `is-empty` gives for a value: whether a list has no element, and a type
/// failure for anything else.
pub open spec fn is_empty_of(v: ValueModel) -> Result<ValueModel, ErrorModel> {
    match v {
        ValueModel::List(vs) => Ok(ValueModel::Boolean(vs.len() == 0)),
        _ => Err(not_a_list(v)),
    }
}

/// The list primitives: when the one argument `e` evaluates to `v`, `car`,
/// `cdr` and `is-empty` give `car_of(v)`, `cdr_of(v)` and `is_empty_of(v)` in
/// the state that evaluating `e` left; when it fails, they fail the same way.
pub proof fn law_list_access(st: InterpreterState, e: NodeModel, budget: nat)
    ensures
        ({
            let (r, s1) = eval(st, e, budget);
            let args = seq![e];
            &&& r is Ok ==> eval(st, NodeModel::CallExpression("car"@, args), budget) == (car_of(r->Ok_0), s1)
            &&& r is Ok ==> eval(st, NodeModel::CallExpression("cdr"@, args), budget) == (cdr_of(r->Ok_0), s1)
            &&& r is Ok ==> eval(st, NodeModel::CallExpression("is-empty"@, args), budget) == (
                is_empty_of(r->Ok_0),
                s1,
            )
            &&& r is Err ==> eval(st, NodeModel::CallExpression("car"@, args), budget) == (r, s1)
            &&& r is Err ==> eval(st, NodeModel::CallExpression("cdr"@, args), budget) == (r, s1)
            &&& r is Err ==> eval(st, NodeModel::CallExpression("is-empty"@, args), budget) == (r, s1)
        }),
{
    reveal_strlit("car");
    reveal_strlit("cdr");
    reveal_strlit("is-empty");
    reveal_strlit("is-nil");
    reveal_strlit("add");
    reveal_strlit("subtract");
    reveal_strlit("define");
    assert("car"@[0] == 'c' && "add"@[0] == 'a' && "car"@.len() == 3 && "subtract"@.len() == 8);
    assert("define"@.len() == 6 && "is-nil"@.len() == 6 && "is-empty"@.len() == 8);
    assert("cdr"@[0] == 'c' && "cdr"@[1] == 'd' && "car"@[1] == 'a' && "cdr"@.len() == 3);
    assert("is-empty"@[0] == 'i' && "subtract"@[0] == 's');
    let args = seq![e];
    assert(args.len() == 1 && args[0] == e);
    assert(eval(st, NodeModel::CallExpression("car"@, args), budget) == eval_call(st, "car"@, args, budget));
    assert(eval(st, NodeModel::CallExpression("cdr"@, args), budget) == eval_call(st, "cdr"@, args, budget));
    assert(eval(st, NodeModel::CallExpression("is-empty"@, args), budget) == eval_call(
        st,
        "is-empty"@,
        args,
        budget,
    ));
}

/// The decimal digits of a number are ASCII digits that read back as the number.
proof fn lemma_digits_of(m: nat)
    ensures
        digits_of(m).len() > 0,
        all_ascii_digits(digits_of(m)),
        digits_value(digits_of(m)) == m,
    decreases m,
{
    let d = m % 10;
    assert('0' <= digit_char(d) <= '9' && digit_value(digit_char(d)) == d);
    if m < 10 {
        assert(digits_of(m) == seq![digit_char(m)]);
        assert(digits_of(m).drop_last() =~= Seq::<char>::empty());
        assert(d == m);
        assert(digits_value(digits_of(m)) == digits_value(Seq::<char>::empty()) * 10 + digit_value(digit_char(m)));
    } else {
        lemma_digits_of(m / 10);
        let s = digits_of(m);
        assert(s == digits_of(m / 10).push(digit_char(d)));
        assert(s.drop_last() =~= digits_of(m / 10));
        assert forall|i: int| 0 <= i < s.len() implies '0' <= #[trigger] s[i] <= '9' by {
            if i < s.len() - 1 {
                assert(s[i] == digits_of(m / 10)[i]);
            }
        }
        assert(m == (m / 10) * 10 + d);
        assert(digits_value(s) == digits_value(digits_of(m / 10)) * 10 + digit_value(s.last()));
    }
}

/// In a run of ASCII digits, the number scanned from `k` runs to the end.
proof fn lemma_number_end_digits(cs: Seq<char>, k: int)
    requires
        0 <= k <= cs.len(),
        all_ascii_digits(cs),
    ensures
        number_end(cs, k) == cs.len(),
    decreases cs.len() - k,
{
    if k < cs.len() {
        assert('0' <= cs[k] <= '9');
        lemma_number_end_digits(cs, k + 1);
    }
}

/// Round trip of a literal: the display form of a non-negative number
/// tokenizes to that one number, whose token parses to its literal, which
/// evaluates back to the number without changing the state.
pub proof fn law_number_round_trip(n: i64, st: InterpreterState, budget: nat)
    requires
        n >= 0,
    ensures
        tokens_of(display(ValueModel::Number(n))) == seq![TokenModel::Number(n)],
        parse_node_at(seq![TokenModel::Number(n)], 0) == Ok::<(NodeModel, int), ErrorModel>((NodeModel::NumberLiteral(n), 1)),
        eval(st, NodeModel::NumberLiteral(n), budget) == (Ok::<ValueModel, ErrorModel>(ValueModel::Number(n)), st),
{
    let cs = digits_of(n as nat);
    assert(display(ValueModel::Number(n)) == cs);
    lemma_digits_of(n as nat);
    lemma_number_end_digits(cs, 1);
    assert('0' <= cs[0] <= '9');
    assert(cs.subrange(0, cs.len() as int) =~= cs);
    assert(decimal_value(cs) == Some(n));
    assert(scan(cs, cs.len() as int) == Seq::<TokenModel>::empty());
    assert(scan(cs, 0) =~= seq![TokenModel::Number(n)]);
}

} // verus!
