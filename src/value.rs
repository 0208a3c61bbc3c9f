use vstd::prelude::*;
use vstd::string::*;

use crate::parser::{strings_view, clone_strings, ASTNode, NodeModel};
use crate::tokenizer::push_char;

verus! {

/// The runtime type of a value, as error reports name it.
#[derive(Debug, Clone, Copy, PartialEq, Eq, Structural)]
pub enum Type {
    Number,
    String,
    List,
    Boolean,
    Function,
    Nil,
}

/// A runtime value.
#[derive(Debug, PartialEq)]
pub enum Value {
    Number(i64),
    String(String),
    List(Vec<Value>),
    Function(Function),
    Boolean(bool),
    Nil,
}

/// A user-defined function: its name, its parameter names and its body.
#[derive(Debug, PartialEq)]
pub struct Function {
    pub identifier: String,
    pub parameter_list: Vec<String>,
    pub body: ASTNode,
}

/// The mathematical value of a function.
pub struct FunctionModel {
    pub identifier: Seq<char>,
    pub parameter_list: Seq<Seq<char>>,
    pub body: NodeModel,
}

/// The mathematical value of a runtime value.
pub enum ValueModel {
    Number(i64),
    String(Seq<char>),
    List(Seq<ValueModel>),
    Function(FunctionModel),
    Boolean(bool),
    Nil,
}

impl View for Function {
    type V = FunctionModel;

    open spec fn view(&self) -> FunctionModel {
        FunctionModel {
            identifier: self.identifier@,
            parameter_list: strings_view(self.parameter_list@),
            body: self.body@,
        }
    }
}

impl View for Value {
    type V = ValueModel;

    open spec fn view(&self) -> ValueModel
        decreases self,
    {
        match self {
            Value::Number(n) => ValueModel::Number(*n),
            Value::String(s) => ValueModel::String(s@),
            Value::List(vs) => ValueModel::List(values_view(vs@)),
            Value::Function(f) => ValueModel::Function(f@),
            Value::Boolean(b) => ValueModel::Boolean(*b),
            Value::Nil => ValueModel::Nil,
        }
    }
}

/// The views of a sequence of values.
pub open spec fn values_view(s: Seq<Value>) -> Seq<ValueModel>
    decreases s,
{
    if s.len() == 0 {
        Seq::empty()
    } else {
        values_view(s.drop_last()).push(s.last()@)
    }
}

/// `values_view` maps each element to its view.
pub proof fn lemma_values_view(s: Seq<Value>)
    ensures
        values_view(s).len() == s.len(),
        forall|i: int| 0 <= i < s.len() ==> #[trigger] values_view(s)[i] == s[i]@,
    decreases s.len(),
{
    if s.len() > 0 {
        lemma_values_view(s.drop_last());
        assert(values_view(s) == values_view(s.drop_last()).push(s.last()@));
        assert forall|i: int| 0 <= i < s.len() implies #[trigger] values_view(s)[i] == s[i]@ by {
            if i < s.len() - 1 {
                assert(s.drop_last()[i] == s[i]);
            }
        }
    }
}

/// Appending a value appends its view.
pub proof fn lemma_values_view_push(s: Seq<Value>, x: Value)
    ensures
        values_view(s.push(x)) == values_view(s).push(x@),
{
    assert(s.push(x).drop_last() =~= s);
}

/// The type tag of a value.
pub open spec fn type_of(v: ValueModel) -> Type {
    match v {
        ValueModel::Number(_) => Type::Number,
        ValueModel::String(_) => Type::String,
        ValueModel::Boolean(_) => Type::Boolean,
        ValueModel::List(_) => Type::List,
        ValueModel::Function(_) => Type::Function,
        ValueModel::Nil => Type::Nil,
    }
}

/// Truthiness: positive numbers, `true`, non-empty strings and lists, and functions.
pub open spec fn truthy(v: ValueModel) -> bool {
    match v {
        ValueModel::Number(n) => n > 0,
        ValueModel::Boolean(b) => b,
        ValueModel::String(s) => s.len() > 0,
        ValueModel::List(vs) => vs.len() > 0,
        ValueModel::Function(_) => true,
        ValueModel::Nil => false,
    }
}

/// The character of a decimal digit.
pub open spec fn digit_char(d: nat) -> char {
    if d == 0 {
        '0'
    } else if d == 1 {
        '1'
    } else if d == 2 {
        '2'
    } else if d == 3 {
        '3'
    } else if d == 4 {
        '4'
    } else if d == 5 {
        '5'
    } else if d == 6 {
        '6'
    } else if d == 7 {
        '7'
    } else if d == 8 {
        '8'
    } else {
        '9'
    }
}

/// The decimal digits of a natural number, most significant first.
pub open spec fn digits_of(m: nat) -> Seq<char>
    decreases m,
{
    if m < 10 {
        seq![digit_char(m)]
    } else {
        digits_of(m / 10).push(digit_char(m % 10))
    }
}

/// The decimal form of an integer, with a leading `-` when negative.
pub open spec fn decimal(n: int) -> Seq<char> {
    if n < 0 {
        seq!['-'] + digits_of((-n) as nat)
    } else {
        digits_of(n as nat)
    }
}

/// The display form of a value.
pub open spec fn display(v: ValueModel) -> Seq<char>
    decreases v,
{
    match v {
        ValueModel::Number(n) => decimal(n as int),
        ValueModel::String(s) => s,
        ValueModel::Function(f) => "#<Function:"@ + f.identifier + ">"@,
        ValueModel::Boolean(b) => if b {
            "true"@
        } else {
            "false"@
        },
        ValueModel::List(vs) => "("@ + display_joined(vs) + ")"@,
        ValueModel::Nil => "nil"@,
    }
}

/// The display forms of values, separated by single spaces.
pub open spec fn display_joined(vs: Seq<ValueModel>) -> Seq<char>
    decreases vs,
{
    if vs.len() == 0 {
        Seq::empty()
    } else if vs.len() == 1 {
        display(vs[0])
    } else {
        display_joined(vs.drop_last()) + " "@ + display(vs.last())
    }
}

fn digit_to_char(d: u64) -> (c: char)
    requires
        d < 10,
    ensures
        c == digit_char(d as nat),
{
    if d == 0 {
        '0'
    } else if d == 1 {
        '1'
    } else if d == 2 {
        '2'
    } else if d == 3 {
        '3'
    } else if d == 4 {
        '4'
    } else if d == 5 {
        '5'
    } else if d == 6 {
        '6'
    } else if d == 7 {
        '7'
    } else if d == 8 {
        '8'
    } else {
        '9'
    }
}

fn push_digits(s: &mut String, m: u64)
    ensures
        final(s)@ == old(s)@ + digits_of(m as nat),
    decreases m,
{
    if m >= 10 {
        push_digits(s, m / 10);
        push_char(s, digit_to_char(m % 10));
        assert(final(s)@ =~= old(s)@ + digits_of(m as nat));
    } else {
        push_char(s, digit_to_char(m));
        assert(final(s)@ =~= old(s)@ + digits_of(m as nat));
    }
}

/// Appends the decimal form of an integer.
fn push_decimal(s: &mut String, n: i64)
    ensures
        final(s)@ == old(s)@ + decimal(n as int),
{
    if n < 0 {
        push_char(s, '-');
        let m: u64 = if n == i64::MIN {
            9223372036854775808u64
        } else {
            (-n) as u64
        };
        push_digits(s, m);
        assert(final(s)@ =~= old(s)@ + decimal(n as int));
    } else {
        push_digits(s, n as u64);
    }
}

/// Copies a list of values.
fn clone_values(v: &Vec<Value>) -> (r: Vec<Value>)
    ensures
        values_view(r@) == values_view(v@),
    decreases v,
{
    let mut out: Vec<Value> = Vec::new();
    let mut i: usize = 0;
    proof {
        lemma_values_view(v@);
    }
    while i < v.len()
        invariant
            0 <= i <= v@.len(),
            values_view(v@).len() == v@.len(),
            forall|j: int| 0 <= j < v@.len() ==> #[trigger] values_view(v@)[j] == v@[j]@,
            values_view(out@) == values_view(v@).take(i as int),
        decreases v@.len() - i,
    {
        proof {
            assert(decreases_to!(v => v@[i as int]));
        }
        let c = v[i].clone();
        proof {
            lemma_values_view_push(out@, c);
            assert(values_view(v@).take(i + 1) =~= values_view(v@).take(i as int).push(c@));
        }
        out.push(c);
        i = i + 1;
    }
    assert(values_view(v@).take(v@.len() as int) =~= values_view(v@));
    out
}

impl Clone for Function {
    fn clone(&self) -> (r: Self)
        ensures
            r@ == self@,
    {
        Function {
            identifier: self.identifier.clone(),
            parameter_list: clone_strings(&self.parameter_list),
            body: self.body.clone(),
        }
    }
}

impl Clone for Value {
    fn clone(&self) -> (r: Self)
        ensures
            r@ == self@,
        decreases self,
    {
        match self {
            Value::Number(n) => Value::Number(*n),
            Value::String(s) => Value::String(s.clone()),
            Value::List(vs) => Value::List(clone_values(vs)),
            Value::Function(f) => Value::Function(f.clone()),
            Value::Boolean(b) => Value::Boolean(*b),
            Value::Nil => Value::Nil,
        }
    }
}

impl Value {
    /// Whether the value counts as true in a condition.
    pub fn is_truthy(&self) -> (r: bool)
        ensures
            r == truthy(self@),
    {
        match self {
            Value::Number(number) => *number > 0,
            Value::Boolean(value) => *value,
            Value::String(value) => !value.as_str().is_empty(),
            Value::List(value) => {
                proof {
                    lemma_values_view(value@);
                }
                value.len() > 0
            },
            Value::Function(_) => true,
            Value::Nil => false,
        }
    }

    /// The human-readable form of the value.
    pub fn to_display_string(&self) -> (r: String)
        ensures
            r@ == display(self@),
        decreases self,
    {
        match self {
            Value::Number(number) => {
                let mut s = String::new();
                push_decimal(&mut s, *number);
                s
            },
            Value::String(string) => string.clone(),
            Value::Function(function) => {
                let mut s = String::from_str("#<Function:");
                s.append(function.identifier.as_str());
                s.append(">");
                s
            },
            Value::Boolean(value) => if *value {
                String::from_str("true")
            } else {
                String::from_str("false")
            },
            Value::List(values) => {
                let mut s = String::from_str("(");
                s.append(joined_display(values).as_str());
                s.append(")");
                s
            },
            Value::Nil => String::from_str("nil"),
        }
    }

    /// The type tag of the value.
    pub fn value_type(&self) -> (r: Type)
        ensures
            r == type_of(self@),
    {
        match self {
            Value::Number(_) => Type::Number,
            Value::String(_) => Type::String,
            Value::Boolean(_) => Type::Boolean,
            Value::List(_) => Type::List,
            Value::Function(_) => Type::Function,
            Value::Nil => Type::Nil,
        }
    }
}

/// The display forms of values, separated by single spaces.
pub fn joined_display(values: &Vec<Value>) -> (r: String)
    ensures
        r@ == display_joined(values_view(values@)),
    decreases values,
{
    let mut s = String::new();
    let mut i: usize = 0;
    proof {
        lemma_values_view(values@);
    }
    let ghost vs = values_view(values@);
    while i < values.len()
        invariant
            0 <= i <= values@.len(),
            vs == values_view(values@),
            vs.len() == values@.len(),
            forall|j: int| 0 <= j < values@.len() ==> #[trigger] vs[j] == values@[j]@,
            s@ == display_joined(vs.take(i as int)),
        decreases values@.len() - i,
    {
        proof {
            assert(decreases_to!(values => values@[i as int]));
        }
        let piece = values[i].to_display_string();
        let ghost prefix = vs.take(i as int);
        let ghost next = vs.take(i + 1);
        assert(next.drop_last() =~= prefix);
        if i > 0 {
            s.append(" ");
        }
        s.append(piece.as_str());
        proof {
            if i == 0 {
                assert(prefix =~= Seq::<ValueModel>::empty());
                assert(s@ =~= display_joined(next));
            } else {
                assert(s@ =~= display_joined(next));
            }
        }
        i = i + 1;
    }
    assert(vs.take(values@.len() as int) =~= vs);
    s
}

impl Function {
    /// A function with the given name, parameter names and body.
    pub fn new(identifier: String, parameter_list: Vec<String>, body: ASTNode) -> (r: Self)
        ensures
            r.identifier == identifier,
            r.parameter_list == parameter_list,
            r.body == body,
    {
        Function { identifier, parameter_list, body }
    }

    /// The function's name.
    pub fn identifier(&self) -> (r: &str)
        ensures
            r@ == self.identifier@,
    {
        self.identifier.as_str()
    }

    /// The function's parameter names.
    pub fn parameter_list(&self) -> (r: &Vec<String>)
        ensures
            r == &self.parameter_list,
    {
        &self.parameter_list
    }

    /// The function's body.
    pub fn body(&self) -> (r: &ASTNode)
        ensures
            r == &self.body,
    {
        &self.body
    }
}

} // verus!
