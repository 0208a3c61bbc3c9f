use vstd::prelude::*;

use crate::error::{Error, ErrorModel, ErrorType};
use crate::tokenizer::{is_word, tokens_view, Token, TokenModel};

verus! {

/// A node of the syntax tree.
#[derive(Debug, PartialEq)]
pub enum ASTNode {
    NumberLiteral(i64),
    BooleanLiteral(bool),
    Identifier(String),
    StringLiteral(String),
    CallExpression(String, Vec<ASTNode>),
    ListExpression(Vec<ASTNode>),
    IfExpression { expression: Box<ASTNode>, when_true: Box<ASTNode>, when_false: Box<ASTNode> },
    FunctionDeclaration { identifier: String, parameter_list: Vec<String>, body: Box<ASTNode> },
}

/// The mathematical value of a syntax tree.
pub enum NodeModel {
    NumberLiteral(i64),
    BooleanLiteral(bool),
    Identifier(Seq<char>),
    StringLiteral(Seq<char>),
    CallExpression(Seq<char>, Seq<NodeModel>),
    ListExpression(Seq<NodeModel>),
    IfExpression { expression: Box<NodeModel>, when_true: Box<NodeModel>, when_false: Box<NodeModel> },
    FunctionDeclaration { identifier: Seq<char>, parameter_list: Seq<Seq<char>>, body: Box<NodeModel> },
}

impl View for ASTNode {
    type V = NodeModel;

    open spec fn view(&self) -> NodeModel
        decreases self,
    {
        match self {
            ASTNode::NumberLiteral(n) => NodeModel::NumberLiteral(*n),
            ASTNode::BooleanLiteral(b) => NodeModel::BooleanLiteral(*b),
            ASTNode::Identifier(s) => NodeModel::Identifier(s@),
            ASTNode::StringLiteral(s) => NodeModel::StringLiteral(s@),
            ASTNode::CallExpression(name, args) => NodeModel::CallExpression(name@, nodes_view(args@)),
            ASTNode::ListExpression(items) => NodeModel::ListExpression(nodes_view(items@)),
            ASTNode::IfExpression { expression, when_true, when_false } => NodeModel::IfExpression {
                expression: Box::new((**expression)@),
                when_true: Box::new((**when_true)@),
                when_false: Box::new((**when_false)@),
            },
            ASTNode::FunctionDeclaration { identifier, parameter_list, body } =>
                NodeModel::FunctionDeclaration {
                    identifier: identifier@,
                    parameter_list: strings_view(parameter_list@),
                    body: Box::new((**body)@),
                },
        }
    }
}

/// The views of a sequence of syntax trees.
pub open spec fn nodes_view(s: Seq<ASTNode>) -> Seq<NodeModel>
    decreases s,
{
    if s.len() == 0 {
        Seq::empty()
    } else {
        nodes_view(s.drop_last()).push(s.last()@)
    }
}

/// The views of a sequence of strings.
pub open spec fn strings_view(s: Seq<String>) -> Seq<Seq<char>> {
    s.map_values(|x: String| x@)
}

/// `nodes_view` maps each element to its view.
pub proof fn lemma_nodes_view(s: Seq<ASTNode>)
    ensures
        nodes_view(s).len() == s.len(),
        forall|i: int| 0 <= i < s.len() ==> #[trigger] nodes_view(s)[i] == s[i]@,
    decreases s.len(),
{
    if s.len() > 0 {
        lemma_nodes_view(s.drop_last());
        assert(nodes_view(s) == nodes_view(s.drop_last()).push(s.last()@));
        assert forall|i: int| 0 <= i < s.len() implies #[trigger] nodes_view(s)[i] == s[i]@ by {
            if i < s.len() - 1 {
                assert(s.drop_last()[i] == s[i]);
            }
        }
    }
}

/// Copies a list of strings.
pub(crate) fn clone_strings(v: &Vec<String>) -> (r: Vec<String>)
    ensures
        strings_view(r@) == strings_view(v@),
{
    let mut out: Vec<String> = Vec::new();
    let mut i: usize = 0;
    while i < v.len()
        invariant
            0 <= i <= v@.len(),
            out@ == v@.take(i as int),
        decreases v@.len() - i,
    {
        out.push(v[i].clone());
        i = i + 1;
        assert(out@ =~= v@.take(i as int));
    }
    assert(v@.take(v@.len() as int) =~= v@);
    out
}

/// Copies a list of syntax trees.
fn clone_nodes(v: &Vec<ASTNode>) -> (r: Vec<ASTNode>)
    ensures
        nodes_view(r@) == nodes_view(v@),
    decreases v,
{
    let mut out: Vec<ASTNode> = Vec::new();
    let mut i: usize = 0;
    proof {
        lemma_nodes_view(v@);
    }
    while i < v.len()
        invariant
            0 <= i <= v@.len(),
            nodes_view(v@).len() == v@.len(),
            forall|j: int| 0 <= j < v@.len() ==> #[trigger] nodes_view(v@)[j] == v@[j]@,
            nodes_view(out@) == nodes_view(v@).take(i as int),
        decreases v@.len() - i,
    {
        proof {
            assert(decreases_to!(v => v@[i as int]));
        }
        let c = v[i].clone();
        let ghost before = out@;
        out.push(c);
        proof {
            assert(out@.drop_last() =~= before);
            assert(nodes_view(out@) == nodes_view(before).push(c@));
            assert(nodes_view(v@).take(i + 1) =~= nodes_view(v@).take(i as int).push(c@));
        }
        i = i + 1;
    }
    assert(nodes_view(v@).take(v@.len() as int) =~= nodes_view(v@));
    out
}

impl Clone for ASTNode {
    fn clone(&self) -> (r: Self)
        ensures
            r@ == self@,
        decreases self,
    {
        match self {
            ASTNode::NumberLiteral(n) => ASTNode::NumberLiteral(*n),
            ASTNode::BooleanLiteral(b) => ASTNode::BooleanLiteral(*b),
            ASTNode::Identifier(s) => ASTNode::Identifier(s.clone()),
            ASTNode::StringLiteral(s) => ASTNode::StringLiteral(s.clone()),
            ASTNode::CallExpression(name, args) => ASTNode::CallExpression(
                name.clone(),
                clone_nodes(args),
            ),
            ASTNode::ListExpression(items) => ASTNode::ListExpression(clone_nodes(items)),
            ASTNode::IfExpression { expression, when_true, when_false } => {
                let e = (**expression).clone();
                let t = (**when_true).clone();
                let f = (**when_false).clone();
                ASTNode::IfExpression {
                    expression: Box::new(e),
                    when_true: Box::new(t),
                    when_false: Box::new(f),
                }
            },
            ASTNode::FunctionDeclaration { identifier, parameter_list, body } => {
                let b = (**body).clone();
                ASTNode::FunctionDeclaration {
                    identifier: identifier.clone(),
                    parameter_list: clone_strings(parameter_list),
                    body: Box::new(b),
                }
            },
        }
    }
}

/// A cursor over a sequence of tokens: the tokens, and the index of the next one.
pub struct TokenStream {
    tokens: Vec<Token>,
    position: usize,
}

impl View for TokenStream {
    type V = (Seq<TokenModel>, int);

    closed spec fn view(&self) -> (Seq<TokenModel>, int) {
        (tokens_view(self.tokens@), self.position as int)
    }
}

impl TokenStream {
    /// A cursor at the first of the given tokens.
    pub fn new(tokens: Vec<Token>) -> (r: Self)
        ensures
            r@ == (tokens_view(tokens@), 0int),
    {
        TokenStream { tokens, position: 0 }
    }

    /// The next token, if any, without consuming it.
    pub fn peek(&self) -> (r: Option<&Token>)
        ensures
            r is Some <==> 0 <= self@.1 < self@.0.len(),
            r is Some ==> r->0@ == self@.0[self@.1],
    {
        if self.position < self.tokens.len() {
            Some(&self.tokens[self.position])
        } else {
            None
        }
    }

    /// Consumes and returns the next token, if any.
    pub fn next(&mut self) -> (r: Option<Token>)
        ensures
            final(self)@.0 == old(self)@.0,
            0 <= old(self)@.1 < old(self)@.0.len() ==> r is Some && r->0@ == old(self)@.0[old(self)@.1]
                && final(self)@.1 == old(self)@.1 + 1,
            !(0 <= old(self)@.1 < old(self)@.0.len()) ==> r is None && final(self)@.1 == old(self)@.1,
    {
        if self.position < self.tokens.len() {
            let t = self.tokens[self.position].clone();
            self.position = self.position + 1;
            Some(t)
        } else {
            None
        }
    }

    /// The number of tokens not yet consumed.
    pub fn len(&self) -> (r: usize)
        ensures
            r == if self@.1 < self@.0.len() { self@.0.len() - self@.1 } else { 0 },
    {
        if self.position < self.tokens.len() {
            self.tokens.len() - self.position
        } else {
            0
        }
    }
}

/// Negation of a 64-bit integer; it wraps at the one value that has no negation.
pub open spec fn negated(n: i64) -> i64 {
    if n == i64::MIN {
        n
    } else {
        (-n) as i64
    }
}

/// Prefixes the items of a successful parse with `pre`.
pub open spec fn after_items<T>(pre: Seq<T>, r: Result<(Seq<T>, int), ErrorModel>) -> Result<
    (Seq<T>, int),
    ErrorModel,
> {
    match r {
        Ok((rest, q)) => Ok((pre + rest, q)),
        Err(e) => Err(e),
    }
}

/// A closing parenthesis at `pos` completes `node`.
pub open spec fn close_at(toks: Seq<TokenModel>, pos: int, node: NodeModel) -> Result<(NodeModel, int), ErrorModel> {
    if pos < 0 || pos >= toks.len() {
        Err(ErrorModel::MissingToken)
    } else if toks[pos] is ClosingParenthesis {
        Ok((node, pos + 1))
    } else {
        Err(ErrorModel::UnexpectedToken(toks[pos]))
    }
}

/// One expression from the token at `pos`: the node and the index after it.
/// (Every successful parse consumes at least one token, so the branches below
/// that fail when a position did not advance are never taken; they bound the
/// recursion.)
pub open spec fn parse_node_at(toks: Seq<TokenModel>, pos: int) -> Result<(NodeModel, int), ErrorModel>
    decreases toks.len() - pos, 0int,
{
    if pos < 0 || pos >= toks.len() {
        Err(ErrorModel::MissingToken)
    } else {
        match toks[pos] {
            TokenModel::Number(n) => Ok((NodeModel::NumberLiteral(n), pos + 1)),
            TokenModel::Boolean(b) => Ok((NodeModel::BooleanLiteral(b), pos + 1)),
            TokenModel::String(s) => Ok((NodeModel::StringLiteral(s), pos + 1)),
            TokenModel::Name(s) => Ok((NodeModel::Identifier(s), pos + 1)),
            TokenModel::NegativeSymbol => if pos + 1 >= toks.len() {
                Err(ErrorModel::MissingToken)
            } else {
                match parse_node_at(toks, pos + 1) {
                    Ok((NodeModel::NumberLiteral(n), p)) => Ok((NodeModel::NumberLiteral(negated(n)), p)),
                    _ => Err(ErrorModel::UnexpectedToken(TokenModel::NegativeSymbol)),
                }
            },
            TokenModel::OpeningParenthesis => {
                if pos + 1 >= toks.len() {
                    Err(ErrorModel::MissingToken)
                } else {
                    match toks[pos + 1] {
                        TokenModel::IfKeyword => parse_if_at(toks, pos + 2),
                        TokenModel::ListKeyword => parse_list_at(toks, pos + 2),
                        TokenModel::DefnKeyword => parse_defn_at(toks, pos + 2),
                        TokenModel::Name(s) => if s == "list"@ {
                            parse_list_at(toks, pos + 2)
                        } else {
                            parse_call_at(toks, s, pos + 2)
                        },
                        t => Err(ErrorModel::UnexpectedToken(t)),
                    }
                }
            },
            t => Err(ErrorModel::UnexpectedToken(t)),
        }
    }
}

/// Expressions from `pos` up to a closing parenthesis, which is consumed.
pub open spec fn parse_items_at(toks: Seq<TokenModel>, pos: int) -> Result<(Seq<NodeModel>, int), ErrorModel>
    decreases toks.len() - pos, 1int,
{
    if pos < 0 || pos >= toks.len() {
        Err(ErrorModel::MissingToken)
    } else if toks[pos] is ClosingParenthesis {
        Ok((Seq::empty(), pos + 1))
    } else {
        match parse_node_at(toks, pos) {
            Err(e) => Err(e),
            Ok((node, p)) => if pos < p <= toks.len() {
                after_items(seq![node], parse_items_at(toks, p))
            } else {
                Err(ErrorModel::MissingToken)
            },
        }
    }
}

/// The rest of a list expression, from just after its keyword.
pub open spec fn parse_list_at(toks: Seq<TokenModel>, pos: int) -> Result<(NodeModel, int), ErrorModel>
    decreases toks.len() - pos, 2int,
{
    match parse_items_at(toks, pos) {
        Ok((items, q)) => Ok((NodeModel::ListExpression(items), q)),
        Err(e) => Err(e),
    }
}

/// The arguments of a call of `name`, from just after the name.
pub open spec fn parse_call_at(toks: Seq<TokenModel>, name: Seq<char>, pos: int) -> Result<(NodeModel, int), ErrorModel>
    decreases toks.len() - pos, 2int,
{
    match parse_items_at(toks, pos) {
        Ok((args, q)) => Ok((NodeModel::CallExpression(name, args), q)),
        Err(e) => Err(e),
    }
}

/// The rest of an if-expression, from just after its keyword: three expressions and `)`.
pub open spec fn parse_if_at(toks: Seq<TokenModel>, pos: int) -> Result<(NodeModel, int), ErrorModel>
    decreases toks.len() - pos, 2int,
{
    match parse_node_at(toks, pos) {
        Err(e) => Err(e),
        Ok((c, p1)) => if !(pos < p1 <= toks.len()) {
            Err(ErrorModel::MissingToken)
        } else {
            match parse_node_at(toks, p1) {
                Err(e) => Err(e),
                Ok((t, p2)) => if !(p1 < p2 <= toks.len()) {
                    Err(ErrorModel::MissingToken)
                } else {
                    match parse_node_at(toks, p2) {
                        Err(e) => Err(e),
                        Ok((f, p3)) => close_at(
                            toks,
                            p3,
                            NodeModel::IfExpression {
                                expression: Box::new(c),
                                when_true: Box::new(t),
                                when_false: Box::new(f),
                            },
                        ),
                    }
                },
            }
        },
    }
}

/// Parameter names from `pos` up to a closing bracket, which is consumed.
pub open spec fn parse_params_at(toks: Seq<TokenModel>, pos: int) -> Result<(Seq<Seq<char>>, int), ErrorModel>
    decreases toks.len() - pos,
{
    if pos < 0 || pos >= toks.len() {
        Err(ErrorModel::MissingToken)
    } else {
        match toks[pos] {
            TokenModel::Name(s) => match parse_params_at(toks, pos + 1) {
                Ok((rest, q)) => Ok((seq![s] + rest, q)),
                Err(e) => Err(e),
            },
            TokenModel::ClosingBracket => Ok((Seq::empty(), pos + 1)),
            t => Err(ErrorModel::UnexpectedToken(t)),
        }
    }
}

/// The rest of a function declaration, from just after `defn`: a name, `[`,
/// parameter names, `]`, a body and `)`.
pub open spec fn parse_defn_at(toks: Seq<TokenModel>, pos: int) -> Result<(NodeModel, int), ErrorModel>
    decreases toks.len() - pos, 2int,
{
    if pos < 0 || pos >= toks.len() {
        Err(ErrorModel::MissingToken)
    } else {
        match parse_node_at(toks, pos) {
            Ok((NodeModel::Identifier(name), p1)) => if !(pos < p1 <= toks.len()) {
                Err(ErrorModel::MissingToken)
            } else if p1 >= toks.len() {
                Err(ErrorModel::MissingToken)
            } else if !(toks[p1] is OpeningBracket) {
                Err(ErrorModel::UnexpectedToken(toks[p1]))
            } else {
                match parse_params_at(toks, p1 + 1) {
                    Err(e) => Err(e),
                    Ok((params, p2)) => if !(pos < p2 <= toks.len()) {
                        Err(ErrorModel::MissingToken)
                    } else {
                        match parse_node_at(toks, p2) {
                            Err(e) => Err(e),
                            Ok((body, p3)) => close_at(
                                toks,
                                p3,
                                NodeModel::FunctionDeclaration {
                                    identifier: name,
                                    parameter_list: params,
                                    body: Box::new(body),
                                },
                            ),
                        }
                    },
                }
            },
            _ => Err(ErrorModel::UnexpectedToken(TokenModel::DefnKeyword)),
        }
    }
}

/// Every expression from `pos` to the end of the tokens.
pub open spec fn parse_all_at(toks: Seq<TokenModel>, pos: int) -> Result<Seq<NodeModel>, ErrorModel>
    decreases toks.len() - pos,
{
    if pos < 0 || pos >= toks.len() {
        Ok(Seq::empty())
    } else {
        match parse_node_at(toks, pos) {
            Err(e) => Err(e),
            Ok((node, p)) => if pos < p <= toks.len() {
                match parse_all_at(toks, p) {
                    Ok(rest) => Ok(seq![node] + rest),
                    Err(e) => Err(e),
                }
            } else {
                Err(ErrorModel::MissingToken)
            },
        }
    }
}

/// What a parse of one node came to, as a model.
pub open spec fn node_outcome(r: Result<ASTNode, Error>, end: int) -> Result<(NodeModel, int), ErrorModel> {
    match r {
        Ok(n) => Ok((n@, end)),
        Err(e) => Err(e@),
    }
}

/// What a parse of a whole program came to, as a model.
pub open spec fn program_outcome(r: Result<Vec<ASTNode>, Error>) -> Result<Seq<NodeModel>, ErrorModel> {
    match r {
        Ok(v) => Ok(nodes_view(v@)),
        Err(e) => Err(e@),
    }
}

proof fn lemma_after_push<T>(pre: Seq<T>, x: T, r: Result<(Seq<T>, int), ErrorModel>)
    ensures
        after_items(pre, after_items(seq![x], r)) == after_items(pre.push(x), r),
{
    match r {
        Ok((rest, q)) => {
            assert(pre + (seq![x] + rest) =~= pre.push(x) + rest);
        },
        Err(e) => {},
    }
}

proof fn lemma_nodes_view_push(s: Seq<ASTNode>, x: ASTNode)
    ensures
        nodes_view(s.push(x)) == nodes_view(s).push(x@),
{
    assert(s.push(x).drop_last() =~= s);
}

/// Consumes a closing parenthesis that completes `node`.
fn expect_close(tokens: &mut TokenStream, node: ASTNode) -> (r: Result<ASTNode, Error>)
    ensures
        final(tokens)@.0 == old(tokens)@.0,
        node_outcome(r, final(tokens)@.1) == close_at(old(tokens)@.0, old(tokens)@.1, node@),
        r is Ok ==> final(tokens)@.1 == old(tokens)@.1 + 1,
{
    match tokens.next() {
        None => Err(Error::new("Missing tokens", ErrorType::MissingToken)),
        Some(Token::ClosingParenthesis) => Ok(node),
        Some(t) => Err(Error::new("Expected ')'", ErrorType::UnexpectedToken(t))),
    }
}

/// Parses one expression, consuming exactly its tokens.
pub fn parse_node(tokens: &mut TokenStream) -> (r: Result<ASTNode, Error>)
    ensures
        final(tokens)@.0 == old(tokens)@.0,
        node_outcome(r, final(tokens)@.1) == parse_node_at(old(tokens)@.0, old(tokens)@.1),
        r is Ok ==> old(tokens)@.1 < final(tokens)@.1 <= old(tokens)@.0.len(),
    decreases old(tokens)@.0.len() - old(tokens)@.1, 0int,
{
    match tokens.next() {
        None => Err(Error::new("Expected more tokens", ErrorType::MissingToken)),
        Some(Token::Number(n)) => Ok(ASTNode::NumberLiteral(n)),
        Some(Token::Boolean(b)) => Ok(ASTNode::BooleanLiteral(b)),
        Some(Token::String(s)) => Ok(ASTNode::StringLiteral(s)),
        Some(Token::Name(s)) => Ok(ASTNode::Identifier(s)),
        Some(Token::NegativeSymbol) => {
            if tokens.len() == 0 {
                return Err(Error::new("Expected a number after a - symbol", ErrorType::MissingToken));
            }
            match parse_node(tokens) {
                Ok(ASTNode::NumberLiteral(n)) => {
                    let m = if n == i64::MIN {
                        n
                    } else {
                        -n
                    };
                    Ok(ASTNode::NumberLiteral(m))
                },
                _ => Err(
                    Error::new(
                        "Expected a number followed by a - symbol",
                        ErrorType::UnexpectedToken(Token::NegativeSymbol),
                    ),
                ),
            }
        },
        Some(Token::OpeningParenthesis) => {
            let (is_if, is_list, is_defn, is_call) = match tokens.peek() {
                None => {
                    return Err(Error::new("Expected more tokens", ErrorType::MissingToken));
                },
                Some(Token::IfKeyword) => (true, false, false, false),
                Some(Token::ListKeyword) => (false, true, false, false),
                Some(Token::DefnKeyword) => (false, false, true, false),
                Some(Token::Name(name)) => {
                    let list = is_word(name, "list");
                    (false, list, false, !list)
                },
                Some(t) => {
                    return Err(Error::new("Unexpected token", ErrorType::UnexpectedToken(t.clone())));
                },
            };
            if is_if {
                parse_if_expression(tokens)
            } else if is_list {
                parse_list_expression(tokens)
            } else if is_defn {
                parse_function_declaration(tokens)
            } else {
                parse_call_expression(tokens)
            }
        },
        Some(t) => Err(Error::new("Unexpected token", ErrorType::UnexpectedToken(t))),
    }
}

/// Parses expressions up to a closing parenthesis, and consumes it.
fn parse_items(tokens: &mut TokenStream) -> (r: Result<Vec<ASTNode>, Error>)
    ensures
        final(tokens)@.0 == old(tokens)@.0,
        parse_items_at(old(tokens)@.0, old(tokens)@.1) == match r {
            Ok(v) => Ok((nodes_view(v@), final(tokens)@.1)),
            Err(e) => Err(e@),
        },
        r is Ok ==> old(tokens)@.1 < final(tokens)@.1 <= old(tokens)@.0.len(),
    decreases old(tokens)@.0.len() - old(tokens)@.1, 1int,
{
    let ghost toks = tokens@.0;
    let ghost start = tokens@.1;
    let mut items: Vec<ASTNode> = Vec::new();
    assert(nodes_view(items@) =~= Seq::<NodeModel>::empty());
    assert(after_items(nodes_view(items@), parse_items_at(toks, start)) =~= parse_items_at(toks, start)) by {
        match parse_items_at(toks, start) {
            Ok((rest, q)) => {
                assert(Seq::<NodeModel>::empty() + rest =~= rest);
            },
            Err(e) => {},
        }
    }
    loop
        invariant
            tokens@.0 == toks,
            0 <= start <= tokens@.1,
            start == old(tokens)@.1,
            toks == old(tokens)@.0,
            parse_items_at(toks, start) == after_items(nodes_view(items@), parse_items_at(toks, tokens@.1)),
            items@.len() > 0 ==> tokens@.1 <= toks.len(),
        decreases toks.len() - tokens@.1,
    {
        let closing = match tokens.peek() {
            None => {
                return Err(Error::new("Expected missing ')'", ErrorType::MissingToken));
            },
            Some(Token::ClosingParenthesis) => true,
            Some(_) => false,
        };
        if closing {
            tokens.next();
            proof {
                assert(nodes_view(items@) + Seq::<NodeModel>::empty() =~= nodes_view(items@));
            }
            return Ok(items);
        }
        match parse_node(tokens) {
            Err(e) => {
                return Err(e);
            },
            Ok(node) => {
                proof {
                    lemma_after_push(nodes_view(items@), node@, parse_items_at(toks, tokens@.1));
                    lemma_nodes_view_push(items@, node);
                }
                items.push(node);
            },
        }
    }
}

/// Parses a call expression; the cursor stands on the callee's name.
fn parse_call_expression(tokens: &mut TokenStream) -> (r: Result<ASTNode, Error>)
    requires
        0 < old(tokens)@.1 < old(tokens)@.0.len(),
        old(tokens)@.0[old(tokens)@.1] is Name,
    ensures
        final(tokens)@.0 == old(tokens)@.0,
        node_outcome(r, final(tokens)@.1) == parse_call_at(
            old(tokens)@.0,
            old(tokens)@.0[old(tokens)@.1]->Name_0,
            old(tokens)@.1 + 1,
        ),
        r is Ok ==> old(tokens)@.1 < final(tokens)@.1 <= old(tokens)@.0.len(),
    decreases old(tokens)@.0.len() - old(tokens)@.1, 3int,
{
    let identifier = match tokens.next() {
        Some(Token::Name(name)) => name,
        _ => {
            return Err(
                Error::new(
                    "Expected an identifier following '('",
                    ErrorType::UnexpectedToken(Token::OpeningParenthesis),
                ),
            );
        },
    };
    match parse_items(tokens) {
        Ok(arguments) => Ok(ASTNode::CallExpression(identifier, arguments)),
        Err(e) => Err(e),
    }
}

/// Parses a list expression; the cursor stands on its keyword.
fn parse_list_expression(tokens: &mut TokenStream) -> (r: Result<ASTNode, Error>)
    requires
        0 < old(tokens)@.1 < old(tokens)@.0.len(),
    ensures
        final(tokens)@.0 == old(tokens)@.0,
        node_outcome(r, final(tokens)@.1) == parse_list_at(old(tokens)@.0, old(tokens)@.1 + 1),
        r is Ok ==> old(tokens)@.1 < final(tokens)@.1 <= old(tokens)@.0.len(),
    decreases old(tokens)@.0.len() - old(tokens)@.1, 3int,
{
    tokens.next();
    match parse_items(tokens) {
        Ok(expressions) => Ok(ASTNode::ListExpression(expressions)),
        Err(e) => Err(e),
    }
}

/// Parses an if-expression; the cursor stands on its keyword.
fn parse_if_expression(tokens: &mut TokenStream) -> (r: Result<ASTNode, Error>)
    requires
        0 < old(tokens)@.1 < old(tokens)@.0.len(),
    ensures
        final(tokens)@.0 == old(tokens)@.0,
        node_outcome(r, final(tokens)@.1) == parse_if_at(old(tokens)@.0, old(tokens)@.1 + 1),
        r is Ok ==> old(tokens)@.1 < final(tokens)@.1 <= old(tokens)@.0.len(),
    decreases old(tokens)@.0.len() - old(tokens)@.1, 3int,
{
    tokens.next();
    let expression = match parse_node(tokens) {
        Ok(n) => n,
        Err(e) => {
            return Err(e);
        },
    };
    let when_true = match parse_node(tokens) {
        Ok(n) => n,
        Err(e) => {
            return Err(e);
        },
    };
    let when_false = match parse_node(tokens) {
        Ok(n) => n,
        Err(e) => {
            return Err(e);
        },
    };
    expect_close(
        tokens,
        ASTNode::IfExpression {
            expression: Box::new(expression),
            when_true: Box::new(when_true),
            when_false: Box::new(when_false),
        },
    )
}

/// Parses parameter names up to a closing bracket, and consumes it.
fn parse_parameters(tokens: &mut TokenStream) -> (r: Result<Vec<String>, Error>)
    ensures
        final(tokens)@.0 == old(tokens)@.0,
        parse_params_at(old(tokens)@.0, old(tokens)@.1) == match r {
            Ok(v) => Ok((strings_view(v@), final(tokens)@.1)),
            Err(e) => Err(e@),
        },
        r is Ok ==> old(tokens)@.1 < final(tokens)@.1 <= old(tokens)@.0.len(),
{
    let ghost toks = tokens@.0;
    let ghost start = tokens@.1;
    let mut parameter_list: Vec<String> = Vec::new();
    assert(after_items(strings_view(parameter_list@), parse_params_at(toks, start)) =~= parse_params_at(toks, start))
        by {
        match parse_params_at(toks, start) {
            Ok((rest, q)) => {
                assert(strings_view(parameter_list@) + rest =~= rest);
            },
            Err(e) => {},
        }
    }
    loop
        invariant
            tokens@.0 == toks,
            start <= tokens@.1,
            start == old(tokens)@.1,
            toks == old(tokens)@.0,
            parse_params_at(toks, start) == after_items(strings_view(parameter_list@), parse_params_at(toks, tokens@.1)),
        decreases toks.len() - tokens@.1,
    {
        let ghost cur = tokens@.1;
        match tokens.next() {
            None => {
                return Err(Error::new("Missing tokens", ErrorType::MissingToken));
            },
            Some(Token::Name(name)) => {
                proof {
                    lemma_after_push(strings_view(parameter_list@), name@, parse_params_at(toks, cur + 1));
                    assert(strings_view(parameter_list@.push(name)) =~= strings_view(parameter_list@).push(name@));
                }
                parameter_list.push(name);
            },
            Some(Token::ClosingBracket) => {
                proof {
                    assert(strings_view(parameter_list@) + Seq::<Seq<char>>::empty() =~= strings_view(parameter_list@));
                }
                return Ok(parameter_list);
            },
            Some(t) => {
                return Err(Error::new("Unexpected token", ErrorType::UnexpectedToken(t)));
            },
        }
    }
}

/// Parses a function declaration; the cursor stands on `defn`.
fn parse_function_declaration(tokens: &mut TokenStream) -> (r: Result<ASTNode, Error>)
    requires
        0 < old(tokens)@.1 < old(tokens)@.0.len(),
    ensures
        final(tokens)@.0 == old(tokens)@.0,
        node_outcome(r, final(tokens)@.1) == parse_defn_at(old(tokens)@.0, old(tokens)@.1 + 1),
        r is Ok ==> old(tokens)@.1 < final(tokens)@.1 <= old(tokens)@.0.len(),
    decreases old(tokens)@.0.len() - old(tokens)@.1, 3int,
{
    tokens.next();
    if tokens.len() == 0 {
        return Err(Error::new("Expected a name after defn", ErrorType::MissingToken));
    }
    let identifier = match parse_node(tokens) {
        Ok(ASTNode::Identifier(name)) => name,
        _ => {
            return Err(
                Error::new(
                    "Expected an identifier following defn keyword",
                    ErrorType::UnexpectedToken(Token::DefnKeyword),
                ),
            );
        },
    };
    match tokens.next() {
        None => {
            return Err(Error::new("Missing tokens", ErrorType::MissingToken));
        },
        Some(Token::OpeningBracket) => {},
        Some(t) => {
            return Err(Error::new("Expected '['", ErrorType::UnexpectedToken(t)));
        },
    }
    let parameter_list = match parse_parameters(tokens) {
        Ok(p) => p,
        Err(e) => {
            return Err(e);
        },
    };
    let body = match parse_node(tokens) {
        Ok(n) => n,
        Err(e) => {
            return Err(e);
        },
    };
    expect_close(
        tokens,
        ASTNode::FunctionDeclaration { identifier, parameter_list, body: Box::new(body) },
    )
}

/// Parses every expression up to the end of the tokens.
pub fn parse(tokens: &mut TokenStream) -> (r: Result<Vec<ASTNode>, Error>)
    ensures
        final(tokens)@.0 == old(tokens)@.0,
        program_outcome(r) == parse_all_at(old(tokens)@.0, old(tokens)@.1),
{
    let ghost toks = tokens@.0;
    let ghost start = tokens@.1;
    let mut nodes: Vec<ASTNode> = Vec::new();
    assert(nodes_view(nodes@) =~= Seq::<NodeModel>::empty());
    assert(match parse_all_at(toks, start) {
        Ok(rest) => parse_all_at(toks, start) == Ok::<Seq<NodeModel>, ErrorModel>(nodes_view(nodes@) + rest),
        Err(e) => true,
    }) by {
        match parse_all_at(toks, start) {
            Ok(rest) => {
                assert(nodes_view(nodes@) + rest =~= rest);
            },
            Err(e) => {},
        }
    }
    while tokens.len() > 0
        invariant
            tokens@.0 == toks,
            toks == old(tokens)@.0,
            start == old(tokens)@.1,
            0 <= tokens@.1,
            parse_all_at(toks, start) == match parse_all_at(toks, tokens@.1) {
                Ok(rest) => Ok(nodes_view(nodes@) + rest),
                Err(e) => Err(e),
            },
        decreases toks.len() - tokens@.1,
    {
        match parse_node(tokens) {
            Err(e) => {
                return Err(e);
            },
            Ok(node) => {
                proof {
                    lemma_nodes_view_push(nodes@, node);
                    match parse_all_at(toks, tokens@.1) {
                        Ok(rest) => {
                            assert(nodes_view(nodes@) + (seq![node@] + rest) =~= nodes_view(nodes@).push(node@) + rest);
                        },
                        Err(e) => {},
                    }
                }
                nodes.push(node);
            },
        }
    }
    assert(nodes_view(nodes@) + Seq::<NodeModel>::empty() =~= nodes_view(nodes@));
    Ok(nodes)
}

} // verus!
