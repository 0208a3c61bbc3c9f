use vstd::prelude::*;
use vstd::string::*;

verus! {

/// One lexical unit of source text.
#[derive(Debug, PartialEq)]
pub enum Token {
    OpeningParenthesis,
    ClosingParenthesis,
    NegativeSymbol,
    OpeningBracket,
    ClosingBracket,
    IfKeyword,
    DefnKeyword,
    ListKeyword,
    String(String),
    Boolean(bool),
    Number(i64),
    Name(String),
}

/// The mathematical value of a token: texts become character sequences.
pub enum TokenModel {
    OpeningParenthesis,
    ClosingParenthesis,
    NegativeSymbol,
    OpeningBracket,
    ClosingBracket,
    IfKeyword,
    DefnKeyword,
    ListKeyword,
    String(Seq<char>),
    Boolean(bool),
    Number(i64),
    Name(Seq<char>),
}

impl View for Token {
    type V = TokenModel;

    open spec fn view(&self) -> TokenModel {
        match self {
            Token::OpeningParenthesis => TokenModel::OpeningParenthesis,
            Token::ClosingParenthesis => TokenModel::ClosingParenthesis,
            Token::NegativeSymbol => TokenModel::NegativeSymbol,
            Token::OpeningBracket => TokenModel::OpeningBracket,
            Token::ClosingBracket => TokenModel::ClosingBracket,
            Token::IfKeyword => TokenModel::IfKeyword,
            Token::DefnKeyword => TokenModel::DefnKeyword,
            Token::ListKeyword => TokenModel::ListKeyword,
            Token::String(s) => TokenModel::String(s@),
            Token::Boolean(b) => TokenModel::Boolean(*b),
            Token::Number(n) => TokenModel::Number(*n),
            Token::Name(s) => TokenModel::Name(s@),
        }
    }
}

impl Clone for Token {
    fn clone(&self) -> (r: Self)
        ensures
            r@ == self@,
    {
        match self {
            Token::OpeningParenthesis => Token::OpeningParenthesis,
            Token::ClosingParenthesis => Token::ClosingParenthesis,
            Token::NegativeSymbol => Token::NegativeSymbol,
            Token::OpeningBracket => Token::OpeningBracket,
            Token::ClosingBracket => Token::ClosingBracket,
            Token::IfKeyword => Token::IfKeyword,
            Token::DefnKeyword => Token::DefnKeyword,
            Token::ListKeyword => Token::ListKeyword,
            Token::String(s) => Token::String(s.clone()),
            Token::Boolean(b) => Token::Boolean(*b),
            Token::Number(n) => Token::Number(*n),
            Token::Name(s) => Token::Name(s.clone()),
        }
    }
}

/// The views of a sequence of tokens.
pub open spec fn tokens_view(s: Seq<Token>) -> Seq<TokenModel> {
    s.map_values(|t: Token| t@)
}

/// The characters of the Unicode White_Space property.
pub open spec fn is_space_char(c: char) -> bool {
    let u = c as u32;
    (0x9 <= u <= 0xd) || u == 0x20 || u == 0x85 || u == 0xa0 || u == 0x1680 || (0x2000 <= u <= 0x200a)
        || u == 0x2028 || u == 0x2029 || u == 0x202f || u == 0x205f || u == 0x3000
}

/// What `char::is_numeric` says of a character beyond ASCII (whether it is in
/// one of the Unicode number categories).
pub uninterp spec fn is_numeric_beyond_ascii(c: char) -> bool;

/// Whether a character is numeric: among ASCII characters exactly the decimal
/// digits, beyond ASCII the Unicode number categories.
pub open spec fn is_numeric_char(c: char) -> bool {
    if (c as u32) < 0x80 {
        '0' <= c <= '9'
    } else {
        is_numeric_beyond_ascii(c)
    }
}

/// Relies on `char::is_whitespace`: whether the character has the Unicode
/// White_Space property.
#[verifier::external_body]
fn whitespace(c: char) -> (r: bool)
    ensures
        r == is_space_char(c),
{
    c.is_whitespace()
}

/// Relies on `char::is_numeric`: among ASCII characters true exactly for the
/// decimal digits; beyond ASCII, whether the character is in one of the Unicode
/// number categories, which depends on the character alone.
#[verifier::external_body]
fn numeric(c: char) -> (r: bool)
    ensures
        (c as u32) < 0x80 ==> (r <==> '0' <= c <= '9'),
        (c as u32) >= 0x80 ==> r == is_numeric_beyond_ascii(c),
{
    c.is_numeric()
}

/// Relies on `String::push`: appends one character.
#[verifier::external_body]
pub(crate) fn push_char(s: &mut String, c: char)
    ensures
        final(s)@ == old(s)@.push(c),
{
    s.push(c)
}

/// True where a character continues a run of digits.
pub open spec fn continues_number(c: char) -> bool {
    is_numeric_char(c) && c != ')' && c != ']'
}

/// True where a character ends a name.
pub open spec fn ends_name(c: char) -> bool {
    is_space_char(c) || c == ')' || c == ']'
}

/// The index of the first character at or after `k` that does not continue a number.
pub open spec fn number_end(cs: Seq<char>, k: int) -> int
    decreases cs.len() - k,
{
    if k < 0 || k >= cs.len() || !continues_number(cs[k]) {
        k
    } else {
        number_end(cs, k + 1)
    }
}

/// The index of the first character at or after `k` that ends a name.
pub open spec fn name_end(cs: Seq<char>, k: int) -> int
    decreases cs.len() - k,
{
    if k < 0 || k >= cs.len() || ends_name(cs[k]) {
        k
    } else {
        name_end(cs, k + 1)
    }
}

/// The index of the first double quote at or after `k`, or the length if there is none.
pub open spec fn quote_end(cs: Seq<char>, k: int) -> int
    decreases cs.len() - k,
{
    if k < 0 || k >= cs.len() || cs[k] == '"' {
        k
    } else {
        quote_end(cs, k + 1)
    }
}

/// The numeric value of an ASCII decimal digit.
pub open spec fn digit_value(c: char) -> nat {
    (c as nat - '0' as nat) as nat
}

/// True where every character is an ASCII decimal digit.
pub open spec fn all_ascii_digits(s: Seq<char>) -> bool {
    forall|i: int| 0 <= i < s.len() ==> '0' <= #[trigger] s[i] <= '9'
}

/// The value of a run of decimal digits, most significant first.
pub open spec fn digits_value(s: Seq<char>) -> nat
    decreases s.len(),
{
    if s.len() == 0 {
        0
    } else {
        digits_value(s.drop_last()) * 10 + digit_value(s.last())
    }
}

/// A run of characters read as a 64-bit base-10 integer: present only for a
/// non-empty run of ASCII digits whose value fits.
pub open spec fn decimal_value(s: Seq<char>) -> Option<i64> {
    if s.len() > 0 && all_ascii_digits(s) && digits_value(s) <= i64::MAX {
        Some(digits_value(s) as i64)
    } else {
        None
    }
}

/// The token that a completed name stands for.
pub open spec fn word_token(name: Seq<char>) -> TokenModel {
    if name == "if"@ {
        TokenModel::IfKeyword
    } else if name == "defn"@ {
        TokenModel::DefnKeyword
    } else if name == "true"@ {
        TokenModel::Boolean(true)
    } else if name == "false"@ {
        TokenModel::Boolean(false)
    } else {
        TokenModel::Name(name)
    }
}

/// The tokens of the characters of `cs` from index `i` on, scanned left to right.
/// (Each scan of a number, string or name ends after its first character, so
/// the branches that give up on `j <= i` are never taken; they bound the recursion.)
pub open spec fn scan(cs: Seq<char>, i: int) -> Seq<TokenModel>
    decreases cs.len() - i,
{
    if i < 0 || i >= cs.len() {
        Seq::empty()
    } else {
        let c = cs[i];
        if is_space_char(c) {
            scan(cs, i + 1)
        } else if is_numeric_char(c) {
            let j = number_end(cs, i + 1);
            if j <= i || j > cs.len() {
                Seq::empty()
            } else {
                match decimal_value(cs.subrange(i, j)) {
                    Some(n) => seq![TokenModel::Number(n)] + scan(cs, j),
                    None => scan(cs, j),
                }
            }
        } else if c == '(' {
            seq![TokenModel::OpeningParenthesis] + scan(cs, i + 1)
        } else if c == ')' {
            seq![TokenModel::ClosingParenthesis] + scan(cs, i + 1)
        } else if c == '[' {
            seq![TokenModel::OpeningBracket] + scan(cs, i + 1)
        } else if c == ']' {
            seq![TokenModel::ClosingBracket] + scan(cs, i + 1)
        } else if c == '-' {
            seq![TokenModel::NegativeSymbol] + scan(cs, i + 1)
        } else if c == '"' {
            let j = quote_end(cs, i + 1);
            if j <= i || j > cs.len() {
                Seq::empty()
            } else if j == cs.len() {
                seq![TokenModel::String(cs.subrange(i + 1, j))]
            } else {
                seq![TokenModel::String(cs.subrange(i + 1, j))] + scan(cs, j + 1)
            }
        } else {
            let j = name_end(cs, i + 1);
            if j <= i || j > cs.len() {
                Seq::empty()
            } else {
                seq![word_token(cs.subrange(i, j))] + scan(cs, j)
            }
        }
    }
}

/// The tokens of a source text.
pub open spec fn tokens_of(s: Seq<char>) -> Seq<TokenModel> {
    scan(s, 0)
}

proof fn lemma_number_end(cs: Seq<char>, k: int)
    requires
        0 <= k <= cs.len(),
    ensures
        k <= number_end(cs, k) <= cs.len(),
    decreases cs.len() - k,
{
    if k < cs.len() && continues_number(cs[k]) {
        lemma_number_end(cs, k + 1);
    }
}

proof fn lemma_name_end(cs: Seq<char>, k: int)
    requires
        0 <= k <= cs.len(),
    ensures
        k <= name_end(cs, k) <= cs.len(),
    decreases cs.len() - k,
{
    if k < cs.len() && !ends_name(cs[k]) {
        lemma_name_end(cs, k + 1);
    }
}

proof fn lemma_quote_end(cs: Seq<char>, k: int)
    requires
        0 <= k <= cs.len(),
    ensures
        k <= quote_end(cs, k) <= cs.len(),
    decreases cs.len() - k,
{
    if k < cs.len() && cs[k] != '"' {
        lemma_quote_end(cs, k + 1);
    }
}

/// A longer run of digits never has a smaller value.
proof fn lemma_digits_value_grows(s: Seq<char>, k: int)
    requires
        0 <= k <= s.len(),
    ensures
        digits_value(s.subrange(0, k)) <= digits_value(s),
    decreases s.len() - k,
{
    if k < s.len() {
        lemma_digits_value_grows(s, k + 1);
        let t = s.subrange(0, k + 1);
        assert(t.drop_last() =~= s.subrange(0, k));
        assert(digits_value(t) == digits_value(s.subrange(0, k)) * 10 + digit_value(t.last()));
    } else {
        assert(s.subrange(0, k) =~= s);
    }
}

/// Reads a run of characters as a base-10 integer, as `decimal_value` says.
fn read_decimal(run: &Vec<char>) -> (r: Option<i64>)
    ensures
        r == decimal_value(run@),
{
    if run.len() == 0 {
        return None;
    }
    let mut value: i64 = 0;
    let mut k: usize = 0;
    while k < run.len()
        invariant
            0 <= k <= run@.len(),
            all_ascii_digits(run@.subrange(0, k as int)),
            value >= 0,
            value as int == digits_value(run@.subrange(0, k as int)),
        decreases run@.len() - k,
    {
        let c = run[k];
        let ghost prefix = run@.subrange(0, k as int);
        let ghost next = run@.subrange(0, k + 1);
        if !('0' <= c && c <= '9') {
            assert(!('0' <= run@[k as int] <= '9'));
            return None;
        }
        let d = (c as u32 - '0' as u32) as i64;
        assert(next.drop_last() =~= prefix);
        assert(next.last() == c);
        assert(d == digit_value(c));
        assert(digits_value(next) == digits_value(prefix) * 10 + d);
        assert(all_ascii_digits(next)) by {
            assert forall|i: int| 0 <= i < next.len() implies '0' <= #[trigger] next[i] <= '9' by {
                if i < k {
                    assert(next[i] == prefix[i]);
                }
            }
        }
        let t = value.checked_mul(10);
        if t.is_none() {
            proof {
                lemma_digits_value_grows(run@, k + 1);
            }
            return None;
        }
        let u = t.unwrap().checked_add(d);
        if u.is_none() {
            proof {
                lemma_digits_value_grows(run@, k + 1);
            }
            return None;
        }
        value = u.unwrap();
        k = k + 1;
    }
    assert(run@.subrange(0, run@.len() as int) =~= run@);
    Some(value)
}

/// Compares a name with a fixed word.
pub(crate) fn is_word(name: &String, word: &str) -> (r: bool)
    ensures
        r == (name@ == word@),
{
    let w = word.to_owned();
    *name == w
}

/// The token of a completed name: a keyword, a boolean, or a bare name.
fn word_to_token(name: String) -> (t: Token)
    ensures
        t@ == word_token(name@),
{
    if is_word(&name, "if") {
        Token::IfKeyword
    } else if is_word(&name, "defn") {
        Token::DefnKeyword
    } else if is_word(&name, "true") {
        Token::Boolean(true)
    } else if is_word(&name, "false") {
        Token::Boolean(false)
    } else {
        Token::Name(name)
    }
}

/// Appending one token and then a sequence is appending the token followed by the sequence.
proof fn lemma_push_then(a: Seq<TokenModel>, x: TokenModel, b: Seq<TokenModel>)
    ensures
        a.push(x) + b == a + (seq![x] + b),
{
    assert(a.push(x) + b =~= a + (seq![x] + b));
}

/// Splits source text into tokens in one left-to-right scan. Never fails:
/// a run of digits that is no 64-bit integer is dropped, and an unterminated
/// string runs to the end of the input.
pub fn tokenize(input: &str) -> (r: Vec<Token>)
    ensures
        tokens_view(r@) == tokens_of(input@),
{
    let cs = chars_of(input);
    let n = cs.len();
    let mut tokens: Vec<Token> = Vec::new();
    let mut i: usize = 0;
    while i < n
        invariant
            n == cs@.len(),
            0 <= i <= n,
            tokens_view(tokens@) + scan(cs@, i as int) == scan(cs@, 0),
        decreases n - i,
    {
        let ghost before = tokens_view(tokens@);
        let c = cs[i];
        if whitespace(c) {
            i = i + 1;
        } else if numeric(c) {
            let mut run: Vec<char> = Vec::new();
            run.push(c);
            let mut k: usize = i + 1;
            while k < n
                invariant
                    n == cs@.len(),
                    i < k <= n,
                    number_end(cs@, i + 1) == number_end(cs@, k as int),
                    run@ == cs@.subrange(i as int, k as int),
                ensures
                    i < k <= n,
                    number_end(cs@, k as int) == k as int,
                    number_end(cs@, i + 1) == number_end(cs@, k as int),
                    run@ == cs@.subrange(i as int, k as int),
                decreases n - k,
            {
                let d = cs[k];
                if !numeric(d) || d == ')' || d == ']' {
                    break;
                }
                run.push(d);
                k = k + 1;
                assert(run@ =~= cs@.subrange(i as int, k as int));
            }
            assert(number_end(cs@, k as int) == k as int);
            let ghost rest = scan(cs@, k as int);
            match read_decimal(&run) {
                Some(v) => {
                    tokens.push(Token::Number(v));
                    proof {
                        assert(scan(cs@, i as int) == seq![TokenModel::Number(v)] + rest);
                        assert(tokens_view(tokens@) =~= before.push(TokenModel::Number(v)));
                        lemma_push_then(before, TokenModel::Number(v), rest);
                    }
                },
                None => {
                    assert(scan(cs@, i as int) == rest);
                },
            }
            i = k;
        } else if c == '(' || c == ')' || c == '[' || c == ']' || c == '-' {
            let t = if c == '(' {
                Token::OpeningParenthesis
            } else if c == ')' {
                Token::ClosingParenthesis
            } else if c == '[' {
                Token::OpeningBracket
            } else if c == ']' {
                Token::ClosingBracket
            } else {
                Token::NegativeSymbol
            };
            let ghost tm = t@;
            tokens.push(t);
            proof {
                assert(scan(cs@, i as int) == seq![tm] + scan(cs@, i + 1));
                assert(tokens_view(tokens@) =~= before.push(tm));
                lemma_push_then(before, tm, scan(cs@, i + 1));
            }
            i = i + 1;
        } else if c == '"' {
            let mut text = String::new();
            let mut k: usize = i + 1;
            while k < n
                invariant
                    n == cs@.len(),
                    i < k <= n,
                    quote_end(cs@, i + 1) == quote_end(cs@, k as int),
                    text@ == cs@.subrange(i + 1, k as int),
                ensures
                    i < k <= n,
                    quote_end(cs@, k as int) == k as int,
                    quote_end(cs@, i + 1) == quote_end(cs@, k as int),
                    text@ == cs@.subrange(i + 1, k as int),
                decreases n - k,
            {
                let d = cs[k];
                if d == '"' {
                    break;
                }
                push_char(&mut text, d);
                k = k + 1;
                assert(text@ =~= cs@.subrange(i + 1, k as int));
            }
            assert(quote_end(cs@, k as int) == k as int);
            let ghost tm = TokenModel::String(text@);
            tokens.push(Token::String(text));
            let next = if k < n {
                k + 1
            } else {
                k
            };
            proof {
                if k < n {
                    assert(scan(cs@, i as int) == seq![tm] + scan(cs@, next as int));
                } else {
                    assert(scan(cs@, next as int) =~= Seq::<TokenModel>::empty());
                    assert(scan(cs@, i as int) =~= seq![tm] + scan(cs@, next as int));
                }
                assert(tokens_view(tokens@) =~= before.push(tm));
                lemma_push_then(before, tm, scan(cs@, next as int));
            }
            i = next;
        } else {
            let mut name = String::new();
            push_char(&mut name, c);
            let mut k: usize = i + 1;
            assert(name@ =~= cs@.subrange(i as int, k as int));
            while k < n
                invariant
                    n == cs@.len(),
                    i < k <= n,
                    name_end(cs@, i + 1) == name_end(cs@, k as int),
                    name@ == cs@.subrange(i as int, k as int),
                ensures
                    i < k <= n,
                    name_end(cs@, k as int) == k as int,
                    name_end(cs@, i + 1) == name_end(cs@, k as int),
                    name@ == cs@.subrange(i as int, k as int),
                decreases n - k,
            {
                let d = cs[k];
                if whitespace(d) || d == ')' || d == ']' {
                    break;
                }
                push_char(&mut name, d);
                k = k + 1;
                assert(name@ =~= cs@.subrange(i as int, k as int));
            }
            assert(name_end(cs@, k as int) == k as int);
            let t = word_to_token(name);
            let ghost tm = t@;
            tokens.push(t);
            proof {
                assert(scan(cs@, i as int) == seq![tm] + scan(cs@, k as int));
                assert(tokens_view(tokens@) =~= before.push(tm));
                lemma_push_then(before, tm, scan(cs@, k as int));
            }
            i = k;
        }
    }
    assert(scan(cs@, n as int) =~= Seq::<TokenModel>::empty());
    assert(tokens_view(tokens@) + scan(cs@, n as int) =~= tokens_view(tokens@));
    tokens
}

fn chars_of(input: &str) -> (r: Vec<char>)
    ensures
        r@ == input@,
{
    let mut out: Vec<char> = Vec::new();
    for c in it: input.chars()
        invariant
            out@ == it.seq().take(it.index() as int),
    {
        out.push(c);
    }
    out
}

} // verus!
