//! S-expression reader for symbol library files.

use vstd::prelude::*;
use vstd::string::StringExecFns;
use vstd::string::StringSliceAdditionalSpecFns;

use crate::text::str_eq;

verus! {

/// A parsed S-expression: an atom or a parenthesised list.
#[derive(Debug)]
pub enum Sexpr {
    Atom(String),
    List(Vec<Sexpr>),
}

/// Mathematical value of an S-expression.
pub enum SexprModel {
    Atom(Seq<char>),
    List(Seq<SexprModel>),
}

/// The value of an expression.
pub open spec fn sexpr_model(e: Sexpr) -> SexprModel
    decreases e,
{
    match e {
        Sexpr::Atom(s) => SexprModel::Atom(s@),
        Sexpr::List(items) => SexprModel::List(sexprs_model(items@)),
    }
}

/// The values of a sequence of expressions.
pub open spec fn sexprs_model(s: Seq<Sexpr>) -> Seq<SexprModel>
    decreases s,
{
    if s.len() == 0 {
        Seq::empty()
    } else {
        sexprs_model(s.drop_last()).push(sexpr_model(s.last()))
    }
}

} // verus!

verus! {

/// Reading an S-expression failed; `message` says why.
#[derive(Debug)]
pub struct ParseError {
    pub message: String,
}

/// The reasons for which reading text fails.
pub enum ParseFailure {
    /// An unquoted atom is not valid UTF-8.
    InvalidUtf8,
    /// A list is not closed before the input ends.
    Unclosed,
    /// A `)` or the end of input where an expression should start.
    Unexpected,
    /// More tokens follow the first complete expression.
    Trailing,
}

/// The message that each failure reports.
pub open spec fn failure_message(f: ParseFailure) -> Seq<char> {
    match f {
        ParseFailure::InvalidUtf8 => "invalid utf-8 in atom"@,
        ParseFailure::Unclosed => "unclosed list"@,
        ParseFailure::Unexpected => "unexpected token"@,
        ParseFailure::Trailing => "trailing tokens after expression"@,
    }
}

/// A lexical token.
enum Token {
    LParen,
    RParen,
    Atom(String),
}

/// Mathematical value of a token.
pub enum TokenModel {
    LParen,
    RParen,
    Atom(Seq<char>),
}

spec fn token_model(t: Token) -> TokenModel {
    match t {
        Token::LParen => TokenModel::LParen,
        Token::RParen => TokenModel::RParen,
        Token::Atom(s) => TokenModel::Atom(s@),
    }
}

spec fn tokens_model(s: Seq<Token>) -> Seq<TokenModel> {
    s.map_values(|t: Token| token_model(t))
}

/// ASCII whitespace as `u8::is_ascii_whitespace` defines it: tab, line feed,
/// form feed, carriage return and space.
pub open spec fn is_ascii_ws(c: u8) -> bool {
    c == 9u8 || c == 10u8 || c == 12u8 || c == 13u8 || c == 32u8
}

/// Bytes that end an unquoted atom.
pub open spec fn is_atom_break(c: u8) -> bool {
    is_ascii_ws(c) || c == 40u8 || c == 41u8
}

/// Index of the first byte at or after `i` that ends an unquoted atom
/// (or the length of the input).
pub open spec fn atom_end(b: Seq<u8>, i: int) -> int
    decreases b.len() - i,
{
    if i >= b.len() {
        i
    } else if is_atom_break(b[i]) {
        i
    } else {
        atom_end(b, i + 1)
    }
}

/// Content of a quoted string whose body starts at `i`, and the index just
/// after it: a backslash takes the next byte literally, a `"` closes the
/// string, the end of input closes it too. Each byte becomes the character
/// with that code.
pub open spec fn quoted_from(b: Seq<u8>, i: int) -> (Seq<char>, int)
    decreases b.len() - i,
{
    if i >= b.len() {
        (Seq::empty(), i)
    } else if b[i] == 92u8 && i + 1 < b.len() {
        let r = quoted_from(b, i + 2);
        (seq![b[i + 1] as char] + r.0, r.1)
    } else if b[i] == 34u8 {
        (Seq::empty(), i + 1)
    } else {
        let r = quoted_from(b, i + 1);
        (seq![b[i] as char] + r.0, r.1)
    }
}

/// Prepends a token to a tokenisation result.
pub open spec fn cons_token(t: TokenModel, rest: Option<Seq<TokenModel>>) -> Option<Seq<TokenModel>> {
    match rest {
        Some(r) => Some(seq![t] + r),
        None => None,
    }
}

/// Tokens of the input from byte `i` on; `None` when an unquoted atom is
/// not valid UTF-8.
pub open spec fn tokens_from(b: Seq<u8>, i: int) -> Option<Seq<TokenModel>>
    decreases b.len() - i,
{
    if i < 0 || i >= b.len() {
        Some(Seq::empty())
    } else if is_ascii_ws(b[i]) {
        tokens_from(b, i + 1)
    } else if b[i] == 40u8 {
        cons_token(TokenModel::LParen, tokens_from(b, i + 1))
    } else if b[i] == 41u8 {
        cons_token(TokenModel::RParen, tokens_from(b, i + 1))
    } else if b[i] == 34u8 {
        let q = quoted_from(b, i + 1);
        if i < q.1 <= b.len() {
            cons_token(TokenModel::Atom(q.0), tokens_from(b, q.1))
        } else {
            None
        }
    } else {
        let j = atom_end(b, i);
        if i < j <= b.len() {
            let sub = b.subrange(i, j);
            if vstd::utf8::valid_utf8(sub) {
                cons_token(TokenModel::Atom(vstd::utf8::decode_utf8(sub)), tokens_from(b, j))
            } else {
                None
            }
        } else {
            None
        }
    }
}

proof fn lemma_atom_end(b: Seq<u8>, i: int)
    requires
        0 <= i <= b.len(),
    ensures
        i <= atom_end(b, i) <= b.len(),
        forall|k: int| i <= k < atom_end(b, i) ==> !is_atom_break(#[trigger] b[k]),
        atom_end(b, i) < b.len() ==> is_atom_break(b[atom_end(b, i)]),
    decreases b.len() - i,
{
    if i < b.len() && !is_atom_break(b[i]) {
        lemma_atom_end(b, i + 1);
    }
}

proof fn lemma_quoted_advances(b: Seq<u8>, i: int)
    requires
        0 <= i <= b.len(),
    ensures
        i <= quoted_from(b, i).1 <= b.len(),
    decreases b.len() - i,
{
    if i < b.len() {
        if b[i] == 92u8 && i + 1 < b.len() {
            lemma_quoted_advances(b, i + 2);
        } else if b[i] != 34u8 {
            lemma_quoted_advances(b, i + 1);
        }
    }
}

fn is_ws_byte(c: u8) -> (r: bool)
    ensures
        r == is_ascii_ws(c),
{
    c == 9u8 || c == 10u8 || c == 12u8 || c == 13u8 || c == 32u8
}

/// Scans a quoted string whose body starts at `start`; returns its content
/// and the index just after it.
fn scan_quoted(bytes: &[u8], start: usize) -> (r: (String, usize))
    requires
        start <= bytes@.len(),
    ensures
        r.0@ == quoted_from(bytes@, start as int).0,
        r.1 == quoted_from(bytes@, start as int).1,
{
    let mut s = String::new();
    let mut i = start;
    proof {
        lemma_quoted_advances(bytes@, start as int);
    }
    loop
        invariant
            start <= i <= bytes@.len(),
            quoted_from(bytes@, start as int) == (s@ + quoted_from(bytes@, i as int).0, quoted_from(bytes@, i as int).1),
        decreases bytes@.len() - i,
    {
        if i >= bytes.len() {
            assert(s@ + Seq::<char>::empty() =~= s@);
            return (s, i);
        }
        let c = bytes[i];
        if c == 92u8 && i + 1 < bytes.len() {
            let d = bytes[i + 1];
            proof {
                let r = quoted_from(bytes@, i + 2);
                assert(s@ + (seq![d as char] + r.0) =~= s@.push(d as char) + r.0);
            }
            crate::text::string_push(&mut s, d as char);
            i = i + 2;
        } else if c == 34u8 {
            assert(s@ + Seq::<char>::empty() =~= s@);
            return (s, i + 1);
        } else {
            proof {
                let r = quoted_from(bytes@, i + 1);
                assert(s@ + (seq![c as char] + r.0) =~= s@.push(c as char) + r.0);
            }
            crate::text::string_push(&mut s, c as char);
            i = i + 1;
        }
    }
}

/// Index of the end of the unquoted atom that starts at `start`.
fn scan_atom_end(bytes: &[u8], start: usize) -> (j: usize)
    requires
        start <= bytes@.len(),
    ensures
        j == atom_end(bytes@, start as int),
{
    let mut i = start;
    while i < bytes.len() && !(is_ws_byte(bytes[i]) || bytes[i] == 40u8 || bytes[i] == 41u8)
        invariant
            start <= i <= bytes@.len(),
            atom_end(bytes@, start as int) == atom_end(bytes@, i as int),
        decreases bytes@.len() - i,
    {
        i = i + 1;
    }
    i
}

spec fn append_tokens(p: Seq<TokenModel>, rest: Option<Seq<TokenModel>>) -> Option<Seq<TokenModel>> {
    match rest {
        Some(r) => Some(p + r),
        None => None,
    }
}

/// Splits text into tokens: parentheses, quoted strings and bare atoms,
/// separated by ASCII whitespace.
fn tokenize(input: &str) -> (r: Result<Vec<Token>, ParseError>)
    ensures
        match r {
            Ok(toks) => tokens_from(input.spec_bytes(), 0) == Some(tokens_model(toks@)),
            Err(e) => tokens_from(input.spec_bytes(), 0) is None
                && e.message@ == failure_message(ParseFailure::InvalidUtf8),
        },
{
    let mut tokens: Vec<Token> = Vec::new();
    let bytes = input.as_bytes();
    let ghost b = bytes@;
    let mut i: usize = 0;
    while i < bytes.len()
        invariant
            b == bytes@,
            b == input.spec_bytes(),
            i <= b.len(),
            tokens_from(b, 0) == append_tokens(tokens_model(tokens@), tokens_from(b, i as int)),
        decreases b.len() - i,
    {
        let c = bytes[i];
        let ghost before = tokens_model(tokens@);
        if is_ws_byte(c) {
            i = i + 1;
        } else if c == 40u8 {
            tokens.push(Token::LParen);
            proof {
                assert(tokens_model(tokens@) =~= before.push(TokenModel::LParen));
                match tokens_from(b, i + 1) {
                    Some(t) => { assert(before + (seq![TokenModel::LParen] + t) =~= before.push(TokenModel::LParen) + t); }
                    None => {}
                }
            }
            i = i + 1;
        } else if c == 41u8 {
            tokens.push(Token::RParen);
            proof {
                assert(tokens_model(tokens@) =~= before.push(TokenModel::RParen));
                match tokens_from(b, i + 1) {
                    Some(t) => { assert(before + (seq![TokenModel::RParen] + t) =~= before.push(TokenModel::RParen) + t); }
                    None => {}
                }
            }
            i = i + 1;
        } else if c == 34u8 {
            proof {
                lemma_quoted_advances(b, i + 1);
            }
            let (s, j) = scan_quoted(bytes, i + 1);
            let ghost sv = s@;
            tokens.push(Token::Atom(s));
            proof {
                assert(tokens_model(tokens@) =~= before.push(TokenModel::Atom(sv)));
                match tokens_from(b, j as int) {
                    Some(t) => { assert(before + (seq![TokenModel::Atom(sv)] + t) =~= before.push(TokenModel::Atom(sv)) + t); }
                    None => {}
                }
            }
            i = j;
        } else {
            proof {
                lemma_atom_end(b, i as int);
            }
            let j = scan_atom_end(bytes, i);
            let sub = vstd::slice::slice_subrange(bytes, i, j);
            match crate::text::str_from_utf8(sub) {
                Some(a) => {
                    let s = a.to_owned();
                    let ghost sv = s@;
                    tokens.push(Token::Atom(s));
                    proof {
                        assert(sub@ =~= b.subrange(i as int, j as int));
                        assert(tokens_model(tokens@) =~= before.push(TokenModel::Atom(sv)));
                        match tokens_from(b, j as int) {
                            Some(t) => { assert(before + (seq![TokenModel::Atom(sv)] + t) =~= before.push(TokenModel::Atom(sv)) + t); }
                            None => {}
                        }
                    }
                    i = j;
                }
                None => {
                    proof {
                        assert(sub@ =~= b.subrange(i as int, j as int));
                    }
                    return Err(ParseError { message: String::from_str("invalid utf-8 in atom") });
                }
            }
        }
    }
    proof {
        assert(tokens_model(tokens@) + Seq::<TokenModel>::empty() =~= tokens_model(tokens@));
    }
    Ok(tokens)
}

} // verus!

verus! {

/// Reads one expression starting at token `p`; on success gives its value
/// and the index of the first token after it.
pub open spec fn parse_at(t: Seq<TokenModel>, p: int) -> Result<(SexprModel, int), ParseFailure>
    decreases t.len() - p, 0int,
{
    if p < 0 || p >= t.len() {
        Err(ParseFailure::Unexpected)
    } else {
        match t[p] {
            TokenModel::LParen => match parse_items(t, p + 1) {
                Ok((items, q)) => Ok((SexprModel::List(items), q + 1)),
                Err(f) => Err(f),
            },
            TokenModel::Atom(a) => Ok((SexprModel::Atom(a), p + 1)),
            TokenModel::RParen => Err(ParseFailure::Unexpected),
        }
    }
}

/// Reads the items of a list from token `p` up to its closing `)`; on
/// success gives the items and the index of that `)`.
pub open spec fn parse_items(t: Seq<TokenModel>, p: int) -> Result<(Seq<SexprModel>, int), ParseFailure>
    decreases t.len() - p, 1int,
{
    if p < 0 || p >= t.len() {
        Err(ParseFailure::Unclosed)
    } else if t[p] is RParen {
        Ok((Seq::empty(), p))
    } else {
        match parse_at(t, p) {
            Err(f) => Err(f),
            Ok((e, q)) => if p < q <= t.len() {
                match parse_items(t, q) {
                    Ok((rest, r)) => Ok((seq![e] + rest, r)),
                    Err(f) => Err(f),
                }
            } else {
                Err(ParseFailure::Unexpected)
            },
        }
    }
}

/// The whole token sequence read as exactly one expression.
pub open spec fn parse_tokens(t: Seq<TokenModel>) -> Result<SexprModel, ParseFailure> {
    match parse_at(t, 0) {
        Ok((e, q)) => if q < t.len() { Err(ParseFailure::Trailing) } else { Ok(e) },
        Err(f) => Err(f),
    }
}

/// What reading the text gives: its value, or why it fails.
pub open spec fn spec_parse(text: Seq<u8>) -> Result<SexprModel, ParseFailure> {
    match tokens_from(text, 0) {
        Some(t) => parse_tokens(t),
        None => Err(ParseFailure::InvalidUtf8),
    }
}

/// A successful read ends after its start, within the tokens.
proof fn lemma_parse_bounds(t: Seq<TokenModel>, p: int)
    ensures
        parse_at(t, p) matches Ok((e, q)) ==> p < q <= t.len(),
        parse_items(t, p) matches Ok((items, q)) ==> p <= q < t.len() && t[q] is RParen,
    decreases t.len() - p,
{
    if 0 <= p < t.len() {
        lemma_parse_bounds(t, p + 1);
        if !(t[p] is RParen) {
            match parse_at(t, p) {
                Ok((e, q)) => {
                    if p < q <= t.len() {
                        lemma_parse_bounds(t, q);
                    }
                },
                Err(_) => {},
            }
        }
    }
}

struct Parser {
    tokens: Vec<Token>,
    pos: usize,
}

impl Parser {
    fn peek(&self) -> (r: Option<&Token>)
        ensures
            self.pos < self.tokens@.len() ==> r == Some(&self.tokens@[self.pos as int]),
            self.pos >= self.tokens@.len() ==> r is None,
    {
        if self.pos < self.tokens.len() {
            Some(&self.tokens[self.pos])
        } else {
            None
        }
    }

    fn parse_expr(&mut self) -> (r: Result<Sexpr, ParseError>)
        requires
            old(self).pos <= old(self).tokens@.len(),
        ensures
            final(self).tokens@ == old(self).tokens@,
            final(self).pos <= final(self).tokens@.len(),
            match r {
                Ok(e) => parse_at(tokens_model(old(self).tokens@), old(self).pos as int)
                    == Ok::<(SexprModel, int), ParseFailure>((sexpr_model(e), final(self).pos as int)),
                Err(err) => parse_at(tokens_model(old(self).tokens@), old(self).pos as int) matches Err(f)
                    && err.message@ == failure_message(f),
            },
        decreases old(self).tokens@.len() - old(self).pos,
    {
        let ghost t = tokens_model(self.tokens@);
        let ghost start = self.pos as int;
        let is_lparen = self.pos < self.tokens.len() && match &self.tokens[self.pos] {
            Token::LParen => true,
            _ => false,
        };
        if is_lparen {
            proof {
                assert(t[start] == TokenModel::LParen);
            }
            self.pos = self.pos + 1;
            let mut items: Vec<Sexpr> = Vec::new();
            loop
                invariant
                    self.tokens@ == old(self).tokens@,
                    start == old(self).pos as int,
                    t == tokens_model(self.tokens@),
                    0 <= start < t.len(),
                    t[start] == TokenModel::LParen,
                    start < self.pos <= self.tokens@.len(),
                    parse_items(t, start + 1) == match parse_items(t, self.pos as int) {
                        Ok((rest, q)) => Ok::<(Seq<SexprModel>, int), ParseFailure>((sexprs_model(items@) + rest, q)),
                        Err(f) => Err(f),
                    },
                ensures
                    self.tokens@ == old(self).tokens@,
                    start == old(self).pos as int,
                    t == tokens_model(self.tokens@),
                    0 <= start < t.len(),
                    t[start] == TokenModel::LParen,
                    start < self.pos <= self.tokens@.len(),
                    parse_items(t, start + 1) == match parse_items(t, self.pos as int) {
                        Ok((rest, q)) => Ok::<(Seq<SexprModel>, int), ParseFailure>((sexprs_model(items@) + rest, q)),
                        Err(f) => Err(f),
                    },
                    self.pos as int >= t.len() || t[self.pos as int] is RParen,
                decreases self.tokens@.len() - self.pos,
            {
                let stop = match self.peek() {
                    Some(Token::RParen) => true,
                    None => true,
                    _ => false,
                };
                if stop {
                    break;
                }
                let ghost p = self.pos as int;
                let e = match self.parse_expr() {
                    Ok(e) => e,
                    Err(err) => {
                        proof {
                            assert(!(t[p] is RParen));
                            assert(parse_at(t, p) is Err);
                            assert(parse_items(t, p) is Err);
                        }
                        return Err(err);
                    }
                };
                proof {
                    lemma_parse_bounds(t, p);
                }
                let ghost em = sexpr_model(e);
                let ghost before = items@;
                items.push(e);
                proof {
                    assert(items@.drop_last() =~= before);
                    match parse_items(t, self.pos as int) {
                        Ok((rest, q)) => {
                            assert(sexprs_model(before) + (seq![em] + rest) =~= sexprs_model(items@) + rest);
                        },
                        Err(_) => {},
                    }
                }
            }
            let closed = self.pos < self.tokens.len() && match &self.tokens[self.pos] {
                Token::RParen => true,
                _ => false,
            };
            if !closed {
                proof {
                    assert(parse_items(t, self.pos as int) == Err::<(Seq<SexprModel>, int), ParseFailure>(ParseFailure::Unclosed));
                }
                return Err(ParseError { message: String::from_str("unclosed list") });
            }
            proof {
                assert(sexprs_model(items@) + Seq::<SexprModel>::empty() =~= sexprs_model(items@));
            }
            self.pos = self.pos + 1;
            return Ok(Sexpr::List(items));
        }
        let atom = match self.peek() {
            Some(Token::Atom(a)) => Some(a.clone()),
            _ => None,
        };
        match atom {
            Some(a) => {
                self.pos = self.pos + 1;
                Ok(Sexpr::Atom(a))
            },
            None => Err(ParseError { message: String::from_str("unexpected token") }),
        }
    }
}

/// A quoted body free of `"` and `\` is read byte for byte up to the
/// closing quote.
proof fn lemma_quoted_plain(b: Seq<u8>, k: int, n: int)
    requires
        b.len() == n + 2,
        1 <= k <= n + 1,
        b[n + 1] == 34u8,
        forall|j: int| 1 <= j <= n ==> #[trigger] b[j] != 34u8 && b[j] != 92u8,
    ensures
        quoted_from(b, k) == (b.subrange(k, n + 1).map_values(|x: u8| x as char), n + 2),
    decreases n + 1 - k,
{
    if k == n + 1 {
        assert(b.subrange(k, n + 1).map_values(|x: u8| x as char) =~= Seq::<char>::empty());
    } else {
        lemma_quoted_plain(b, k + 1, n);
        assert(b[k] != 34u8 && b[k] != 92u8);
        assert(seq![b[k] as char] + b.subrange(k + 1, n + 1).map_values(|x: u8| x as char)
            =~= b.subrange(k, n + 1).map_values(|x: u8| x as char));
    }
}

/// A text in double quotes whose body holds neither `"` nor `\` reads as
/// one atom: each byte of the body, spaces and parentheses included,
/// becomes the character with that code.
pub proof fn law_quoted_atom(body: Seq<u8>)
    requires
        forall|j: int| 0 <= j < body.len() ==> #[trigger] body[j] != 34u8 && body[j] != 92u8,
    ensures
        spec_parse(seq![34u8] + body + seq![34u8])
            == Ok::<SexprModel, ParseFailure>(SexprModel::Atom(body.map_values(|x: u8| x as char))),
{
    let b = seq![34u8] + body + seq![34u8];
    let n = body.len() as int;
    assert forall|j: int| 1 <= j <= n implies #[trigger] b[j] != 34u8 && b[j] != 92u8 by {
        assert(b[j] == body[j - 1]);
    }
    assert(b[n + 1] == 34u8);
    lemma_quoted_plain(b, 1, n);
    assert(b.subrange(1, n + 1) =~= body);
    assert(b[0] == 34u8);
    assert(tokens_from(b, n + 2) == Some(Seq::<TokenModel>::empty()));
    let t = seq![TokenModel::Atom(body.map_values(|x: u8| x as char))];
    assert(tokens_from(b, 0) == Some(seq![TokenModel::Atom(body.map_values(|x: u8| x as char))] + Seq::<TokenModel>::empty()));
    assert(seq![TokenModel::Atom(body.map_values(|x: u8| x as char))] + Seq::<TokenModel>::empty() =~= t);
    assert(parse_at(t, 0) == Ok::<(SexprModel, int), ParseFailure>((SexprModel::Atom(body.map_values(|x: u8| x as char)), 1)));
}

/// An ASCII text in double quotes, holding neither `"` nor `\` between
/// them, reads as one atom that is exactly that text.
pub proof fn law_quoted_ascii_text(body: Seq<char>)
    requires
        vstd::utf8::is_ascii_chars(body),
        !body.contains('"'),
        !body.contains('\\'),
    ensures
        spec_parse(vstd::utf8::encode_utf8(seq!['"'] + body + seq!['"']))
            == Ok::<SexprModel, ParseFailure>(SexprModel::Atom(body)),
{
    let t = seq!['"'] + body + seq!['"'];
    let n = body.len() as int;
    assert(vstd::utf8::is_ascii_chars(t)) by {
        assert forall|i: int| 0 <= i < t.len() implies '\0' <= #[trigger] t[i] <= '\u{7f}' by {
            if 1 <= i <= n {
                assert(t[i] == body[i - 1]);
            }
        }
    }
    vstd::utf8::is_ascii_chars_encode_utf8(t);
    let b = vstd::utf8::encode_utf8(t);
    let bytes = Seq::new(body.len(), |i: int| body[i] as u8);
    assert forall|j: int| 0 <= j < bytes.len() implies #[trigger] bytes[j] != 34u8 && bytes[j] != 92u8 by {
        assert(body[j] != '"' && body[j] != '\\') by {
            if body[j] == '"' {
                assert(body.contains('"'));
            }
            if body[j] == '\\' {
                assert(body.contains('\\'));
            }
        }
        assert('\0' <= body[j] <= '\u{7f}');
    }
    assert(b =~= seq![34u8] + bytes + seq![34u8]) by {
        assert forall|i: int| 0 <= i < b.len() implies b[i] == (seq![34u8] + bytes + seq![34u8])[i] by {
            assert(t[i] as u8 == b[i]);
            if 1 <= i <= n {
                assert(t[i] == body[i - 1]);
            }
        }
    }
    law_quoted_atom(bytes);
    assert(bytes.map_values(|x: u8| x as char) =~= body) by {
        assert forall|i: int| 0 <= i < n implies (body[i] as u8) as char == body[i] by {
            assert('\0' <= body[i] <= '\u{7f}');
        }
    }
}

/// Reads text as exactly one S-expression.
pub fn parse(input: &str) -> (r: Result<Sexpr, ParseError>)
    ensures
        match r {
            Ok(e) => spec_parse(input.spec_bytes()) == Ok::<SexprModel, ParseFailure>(sexpr_model(e)),
            Err(err) => spec_parse(input.spec_bytes()) matches Err(f) && err.message@ == failure_message(f),
        },
{
    let tokens = match tokenize(input) {
        Ok(t) => t,
        Err(e) => {
            return Err(e);
        }
    };
    let mut p = Parser { tokens, pos: 0 };
    let expr = match p.parse_expr() {
        Ok(e) => e,
        Err(e) => {
            return Err(e);
        }
    };
    if p.pos < p.tokens.len() {
        return Err(ParseError { message: String::from_str("trailing tokens after expression") });
    }
    Ok(expr)
}

} // verus!

verus! {

/// The head atom and the remaining items of a list whose first item is an atom.
pub open spec fn spec_list_head(e: Sexpr) -> Option<(Seq<char>, Seq<Sexpr>)> {
    match e {
        Sexpr::List(items) => if items.len() > 0 && items[0] is Atom {
            Some((items[0]->Atom_0@, items@.subrange(1, items.len() as int)))
        } else {
            None
        },
        Sexpr::Atom(_) => None,
    }
}

/// The head atom of a list, if it has one.
pub open spec fn head_of(e: Sexpr) -> Option<Seq<char>> {
    match spec_list_head(e) {
        Some((h, _)) => Some(h),
        None => None,
    }
}

/// Splits a list into its head atom and the items after it. `None` for an
/// atom, an empty list, or a list whose first item is itself a list.
pub fn list_head(list: &Sexpr) -> (r: Option<(&str, &[Sexpr])>)
    ensures
        match r {
            Some((h, tail)) => spec_list_head(*list) == Some((h@, tail@)),
            None => spec_list_head(*list) is None,
        },
{
    match list {
        Sexpr::List(items) => {
            if items.len() == 0 {
                return None;
            }
            match &items[0] {
                Sexpr::Atom(s) => {
                    let tail = vstd::slice::slice_subrange(items.as_slice(), 1, items.len());
                    Some((s.as_str(), tail))
                },
                Sexpr::List(_) => None,
            }
        },
        Sexpr::Atom(_) => None,
    }
}

impl Sexpr {
    /// The text of an atom; `None` for a list.
    pub fn as_atom(&self) -> (r: Option<&str>)
        ensures
            match *self {
                Sexpr::Atom(s) => r matches Some(a) && a@ == s@,
                Sexpr::List(_) => r is None,
            },
    {
        match self {
            Sexpr::Atom(s) => Some(s.as_str()),
            Sexpr::List(_) => None,
        }
    }

    /// The first item of this list that is itself a list headed by `head`.
    pub fn child_list(&self, head: &str) -> (r: Option<&Sexpr>)
        ensures
            match *self {
                Sexpr::List(items) => match r {
                    Some(c) => exists|i: int| #![trigger items@[i]]
                        0 <= i < items.len() && items@[i] == *c && head_of(items@[i]) == Some(head@)
                            && forall|j: int| 0 <= j < i ==> head_of(#[trigger] items@[j]) != Some(head@),
                    None => forall|j: int| 0 <= j < items.len() ==> head_of(#[trigger] items@[j]) != Some(head@),
                },
                Sexpr::Atom(_) => r is None,
            },
    {
        match self {
            Sexpr::List(items) => {
                let mut i: usize = 0;
                while i < items.len()
                    invariant
                        *self == Sexpr::List(*items),
                        i <= items@.len(),
                        forall|j: int| 0 <= j < i ==> head_of(#[trigger] items@[j]) != Some(head@),
                    decreases items@.len() - i,
                {
                    let child = &items[i];
                    match list_head(child) {
                        Some((h, _)) => {
                            if str_eq(h, head) {
                                assert(head_of(items@[i as int]) == Some(head@));
                                assert(items@[i as int] == *child);
                                return Some(child);
                            }
                        },
                        None => {},
                    }
                    i = i + 1;
                }
                None
            },
            Sexpr::Atom(_) => None,
        }
    }
}

} // verus!

verus! {

/// Head atom of a list value whose first item is an atom.
pub open spec fn model_head(m: SexprModel) -> Option<Seq<char>> {
    match m {
        SexprModel::List(items) => if items.len() > 0 && items[0] is Atom {
            Some(items[0]->Atom_0)
        } else {
            None
        },
        SexprModel::Atom(_) => None,
    }
}

/// Items of a list value after its head.
pub open spec fn model_tail(m: SexprModel) -> Seq<SexprModel> {
    match m {
        SexprModel::List(items) => if items.len() > 0 {
            items.subrange(1, items.len() as int)
        } else {
            Seq::empty()
        },
        SexprModel::Atom(_) => Seq::empty(),
    }
}

/// Items of a list value (none for an atom).
pub open spec fn model_items(m: SexprModel) -> Seq<SexprModel> {
    match m {
        SexprModel::List(items) => items,
        SexprModel::Atom(_) => Seq::empty(),
    }
}

/// The values of a sequence are the values of its items, one for one.
pub proof fn lemma_sexprs_model(s: Seq<Sexpr>)
    ensures
        sexprs_model(s).len() == s.len(),
        forall|i: int| 0 <= i < s.len() ==> #[trigger] sexprs_model(s)[i] == sexpr_model(s[i]),
    decreases s.len(),
{
    if s.len() > 0 {
        lemma_sexprs_model(s.drop_last());
    }
}

/// The values of a slice of a sequence are the slice of its values.
pub proof fn lemma_sexprs_model_subrange(s: Seq<Sexpr>, a: int, b: int)
    requires
        0 <= a <= b <= s.len(),
    ensures
        sexprs_model(s.subrange(a, b)) == sexprs_model(s).subrange(a, b),
{
    lemma_sexprs_model(s);
    lemma_sexprs_model(s.subrange(a, b));
    assert(sexprs_model(s.subrange(a, b)) =~= sexprs_model(s).subrange(a, b));
}

/// `list_head` on an expression agrees with the head and tail of its value.
pub proof fn lemma_list_head_model(e: Sexpr)
    ensures
        match spec_list_head(e) {
            Some((h, t)) => model_head(sexpr_model(e)) == Some(h) && sexprs_model(t) == model_tail(sexpr_model(e)),
            None => model_head(sexpr_model(e)) is None,
        },
        head_of(e) == model_head(sexpr_model(e)),
        e matches Sexpr::List(items) ==> model_items(sexpr_model(e)) == sexprs_model(items@),
        e is Atom ==> model_items(sexpr_model(e)) == Seq::<SexprModel>::empty(),
{
    match e {
        Sexpr::List(items) => {
            lemma_sexprs_model(items@);
            if items.len() > 0 {
                lemma_sexprs_model_subrange(items@, 1, items.len() as int);
            }
        },
        Sexpr::Atom(_) => {},
    }
}

} // verus!
