//! Writing S-expressions back as text, and what reading that text gives.

use vstd::prelude::*;

use crate::sexpr::{
    atom_end, is_ascii_ws, is_atom_break, parse_at, parse_items, spec_parse, tokens_from, ParseFailure,
    SexprModel, TokenModel,
};

verus! {

/// A character that may stand in a bare atom: not ASCII white space, not a
/// parenthesis and not a double quote.
pub open spec fn bare_char(c: char) -> bool {
    let u = c as u32;
    !(u == 9 || u == 10 || u == 12 || u == 13 || u == 32 || u == 40 || u == 41 || u == 34)
}

/// An expression whose atoms are all non-empty runs of bare characters, so
/// that each can be written unquoted.
pub open spec fn printable(e: SexprModel) -> bool
    decreases e,
{
    match e {
        SexprModel::Atom(a) => a.len() > 0 && forall|k: int| 0 <= k < a.len() ==> bare_char(#[trigger] a[k]),
        SexprModel::List(xs) => printable_all(xs),
    }
}

/// Every expression of the sequence is printable.
pub open spec fn printable_all(xs: Seq<SexprModel>) -> bool
    decreases xs,
{
    if xs.len() == 0 {
        true
    } else {
        printable(xs[0]) && printable_all(xs.drop_first())
    }
}

/// How many white-space gaps the text of an expression has: one after
/// each `(` and one before each `)`, and one after each separating space.
pub open spec fn gaps(e: SexprModel) -> int
    decreases e,
{
    match e {
        SexprModel::Atom(_) => 0,
        SexprModel::List(xs) => 2 + gaps_items(xs),
    }
}

/// How many gaps the items of a list have, with their separators.
pub open spec fn gaps_items(xs: Seq<SexprModel>) -> int
    decreases xs,
{
    if xs.len() == 0 {
        0
    } else if xs.len() == 1 {
        gaps(xs[0])
    } else {
        gaps(xs[0]) + 1 + gaps_items(xs.drop_first())
    }
}

/// Text of an expression whose gaps, numbered from `c` in text order, hold
/// the white space `g(c)`, `g(c + 1)`, and so on; with every gap empty
/// this is the plain form `(a b (c))`.
pub open spec fn layout(e: SexprModel, g: spec_fn(int) -> Seq<u8>, c: int) -> Seq<u8>
    decreases e,
{
    match e {
        SexprModel::Atom(a) => vstd::utf8::encode_utf8(a),
        SexprModel::List(xs) => seq![40u8] + g(c) + layout_items(xs, g, c + 1) + g(c + 1 + gaps_items(xs))
            + seq![41u8],
    }
}

/// The items of a list, one space and a gap between each two.
pub open spec fn layout_items(xs: Seq<SexprModel>, g: spec_fn(int) -> Seq<u8>, c: int) -> Seq<u8>
    decreases xs,
{
    if xs.len() == 0 {
        Seq::empty()
    } else if xs.len() == 1 {
        layout(xs[0], g, c)
    } else {
        layout(xs[0], g, c) + seq![32u8] + g(c + gaps(xs[0])) + layout_items(
            xs.drop_first(),
            g,
            c + gaps(xs[0]) + 1,
        )
    }
}

/// The plain text of an expression: atoms as they are, list items
/// separated by one space, in parentheses.
pub open spec fn print(e: SexprModel) -> Seq<u8> {
    layout(e, |_n: int| Seq::<u8>::empty(), 0)
}

/// The text of an expression with white space in every gap and before and
/// after it: `g(0)` before, the gaps numbered from 1, and the next one after.
pub open spec fn padded(e: SexprModel, g: spec_fn(int) -> Seq<u8>) -> Seq<u8> {
    g(0) + layout(e, g, 1) + g(1 + gaps(e))
}

/// The tokens of an expression's text.
pub open spec fn toks(e: SexprModel) -> Seq<TokenModel>
    decreases e,
{
    match e {
        SexprModel::Atom(a) => seq![TokenModel::Atom(a)],
        SexprModel::List(xs) => seq![TokenModel::LParen] + toks_items(xs) + seq![TokenModel::RParen],
    }
}

/// The tokens of a sequence of expressions, one after the other.
pub open spec fn toks_items(xs: Seq<SexprModel>) -> Seq<TokenModel>
    decreases xs,
{
    if xs.len() == 0 {
        Seq::empty()
    } else {
        toks(xs[0]) + toks_items(xs.drop_first())
    }
}

/// Every byte is ASCII white space.
pub open spec fn all_ws(w: Seq<u8>) -> bool {
    forall|k: int| 0 <= k < w.len() ==> is_ascii_ws(#[trigger] w[k])
}

/// Every gap holds ASCII white space only.
pub open spec fn ws_gaps(g: spec_fn(int) -> Seq<u8>) -> bool {
    forall|n: int| all_ws(#[trigger] g(n))
}

/// Tokens `p` followed by the tokens `rest`, when those were read.
pub open spec fn then_tokens(p: Seq<TokenModel>, rest: Option<Seq<TokenModel>>) -> Option<Seq<TokenModel>> {
    match rest {
        Some(r) => Some(p + r),
        None => None,
    }
}

/// A byte that continues a bare atom and does not open a quoted one.
spec fn plain_byte(x: u8) -> bool {
    !is_atom_break(x) && x != 34u8
}

proof fn lemma_high_bits(x: u8)
    by (bit_vector)
    ensures
        (0x80u8 | x) >= 0x80u8,
        (0xC0u8 | x) >= 0x80u8,
        (0xE0u8 | x) >= 0x80u8,
        (0xF0u8 | x) >= 0x80u8,
{
}

proof fn lemma_low_byte(u: u32)
    by (bit_vector)
    requires
        u <= 0x7F,
    ensures
        ((u & 0x7F) as u8) as u32 == u,
{
}

/// The UTF-8 bytes of a bare character are all plain.
proof fn lemma_scalar_plain(c: char)
    requires
        bare_char(c),
    ensures
        vstd::utf8::encode_scalar(c as u32).len() >= 1,
        forall|k: int| 0 <= k < vstd::utf8::encode_scalar(c as u32).len()
            ==> plain_byte(#[trigger] vstd::utf8::encode_scalar(c as u32)[k]),
{
    let u = c as u32;
    if vstd::utf8::has_width_1_encoding(u) {
        lemma_low_byte(u);
    } else {
        lemma_high_bits(((u >> 6) & 0x1F) as u8);
        lemma_high_bits((u & 0x3F) as u8);
        lemma_high_bits(((u >> 12) & 0x0F) as u8);
        lemma_high_bits(((u >> 6) & 0x3F) as u8);
        lemma_high_bits(((u >> 18) & 0x7) as u8);
        lemma_high_bits(((u >> 12) & 0x3F) as u8);
    }
}

/// The UTF-8 bytes of a run of bare characters are all plain.
proof fn lemma_encode_plain(a: Seq<char>)
    requires
        forall|k: int| 0 <= k < a.len() ==> bare_char(#[trigger] a[k]),
    ensures
        a.len() > 0 ==> vstd::utf8::encode_utf8(a).len() > 0,
        forall|k: int| 0 <= k < vstd::utf8::encode_utf8(a).len()
            ==> plain_byte(#[trigger] vstd::utf8::encode_utf8(a)[k]),
    decreases a.len(),
{
    if a.len() > 0 {
        assert(bare_char(a[0]));
        lemma_scalar_plain(a[0]);
        let rest = a.drop_first();
        assert forall|k: int| 0 <= k < rest.len() implies bare_char(#[trigger] rest[k]) by {
            assert(rest[k] == a[k + 1]);
        }
        lemma_encode_plain(rest);
        let e1 = vstd::utf8::encode_scalar(a[0] as u32);
        let e2 = vstd::utf8::encode_utf8(rest);
        let en = vstd::utf8::encode_utf8(a);
        assert(en == e1 + e2);
        assert forall|k: int| 0 <= k < en.len() implies plain_byte(#[trigger] en[k]) by {
            if k < e1.len() {
                assert(en[k] == e1[k]);
            } else {
                assert(en[k] == e2[k - e1.len()]);
            }
        }
    }
}

/// A bare atom ends where the first break after it stands.
proof fn lemma_atom_end_at(b: Seq<u8>, i: int, j: int)
    requires
        0 <= i <= j <= b.len(),
        forall|k: int| i <= k < j ==> !is_atom_break(#[trigger] b[k]),
        j == b.len() || is_atom_break(b[j]),
    ensures
        atom_end(b, i) == j,
    decreases j - i,
{
    if i < j {
        lemma_atom_end_at(b, i + 1, j);
    }
}

/// White space before a token does not change what is read.
proof fn lemma_skip_ws(b: Seq<u8>, i: int, n: int)
    requires
        0 <= i,
        0 <= n,
        i + n <= b.len(),
        forall|k: int| i <= k < i + n ==> is_ascii_ws(#[trigger] b[k]),
    ensures
        tokens_from(b, i) == tokens_from(b, i + n),
    decreases n,
{
    if n > 0 {
        assert(is_ascii_ws(b[i]));
        lemma_skip_ws(b, i + 1, n - 1);
    }
}

/// A piece of a text that holds `s` at `i` holds the same piece of `s`.
proof fn lemma_piece(b: Seq<u8>, i: int, s: Seq<u8>, a: int, n: int)
    requires
        0 <= i,
        i + s.len() <= b.len(),
        b.subrange(i, i + s.len()) == s,
        0 <= a,
        0 <= n,
        a + n <= s.len(),
    ensures
        b.subrange(i + a, i + a + n) == s.subrange(a, a + n),
        forall|k: int| 0 <= k < n ==> b[i + a + k] == #[trigger] s[a + k],
{
    assert forall|k: int| 0 <= k < n implies b[i + a + k] == #[trigger] s[a + k] by {
        assert(b.subrange(i, i + s.len())[a + k] == b[i + a + k]);
    }
    assert(b.subrange(i + a, i + a + n) =~= s.subrange(a, a + n));
}

/// The first token of an expression opens it: it is never a `)`.
proof fn lemma_toks_first(e: SexprModel)
    ensures
        toks(e).len() >= 1,
        !(toks(e)[0] is RParen),
{
}

/// Tokens that spell an expression read as that expression.
proof fn lemma_parse_toks(t: Seq<TokenModel>, p: int, e: SexprModel)
    requires
        0 <= p,
        p + toks(e).len() <= t.len(),
        t.subrange(p, p + toks(e).len()) == toks(e),
    ensures
        parse_at(t, p) == Ok::<(SexprModel, int), ParseFailure>((e, p + toks(e).len())),
    decreases t.len() - p, 0int,
{
    let n = toks(e).len() as int;
    assert(t[p] == t.subrange(p, p + n)[0]);
    match e {
        SexprModel::Atom(a) => {},
        SexprModel::List(xs) => {
            let k = toks_items(xs).len() as int;
            assert(t.subrange(p + 1, p + 1 + k) =~= toks_items(xs)) by {
                assert forall|j: int| 0 <= j < k implies t.subrange(p + 1, p + 1 + k)[j] == toks_items(xs)[j] by {
                    assert(t.subrange(p, p + n)[1 + j] == toks(e)[1 + j]);
                }
            }
            assert(t[p + 1 + k] == t.subrange(p, p + n)[1 + k]);
            lemma_parse_items_toks(t, p + 1, xs);
        },
    }
}

/// Tokens that spell a sequence of expressions, then a `)`, read as
/// those items.
proof fn lemma_parse_items_toks(t: Seq<TokenModel>, p: int, xs: Seq<SexprModel>)
    requires
        0 <= p,
        p + toks_items(xs).len() < t.len(),
        t.subrange(p, p + toks_items(xs).len()) == toks_items(xs),
        t[p + toks_items(xs).len()] is RParen,
    ensures
        parse_items(t, p) == Ok::<(Seq<SexprModel>, int), ParseFailure>((xs, p + toks_items(xs).len())),
    decreases t.len() - p, 1int,
{
    let n = toks_items(xs).len() as int;
    if xs.len() == 0 {
        assert(xs =~= Seq::<SexprModel>::empty());
    } else {
        let x = xs[0];
        let rest = xs.drop_first();
        let k0 = toks(x).len() as int;
        lemma_toks_first(x);
        assert(t[p] == t.subrange(p, p + n)[0]);
        assert(t.subrange(p, p + k0) =~= toks(x)) by {
            assert forall|j: int| 0 <= j < k0 implies t.subrange(p, p + k0)[j] == toks(x)[j] by {
                assert(t.subrange(p, p + n)[j] == toks_items(xs)[j]);
            }
        }
        lemma_parse_toks(t, p, x);
        let k1 = toks_items(rest).len() as int;
        assert(t.subrange(p + k0, p + k0 + k1) =~= toks_items(rest)) by {
            assert forall|j: int| 0 <= j < k1 implies t.subrange(p + k0, p + k0 + k1)[j] == toks_items(rest)[j] by {
                assert(t.subrange(p, p + n)[k0 + j] == toks_items(xs)[k0 + j]);
            }
        }
        lemma_parse_items_toks(t, p + k0, rest);
        assert(seq![x] + rest =~= xs);
    }
}

/// The text of a printable expression, followed by a break or the end,
/// reads as its tokens.
proof fn lemma_tokens_layout(b: Seq<u8>, i: int, e: SexprModel, g: spec_fn(int) -> Seq<u8>, c: int)
    requires
        printable(e),
        ws_gaps(g),
        0 <= i,
        i + layout(e, g, c).len() <= b.len(),
        b.subrange(i, i + layout(e, g, c).len()) == layout(e, g, c),
        i + layout(e, g, c).len() == b.len() || is_atom_break(b[i + layout(e, g, c).len()]),
    ensures
        layout(e, g, c).len() >= 1,
        tokens_from(b, i) == then_tokens(toks(e), tokens_from(b, i + layout(e, g, c).len())),
    decreases b.len() - i, 0int,
{
    let s = layout(e, g, c);
    let n = s.len() as int;
    match e {
        SexprModel::Atom(a) => {
            lemma_encode_plain(a);
            lemma_piece(b, i, s, 0, n);
            assert(b[i] == s[0]);
            assert(plain_byte(s[0]));
            assert forall|k: int| i <= k < i + n implies !is_atom_break(#[trigger] b[k]) by {
                assert(b[i + 0 + (k - i)] == s[0 + (k - i)]);
                assert(plain_byte(s[k - i]));
            }
            lemma_atom_end_at(b, i, i + n);
            vstd::utf8::encode_utf8_valid_utf8(a);
            vstd::utf8::encode_utf8_decode_utf8(a);
            match tokens_from(b, i + n) {
                Some(r) => { assert(seq![TokenModel::Atom(a)] + r == toks(e) + r); },
                None => {},
            }
        },
        SexprModel::List(xs) => {
            let w1 = g(c);
            let w2 = g(c + 1 + gaps_items(xs));
            assert(all_ws(w1) && all_ws(w2));
            let m1 = w1.len() as int;
            let m2 = w2.len() as int;
            let items = layout_items(xs, g, c + 1);
            let q = items.len() as int;
            assert(s == seq![40u8] + w1 + items + w2 + seq![41u8]);
            lemma_piece(b, i, s, 0, n);
            assert(b[i] == 40u8) by { assert(b[i + 0 + 0] == s[0int + 0]); }
            assert forall|k: int| i + 1 <= k < i + 1 + m1 implies is_ascii_ws(#[trigger] b[k]) by {
                assert(b[i + 0 + (k - i)] == s[0 + (k - i)]);
                assert(s[k - i] == w1[k - i - 1]);
            }
            lemma_skip_ws(b, i + 1, m1);
            lemma_piece(b, i, s, 1 + m1, q);
            assert(s.subrange(1 + m1, 1 + m1 + q) =~= items);
            let j = i + 1 + m1 + q;
            assert forall|k: int| j <= k < j + m2 implies is_ascii_ws(#[trigger] b[k]) by {
                assert(b[i + 0 + (k - i)] == s[0 + (k - i)]);
                assert(s[k - i] == w2[k - i - 1 - m1 - q]);
            }
            assert(b[j + m2] == 41u8) by {
                assert(b[i + 0 + (n - 1)] == s[0 + (n - 1)]);
            }
            assert(j == b.len() || is_atom_break(b[j])) by {
                if m2 > 0 {
                    assert(b[j] == w2[0]) by { assert(b[i + 0 + (j - i)] == s[0 + (j - i)]); }
                }
            }
            lemma_tokens_items(b, i + 1 + m1, xs, g, c + 1);
            lemma_skip_ws(b, j, m2);
            assert(n == 1 + m1 + q + m2 + 1);
            match tokens_from(b, i + n) {
                Some(r) => {
                    assert(seq![TokenModel::LParen] + (toks_items(xs) + (seq![TokenModel::RParen] + r))
                        == toks(e) + r);
                },
                None => {},
            }
        },
    }
}

/// The text of a sequence of printable expressions, separated by a space
/// and a gap, followed by a break or the end, reads as their tokens.
proof fn lemma_tokens_items(b: Seq<u8>, i: int, xs: Seq<SexprModel>, g: spec_fn(int) -> Seq<u8>, c: int)
    requires
        printable_all(xs),
        ws_gaps(g),
        0 <= i,
        i + layout_items(xs, g, c).len() <= b.len(),
        b.subrange(i, i + layout_items(xs, g, c).len()) == layout_items(xs, g, c),
        i + layout_items(xs, g, c).len() == b.len() || is_atom_break(b[i + layout_items(xs, g, c).len()]),
    ensures
        tokens_from(b, i) == then_tokens(toks_items(xs), tokens_from(b, i + layout_items(xs, g, c).len())),
    decreases b.len() - i, 1int,
{
    let s = layout_items(xs, g, c);
    let n = s.len() as int;
    if xs.len() == 0 {
        match tokens_from(b, i) {
            Some(r) => { assert(Seq::<TokenModel>::empty() + r =~= r); },
            None => {},
        }
    } else if xs.len() == 1 {
        lemma_tokens_layout(b, i, xs[0], g, c);
        assert(xs.drop_first().len() == 0);
        assert(toks_items(xs.drop_first()) == Seq::<TokenModel>::empty());
        assert(toks(xs[0]) + Seq::<TokenModel>::empty() =~= toks(xs[0]));
    } else {
        let x = xs[0];
        let rest = xs.drop_first();
        let w = g(c + gaps(x));
        assert(all_ws(w));
        let m = w.len() as int;
        let lx = layout(x, g, c);
        let a = lx.len() as int;
        let lr = layout_items(rest, g, c + gaps(x) + 1);
        let d = lr.len() as int;
        assert(s == lx + seq![32u8] + w + lr);
        lemma_piece(b, i, s, 0, a);
        assert(s.subrange(0, a) =~= lx);
        assert(b[i + a] == 32u8) by { assert(b[i + 0 + a] == s[0 + a]); }
        lemma_tokens_layout(b, i, x, g, c);
        assert forall|k: int| i + a <= k < i + a + 1 + m implies is_ascii_ws(#[trigger] b[k]) by {
            assert(b[i + 0 + (k - i)] == s[0 + (k - i)]);
            if k > i + a {
                assert(s[k - i] == w[k - i - a - 1]);
            }
        }
        lemma_skip_ws(b, i + a, 1 + m);
        lemma_piece(b, i, s, a + 1 + m, d);
        assert(s.subrange(a + 1 + m, a + 1 + m + d) =~= lr);
        lemma_tokens_items(b, i + a + 1 + m, rest, g, c + gaps(x) + 1);
        assert(n == a + 1 + m + d);
        match tokens_from(b, i + n) {
            Some(r) => { assert(toks(x) + (toks_items(rest) + r) == toks_items(xs) + r); },
            None => {},
        }
    }
}

/// Printing then reading gives the expression back, and layout white space
/// does not change it: a printable expression's plain text reads as the
/// expression, and so does its text with any ASCII white space before and
/// after it, after each `(`, before each `)` and after each separating
/// space, the amount chosen for each place on its own by `g`.
pub proof fn law_print_then_parse(e: SexprModel, g: spec_fn(int) -> Seq<u8>)
    requires
        printable(e),
        ws_gaps(g),
    ensures
        spec_parse(padded(e, g)) == Ok::<SexprModel, ParseFailure>(e),
        spec_parse(print(e)) == Ok::<SexprModel, ParseFailure>(e),
{
    lemma_parse_padded(e, g);
    let none = |_n: int| Seq::<u8>::empty();
    assert forall|n: int| all_ws(#[trigger] none(n)) by {}
    lemma_parse_padded(e, none);
    assert(layout(e, none, 1) =~= layout(e, none, 0)) by {
        lemma_layout_no_gaps(e, 1, 0);
    }
    assert(padded(e, none) =~= print(e));
}

/// With every gap empty, the numbering of the gaps does not matter.
proof fn lemma_layout_no_gaps(e: SexprModel, c: int, d: int)
    ensures
        layout(e, |_n: int| Seq::<u8>::empty(), c) == layout(e, |_n: int| Seq::<u8>::empty(), d),
    decreases e,
{
    if let SexprModel::List(xs) = e {
        lemma_items_no_gaps(xs, c + 1, d + 1);
    }
}

proof fn lemma_items_no_gaps(xs: Seq<SexprModel>, c: int, d: int)
    ensures
        layout_items(xs, |_n: int| Seq::<u8>::empty(), c) == layout_items(xs, |_n: int| Seq::<u8>::empty(), d),
    decreases xs,
{
    if xs.len() >= 1 {
        lemma_layout_no_gaps(xs[0], c, d);
    }
    if xs.len() >= 2 {
        lemma_items_no_gaps(xs.drop_first(), c + gaps(xs[0]) + 1, d + gaps(xs[0]) + 1);
    }
}

proof fn lemma_parse_padded(e: SexprModel, g: spec_fn(int) -> Seq<u8>)
    requires
        printable(e),
        ws_gaps(g),
    ensures
        spec_parse(padded(e, g)) == Ok::<SexprModel, ParseFailure>(e),
{
    let w1 = g(0);
    let w2 = g(1 + gaps(e));
    assert(all_ws(w1) && all_ws(w2));
    let s = layout(e, g, 1);
    let b = w1 + s + w2;
    assert(b == padded(e, g));
    let m1 = w1.len() as int;
    let m2 = w2.len() as int;
    let n = s.len() as int;
    assert forall|k: int| 0 <= k < m1 implies is_ascii_ws(#[trigger] b[k]) by {
        assert(b[k] == w1[k]);
    }
    lemma_skip_ws(b, 0, m1);
    assert(b.subrange(m1, m1 + n) =~= s);
    assert(m1 + n == b.len() || is_atom_break(b[m1 + n])) by {
        if m2 > 0 {
            assert(b[m1 + n] == w2[0]);
        }
    }
    lemma_tokens_layout(b, m1, e, g, 1);
    assert forall|k: int| m1 + n <= k < m1 + n + m2 implies is_ascii_ws(#[trigger] b[k]) by {
        assert(b[k] == w2[k - m1 - n]);
    }
    lemma_skip_ws(b, m1 + n, m2);
    assert(tokens_from(b, b.len() as int) == Some(Seq::<TokenModel>::empty()));
    let t = toks(e);
    assert(t + Seq::<TokenModel>::empty() =~= t);
    assert(tokens_from(b, 0) == Some(t));
    assert(t.subrange(0, t.len() as int) =~= t);
    lemma_parse_toks(t, 0, e);
}

} // verus!
