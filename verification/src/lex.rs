//! Tokens of the protocol language, the lexing specification `sp_lex`, the
//! rendering specification `render` (its one-sided inverse), and the
//! executable lexer.
use vstd::prelude::*;

use crate::ast::{is_ident_char, kw_end, kw_rec, valid_ident};

verus! {

pub enum Token {
    /// A role name, label, payload-type name or recursion variable.
    Ident(String),
    /// `->`
    Arrow,
    Colon,
    Dot,
    Comma,
    LParen,
    RParen,
    LBrace,
    RBrace,
    /// `!`, a send.
    Bang,
    /// `?`, a receive.
    Query,
    /// `+`, an internal choice.
    Plus,
    /// `&`, an external choice.
    Amp,
    KwEnd,
    KwRec,
}

pub enum TokenV {
    Ident(Seq<char>),
    Arrow,
    Colon,
    Dot,
    Comma,
    LParen,
    RParen,
    LBrace,
    RBrace,
    Bang,
    Query,
    Plus,
    Amp,
    KwEnd,
    KwRec,
}

pub open spec fn tok_view(t: Token) -> TokenV {
    match t {
        Token::Ident(s) => TokenV::Ident(s@),
        Token::Arrow => TokenV::Arrow,
        Token::Colon => TokenV::Colon,
        Token::Dot => TokenV::Dot,
        Token::Comma => TokenV::Comma,
        Token::LParen => TokenV::LParen,
        Token::RParen => TokenV::RParen,
        Token::LBrace => TokenV::LBrace,
        Token::RBrace => TokenV::RBrace,
        Token::Bang => TokenV::Bang,
        Token::Query => TokenV::Query,
        Token::Plus => TokenV::Plus,
        Token::Amp => TokenV::Amp,
        Token::KwEnd => TokenV::KwEnd,
        Token::KwRec => TokenV::KwRec,
    }
}

impl View for Token {
    type V = TokenV;

    open spec fn view(&self) -> TokenV {
        tok_view(*self)
    }
}

pub open spec fn toks_view(ts: Seq<Token>) -> Seq<TokenV> {
    ts.map_values(|t: Token| tok_view(t))
}

/// The concrete text of one token.
pub open spec fn tok_text(t: TokenV) -> Seq<char> {
    match t {
        TokenV::Ident(s) => s,
        TokenV::Arrow => seq!['-', '>'],
        TokenV::Colon => seq![':'],
        TokenV::Dot => seq!['.'],
        TokenV::Comma => seq![','],
        TokenV::LParen => seq!['('],
        TokenV::RParen => seq![')'],
        TokenV::LBrace => seq!['{'],
        TokenV::RBrace => seq!['}'],
        TokenV::Bang => seq!['!'],
        TokenV::Query => seq!['?'],
        TokenV::Plus => seq!['+'],
        TokenV::Amp => seq!['&'],
        TokenV::KwEnd => kw_end(),
        TokenV::KwRec => kw_rec(),
    }
}

/// The canonical rendering of a token sequence: each token's text followed
/// by one space.
pub open spec fn render(ts: Seq<TokenV>) -> Seq<char>
    decreases ts.len(),
{
    if ts.len() == 0 {
        Seq::<char>::empty()
    } else {
        tok_text(ts[0]) + seq![' '] + render(ts.drop_first())
    }
}

pub open spec fn is_space(c: char) -> bool {
    c == ' ' || c == '\n' || c == '\t' || c == '\r'
}

/// Length of the longest identifier-character prefix.
pub open spec fn ident_len(s: Seq<char>) -> int
    decreases s.len(),
{
    if s.len() == 0 || !is_ident_char(s[0]) {
        0
    } else {
        1 + ident_len(s.drop_first())
    }
}

pub proof fn lemma_ident_len(s: Seq<char>)
    ensures
        0 <= ident_len(s) <= s.len(),
        forall|i: int| 0 <= i < ident_len(s) ==> is_ident_char(#[trigger] s[i]),
        ident_len(s) < s.len() ==> !is_ident_char(s[ident_len(s)]),
    decreases s.len(),
{
    if s.len() > 0 && is_ident_char(s[0]) {
        lemma_ident_len(s.drop_first());
        assert forall|i: int| 0 <= i < ident_len(s) implies is_ident_char(#[trigger] s[i]) by {
            if i > 0 {
                assert(s.drop_first()[i - 1] == s[i]);
            }
        }
        if ident_len(s) < s.len() {
            assert(s.drop_first()[ident_len(s) - 1] == s[ident_len(s)]);
        }
    }
}

/// The longest identifier prefix is the only cut obeying its three facts.
pub proof fn lemma_ident_len_is(s: Seq<char>, n: int)
    requires
        0 <= n <= s.len(),
        forall|i: int| 0 <= i < n ==> is_ident_char(#[trigger] s[i]),
        n < s.len() ==> !is_ident_char(s[n]),
    ensures
        ident_len(s) == n,
    decreases s.len(),
{
    if s.len() == 0 {
    } else if n == 0 {
    } else {
        assert(is_ident_char(s[0]));
        assert forall|i: int| 0 <= i < n - 1 implies is_ident_char(#[trigger] s.drop_first()[i]) by {
            assert(s.drop_first()[i] == s[i + 1]);
        }
        if n - 1 < s.drop_first().len() {
            assert(s.drop_first()[n - 1] == s[n]);
        }
        lemma_ident_len_is(s.drop_first(), n - 1);
    }
}

/// Turns an identifier word into its token: the two keywords lex to
/// keyword tokens, everything else to `Ident`.
pub open spec fn word_token(w: Seq<char>) -> TokenV {
    if w == kw_end() {
        TokenV::KwEnd
    } else if w == kw_rec() {
        TokenV::KwRec
    } else {
        TokenV::Ident(w)
    }
}

/// The lexing function: `None` on a character no token starts with.
pub open spec fn sp_lex(s: Seq<char>) -> Option<Seq<TokenV>>
    decreases s.len(),
    via sp_lex_dec
{
    if s.len() == 0 {
        Some(Seq::<TokenV>::empty())
    } else if is_space(s[0]) {
        sp_lex(s.drop_first())
    } else if is_ident_char(s[0]) {
        let n = ident_len(s);
        match sp_lex(s.skip(n)) {
            Some(ts) => Some(seq![word_token(s.take(n))] + ts),
            None => None,
        }
    } else if s[0] == '-' {
        if s.len() >= 2 && s[1] == '>' {
            match sp_lex(s.skip(2)) {
                Some(ts) => Some(seq![TokenV::Arrow] + ts),
                None => None,
            }
        } else {
            None
        }
    } else {
        match punct_token(s[0]) {
            Some(t) => match sp_lex(s.drop_first()) {
                Some(ts) => Some(seq![t] + ts),
                None => None,
            },
            None => None,
        }
    }
}

#[via_fn]
proof fn sp_lex_dec(s: Seq<char>) {
    lemma_ident_len(s);
}

pub open spec fn punct_token(c: char) -> Option<TokenV> {
    if c == ':' {
        Some(TokenV::Colon)
    } else if c == '.' {
        Some(TokenV::Dot)
    } else if c == ',' {
        Some(TokenV::Comma)
    } else if c == '(' {
        Some(TokenV::LParen)
    } else if c == ')' {
        Some(TokenV::RParen)
    } else if c == '{' {
        Some(TokenV::LBrace)
    } else if c == '}' {
        Some(TokenV::RBrace)
    } else if c == '!' {
        Some(TokenV::Bang)
    } else if c == '?' {
        Some(TokenV::Query)
    } else if c == '+' {
        Some(TokenV::Plus)
    } else if c == '&' {
        Some(TokenV::Amp)
    } else {
        None
    }
}

// ---------------------------------------------------------------------------
// The executable lexer.
// ---------------------------------------------------------------------------

fn ident_char(c: char) -> (r: bool)
    ensures
        r == is_ident_char(c),
{
    let u = c as u32;
    (97 <= u && u <= 122) || (65 <= u && u <= 90) || (48 <= u && u <= 57) || u == 95
}

fn space_char(c: char) -> (r: bool)
    ensures
        r == is_space(c),
{
    c == ' ' || c == '\n' || c == '\t' || c == '\r'
}

/// Lexes the suffix of `s` that starts at `pos`. On failure the returned
/// position points at the offending character.
fn lex_from(s: &str, pos: usize) -> (r: Result<Vec<Token>, usize>)
    requires
        pos <= s@.len(),
    ensures
        match r {
            Ok(ts) => sp_lex(s@.skip(pos as int)) == Some(toks_view(ts@)),
            Err(p) => sp_lex(s@.skip(pos as int)) is None && pos <= p < s@.len(),
        },
    decreases s@.len() - pos,
{
    let len = s.unicode_len();
    let ghost suf = s@.skip(pos as int);
    if pos == len {
        proof {
            assert(suf =~= Seq::<char>::empty());
            assert(toks_view(Seq::<Token>::empty()) =~= Seq::<TokenV>::empty());
        }
        return Ok(Vec::new());
    }
    let c = s.get_char(pos);
    proof {
        assert(suf[0] == s@[pos as int]);
    }
    if space_char(c) {
        proof {
            assert(suf.drop_first() =~= s@.skip(pos as int + 1));
        }
        return lex_from(s, pos + 1);
    }
    if ident_char(c) {
        let mut j = pos + 1;
        while j < len && ident_char(s.get_char(j))
            invariant
                pos < j <= len,
                len == s@.len(),
                forall|i: int| pos <= i < j ==> is_ident_char(#[trigger] s@[i]),
            decreases len - j,
        {
            j = j + 1;
        }
        proof {
            assert forall|i: int| 0 <= i < j - pos implies is_ident_char(#[trigger] suf[i]) by {
                assert(suf[i] == s@[pos + i]);
            }
            if j - pos < suf.len() {
                assert(suf[j - pos] == s@[j as int]);
            }
            lemma_ident_len_is(suf, j - pos);
        }
        let word = s.substring_char(pos, j);
        proof {
            assert(word@ =~= suf.take(j - pos));
            assert(suf.skip(j - pos) =~= s@.skip(j as int));
        }
        let owned: String = word.to_owned();
        proof {
            reveal_strlit("end");
            reveal_strlit("rec");
            assert(("end")@ =~= kw_end());
            assert(("rec")@ =~= kw_rec());
        }
        let tok = if owned == "end".to_owned() {
            Token::KwEnd
        } else if owned == "rec".to_owned() {
            Token::KwRec
        } else {
            Token::Ident(owned)
        };
        proof {
            assert(tok_view(tok) == word_token(suf.take(j - pos)));
        }
        match lex_from(s, j) {
            Ok(mut ts) => {
                ts.insert(0, tok);
                proof {
                    assert(toks_view(ts@) =~= seq![word_token(suf.take(j - pos))] + toks_view(
                        ts@.drop_first(),
                    ));
                }
                return Ok(ts);
            },
            Err(p) => {
                return Err(p);
            },
        }
    }
    if c == '-' {
        if pos + 1 < len && s.get_char(pos + 1) == '>' {
            proof {
                assert(suf[1] == s@[pos as int + 1]);
                assert(suf.skip(2) =~= s@.skip(pos as int + 2));
            }
            match lex_from(s, pos + 2) {
                Ok(mut ts) => {
                    ts.insert(0, Token::Arrow);
                    proof {
                        assert(toks_view(ts@) =~= seq![TokenV::Arrow] + toks_view(
                            ts@.drop_first(),
                        ));
                    }
                    return Ok(ts);
                },
                Err(p) => {
                    return Err(p);
                },
            }
        } else {
            proof {
                if suf.len() >= 2 {
                    assert(suf[1] == s@[pos as int + 1]);
                }
            }
            return Err(pos);
        }
    }
    let tok = if c == ':' {
        Token::Colon
    } else if c == '.' {
        Token::Dot
    } else if c == ',' {
        Token::Comma
    } else if c == '(' {
        Token::LParen
    } else if c == ')' {
        Token::RParen
    } else if c == '{' {
        Token::LBrace
    } else if c == '}' {
        Token::RBrace
    } else if c == '!' {
        Token::Bang
    } else if c == '?' {
        Token::Query
    } else if c == '+' {
        Token::Plus
    } else if c == '&' {
        Token::Amp
    } else {
        return Err(pos);
    };
    proof {
        assert(suf.drop_first() =~= s@.skip(pos as int + 1));
    }
    match lex_from(s, pos + 1) {
        Ok(mut ts) => {
            ts.insert(0, tok);
            proof {
                assert(toks_view(ts@) =~= seq![tok_view(tok)] + toks_view(ts@.drop_first()));
            }
            Ok(ts)
        },
        Err(p) => Err(p),
    }
}

/// Tokenizes a whole input; `Err` carries the position of the character no
/// token starts with.
pub fn lex(s: &str) -> (r: Result<Vec<Token>, usize>)
    ensures
        match r {
            Ok(ts) => sp_lex(s@) == Some(toks_view(ts@)),
            Err(p) => sp_lex(s@) is None && p < s@.len(),
        },
{
    proof {
        assert(s@.skip(0) =~= s@);
    }
    lex_from(s, 0)
}

// ---------------------------------------------------------------------------
// The executable renderer.
// ---------------------------------------------------------------------------

pub proof fn lemma_render_snoc(ts: Seq<TokenV>, t: TokenV)
    ensures
        render(ts.push(t)) == render(ts) + tok_text(t) + seq![' '],
    decreases ts.len(),
{
    if ts.len() == 0 {
        assert(ts.push(t)[0] == t);
        assert(ts.push(t).drop_first() =~= Seq::<TokenV>::empty());
        assert(render(ts.push(t)) == tok_text(t) + seq![' '] + render(ts.push(t).drop_first()));
        assert(render(ts.push(t).drop_first()) == Seq::<char>::empty());
        assert(render(ts) == Seq::<char>::empty());
        assert(tok_text(t) + seq![' '] + Seq::<char>::empty() =~= Seq::<char>::empty() + tok_text(
            t,
        ) + seq![' ']);
    } else {
        assert(ts.push(t)[0] == ts[0]);
        assert(ts.push(t).drop_first() =~= ts.drop_first().push(t));
        lemma_render_snoc(ts.drop_first(), t);
        assert(render(ts.push(t)) == tok_text(ts[0]) + seq![' '] + (render(ts.drop_first())
            + tok_text(t) + seq![' ']));
        assert(render(ts) == tok_text(ts[0]) + seq![' '] + render(ts.drop_first()));
        assert(tok_text(ts[0]) + seq![' '] + (render(ts.drop_first()) + tok_text(t) + seq![' '])
            =~= (tok_text(ts[0]) + seq![' '] + render(ts.drop_first())) + tok_text(t) + seq![' ']);
    }
}

/// Appends one token's text and a trailing space.
fn append_token(out: &mut String, t: &Token)
    ensures
        final(out)@ == old(out)@ + tok_text(t@) + seq![' '],
{
    match t {
        Token::Ident(w) => out.append(w.as_str()),
        Token::Arrow => {
            proof {
                reveal_strlit("->");
                assert(("->")@ =~= tok_text(TokenV::Arrow));
            }
            out.append("->");
        },
        Token::Colon => {
            proof {
                reveal_strlit(":");
                assert((":")@ =~= tok_text(TokenV::Colon));
            }
            out.append(":");
        },
        Token::Dot => {
            proof {
                reveal_strlit(".");
                assert((".")@ =~= tok_text(TokenV::Dot));
            }
            out.append(".");
        },
        Token::Comma => {
            proof {
                reveal_strlit(",");
                assert((",")@ =~= tok_text(TokenV::Comma));
            }
            out.append(",");
        },
        Token::LParen => {
            proof {
                reveal_strlit("(");
                assert(("(")@ =~= tok_text(TokenV::LParen));
            }
            out.append("(");
        },
        Token::RParen => {
            proof {
                reveal_strlit(")");
                assert((")")@ =~= tok_text(TokenV::RParen));
            }
            out.append(")");
        },
        Token::LBrace => {
            proof {
                reveal_strlit("{");
                assert(("{")@ =~= tok_text(TokenV::LBrace));
            }
            out.append("{");
        },
        Token::RBrace => {
            proof {
                reveal_strlit("}");
                assert(("}")@ =~= tok_text(TokenV::RBrace));
            }
            out.append("}");
        },
        Token::Bang => {
            proof {
                reveal_strlit("!");
                assert(("!")@ =~= tok_text(TokenV::Bang));
            }
            out.append("!");
        },
        Token::Query => {
            proof {
                reveal_strlit("?");
                assert(("?")@ =~= tok_text(TokenV::Query));
            }
            out.append("?");
        },
        Token::Plus => {
            proof {
                reveal_strlit("+");
                assert(("+")@ =~= tok_text(TokenV::Plus));
            }
            out.append("+");
        },
        Token::Amp => {
            proof {
                reveal_strlit("&");
                assert(("&")@ =~= tok_text(TokenV::Amp));
            }
            out.append("&");
        },
        Token::KwEnd => {
            proof {
                reveal_strlit("end");
                assert(("end")@ =~= tok_text(TokenV::KwEnd));
            }
            out.append("end");
        },
        Token::KwRec => {
            proof {
                reveal_strlit("rec");
                assert(("rec")@ =~= tok_text(TokenV::KwRec));
            }
            out.append("rec");
        },
    }
    proof {
        assert(" "@ == seq![' ']) by {
            reveal_strlit(" ");
            assert((" ")@ =~= seq![' ']);
        }
    }
    out.append(" ");
}

/// Renders a token sequence into its canonical text.
pub fn render_tokens(ts: &Vec<Token>) -> (r: String)
    ensures
        r@ == render(toks_view(ts@)),
{
    let mut out = String::new();
    let n = ts.len();
    for i in 0..n
        invariant
            n == ts.len(),
            out@ == render(toks_view(ts@.take(i as int))),
    {
        proof {
            assert(toks_view(ts@.take(i as int)).push(ts@[i as int]@) =~= toks_view(
                ts@.take(i as int + 1),
            ));
            lemma_render_snoc(toks_view(ts@.take(i as int)), ts@[i as int]@);
        }
        append_token(&mut out, &ts[i]);
    }
    proof {
        assert(ts@.take(n as int) =~= ts@);
    }
    out
}

} // verus!

verus! {

/// Every identifier token holds a valid identifier of the grammar.
pub open spec fn valid_tokens(ts: Seq<TokenV>) -> bool {
    forall|i: int|
        0 <= i < ts.len() ==> (#[trigger] ts[i] matches TokenV::Ident(w) ==> valid_ident(w))
}

/// Whatever the lexer accepts has only valid identifier tokens: a keyword
/// lexes to its keyword token, never to `Ident`.
pub proof fn lemma_sp_lex_valid(s: Seq<char>)
    ensures
        sp_lex(s) matches Some(ts) ==> valid_tokens(ts),
    decreases s.len(),
{
    if s.len() == 0 {
    } else if is_space(s[0]) {
        lemma_sp_lex_valid(s.drop_first());
    } else if is_ident_char(s[0]) {
        let n = ident_len(s);
        lemma_ident_len(s);
        lemma_sp_lex_valid(s.skip(n));
        if sp_lex(s) is Some {
            let ts = sp_lex(s).unwrap();
            let w = s.take(n);
            let t = word_token(w);
            let rest = sp_lex(s.skip(n)).unwrap();
            assert(n >= 1);
            assert(forall|i: int| 0 <= i < n ==> is_ident_char(#[trigger] w[i]));
            assert(ts == seq![t] + rest);
            assert forall|i: int|
                0 <= i < ts.len() implies (#[trigger] ts[i] matches TokenV::Ident(u)
                ==> valid_ident(u)) by {
                if i == 0 {
                    assert(ts[0] == t);
                } else {
                    assert(ts[i] == rest[i - 1]);
                }
            }
        }
    } else if s[0] == '-' {
        if s.len() >= 2 && s[1] == '>' {
            lemma_sp_lex_valid(s.skip(2));
            if sp_lex(s) is Some {
                let ts = sp_lex(s).unwrap();
                let rest = sp_lex(s.skip(2)).unwrap();
                assert(ts == seq![TokenV::Arrow] + rest);
                assert forall|i: int|
                    0 <= i < ts.len() implies (#[trigger] ts[i] matches TokenV::Ident(u)
                    ==> valid_ident(u)) by {
                    if i > 0 {
                        assert(ts[i] == rest[i - 1]);
                    }
                }
            }
        }
    } else {
        match punct_token(s[0]) {
            Some(t) => {
                lemma_sp_lex_valid(s.drop_first());
                if sp_lex(s) is Some {
                    let ts = sp_lex(s).unwrap();
                    let rest = sp_lex(s.drop_first()).unwrap();
                    assert(ts == seq![t] + rest);
                    assert forall|i: int|
                        0 <= i < ts.len() implies (#[trigger] ts[i] matches TokenV::Ident(u)
                        ==> valid_ident(u)) by {
                        if i > 0 {
                            assert(ts[i] == rest[i - 1]);
                        }
                    }
                }
            },
            None => {},
        }
    }
}

} // verus!
