//! Parsing: recursive descent over the token sequence. `sp_global` and
//! `sp_local` specify exactly which token sequences are accepted and which
//! tree, next position and registry contents result; the executable parsers
//! are proved to agree with them. Duplicate branch labels and unbound
//! recursion variables are rejected here.
use vstd::prelude::*;

use crate::ast::{
    GlobalBranches, GlobalBranchesView, GlobalType, GlobalView, LocalBranches, LocalBranchesView,
    LocalType, LocalView,
};
use crate::ast::{g_labels, l_labels, wf_gbranches, wf_global, wf_lbranches, wf_local};
use crate::lex::{lex, sp_lex, toks_view, valid_tokens, Token, TokenV};
use crate::roles::{intern_spec, RoleRegistry};

verus! {

/// A malformed input: the position of the offending token or character and
/// a description.
#[derive(Debug)]
pub struct ParseError {
    pub pos: usize,
    pub msg: String,
}

// ---------------------------------------------------------------------------
// The parsing specification for global types.
// ---------------------------------------------------------------------------

/// Parses one global type at `pos`: `Some((tree, next position, names))`
/// where `names` is the registry contents after interning the role names
/// seen, or `None` when the tokens do not form a global type.
pub open spec fn sp_global(
    ts: Seq<TokenV>,
    pos: int,
    names: Seq<Seq<char>>,
    scope: Seq<Seq<char>>,
) -> Option<(GlobalView, int, Seq<Seq<char>>)>
    decreases ts.len() - pos, 1int,
{
    if pos < 0 || pos >= ts.len() {
        None
    } else {
        match ts[pos] {
            TokenV::KwEnd => Some((GlobalView::End, pos + 1, names)),
            TokenV::KwRec => {
                if pos + 2 < ts.len() {
                    match (ts[pos + 1], ts[pos + 2]) {
                        (TokenV::Ident(v), TokenV::Dot) => {
                            match sp_global(ts, pos + 3, names, scope.push(v)) {
                                Some((b, p2, n2)) => Some(
                                    (GlobalView::RecDef { var: v, body: Box::new(b) }, p2, n2),
                                ),
                                None => None,
                            }
                        },
                        _ => None,
                    }
                } else {
                    None
                }
            },
            TokenV::Ident(x) => {
                if pos + 1 < ts.len() && ts[pos + 1] is Arrow {
                    if pos + 4 < ts.len() {
                        match (ts[pos + 2], ts[pos + 3]) {
                            (TokenV::Ident(y), TokenV::Colon) => {
                                let (names1, f) = intern_spec(names, x);
                                let (names2, t) = intern_spec(names1, y);
                                if f == t {
                                    None
                                } else {
                                    sp_global_tail(ts, pos, names2, scope, f, t)
                                }
                            },
                            _ => None,
                        }
                    } else {
                        None
                    }
                } else {
                    if scope.contains(x) {
                        Some((GlobalView::RecVar { var: x }, pos + 1, names))
                    } else {
                        None
                    }
                }
            },
            _ => None,
        }
    }
}

/// What follows `from -> to :` in a global type: either a braced choice or
/// one labelled message with its continuation.
pub open spec fn sp_global_tail(
    ts: Seq<TokenV>,
    pos: int,
    names: Seq<Seq<char>>,
    scope: Seq<Seq<char>>,
    f: nat,
    t: nat,
) -> Option<(GlobalView, int, Seq<Seq<char>>)>
    decreases ts.len() - pos, 0int,
{
    if 0 <= pos && pos + 4 < ts.len() {
        match ts[pos + 4] {
            TokenV::LBrace => match sp_gbranches(ts, pos + 5, names, scope) {
                Some((bs, p2, n3)) => if p2 < ts.len() && ts[p2] is RBrace {
                    Some(
                        (
                            GlobalView::Choice { from: f, to: t, branches: Box::new(bs) },
                            p2 + 1,
                            n3,
                        ),
                    )
                } else {
                    None
                },
                None => None,
            },
            TokenV::Ident(lbl) => {
                if pos + 8 < ts.len() {
                    match (ts[pos + 5], ts[pos + 6], ts[pos + 7], ts[pos + 8]) {
                        (TokenV::LParen, TokenV::Ident(pl), TokenV::RParen, TokenV::Dot) => {
                            match sp_global(ts, pos + 9, names, scope) {
                                Some((c, p2, n3)) => Some(
                                    (
                                        GlobalView::Interaction {
                                            from: f,
                                            to: t,
                                            label: lbl,
                                            payload: pl,
                                            cont: Box::new(c),
                                        },
                                        p2,
                                        n3,
                                    ),
                                ),
                                None => None,
                            }
                        },
                        _ => None,
                    }
                } else {
                    None
                }
            },
            _ => None,
        }
    } else {
        None
    }
}

/// Parses the branches of a global choice: one or more `label : G`,
/// separated by commas; a repeated label is a parse error.
pub open spec fn sp_gbranches(
    ts: Seq<TokenV>,
    pos: int,
    names: Seq<Seq<char>>,
    scope: Seq<Seq<char>>,
) -> Option<(GlobalBranchesView, int, Seq<Seq<char>>)>
    decreases ts.len() - pos, 2int,
{
    if pos < 0 || pos + 1 >= ts.len() {
        None
    } else {
        match (ts[pos], ts[pos + 1]) {
            (TokenV::Ident(lbl), TokenV::Colon) => {
                match sp_global(ts, pos + 2, names, scope) {
                    Some((g, p2, n2)) => {
                        if p2 <= pos + 2 {
                            None
                        } else if p2 < ts.len() && ts[p2] is Comma {
                            match sp_gbranches(ts, p2 + 1, n2, scope) {
                                Some((rest, p3, n3)) => if g_labels(rest).contains(lbl) {
                                    None
                                } else {
                                    Some(
                                        (
                                            GlobalBranchesView::More {
                                                label: lbl,
                                                body: g,
                                                rest: Box::new(rest),
                                            },
                                            p3,
                                            n3,
                                        ),
                                    )
                                },
                                None => None,
                            }
                        } else {
                            Some((GlobalBranchesView::Last { label: lbl, body: g }, p2, n2))
                        }
                    },
                    None => None,
                }
            },
            _ => None,
        }
    }
}

// ---------------------------------------------------------------------------
// The parsing specification for local types.
// ---------------------------------------------------------------------------

pub open spec fn sp_local(
    ts: Seq<TokenV>,
    pos: int,
    names: Seq<Seq<char>>,
    scope: Seq<Seq<char>>,
) -> Option<(LocalView, int, Seq<Seq<char>>)>
    decreases ts.len() - pos, 1int,
{
    if pos < 0 || pos >= ts.len() {
        None
    } else {
        match ts[pos] {
            TokenV::KwEnd => Some((LocalView::End, pos + 1, names)),
            TokenV::KwRec => {
                if pos + 2 < ts.len() {
                    match (ts[pos + 1], ts[pos + 2]) {
                        (TokenV::Ident(v), TokenV::Dot) => {
                            match sp_local(ts, pos + 3, names, scope.push(v)) {
                                Some((b, p2, n2)) => Some(
                                    (LocalView::RecDef { var: v, body: Box::new(b) }, p2, n2),
                                ),
                                None => None,
                            }
                        },
                        _ => None,
                    }
                } else {
                    None
                }
            },
            TokenV::Ident(x) => {
                if pos + 1 < ts.len() && (ts[pos + 1] is Bang || ts[pos + 1] is Query) {
                    sp_local_msg(ts, pos, names, scope, x)
                } else if pos + 1 < ts.len() && (ts[pos + 1] is Plus || ts[pos + 1] is Amp) {
                    sp_local_choice(ts, pos, names, scope, x)
                } else {
                    if scope.contains(x) {
                        Some((LocalView::RecVar { var: x }, pos + 1, names))
                    } else {
                        None
                    }
                }
            },
            _ => None,
        }
    }
}

/// `peer ! label ( payload ) . L` or `peer ? label ( payload ) . L`.
pub open spec fn sp_local_msg(
    ts: Seq<TokenV>,
    pos: int,
    names: Seq<Seq<char>>,
    scope: Seq<Seq<char>>,
    x: Seq<char>,
) -> Option<(LocalView, int, Seq<Seq<char>>)>
    decreases ts.len() - pos, 0int,
{
    if 0 <= pos && pos + 6 < ts.len() {
        match (ts[pos + 2], ts[pos + 3], ts[pos + 4], ts[pos + 5], ts[pos + 6]) {
            (TokenV::Ident(lbl), TokenV::LParen, TokenV::Ident(pl), TokenV::RParen, TokenV::Dot) => {
                let (names1, peer) = intern_spec(names, x);
                match sp_local(ts, pos + 7, names1, scope) {
                    Some((c, p2, n2)) => if ts[pos + 1] is Bang {
                        Some(
                            (
                                LocalView::Send {
                                    to: peer,
                                    label: lbl,
                                    payload: pl,
                                    cont: Box::new(c),
                                },
                                p2,
                                n2,
                            ),
                        )
                    } else {
                        Some(
                            (
                                LocalView::Receive {
                                    from: peer,
                                    label: lbl,
                                    payload: pl,
                                    cont: Box::new(c),
                                },
                                p2,
                                n2,
                            ),
                        )
                    },
                    None => None,
                }
            },
            _ => None,
        }
    } else {
        None
    }
}

/// `peer + { ... }` (internal choice) or `peer & { ... }` (external).
pub open spec fn sp_local_choice(
    ts: Seq<TokenV>,
    pos: int,
    names: Seq<Seq<char>>,
    scope: Seq<Seq<char>>,
    x: Seq<char>,
) -> Option<(LocalView, int, Seq<Seq<char>>)>
    decreases ts.len() - pos, 0int,
{
    if 0 <= pos && pos + 2 < ts.len() && ts[pos + 2] is LBrace {
        let (names1, peer) = intern_spec(names, x);
        match sp_lbranches(ts, pos + 3, names1, scope) {
            Some((bs, p2, n2)) => if p2 < ts.len() && ts[p2] is RBrace {
                if ts[pos + 1] is Plus {
                    Some(
                        (
                            LocalView::InternalChoice { to: peer, branches: Box::new(bs) },
                            p2 + 1,
                            n2,
                        ),
                    )
                } else {
                    Some(
                        (
                            LocalView::ExternalChoice { from: peer, branches: Box::new(bs) },
                            p2 + 1,
                            n2,
                        ),
                    )
                }
            } else {
                None
            },
            None => None,
        }
    } else {
        None
    }
}

pub open spec fn sp_lbranches(
    ts: Seq<TokenV>,
    pos: int,
    names: Seq<Seq<char>>,
    scope: Seq<Seq<char>>,
) -> Option<(LocalBranchesView, int, Seq<Seq<char>>)>
    decreases ts.len() - pos, 2int,
{
    if pos < 0 || pos + 1 >= ts.len() {
        None
    } else {
        match (ts[pos], ts[pos + 1]) {
            (TokenV::Ident(lbl), TokenV::Colon) => {
                match sp_local(ts, pos + 2, names, scope) {
                    Some((l, p2, n2)) => {
                        if p2 <= pos + 2 {
                            None
                        } else if p2 < ts.len() && ts[p2] is Comma {
                            match sp_lbranches(ts, p2 + 1, n2, scope) {
                                Some((rest, p3, n3)) => if l_labels(rest).contains(lbl) {
                                    None
                                } else {
                                    Some(
                                        (
                                            LocalBranchesView::More {
                                                label: lbl,
                                                body: l,
                                                rest: Box::new(rest),
                                            },
                                            p3,
                                            n3,
                                        ),
                                    )
                                },
                                None => None,
                            }
                        } else {
                            Some((LocalBranchesView::Last { label: lbl, body: l }, p2, n2))
                        }
                    },
                    None => None,
                }
            },
            _ => None,
        }
    }
}

// ---------------------------------------------------------------------------
// Whole-input parsing.
// ---------------------------------------------------------------------------

/// What parsing a whole global-type input yields: the lexed tokens must form
/// exactly one global type, with nothing after it.
pub open spec fn sp_parse_global(s: Seq<char>) -> Option<(GlobalView, Seq<Seq<char>>)> {
    match sp_lex(s) {
        Some(ts) => match sp_global(ts, 0, Seq::<Seq<char>>::empty(), Seq::<Seq<char>>::empty()) {
            Some((g, p, names)) => if p == ts.len() {
                Some((g, names))
            } else {
                None
            },
            None => None,
        },
        None => None,
    }
}

/// The local-type counterpart of `sp_parse_global`.
pub open spec fn sp_parse_local(s: Seq<char>) -> Option<(LocalView, Seq<Seq<char>>)> {
    match sp_lex(s) {
        Some(ts) => match sp_local(ts, 0, Seq::<Seq<char>>::empty(), Seq::<Seq<char>>::empty()) {
            Some((l, p, names)) => if p == ts.len() {
                Some((l, names))
            } else {
                None
            },
            None => None,
        },
        None => None,
    }
}

} // verus!

verus! {

// ---------------------------------------------------------------------------
// Executable helpers.
// ---------------------------------------------------------------------------

fn perr(pos: usize, m: &str) -> (r: ParseError)
    ensures
        r.pos == pos,
{
    ParseError { pos, msg: m.to_owned() }
}

fn scope_contains(scope: &Vec<String>, name: &String) -> (r: bool)
    ensures
        r == scope.deep_view().contains(name@),
{
    let n = scope.len();
    for i in 0..n
        invariant
            n == scope.len(),
            forall|j: int| 0 <= j < i ==> scope.deep_view()[j] != name@,
    {
        proof {
            assert(scope.deep_view()[i as int] == scope@[i as int]@);
        }
        if scope[i] == *name {
            return true;
        }
    }
    proof {
        assert forall|j: int| 0 <= j < scope.deep_view().len() implies scope.deep_view()[j]
            != name@ by {}
    }
    false
}

fn gb_has_label(b: &GlobalBranches, l: &String) -> (r: bool)
    ensures
        r == g_labels(b@).contains(l@),
    decreases b,
{
    match b {
        GlobalBranches::Last { label, .. } => {
            let hit = *label == *l;
            proof {
                assert(g_labels(b@)[0] == label@);
                if hit {
                    assert(g_labels(b@).contains(l@));
                } else {
                    assert(forall|i: int|
                        0 <= i < g_labels(b@).len() ==> g_labels(b@)[i] == label@);
                }
            }
            hit
        },
        GlobalBranches::More { label, rest, .. } => {
            let hit = *label == *l;
            proof {
                assert(g_labels(b@)[0] == label@);
                if hit {
                    assert(g_labels(b@).contains(l@));
                }
            }
            if hit {
                return true;
            }
            let deeper = gb_has_label(rest, l);
            proof {
                let tail = g_labels(rest@);
                assert(g_labels(b@) =~= seq![label@] + tail);
                if deeper {
                    let i = choose|i: int| 0 <= i < tail.len() && tail[i] == l@;
                    assert(g_labels(b@)[i + 1] == l@);
                } else {
                    assert forall|i: int|
                        0 <= i < g_labels(b@).len() implies g_labels(b@)[i] != l@ by {
                        if i > 0 {
                            assert(g_labels(b@)[i] == tail[i - 1]);
                            assert(!tail.contains(l@));
                        }
                    }
                }
            }
            deeper
        },
    }
}

fn lb_has_label(b: &LocalBranches, l: &String) -> (r: bool)
    ensures
        r == l_labels(b@).contains(l@),
    decreases b,
{
    match b {
        LocalBranches::Last { label, .. } => {
            let hit = *label == *l;
            proof {
                assert(l_labels(b@)[0] == label@);
                if hit {
                    assert(l_labels(b@).contains(l@));
                } else {
                    assert(forall|i: int|
                        0 <= i < l_labels(b@).len() ==> l_labels(b@)[i] == label@);
                }
            }
            hit
        },
        LocalBranches::More { label, rest, .. } => {
            let hit = *label == *l;
            proof {
                assert(l_labels(b@)[0] == label@);
                if hit {
                    assert(l_labels(b@).contains(l@));
                }
            }
            if hit {
                return true;
            }
            let deeper = lb_has_label(rest, l);
            proof {
                let tail = l_labels(rest@);
                assert(l_labels(b@) =~= seq![label@] + tail);
                if deeper {
                    let i = choose|i: int| 0 <= i < tail.len() && tail[i] == l@;
                    assert(l_labels(b@)[i + 1] == l@);
                } else {
                    assert forall|i: int|
                        0 <= i < l_labels(b@).len() implies l_labels(b@)[i] != l@ by {
                        if i > 0 {
                            assert(l_labels(b@)[i] == tail[i - 1]);
                            assert(!tail.contains(l@));
                        }
                    }
                }
            }
            deeper
        },
    }
}

} // verus!

verus! {

// ---------------------------------------------------------------------------
// The executable parser for global types.
// ---------------------------------------------------------------------------

/// Parses one global type at `pos`, interning role names into `reg`;
/// `scope` holds the recursion variables in scope and is left as found.
#[verifier::rlimit(60)]
fn parse_g(
    toks: &Vec<Token>,
    pos: usize,
    reg: &mut RoleRegistry,
    scope: &mut Vec<String>,
) -> (r: Result<(GlobalType, usize), ParseError>)
    requires
        pos <= toks@.len(),
        old(reg).wf(),
    ensures
        final(reg).wf(),
        final(scope)@ == old(scope)@,
        match r {
            Ok((g, p)) => sp_global(
                toks_view(toks@),
                pos as int,
                old(reg)@,
                old(scope).deep_view(),
            ) == Some((g@, p as int, final(reg)@)) && pos < p <= toks@.len(),
            Err(_) => sp_global(
                toks_view(toks@),
                pos as int,
                old(reg)@,
                old(scope).deep_view(),
            ) is None,
        },
    decreases toks@.len() - pos,
{
    let ghost ts = toks_view(toks@);
    let ghost sc = old(scope).deep_view();
    let ghost nm0 = old(reg)@;
    let len = toks.len();
    if pos >= len {
        return Err(perr(pos, "expected a global type, found the end of the input"));
    }
    proof {
        assert(ts[pos as int] == toks@[pos as int]@);
    }
    match &toks[pos] {
        Token::KwEnd => Ok((GlobalType::End, pos + 1)),
        Token::KwRec => {
            if len - pos > 2 {
                proof {
                    assert(ts[pos as int + 1] == toks@[pos as int + 1]@);
                    assert(ts[pos as int + 2] == toks@[pos as int + 2]@);
                }
                let var: String = match &toks[pos + 1] {
                    Token::Ident(v) => v.clone(),
                    _ => {
                        return Err(perr(pos + 1, "expected a recursion variable after rec"));
                    },
                };
                if !matches!(&toks[pos + 2], Token::Dot) {
                    return Err(perr(pos + 2, "expected a dot after the recursion variable"));
                }
                scope.push(var.clone());
                proof {
                    assert(scope.deep_view() =~= sc.push(var@));
                }
                let body = parse_g(toks, pos + 3, reg, scope);
                let _ = scope.pop();
                proof {
                    assert(scope.deep_view() =~= sc);
                }
                match body {
                    Ok((b, p2)) => Ok((GlobalType::RecDef { var, body: Box::new(b) }, p2)),
                    Err(e) => Err(e),
                }
            } else {
                Err(perr(pos, "unfinished recursion at the end of the input"))
            }
        },
        Token::Ident(x) => {
            if len - pos > 1 && matches!(&toks[pos + 1], Token::Arrow) {
                proof {
                    assert(ts[pos as int + 1] == toks@[pos as int + 1]@);
                }
                if len - pos > 4 {
                    proof {
                        assert(ts[pos as int + 2] == toks@[pos as int + 2]@);
                        assert(ts[pos as int + 3] == toks@[pos as int + 3]@);
                        assert(ts[pos as int + 4] == toks@[pos as int + 4]@);
                    }
                    let y: &String = match &toks[pos + 2] {
                        Token::Ident(y) => y,
                        _ => {
                            return Err(perr(pos + 2, "expected a role name after the arrow"));
                        },
                    };
                    if !matches!(&toks[pos + 3], Token::Colon) {
                        return Err(perr(pos + 3, "expected a colon after the receiving role"));
                    }
                    let rf = reg.intern(x.as_str());
                    let rt = reg.intern(y.as_str());
                    if rf.id == rt.id {
                        return Err(perr(pos, "a role cannot interact with itself"));
                    }
                    match &toks[pos + 4] {
                        Token::LBrace => {
                            match parse_gb(toks, pos + 5, reg, scope) {
                                Ok((bs, p2)) => {
                                    if p2 < len && matches!(&toks[p2], Token::RBrace) {
                                        proof {
                                            assert(ts[p2 as int] == toks@[p2 as int]@);
                                        }
                                        Ok(
                                            (
                                                GlobalType::Choice {
                                                    from: rf,
                                                    to: rt,
                                                    branches: Box::new(bs),
                                                },
                                                p2 + 1,
                                            ),
                                        )
                                    } else {
                                        proof {
                                            if p2 < len {
                                                assert(ts[p2 as int] == toks@[p2 as int]@);
                                            }
                                        }
                                        Err(perr(p2, "expected a closing brace after the branches"))
                                    }
                                },
                                Err(e) => Err(e),
                            }
                        },
                        Token::Ident(lbl) => {
                            if len - pos > 8 {
                                proof {
                                    assert(ts[pos as int + 5] == toks@[pos as int + 5]@);
                                    assert(ts[pos as int + 6] == toks@[pos as int + 6]@);
                                    assert(ts[pos as int + 7] == toks@[pos as int + 7]@);
                                    assert(ts[pos as int + 8] == toks@[pos as int + 8]@);
                                }
                                if !matches!(&toks[pos + 5], Token::LParen) {
                                    proof {
                                        assert(!(ts[pos as int + 5] is LParen));
                                        assert(sp_global_tail(
                                            ts,
                                            pos as int,
                                            reg@,
                                            sc,
                                            rf.id as nat,
                                            rt.id as nat,
                                        ) is None);
                                    }
                                    return Err(perr(pos + 5, "expected a parenthesized payload"));
                                }
                                let pl: &String = match &toks[pos + 6] {
                                    Token::Ident(p) => p,
                                    _ => {
                                        proof {
                                            assert(!(ts[pos as int + 6] is Ident));
                                            assert(sp_global_tail(
                                                ts,
                                                pos as int,
                                                reg@,
                                                sc,
                                                rf.id as nat,
                                                rt.id as nat,
                                            ) is None);
                                        }
                                        return Err(perr(pos + 6, "expected a payload type name"));
                                    },
                                };
                                if !matches!(&toks[pos + 7], Token::RParen) {
                                    return Err(perr(pos + 7, "expected a closing parenthesis"));
                                }
                                if !matches!(&toks[pos + 8], Token::Dot) {
                                    return Err(perr(pos + 8, "expected a dot after the message"));
                                }
                                let label = lbl.clone();
                                let payload = pl.clone();
                                match parse_g(toks, pos + 9, reg, scope) {
                                    Ok((c, p2)) => Ok(
                                        (
                                            GlobalType::Interaction {
                                                from: rf,
                                                to: rt,
                                                label,
                                                payload,
                                                cont: Box::new(c),
                                            },
                                            p2,
                                        ),
                                    ),
                                    Err(e) => Err(e),
                                }
                            } else {
                                Err(perr(pos + 4, "unfinished message at the end of the input"))
                            }
                        },
                        _ => Err(perr(pos + 4, "expected a message label or a brace")),
                    }
                } else {
                    Err(perr(pos, "unfinished interaction at the end of the input"))
                }
            } else {
                if scope_contains(scope, x) {
                    Ok((GlobalType::RecVar { var: x.clone() }, pos + 1))
                } else {
                    Err(perr(pos, "unbound recursion variable"))
                }
            }
        },
        _ => Err(perr(pos, "expected a global type")),
    }
}

/// Parses the branches of a global choice, rejecting a repeated label.
fn parse_gb(
    toks: &Vec<Token>,
    pos: usize,
    reg: &mut RoleRegistry,
    scope: &mut Vec<String>,
) -> (r: Result<(GlobalBranches, usize), ParseError>)
    requires
        pos <= toks@.len(),
        old(reg).wf(),
    ensures
        final(reg).wf(),
        final(scope)@ == old(scope)@,
        match r {
            Ok((b, p)) => sp_gbranches(
                toks_view(toks@),
                pos as int,
                old(reg)@,
                old(scope).deep_view(),
            ) == Some((b@, p as int, final(reg)@)) && pos < p <= toks@.len(),
            Err(_) => sp_gbranches(
                toks_view(toks@),
                pos as int,
                old(reg)@,
                old(scope).deep_view(),
            ) is None,
        },
    decreases toks@.len() - pos,
{
    let ghost ts = toks_view(toks@);
    let len = toks.len();
    if len - pos < 2 {
        return Err(perr(pos, "expected a labelled branch"));
    }
    proof {
        assert(ts[pos as int] == toks@[pos as int]@);
        assert(ts[pos as int + 1] == toks@[pos as int + 1]@);
    }
    let lbl: &String = match &toks[pos] {
        Token::Ident(l) => l,
        _ => {
            return Err(perr(pos, "expected a branch label"));
        },
    };
    if !matches!(&toks[pos + 1], Token::Colon) {
        return Err(perr(pos + 1, "expected a colon after the branch label"));
    }
    let label = lbl.clone();
    match parse_g(toks, pos + 2, reg, scope) {
        Ok((g, p2)) => {
            if p2 < len && matches!(&toks[p2], Token::Comma) {
                proof {
                    assert(ts[p2 as int] == toks@[p2 as int]@);
                }
                match parse_gb(toks, p2 + 1, reg, scope) {
                    Ok((rest, p3)) => {
                        if gb_has_label(&rest, &label) {
                            Err(perr(pos, "two branches of one choice carry the same label"))
                        } else {
                            Ok(
                                (
                                    GlobalBranches::More { label, body: g, rest: Box::new(rest) },
                                    p3,
                                ),
                            )
                        }
                    },
                    Err(e) => Err(e),
                }
            } else {
                proof {
                    if p2 < len {
                        assert(ts[p2 as int] == toks@[p2 as int]@);
                    }
                }
                Ok((GlobalBranches::Last { label, body: g }, p2))
            }
        },
        Err(e) => Err(e),
    }
}

/// Parses a whole input as a global type, returning the tree and the
/// registry of the role names it mentions.
pub fn parse_global(text: &str) -> (r: Result<(GlobalType, RoleRegistry), ParseError>)
    ensures
        match r {
            Ok((g, reg)) => sp_parse_global(text@) == Some((g@, reg@)) && reg.wf(),
            Err(_) => sp_parse_global(text@) is None,
        },
{
    match lex(text) {
        Ok(toks) => {
            let mut reg = RoleRegistry::new();
            let mut scope: Vec<String> = Vec::new();
            proof {
                assert(scope.deep_view() =~= Seq::<Seq<char>>::empty());
            }
            match parse_g(&toks, 0, &mut reg, &mut scope) {
                Ok((g, p)) => {
                    if p == toks.len() {
                        Ok((g, reg))
                    } else {
                        Err(perr(p, "there is input left after the global type"))
                    }
                },
                Err(e) => Err(e),
            }
        },
        Err(p) => Err(perr(p, "no token starts with this character")),
    }
}

} // verus!

verus! {

// ---------------------------------------------------------------------------
// The executable parser for local types.
// ---------------------------------------------------------------------------

/// Parses one local type at `pos`, interning role names into `reg`.
#[verifier::rlimit(100)]
#[verifier::spinoff_prover]
fn parse_l(
    toks: &Vec<Token>,
    pos: usize,
    reg: &mut RoleRegistry,
    scope: &mut Vec<String>,
) -> (r: Result<(LocalType, usize), ParseError>)
    requires
        pos <= toks@.len(),
        old(reg).wf(),
    ensures
        final(reg).wf(),
        final(scope)@ == old(scope)@,
        match r {
            Ok((l, p)) => sp_local(
                toks_view(toks@),
                pos as int,
                old(reg)@,
                old(scope).deep_view(),
            ) == Some((l@, p as int, final(reg)@)) && pos < p <= toks@.len(),
            Err(_) => sp_local(
                toks_view(toks@),
                pos as int,
                old(reg)@,
                old(scope).deep_view(),
            ) is None,
        },
    decreases toks@.len() - pos,
{
    let ghost ts = toks_view(toks@);
    let ghost sc = old(scope).deep_view();
    let ghost nm0 = old(reg)@;
    let len = toks.len();
    if pos >= len {
        return Err(perr(pos, "expected a local type, found the end of the input"));
    }
    proof {
        assert(ts[pos as int] == toks@[pos as int]@);
    }
    match &toks[pos] {
        Token::KwEnd => Ok((LocalType::End, pos + 1)),
        Token::KwRec => {
            if len - pos > 2 {
                proof {
                    assert(ts[pos as int + 1] == toks@[pos as int + 1]@);
                    assert(ts[pos as int + 2] == toks@[pos as int + 2]@);
                }
                let var: String = match &toks[pos + 1] {
                    Token::Ident(v) => v.clone(),
                    _ => {
                        return Err(perr(pos + 1, "expected a recursion variable after rec"));
                    },
                };
                if !matches!(&toks[pos + 2], Token::Dot) {
                    return Err(perr(pos + 2, "expected a dot after the recursion variable"));
                }
                scope.push(var.clone());
                proof {
                    assert(scope.deep_view() =~= sc.push(var@));
                }
                let body = parse_l(toks, pos + 3, reg, scope);
                let _ = scope.pop();
                proof {
                    assert(scope.deep_view() =~= sc);
                }
                match body {
                    Ok((b, p2)) => Ok((LocalType::RecDef { var, body: Box::new(b) }, p2)),
                    Err(e) => Err(e),
                }
            } else {
                Err(perr(pos, "unfinished recursion at the end of the input"))
            }
        },
        Token::Ident(x) => {
            let has_next = len - pos > 1;
            proof {
                if has_next {
                    assert(ts[pos as int + 1] == toks@[pos as int + 1]@);
                }
            }
            if has_next && (matches!(&toks[pos + 1], Token::Bang) || matches!(
                &toks[pos + 1],
                Token::Query,
            )) {
                if len - pos > 6 {
                    proof {
                        assert(ts[pos as int + 2] == toks@[pos as int + 2]@);
                        assert(ts[pos as int + 3] == toks@[pos as int + 3]@);
                        assert(ts[pos as int + 4] == toks@[pos as int + 4]@);
                        assert(ts[pos as int + 5] == toks@[pos as int + 5]@);
                        assert(ts[pos as int + 6] == toks@[pos as int + 6]@);
                    }
                    let lbl: &String = match &toks[pos + 2] {
                        Token::Ident(l) => l,
                        _ => {
                            proof {
                                assert(!(ts[pos as int + 2] is Ident));
                                assert(sp_local_msg(ts, pos as int, nm0, sc, x@) is None);
                            }
                            return Err(perr(pos + 2, "expected a message label"));
                        },
                    };
                    if !matches!(&toks[pos + 3], Token::LParen) {
                        return Err(perr(pos + 3, "expected a parenthesized payload"));
                    }
                    let pl: &String = match &toks[pos + 4] {
                        Token::Ident(p) => p,
                        _ => {
                            proof {
                                assert(!(ts[pos as int + 4] is Ident));
                            }
                            return Err(perr(pos + 4, "expected a payload type name"));
                        },
                    };
                    if !matches!(&toks[pos + 5], Token::RParen) {
                        return Err(perr(pos + 5, "expected a closing parenthesis"));
                    }
                    if !matches!(&toks[pos + 6], Token::Dot) {
                        return Err(perr(pos + 6, "expected a dot after the message"));
                    }
                    let label = lbl.clone();
                    let payload = pl.clone();
                    let peer = reg.intern(x.as_str());
                    let sending = matches!(&toks[pos + 1], Token::Bang);
                    match parse_l(toks, pos + 7, reg, scope) {
                        Ok((c, p2)) => {
                            proof {
                                assert(sp_local(ts, pos as int, nm0, sc) == sp_local_msg(
                                    ts,
                                    pos as int,
                                    nm0,
                                    sc,
                                    x@,
                                ));
                                if sending {
                                    assert(sp_local_msg(ts, pos as int, nm0, sc, x@) == Some((
                                        LocalView::Send {
                                            to: peer.id as nat,
                                            label: label@,
                                            payload: payload@,
                                            cont: Box::new(c@),
                                        },
                                        p2 as int,
                                        reg@,
                                    )));
                                } else {
                                    assert(sp_local_msg(ts, pos as int, nm0, sc, x@) == Some((
                                        LocalView::Receive {
                                            from: peer.id as nat,
                                            label: label@,
                                            payload: payload@,
                                            cont: Box::new(c@),
                                        },
                                        p2 as int,
                                        reg@,
                                    )));
                                }
                            }
                            if sending {
                                Ok(
                                    (
                                        LocalType::Send {
                                            to: peer,
                                            label,
                                            payload,
                                            cont: Box::new(c),
                                        },
                                        p2,
                                    ),
                                )
                            } else {
                                Ok(
                                    (
                                        LocalType::Receive {
                                            from: peer,
                                            label,
                                            payload,
                                            cont: Box::new(c),
                                        },
                                        p2,
                                    ),
                                )
                            }
                        },
                        Err(e) => Err(e),
                    }
                } else {
                    Err(perr(pos, "unfinished message at the end of the input"))
                }
            } else if has_next && (matches!(&toks[pos + 1], Token::Plus) || matches!(
                &toks[pos + 1],
                Token::Amp,
            )) {
                if len - pos > 2 && matches!(&toks[pos + 2], Token::LBrace) {
                    proof {
                        assert(ts[pos as int + 2] == toks@[pos as int + 2]@);
                    }
                    let peer = reg.intern(x.as_str());
                    let internal = matches!(&toks[pos + 1], Token::Plus);
                    match parse_lb(toks, pos + 3, reg, scope) {
                        Ok((bs, p2)) => {
                            if p2 < len && matches!(&toks[p2], Token::RBrace) {
                                proof {
                                    assert(ts[p2 as int] == toks@[p2 as int]@);
                                    assert(sp_local(ts, pos as int, nm0, sc) == sp_local_choice(
                                        ts,
                                        pos as int,
                                        nm0,
                                        sc,
                                        x@,
                                    ));
                                    if internal {
                                        assert(sp_local_choice(ts, pos as int, nm0, sc, x@)
                                            == Some((
                                            LocalView::InternalChoice {
                                                to: peer.id as nat,
                                                branches: Box::new(bs@),
                                            },
                                            p2 as int + 1,
                                            reg@,
                                        )));
                                    } else {
                                        assert(sp_local_choice(ts, pos as int, nm0, sc, x@)
                                            == Some((
                                            LocalView::ExternalChoice {
                                                from: peer.id as nat,
                                                branches: Box::new(bs@),
                                            },
                                            p2 as int + 1,
                                            reg@,
                                        )));
                                    }
                                }
                                if internal {
                                    Ok(
                                        (
                                            LocalType::InternalChoice {
                                                to: peer,
                                                branches: Box::new(bs),
                                            },
                                            p2 + 1,
                                        ),
                                    )
                                } else {
                                    Ok(
                                        (
                                            LocalType::ExternalChoice {
                                                from: peer,
                                                branches: Box::new(bs),
                                            },
                                            p2 + 1,
                                        ),
                                    )
                                }
                            } else {
                                proof {
                                    if p2 < len {
                                        assert(ts[p2 as int] == toks@[p2 as int]@);
                                    }
                                }
                                Err(perr(p2, "expected a closing brace after the branches"))
                            }
                        },
                        Err(e) => Err(e),
                    }
                } else {
                    proof {
                        if len - pos > 2 {
                            assert(ts[pos as int + 2] == toks@[pos as int + 2]@);
                        }
                    }
                    Err(perr(pos + 2, "expected an opening brace after the choice"))
                }
            } else {
                if scope_contains(scope, x) {
                    Ok((LocalType::RecVar { var: x.clone() }, pos + 1))
                } else {
                    Err(perr(pos, "unbound recursion variable"))
                }
            }
        },
        _ => Err(perr(pos, "expected a local type")),
    }
}

/// Parses the branches of a local choice, rejecting a repeated label.
fn parse_lb(
    toks: &Vec<Token>,
    pos: usize,
    reg: &mut RoleRegistry,
    scope: &mut Vec<String>,
) -> (r: Result<(LocalBranches, usize), ParseError>)
    requires
        pos <= toks@.len(),
        old(reg).wf(),
    ensures
        final(reg).wf(),
        final(scope)@ == old(scope)@,
        match r {
            Ok((b, p)) => sp_lbranches(
                toks_view(toks@),
                pos as int,
                old(reg)@,
                old(scope).deep_view(),
            ) == Some((b@, p as int, final(reg)@)) && pos < p <= toks@.len(),
            Err(_) => sp_lbranches(
                toks_view(toks@),
                pos as int,
                old(reg)@,
                old(scope).deep_view(),
            ) is None,
        },
    decreases toks@.len() - pos,
{
    let ghost ts = toks_view(toks@);
    let len = toks.len();
    if len - pos < 2 {
        return Err(perr(pos, "expected a labelled branch"));
    }
    proof {
        assert(ts[pos as int] == toks@[pos as int]@);
        assert(ts[pos as int + 1] == toks@[pos as int + 1]@);
    }
    let lbl: &String = match &toks[pos] {
        Token::Ident(l) => l,
        _ => {
            return Err(perr(pos, "expected a branch label"));
        },
    };
    if !matches!(&toks[pos + 1], Token::Colon) {
        return Err(perr(pos + 1, "expected a colon after the branch label"));
    }
    let label = lbl.clone();
    match parse_l(toks, pos + 2, reg, scope) {
        Ok((l, p2)) => {
            if p2 < len && matches!(&toks[p2], Token::Comma) {
                proof {
                    assert(ts[p2 as int] == toks@[p2 as int]@);
                }
                match parse_lb(toks, p2 + 1, reg, scope) {
                    Ok((rest, p3)) => {
                        if lb_has_label(&rest, &label) {
                            Err(perr(pos, "two branches of one choice carry the same label"))
                        } else {
                            Ok(
                                (
                                    LocalBranches::More { label, body: l, rest: Box::new(rest) },
                                    p3,
                                ),
                            )
                        }
                    },
                    Err(e) => Err(e),
                }
            } else {
                proof {
                    if p2 < len {
                        assert(ts[p2 as int] == toks@[p2 as int]@);
                    }
                }
                Ok((LocalBranches::Last { label, body: l }, p2))
            }
        },
        Err(e) => Err(e),
    }
}

/// Parses a whole input as a local type, returning the tree and the
/// registry of the role names it mentions.
pub fn parse_local(text: &str) -> (r: Result<(LocalType, RoleRegistry), ParseError>)
    ensures
        match r {
            Ok((l, reg)) => sp_parse_local(text@) == Some((l@, reg@)) && reg.wf(),
            Err(_) => sp_parse_local(text@) is None,
        },
{
    match lex(text) {
        Ok(toks) => {
            let mut reg = RoleRegistry::new();
            let mut scope: Vec<String> = Vec::new();
            proof {
                assert(scope.deep_view() =~= Seq::<Seq<char>>::empty());
            }
            match parse_l(&toks, 0, &mut reg, &mut scope) {
                Ok((l, p)) => {
                    if p == toks.len() {
                        Ok((l, reg))
                    } else {
                        Err(perr(p, "there is input left after the local type"))
                    }
                },
                Err(e) => Err(e),
            }
        },
        Err(p) => Err(perr(p, "no token starts with this character")),
    }
}

} // verus!

verus! {

// ---------------------------------------------------------------------------
// Everything the parser accepts is well-formed: roles are registered, the
// two ends of an interaction differ, labels within one choice are distinct,
// and every recursion variable is bound.
// ---------------------------------------------------------------------------

/// `b` keeps every entry of `a`, in place.
pub open spec fn names_ext(a: Seq<Seq<char>>, b: Seq<Seq<char>>) -> bool {
    a.len() <= b.len() && forall|i: int| 0 <= i < a.len() ==> a[i] == b[i]
}

pub proof fn lemma_intern_props(names: Seq<Seq<char>>, n: Seq<char>)
    ensures
        names_ext(names, intern_spec(names, n).0),
        intern_spec(names, n).1 < intern_spec(names, n).0.len(),
        intern_spec(names, n).0[intern_spec(names, n).1 as int] == n,
{
    crate::roles::lemma_name_index(names, n);
}

/// Well-formedness only asks that role identifiers lie below the registry's
/// size, so it survives growing the registry.
proof fn lemma_wf_global_mono(g: GlobalView, n: nat, n2: nat, scope: Seq<Seq<char>>)
    requires
        wf_global(g, n, scope),
        n <= n2,
    ensures
        wf_global(g, n2, scope),
    decreases g,
{
    match g {
        GlobalView::Interaction { cont, .. } => {
            lemma_wf_global_mono(*cont, n, n2, scope);
        },
        GlobalView::Choice { branches, .. } => {
            lemma_wf_gbranches_mono(*branches, n, n2, scope);
        },
        GlobalView::RecDef { var, body } => {
            lemma_wf_global_mono(*body, n, n2, scope.push(var));
        },
        _ => {},
    }
}

proof fn lemma_wf_gbranches_mono(b: GlobalBranchesView, n: nat, n2: nat, scope: Seq<Seq<char>>)
    requires
        wf_gbranches(b, n, scope),
        n <= n2,
    ensures
        wf_gbranches(b, n2, scope),
    decreases b,
{
    match b {
        GlobalBranchesView::Last { body, .. } => {
            lemma_wf_global_mono(body, n, n2, scope);
        },
        GlobalBranchesView::More { body, rest, .. } => {
            lemma_wf_global_mono(body, n, n2, scope);
            lemma_wf_gbranches_mono(*rest, n, n2, scope);
        },
    }
}

/// Whatever `sp_global` accepts is a well-formed global type with respect
/// to the registry it returns; the registry only grows.
pub proof fn lemma_sp_global_wf(
    ts: Seq<TokenV>,
    pos: int,
    names: Seq<Seq<char>>,
    scope: Seq<Seq<char>>,
)
    requires
        valid_tokens(ts),
    ensures
        sp_global(ts, pos, names, scope) matches Some((g, p, names1)) ==> {
            &&& wf_global(g, names1.len(), scope)
            &&& names_ext(names, names1)
            &&& pos < p <= ts.len()
        },
    decreases ts.len() - pos, 1int,
{
    if pos < 0 || pos >= ts.len() {
        return ;
    }
    match ts[pos] {
        TokenV::KwRec => {
            if pos + 2 < ts.len() {
                if ts[pos + 1] matches TokenV::Ident(v) && ts[pos + 2] is Dot {
                    lemma_sp_global_wf(ts, pos + 3, names, scope.push(ts[pos + 1]->Ident_0));
                }
            }
        },
        TokenV::Ident(x) => {
            if pos + 1 < ts.len() && ts[pos + 1] is Arrow {
                if pos + 4 < ts.len() {
                    if ts[pos + 2] is Ident && ts[pos + 3] is Colon {
                        let y = ts[pos + 2]->Ident_0;
                        let (names1, f) = intern_spec(names, x);
                        let (names2, t) = intern_spec(names1, y);
                        lemma_intern_props(names, x);
                        lemma_intern_props(names1, y);
                        if f != t {
                            lemma_sp_global_tail_wf(ts, pos, names2, scope, f, t);
                        }
                    }
                }
            }
        },
        _ => {},
    }
}

proof fn lemma_sp_global_tail_wf(
    ts: Seq<TokenV>,
    pos: int,
    names: Seq<Seq<char>>,
    scope: Seq<Seq<char>>,
    f: nat,
    t: nat,
)
    requires
        valid_tokens(ts),
        f < names.len(),
        t < names.len(),
        f != t,
    ensures
        sp_global_tail(ts, pos, names, scope, f, t) matches Some((g, p, names1)) ==> {
            &&& wf_global(g, names1.len(), scope)
            &&& names_ext(names, names1)
            &&& pos < p <= ts.len()
        },
    decreases ts.len() - pos, 0int,
{
    if 0 <= pos && pos + 4 < ts.len() {
        match ts[pos + 4] {
            TokenV::LBrace => {
                lemma_sp_gbranches_wf(ts, pos + 5, names, scope);
            },
            TokenV::Ident(lbl) => {
                if pos + 8 < ts.len() {
                    lemma_sp_global_wf(ts, pos + 9, names, scope);
                }
            },
            _ => {},
        }
    }
}

proof fn lemma_sp_gbranches_wf(
    ts: Seq<TokenV>,
    pos: int,
    names: Seq<Seq<char>>,
    scope: Seq<Seq<char>>,
)
    requires
        valid_tokens(ts),
    ensures
        sp_gbranches(ts, pos, names, scope) matches Some((b, p, names1)) ==> {
            &&& wf_gbranches(b, names1.len(), scope)
            &&& crate::ast::distinct_seqs(g_labels(b))
            &&& names_ext(names, names1)
            &&& pos < p <= ts.len()
        },
    decreases ts.len() - pos, 2int,
{
    if pos < 0 || pos + 1 >= ts.len() {
        return ;
    }
    if ts[pos] is Ident && ts[pos + 1] is Colon {
        let lbl = ts[pos]->Ident_0;
        lemma_sp_global_wf(ts, pos + 2, names, scope);
        match sp_global(ts, pos + 2, names, scope) {
            Some((g, p2, n2)) => {
                if p2 <= pos + 2 {
                } else if p2 < ts.len() && ts[p2] is Comma {
                    lemma_sp_gbranches_wf(ts, p2 + 1, n2, scope);
                    match sp_gbranches(ts, p2 + 1, n2, scope) {
                        Some((rest, p3, n3)) => {
                            if !g_labels(rest).contains(lbl) {
                                lemma_wf_global_mono(g, n2.len(), n3.len(), scope);
                                let all = GlobalBranchesView::More {
                                    label: lbl,
                                    body: g,
                                    rest: Box::new(rest),
                                };
                                assert(g_labels(all) == seq![lbl] + g_labels(rest));
                                assert forall|i: int, j: int|
                                    0 <= i < j < g_labels(all).len() implies g_labels(all)[i]
                                    != g_labels(all)[j] by {
                                    if i == 0 {
                                        assert(g_labels(all)[j] == g_labels(rest)[j - 1]);
                                        assert(g_labels(rest).contains(g_labels(rest)[j - 1]));
                                    } else {
                                        assert(g_labels(all)[i] == g_labels(rest)[i - 1]);
                                        assert(g_labels(all)[j] == g_labels(rest)[j - 1]);
                                    }
                                }
                            }
                        },
                        None => {},
                    }
                }
            },
            None => {},
        }
    }
}

/// Whatever `parse_global` accepts is well-formed: every recursion variable
/// is bound, no interaction's ends coincide, and the labels within each
/// choice are distinct, so no duplicate-label choice ever parses.
pub proof fn lemma_parse_global_wf(s: Seq<char>)
    ensures
        sp_parse_global(s) matches Some((g, names)) ==> wf_global(
            g,
            names.len(),
            Seq::<Seq<char>>::empty(),
        ),
{
    crate::lex::lemma_sp_lex_valid(s);
    match sp_lex(s) {
        Some(ts) => {
            lemma_sp_global_wf(ts, 0, Seq::<Seq<char>>::empty(), Seq::<Seq<char>>::empty());
        },
        None => {},
    }
}

} // verus!

verus! {

proof fn lemma_wf_local_mono(l: LocalView, n: nat, n2: nat, scope: Seq<Seq<char>>)
    requires
        wf_local(l, n, scope),
        n <= n2,
    ensures
        wf_local(l, n2, scope),
    decreases l,
{
    match l {
        LocalView::Send { cont, .. } => {
            lemma_wf_local_mono(*cont, n, n2, scope);
        },
        LocalView::Receive { cont, .. } => {
            lemma_wf_local_mono(*cont, n, n2, scope);
        },
        LocalView::InternalChoice { branches, .. } => {
            lemma_wf_lbranches_mono(*branches, n, n2, scope);
        },
        LocalView::ExternalChoice { branches, .. } => {
            lemma_wf_lbranches_mono(*branches, n, n2, scope);
        },
        LocalView::RecDef { var, body } => {
            lemma_wf_local_mono(*body, n, n2, scope.push(var));
        },
        _ => {},
    }
}

proof fn lemma_wf_lbranches_mono(b: LocalBranchesView, n: nat, n2: nat, scope: Seq<Seq<char>>)
    requires
        wf_lbranches(b, n, scope),
        n <= n2,
    ensures
        wf_lbranches(b, n2, scope),
    decreases b,
{
    match b {
        LocalBranchesView::Last { body, .. } => {
            lemma_wf_local_mono(body, n, n2, scope);
        },
        LocalBranchesView::More { body, rest, .. } => {
            lemma_wf_local_mono(body, n, n2, scope);
            lemma_wf_lbranches_mono(*rest, n, n2, scope);
        },
    }
}

/// Whatever `sp_local` accepts is a well-formed local type with respect to
/// the registry it returns; the registry only grows.
pub proof fn lemma_sp_local_wf(
    ts: Seq<TokenV>,
    pos: int,
    names: Seq<Seq<char>>,
    scope: Seq<Seq<char>>,
)
    requires
        valid_tokens(ts),
    ensures
        sp_local(ts, pos, names, scope) matches Some((l, p, names1)) ==> {
            &&& wf_local(l, names1.len(), scope)
            &&& names_ext(names, names1)
            &&& pos < p <= ts.len()
        },
    decreases ts.len() - pos, 1int,
{
    if pos < 0 || pos >= ts.len() {
        return ;
    }
    match ts[pos] {
        TokenV::KwRec => {
            if pos + 2 < ts.len() {
                if ts[pos + 1] is Ident && ts[pos + 2] is Dot {
                    lemma_sp_local_wf(ts, pos + 3, names, scope.push(ts[pos + 1]->Ident_0));
                }
            }
        },
        TokenV::Ident(x) => {
            if pos + 1 < ts.len() && (ts[pos + 1] is Bang || ts[pos + 1] is Query) {
                lemma_sp_local_msg_wf(ts, pos, names, scope, x);
            } else if pos + 1 < ts.len() && (ts[pos + 1] is Plus || ts[pos + 1] is Amp) {
                lemma_sp_local_choice_wf(ts, pos, names, scope, x);
            }
        },
        _ => {},
    }
}

proof fn lemma_sp_local_msg_wf(
    ts: Seq<TokenV>,
    pos: int,
    names: Seq<Seq<char>>,
    scope: Seq<Seq<char>>,
    x: Seq<char>,
)
    requires
        valid_tokens(ts),
    ensures
        sp_local_msg(ts, pos, names, scope, x) matches Some((l, p, names1)) ==> {
            &&& wf_local(l, names1.len(), scope)
            &&& names_ext(names, names1)
            &&& pos < p <= ts.len()
        },
    decreases ts.len() - pos, 0int,
{
    if 0 <= pos && pos + 6 < ts.len() {
        if ts[pos + 2] is Ident && ts[pos + 3] is LParen && ts[pos + 4] is Ident && ts[pos
            + 5] is RParen && ts[pos + 6] is Dot {
            let (names1, peer) = intern_spec(names, x);
            lemma_intern_props(names, x);
            lemma_sp_local_wf(ts, pos + 7, names1, scope);
        }
    }
}

proof fn lemma_sp_local_choice_wf(
    ts: Seq<TokenV>,
    pos: int,
    names: Seq<Seq<char>>,
    scope: Seq<Seq<char>>,
    x: Seq<char>,
)
    requires
        valid_tokens(ts),
    ensures
        sp_local_choice(ts, pos, names, scope, x) matches Some((l, p, names1)) ==> {
            &&& wf_local(l, names1.len(), scope)
            &&& names_ext(names, names1)
            &&& pos < p <= ts.len()
        },
    decreases ts.len() - pos, 0int,
{
    if 0 <= pos && pos + 2 < ts.len() && ts[pos + 2] is LBrace {
        let (names1, peer) = intern_spec(names, x);
        lemma_intern_props(names, x);
        lemma_sp_lbranches_wf(ts, pos + 3, names1, scope);
    }
}

proof fn lemma_sp_lbranches_wf(
    ts: Seq<TokenV>,
    pos: int,
    names: Seq<Seq<char>>,
    scope: Seq<Seq<char>>,
)
    requires
        valid_tokens(ts),
    ensures
        sp_lbranches(ts, pos, names, scope) matches Some((b, p, names1)) ==> {
            &&& wf_lbranches(b, names1.len(), scope)
            &&& crate::ast::distinct_seqs(l_labels(b))
            &&& names_ext(names, names1)
            &&& pos < p <= ts.len()
        },
    decreases ts.len() - pos, 2int,
{
    if pos < 0 || pos + 1 >= ts.len() {
        return ;
    }
    if ts[pos] is Ident && ts[pos + 1] is Colon {
        let lbl = ts[pos]->Ident_0;
        lemma_sp_local_wf(ts, pos + 2, names, scope);
        match sp_local(ts, pos + 2, names, scope) {
            Some((l, p2, n2)) => {
                if p2 <= pos + 2 {
                } else if p2 < ts.len() && ts[p2] is Comma {
                    lemma_sp_lbranches_wf(ts, p2 + 1, n2, scope);
                    match sp_lbranches(ts, p2 + 1, n2, scope) {
                        Some((rest, p3, n3)) => {
                            if !l_labels(rest).contains(lbl) {
                                lemma_wf_local_mono(l, n2.len(), n3.len(), scope);
                                let all = LocalBranchesView::More {
                                    label: lbl,
                                    body: l,
                                    rest: Box::new(rest),
                                };
                                assert(l_labels(all) == seq![lbl] + l_labels(rest));
                                assert forall|i: int, j: int|
                                    0 <= i < j < l_labels(all).len() implies l_labels(all)[i]
                                    != l_labels(all)[j] by {
                                    if i == 0 {
                                        assert(l_labels(all)[j] == l_labels(rest)[j - 1]);
                                        assert(l_labels(rest).contains(l_labels(rest)[j - 1]));
                                    } else {
                                        assert(l_labels(all)[i] == l_labels(rest)[i - 1]);
                                        assert(l_labels(all)[j] == l_labels(rest)[j - 1]);
                                    }
                                }
                            }
                        },
                        None => {},
                    }
                }
            },
            None => {},
        }
    }
}

/// Whatever `parse_local` accepts is well-formed: every recursion variable
/// is bound and the labels within each choice are distinct.
pub proof fn lemma_parse_local_wf(s: Seq<char>)
    ensures
        sp_parse_local(s) matches Some((l, names)) ==> wf_local(
            l,
            names.len(),
            Seq::<Seq<char>>::empty(),
        ),
{
    crate::lex::lemma_sp_lex_valid(s);
    match sp_lex(s) {
        Some(ts) => {
            lemma_sp_local_wf(ts, 0, Seq::<Seq<char>>::empty(), Seq::<Seq<char>>::empty());
        },
        None => {},
    }
}

} // verus!
