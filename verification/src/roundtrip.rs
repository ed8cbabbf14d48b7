//! The round trip: printing a well-formed tree and parsing the text again
//! recovers the tree, up to the renaming of role identifiers that a fresh
//! registry performs. `lemma_global_round_trip` is the law; the lemmas
//! before it invert the lexer and the parser one layer at a time.
use vstd::prelude::*;

use crate::ast::{
    is_ident_char, kw_end, kw_rec, valid_ident, GlobalBranchesView, GlobalView,
    LocalBranchesView, LocalView,
};
use crate::ast::{distinct_seqs, g_labels, l_labels, wf_gbranches, wf_global, wf_lbranches, wf_local};
use crate::lex::{render, sp_lex, tok_text, valid_tokens, TokenV};
use crate::parse::{
    names_ext, sp_gbranches, sp_global, sp_global_tail, sp_lbranches, sp_local, sp_local_choice,
    sp_local_msg, sp_parse_global, sp_parse_local,
};
use crate::print::{gbranch_tokens, global_text, global_tokens, lbranch_tokens, local_text, local_tokens};
use crate::roles::intern_spec;

verus! {

// ---------------------------------------------------------------------------
// The lexer inverts the renderer.
// ---------------------------------------------------------------------------

/// Lexing the canonical rendering of valid tokens gives those tokens back.
pub proof fn lemma_lex_render(ts: Seq<TokenV>)
    requires
        valid_tokens(ts),
    ensures
        sp_lex(render(ts)) == Some(ts),
    decreases ts.len(),
{
    if ts.len() == 0 {
        assert(sp_lex(render(ts)) == Some(Seq::<TokenV>::empty()));
        assert(Seq::<TokenV>::empty() =~= ts);
        return ;
    }
    let t = ts[0];
    let drop = ts.drop_first();
    assert forall|i: int|
        0 <= i < drop.len() implies (#[trigger] drop[i] matches TokenV::Ident(w)
        ==> valid_ident(w)) by {
        assert(drop[i] == ts[i + 1]);
    }
    lemma_lex_render(drop);
    let w = tok_text(t);
    let s = render(ts);
    assert(s == w + seq![' '] + render(drop));
    let ident_like = t is Ident || t is KwEnd || t is KwRec;
    if ident_like {
        assert(kw_end()[0] == 'e' && kw_end()[1] == 'n' && kw_end()[2] == 'd');
        assert(kw_rec()[0] == 'r' && kw_rec()[1] == 'e' && kw_rec()[2] == 'c');
        assert(is_ident_char('e') && is_ident_char('n') && is_ident_char('d'));
        assert(is_ident_char('r') && is_ident_char('c'));
        assert(w.len() >= 1);
        assert(forall|i: int| 0 <= i < w.len() ==> is_ident_char(#[trigger] w[i]));
        assert(crate::lex::word_token(w) == t);
        assert(s[0] == w[0]);
        assert(!crate::lex::is_space(s[0]));
        assert forall|i: int| 0 <= i < w.len() implies is_ident_char(#[trigger] s[i]) by {
            assert(s[i] == w[i]);
        }
        assert(s[w.len() as int] == ' ');
        assert(!is_ident_char(' '));
        crate::lex::lemma_ident_len_is(s, w.len() as int);
        let n = crate::lex::ident_len(s);
        assert(n == w.len());
        assert(s.take(n) =~= w);
        let tail = s.skip(n);
        assert(tail =~= seq![' '] + render(drop));
        assert(tail.len() >= 1 && crate::lex::is_space(tail[0]));
        assert(tail.drop_first() =~= render(drop));
        assert(sp_lex(tail) == Some(drop));
        assert(sp_lex(s) == Some(seq![t] + drop));
        assert(seq![t] + drop =~= ts);
    } else if t is Arrow {
        assert(w == seq!['-', '>']);
        assert(s[0] == '-' && s[1] == '>');
        assert(!crate::lex::is_space('-') && !is_ident_char('-'));
        let tail = s.skip(2);
        assert(tail =~= seq![' '] + render(drop));
        assert(tail.len() >= 1 && crate::lex::is_space(tail[0]));
        assert(tail.drop_first() =~= render(drop));
        assert(sp_lex(tail) == Some(drop));
        assert(sp_lex(s) == Some(seq![TokenV::Arrow] + drop));
        assert(seq![TokenV::Arrow] + drop =~= ts);
    } else {
        let c = w[0];
        assert(w.len() == 1);
        assert(s[0] == c);
        assert(!crate::lex::is_space(c) && !is_ident_char(c) && c != '-');
        assert(crate::lex::punct_token(c) == Some(t));
        let tail = s.drop_first();
        assert(tail =~= seq![' '] + render(drop));
        assert(tail.len() >= 1 && crate::lex::is_space(tail[0]));
        assert(tail.drop_first() =~= render(drop));
        assert(sp_lex(tail) == Some(drop));
        assert(sp_lex(s) == Some(seq![t] + drop));
        assert(seq![t] + drop =~= ts);
    }
}

} // verus!

verus! {

// ---------------------------------------------------------------------------
// Equality up to role-identity renaming: two trees are the same protocol
// when they agree structurally and corresponding roles carry the same name
// in their respective registries.
// ---------------------------------------------------------------------------

pub open spec fn g_nameq(
    a: GlobalView,
    na: Seq<Seq<char>>,
    b: GlobalView,
    nb: Seq<Seq<char>>,
) -> bool
    decreases a,
{
    match (a, b) {
        (GlobalView::End, GlobalView::End) => true,
        (
            GlobalView::Interaction { from: f1, to: t1, label: l1, payload: p1, cont: c1 },
            GlobalView::Interaction { from: f2, to: t2, label: l2, payload: p2, cont: c2 },
        ) => {
            &&& f1 < na.len() && t1 < na.len()
            &&& f2 < nb.len() && t2 < nb.len()
            &&& na[f1 as int] == nb[f2 as int]
            &&& na[t1 as int] == nb[t2 as int]
            &&& l1 == l2
            &&& p1 == p2
            &&& g_nameq(*c1, na, *c2, nb)
        },
        (
            GlobalView::Choice { from: f1, to: t1, branches: b1 },
            GlobalView::Choice { from: f2, to: t2, branches: b2 },
        ) => {
            &&& f1 < na.len() && t1 < na.len()
            &&& f2 < nb.len() && t2 < nb.len()
            &&& na[f1 as int] == nb[f2 as int]
            &&& na[t1 as int] == nb[t2 as int]
            &&& gb_nameq(*b1, na, *b2, nb)
        },
        (
            GlobalView::RecDef { var: v1, body: b1 },
            GlobalView::RecDef { var: v2, body: b2 },
        ) => v1 == v2 && g_nameq(*b1, na, *b2, nb),
        (GlobalView::RecVar { var: v1 }, GlobalView::RecVar { var: v2 }) => v1 == v2,
        _ => false,
    }
}

pub open spec fn gb_nameq(
    a: GlobalBranchesView,
    na: Seq<Seq<char>>,
    b: GlobalBranchesView,
    nb: Seq<Seq<char>>,
) -> bool
    decreases a,
{
    match (a, b) {
        (
            GlobalBranchesView::Last { label: l1, body: g1 },
            GlobalBranchesView::Last { label: l2, body: g2 },
        ) => l1 == l2 && g_nameq(g1, na, g2, nb),
        (
            GlobalBranchesView::More { label: l1, body: g1, rest: r1 },
            GlobalBranchesView::More { label: l2, body: g2, rest: r2 },
        ) => l1 == l2 && g_nameq(g1, na, g2, nb) && gb_nameq(*r1, na, *r2, nb),
        _ => false,
    }
}

/// Name equivalence only reads the registries at the identifiers it holds,
/// so it survives growing the second registry.
proof fn lemma_g_nameq_ext(
    a: GlobalView,
    na: Seq<Seq<char>>,
    b: GlobalView,
    nb: Seq<Seq<char>>,
    nb2: Seq<Seq<char>>,
)
    requires
        g_nameq(a, na, b, nb),
        names_ext(nb, nb2),
    ensures
        g_nameq(a, na, b, nb2),
    decreases a,
{
    match (a, b) {
        (
            GlobalView::Interaction { cont: c1, .. },
            GlobalView::Interaction { cont: c2, .. },
        ) => {
            lemma_g_nameq_ext(*c1, na, *c2, nb, nb2);
        },
        (GlobalView::Choice { branches: b1, .. }, GlobalView::Choice { branches: b2, .. }) => {
            lemma_gb_nameq_ext(*b1, na, *b2, nb, nb2);
        },
        (GlobalView::RecDef { body: b1, .. }, GlobalView::RecDef { body: b2, .. }) => {
            lemma_g_nameq_ext(*b1, na, *b2, nb, nb2);
        },
        _ => {},
    }
}

proof fn lemma_gb_nameq_ext(
    a: GlobalBranchesView,
    na: Seq<Seq<char>>,
    b: GlobalBranchesView,
    nb: Seq<Seq<char>>,
    nb2: Seq<Seq<char>>,
)
    requires
        gb_nameq(a, na, b, nb),
        names_ext(nb, nb2),
    ensures
        gb_nameq(a, na, b, nb2),
    decreases a,
{
    match (a, b) {
        (
            GlobalBranchesView::Last { body: g1, .. },
            GlobalBranchesView::Last { body: g2, .. },
        ) => {
            lemma_g_nameq_ext(g1, na, g2, nb, nb2);
        },
        (
            GlobalBranchesView::More { body: g1, rest: r1, .. },
            GlobalBranchesView::More { body: g2, rest: r2, .. },
        ) => {
            lemma_g_nameq_ext(g1, na, g2, nb, nb2);
            lemma_gb_nameq_ext(*r1, na, *r2, nb, nb2);
        },
        _ => {},
    }
}

/// Name-equivalent branch lists carry the same labels in the same order.
proof fn lemma_gb_nameq_labels(
    a: GlobalBranchesView,
    na: Seq<Seq<char>>,
    b: GlobalBranchesView,
    nb: Seq<Seq<char>>,
)
    requires
        gb_nameq(a, na, b, nb),
    ensures
        g_labels(b) == g_labels(a),
    decreases a,
{
    match (a, b) {
        (
            GlobalBranchesView::More { rest: r1, .. },
            GlobalBranchesView::More { rest: r2, .. },
        ) => {
            lemma_gb_nameq_labels(*r1, na, *r2, nb);
            assert(g_labels(b) =~= g_labels(a));
        },
        _ => {
            assert(g_labels(b) =~= g_labels(a));
        },
    }
}

// ---------------------------------------------------------------------------
// Printing a well-formed tree yields valid, non-empty token sequences.
// ---------------------------------------------------------------------------

proof fn lemma_valid_concat(a: Seq<TokenV>, b: Seq<TokenV>)
    requires
        valid_tokens(a),
        valid_tokens(b),
    ensures
        valid_tokens(a + b),
{
    assert forall|i: int|
        0 <= i < (a + b).len() implies (#[trigger] (a + b)[i] matches TokenV::Ident(w)
        ==> valid_ident(w)) by {
        if i < a.len() {
            assert((a + b)[i] == a[i]);
        } else {
            assert((a + b)[i] == b[i - a.len()]);
        }
    }
}

pub proof fn lemma_gtokens_props(g: GlobalView, names: Seq<Seq<char>>, scope: Seq<Seq<char>>)
    requires
        wf_global(g, names.len(), scope),
        forall|i: int| 0 <= i < names.len() ==> valid_ident(#[trigger] names[i]),
    ensures
        valid_tokens(global_tokens(g, names)),
        global_tokens(g, names).len() >= 1,
    decreases g,
{
    match g {
        GlobalView::End => {},
        GlobalView::Interaction { from, to, label, payload, cont } => {
            lemma_gtokens_props(*cont, names, scope);
            let head = seq![
                TokenV::Ident(names[from as int]),
                TokenV::Arrow,
                TokenV::Ident(names[to as int]),
                TokenV::Colon,
                TokenV::Ident(label),
                TokenV::LParen,
                TokenV::Ident(payload),
                TokenV::RParen,
                TokenV::Dot,
            ];
            assert(valid_tokens(head));
            lemma_valid_concat(head, global_tokens(*cont, names));
        },
        GlobalView::Choice { from, to, branches } => {
            lemma_gbtokens_props(*branches, names, scope);
            let head = seq![
                TokenV::Ident(names[from as int]),
                TokenV::Arrow,
                TokenV::Ident(names[to as int]),
                TokenV::Colon,
                TokenV::LBrace,
            ];
            assert(valid_tokens(head));
            lemma_valid_concat(head, gbranch_tokens(*branches, names));
            lemma_valid_concat(head + gbranch_tokens(*branches, names), seq![TokenV::RBrace]);
        },
        GlobalView::RecDef { var, body } => {
            lemma_gtokens_props(*body, names, scope.push(var));
            let head = seq![TokenV::KwRec, TokenV::Ident(var), TokenV::Dot];
            assert(valid_tokens(head));
            lemma_valid_concat(head, global_tokens(*body, names));
        },
        GlobalView::RecVar { var } => {
            assert(valid_tokens(seq![TokenV::Ident(var)]));
        },
    }
}

proof fn lemma_gbtokens_props(
    b: GlobalBranchesView,
    names: Seq<Seq<char>>,
    scope: Seq<Seq<char>>,
)
    requires
        wf_gbranches(b, names.len(), scope),
        forall|i: int| 0 <= i < names.len() ==> valid_ident(#[trigger] names[i]),
    ensures
        valid_tokens(gbranch_tokens(b, names)),
        gbranch_tokens(b, names).len() >= 3,
    decreases b,
{
    match b {
        GlobalBranchesView::Last { label, body } => {
            lemma_gtokens_props(body, names, scope);
            let head = seq![TokenV::Ident(label), TokenV::Colon];
            assert(valid_tokens(head));
            lemma_valid_concat(head, global_tokens(body, names));
        },
        GlobalBranchesView::More { label, body, rest } => {
            lemma_gtokens_props(body, names, scope);
            lemma_gbtokens_props(*rest, names, scope);
            let head = seq![TokenV::Ident(label), TokenV::Colon];
            assert(valid_tokens(head));
            lemma_valid_concat(head, global_tokens(body, names));
            lemma_valid_concat(head + global_tokens(body, names), seq![TokenV::Comma]);
            lemma_valid_concat(
                head + global_tokens(body, names) + seq![TokenV::Comma],
                gbranch_tokens(*rest, names),
            );
        },
    }
}

} // verus!

verus! {

// ---------------------------------------------------------------------------
// The parser inverts the printer at the token level.
// ---------------------------------------------------------------------------

/// Parsing at the start of a printed global type consumes exactly its
/// tokens and recovers a name-equivalent tree, whatever registry `names0`
/// the parse began with. The token after the printed tokens, if any, must
/// not be an arrow, which is the one token that could extend a recursion
/// variable into an interaction.
proof fn lemma_parse_print_g(
    ts: Seq<TokenV>,
    pos: int,
    names0: Seq<Seq<char>>,
    g: GlobalView,
    names: Seq<Seq<char>>,
    scope: Seq<Seq<char>>,
)
    requires
        wf_global(g, names.len(), scope),
        distinct_seqs(names),
        forall|i: int| 0 <= i < names.len() ==> valid_ident(#[trigger] names[i]),
        0 <= pos,
        pos + global_tokens(g, names).len() <= ts.len(),
        ts.subrange(pos, pos + global_tokens(g, names).len() as int) == global_tokens(g, names),
        pos + global_tokens(g, names).len() == ts.len() || !(ts[pos + global_tokens(
            g,
            names,
        ).len()] is Arrow),
    ensures
        sp_global(ts, pos, names0, scope) matches Some((g2, p2, names1)) && {
            &&& p2 == pos + global_tokens(g, names).len()
            &&& names_ext(names0, names1)
            &&& g_nameq(g, names, g2, names1)
        },
    decreases g,
{
    let gt = global_tokens(g, names);
    let kk = gt.len() as int;
    assert forall|i: int| 0 <= i < kk implies ts[pos + i] == gt[i] by {
        assert(ts.subrange(pos, pos + kk)[i] == ts[pos + i]);
    }
    match g {
        GlobalView::End => {
            assert(gt[0] == TokenV::KwEnd);
        },
        GlobalView::RecVar { var } => {
            assert(gt[0] == TokenV::Ident(var));
            assert(ts[pos] == TokenV::Ident(var));
        },
        GlobalView::RecDef { var, body } => {
            let head = seq![TokenV::KwRec, TokenV::Ident(var), TokenV::Dot];
            let bt = global_tokens(*body, names);
            lemma_gtokens_props(*body, names, scope.push(var));
            assert(gt == head + bt);
            assert(gt[0] == TokenV::KwRec && gt[1] == TokenV::Ident(var) && gt[2] == TokenV::Dot);
            assert forall|j: int| 0 <= j < bt.len() implies ts.subrange(pos + 3, pos + kk)[j]
                == bt[j] by {
                assert(ts.subrange(pos, pos + kk)[3 + j] == gt[3 + j]);
                assert(ts.subrange(pos + 3, pos + kk)[j] == ts[pos + 3 + j]);
            }
            assert(ts.subrange(pos + 3, pos + kk) =~= bt);
            lemma_parse_print_g(ts, pos + 3, names0, *body, names, scope.push(var));
        },
        GlobalView::Interaction { from, to, label, payload, cont } => {
            let head = seq![
                TokenV::Ident(names[from as int]),
                TokenV::Arrow,
                TokenV::Ident(names[to as int]),
                TokenV::Colon,
                TokenV::Ident(label),
                TokenV::LParen,
                TokenV::Ident(payload),
                TokenV::RParen,
                TokenV::Dot,
            ];
            let ct = global_tokens(*cont, names);
            lemma_gtokens_props(*cont, names, scope);
            assert(gt == head + ct);
            assert forall|i: int| 0 <= i < 9 implies gt[i] == head[i] by {}
            let x = names[from as int];
            let y = names[to as int];
            assert(x != y);
            let (na1, f) = intern_spec(names0, x);
            let (na2, t) = intern_spec(na1, y);
            crate::parse::lemma_intern_props(names0, x);
            crate::parse::lemma_intern_props(na1, y);
            assert(na2[f as int] == x && na2[t as int] == y);
            assert(f != t);
            assert forall|j: int| 0 <= j < ct.len() implies ts.subrange(pos + 9, pos + kk)[j]
                == ct[j] by {
                assert(ts.subrange(pos, pos + kk)[9 + j] == gt[9 + j]);
                assert(ts.subrange(pos + 9, pos + kk)[j] == ts[pos + 9 + j]);
            }
            assert(ts.subrange(pos + 9, pos + kk) =~= ct);
            lemma_parse_print_g(ts, pos + 9, na2, *cont, names, scope);
            let (c2, p2, names1) = sp_global(ts, pos + 9, na2, scope).unwrap();
            assert(sp_global_tail(ts, pos, na2, scope, f, t) == Some(
                (
                    GlobalView::Interaction {
                        from: f,
                        to: t,
                        label,
                        payload,
                        cont: Box::new(c2),
                    },
                    p2,
                    names1,
                ),
            ));
            assert(names_ext(na2, names1));
            assert(names1[f as int] == x && names1[t as int] == y);
            assert(names_ext(names0, names1));
        },
        GlobalView::Choice { from, to, branches } => {
            let head = seq![
                TokenV::Ident(names[from as int]),
                TokenV::Arrow,
                TokenV::Ident(names[to as int]),
                TokenV::Colon,
                TokenV::LBrace,
            ];
            let bt = gbranch_tokens(*branches, names);
            lemma_gbtokens_props(*branches, names, scope);
            assert(gt == head + bt + seq![TokenV::RBrace]);
            assert forall|i: int| 0 <= i < 5 implies gt[i] == head[i] by {
                assert((head + bt)[i] == head[i]);
            }
            assert forall|i: int| 5 <= i < 5 + bt.len() implies gt[i] == bt[i - 5] by {
                assert((head + bt)[i] == bt[i - 5]);
            }
            assert(gt[kk - 1] == TokenV::RBrace);
            let x = names[from as int];
            let y = names[to as int];
            assert(x != y);
            let (na1, f) = intern_spec(names0, x);
            let (na2, t) = intern_spec(na1, y);
            crate::parse::lemma_intern_props(names0, x);
            crate::parse::lemma_intern_props(na1, y);
            assert(na2[f as int] == x && na2[t as int] == y);
            assert(f != t);
            assert forall|j: int| 0 <= j < bt.len() implies ts.subrange(
                pos + 5,
                pos + 5 + bt.len() as int,
            )[j] == bt[j] by {
                assert(ts.subrange(pos, pos + kk)[5 + j] == gt[5 + j]);
                assert(ts.subrange(pos + 5, pos + 5 + bt.len() as int)[j] == ts[pos + 5 + j]);
            }
            assert(ts.subrange(pos + 5, pos + 5 + bt.len() as int) =~= bt);
            assert(ts[pos + 5 + bt.len()] == TokenV::RBrace);
            lemma_parse_print_gb(ts, pos + 5, na2, *branches, names, scope);
            let (b2, p2, names1) = sp_gbranches(ts, pos + 5, na2, scope).unwrap();
            assert(p2 == pos + 5 + bt.len());
            assert(ts[p2] is RBrace);
            assert(sp_global_tail(ts, pos, na2, scope, f, t) == Some(
                (
                    GlobalView::Choice { from: f, to: t, branches: Box::new(b2) },
                    p2 + 1,
                    names1,
                ),
            ));
            assert(names_ext(names0, names1));
            assert(names1[f as int] == x && names1[t as int] == y);
        },
    }
}

/// The branch-list counterpart: the token after the printed branches must
/// be the closing brace, which stops the comma-separated list.
proof fn lemma_parse_print_gb(
    ts: Seq<TokenV>,
    pos: int,
    names0: Seq<Seq<char>>,
    b: GlobalBranchesView,
    names: Seq<Seq<char>>,
    scope: Seq<Seq<char>>,
)
    requires
        wf_gbranches(b, names.len(), scope),
        distinct_seqs(g_labels(b)),
        distinct_seqs(names),
        forall|i: int| 0 <= i < names.len() ==> valid_ident(#[trigger] names[i]),
        0 <= pos,
        pos + gbranch_tokens(b, names).len() < ts.len(),
        ts.subrange(pos, pos + gbranch_tokens(b, names).len() as int) == gbranch_tokens(b, names),
        ts[pos + gbranch_tokens(b, names).len()] is RBrace,
    ensures
        sp_gbranches(ts, pos, names0, scope) matches Some((b2, p2, names1)) && {
            &&& p2 == pos + gbranch_tokens(b, names).len()
            &&& names_ext(names0, names1)
            &&& gb_nameq(b, names, b2, names1)
        },
    decreases b,
{
    let bt = gbranch_tokens(b, names);
    let kk = bt.len() as int;
    assert forall|i: int| 0 <= i < kk implies ts[pos + i] == bt[i] by {
        assert(ts.subrange(pos, pos + kk)[i] == ts[pos + i]);
    }
    match b {
        GlobalBranchesView::Last { label, body } => {
            let head = seq![TokenV::Ident(label), TokenV::Colon];
            let gt = global_tokens(body, names);
            lemma_gtokens_props(body, names, scope);
            assert(bt == head + gt);
            assert(bt[0] == TokenV::Ident(label) && bt[1] == TokenV::Colon);
            assert forall|j: int| 0 <= j < gt.len() implies ts.subrange(pos + 2, pos + kk)[j]
                == gt[j] by {
                assert(ts.subrange(pos, pos + kk)[2 + j] == bt[2 + j]);
                assert(ts.subrange(pos + 2, pos + kk)[j] == ts[pos + 2 + j]);
            }
            assert(ts.subrange(pos + 2, pos + kk) =~= gt);
            assert(!(ts[pos + kk] is Arrow));
            lemma_parse_print_g(ts, pos + 2, names0, body, names, scope);
            let (g2, p2, names1) = sp_global(ts, pos + 2, names0, scope).unwrap();
            assert(p2 == pos + kk);
            assert(p2 > pos + 2);
            assert(!(ts[p2] is Comma));
        },
        GlobalBranchesView::More { label, body, rest } => {
            let head = seq![TokenV::Ident(label), TokenV::Colon];
            let gt = global_tokens(body, names);
            let rt = gbranch_tokens(*rest, names);
            lemma_gtokens_props(body, names, scope);
            lemma_gbtokens_props(*rest, names, scope);
            assert(bt == head + gt + seq![TokenV::Comma] + rt);
            assert forall|i: int| 0 <= i < 2 implies bt[i] == head[i] by {
                assert(((head + gt) + seq![TokenV::Comma])[i] == (head + gt)[i]);
                assert((head + gt)[i] == head[i]);
            }
            assert forall|i: int| 2 <= i < 2 + gt.len() implies bt[i] == gt[i - 2] by {
                assert(((head + gt) + seq![TokenV::Comma])[i] == (head + gt)[i]);
                assert((head + gt)[i] == gt[i - 2]);
            }
            assert(bt[2 + gt.len() as int] == TokenV::Comma) by {
                assert(((head + gt) + seq![TokenV::Comma])[2 + gt.len() as int] == TokenV::Comma);
            }
            assert forall|i: int| 3 + gt.len() <= i < kk implies bt[i] == rt[i - 3 - gt.len()] by {}
            assert forall|j: int| 0 <= j < gt.len() implies ts.subrange(
                pos + 2,
                pos + 2 + gt.len() as int,
            )[j] == gt[j] by {
                assert(ts.subrange(pos, pos + kk)[2 + j] == bt[2 + j]);
                assert(ts.subrange(pos + 2, pos + 2 + gt.len() as int)[j] == ts[pos + 2 + j]);
            }
            assert(ts.subrange(pos + 2, pos + 2 + gt.len() as int) =~= gt);
            assert(ts[pos + 2 + gt.len()] == TokenV::Comma);
            lemma_parse_print_g(ts, pos + 2, names0, body, names, scope);
            let (g2, p2, namesa) = sp_global(ts, pos + 2, names0, scope).unwrap();
            assert(p2 == pos + 2 + gt.len());
            assert(p2 > pos + 2);
            assert(ts[p2] is Comma);
            assert forall|j: int| 0 <= j < rt.len() implies ts.subrange(p2 + 1, pos + kk)[j]
                == rt[j] by {
                assert(ts.subrange(pos, pos + kk)[3 + gt.len() + j] == bt[3 + gt.len() + j]);
                assert(bt[3 + gt.len() + j] == rt[j]);
                assert(ts.subrange(p2 + 1, pos + kk)[j] == ts[p2 + 1 + j]);
            }
            assert(ts.subrange(p2 + 1, pos + kk) =~= rt);
            assert(ts[pos + kk] is RBrace);
            let rl = g_labels(*rest);
            assert forall|i: int, j: int| 0 <= i < j < rl.len() implies rl[i] != rl[j] by {
                assert(g_labels(b)[i + 1] == rl[i]);
                assert(g_labels(b)[j + 1] == rl[j]);
            }
            lemma_parse_print_gb(ts, p2 + 1, namesa, *rest, names, scope);
            let (r2, p3, names1) = sp_gbranches(ts, p2 + 1, namesa, scope).unwrap();
            assert(p3 == pos + kk);
            lemma_gb_nameq_labels(*rest, names, r2, names1);
            assert(g_labels(r2) == rl);
            assert forall|i: int| 0 <= i < rl.len() implies rl[i] != label by {
                assert(g_labels(b)[0] == label);
                assert(g_labels(b)[i + 1] == rl[i]);
            }
            assert(!g_labels(r2).contains(label)) by {
                if g_labels(r2).contains(label) {
                    let i = choose|i: int|
                        0 <= i < g_labels(r2).len() && g_labels(r2)[i] == label;
                    assert(rl[i] == label);
                }
            }
            lemma_g_nameq_ext(body, names, g2, namesa, names1);
            assert(names_ext(names0, names1));
        },
    }
}

// ---------------------------------------------------------------------------
// The round trip itself.
// ---------------------------------------------------------------------------

/// Printing a closed, well-formed global type with its registry and parsing
/// the text again succeeds and recovers the tree, up to the renaming of
/// role identifiers: corresponding roles carry the same canonical name.
pub proof fn lemma_global_round_trip(g: GlobalView, names: Seq<Seq<char>>)
    requires
        wf_global(g, names.len(), Seq::<Seq<char>>::empty()),
        distinct_seqs(names),
        forall|i: int| 0 <= i < names.len() ==> valid_ident(#[trigger] names[i]),
    ensures
        sp_parse_global(global_text(g, names)) matches Some((g2, names2)) && g_nameq(
            g,
            names,
            g2,
            names2,
        ),
{
    let sc = Seq::<Seq<char>>::empty();
    let gt = global_tokens(g, names);
    lemma_gtokens_props(g, names, sc);
    lemma_lex_render(gt);
    assert(sp_lex(global_text(g, names)) == Some(gt));
    assert(gt.subrange(0, gt.len() as int) =~= gt);
    lemma_parse_print_g(gt, 0, Seq::<Seq<char>>::empty(), g, names, sc);
}

} // verus!

verus! {

// ---------------------------------------------------------------------------
// The local-type round trip, mirroring the global one.
// ---------------------------------------------------------------------------

pub open spec fn l_nameq(
    a: LocalView,
    na: Seq<Seq<char>>,
    b: LocalView,
    nb: Seq<Seq<char>>,
) -> bool
    decreases a,
{
    match (a, b) {
        (LocalView::End, LocalView::End) => true,
        (
            LocalView::Send { to: t1, label: l1, payload: p1, cont: c1 },
            LocalView::Send { to: t2, label: l2, payload: p2, cont: c2 },
        ) => {
            &&& t1 < na.len() && t2 < nb.len()
            &&& na[t1 as int] == nb[t2 as int]
            &&& l1 == l2
            &&& p1 == p2
            &&& l_nameq(*c1, na, *c2, nb)
        },
        (
            LocalView::Receive { from: f1, label: l1, payload: p1, cont: c1 },
            LocalView::Receive { from: f2, label: l2, payload: p2, cont: c2 },
        ) => {
            &&& f1 < na.len() && f2 < nb.len()
            &&& na[f1 as int] == nb[f2 as int]
            &&& l1 == l2
            &&& p1 == p2
            &&& l_nameq(*c1, na, *c2, nb)
        },
        (
            LocalView::InternalChoice { to: t1, branches: b1 },
            LocalView::InternalChoice { to: t2, branches: b2 },
        ) => {
            &&& t1 < na.len() && t2 < nb.len()
            &&& na[t1 as int] == nb[t2 as int]
            &&& lb_nameq(*b1, na, *b2, nb)
        },
        (
            LocalView::ExternalChoice { from: f1, branches: b1 },
            LocalView::ExternalChoice { from: f2, branches: b2 },
        ) => {
            &&& f1 < na.len() && f2 < nb.len()
            &&& na[f1 as int] == nb[f2 as int]
            &&& lb_nameq(*b1, na, *b2, nb)
        },
        (LocalView::RecDef { var: v1, body: b1 }, LocalView::RecDef { var: v2, body: b2 }) => v1
            == v2 && l_nameq(*b1, na, *b2, nb),
        (LocalView::RecVar { var: v1 }, LocalView::RecVar { var: v2 }) => v1 == v2,
        _ => false,
    }
}

pub open spec fn lb_nameq(
    a: LocalBranchesView,
    na: Seq<Seq<char>>,
    b: LocalBranchesView,
    nb: Seq<Seq<char>>,
) -> bool
    decreases a,
{
    match (a, b) {
        (
            LocalBranchesView::Last { label: l1, body: g1 },
            LocalBranchesView::Last { label: l2, body: g2 },
        ) => l1 == l2 && l_nameq(g1, na, g2, nb),
        (
            LocalBranchesView::More { label: l1, body: g1, rest: r1 },
            LocalBranchesView::More { label: l2, body: g2, rest: r2 },
        ) => l1 == l2 && l_nameq(g1, na, g2, nb) && lb_nameq(*r1, na, *r2, nb),
        _ => false,
    }
}

proof fn lemma_l_nameq_ext(
    a: LocalView,
    na: Seq<Seq<char>>,
    b: LocalView,
    nb: Seq<Seq<char>>,
    nb2: Seq<Seq<char>>,
)
    requires
        l_nameq(a, na, b, nb),
        names_ext(nb, nb2),
    ensures
        l_nameq(a, na, b, nb2),
    decreases a,
{
    match (a, b) {
        (LocalView::Send { cont: c1, .. }, LocalView::Send { cont: c2, .. }) => {
            lemma_l_nameq_ext(*c1, na, *c2, nb, nb2);
        },
        (LocalView::Receive { cont: c1, .. }, LocalView::Receive { cont: c2, .. }) => {
            lemma_l_nameq_ext(*c1, na, *c2, nb, nb2);
        },
        (
            LocalView::InternalChoice { branches: b1, .. },
            LocalView::InternalChoice { branches: b2, .. },
        ) => {
            lemma_lb_nameq_ext(*b1, na, *b2, nb, nb2);
        },
        (
            LocalView::ExternalChoice { branches: b1, .. },
            LocalView::ExternalChoice { branches: b2, .. },
        ) => {
            lemma_lb_nameq_ext(*b1, na, *b2, nb, nb2);
        },
        (LocalView::RecDef { body: b1, .. }, LocalView::RecDef { body: b2, .. }) => {
            lemma_l_nameq_ext(*b1, na, *b2, nb, nb2);
        },
        _ => {},
    }
}

proof fn lemma_lb_nameq_ext(
    a: LocalBranchesView,
    na: Seq<Seq<char>>,
    b: LocalBranchesView,
    nb: Seq<Seq<char>>,
    nb2: Seq<Seq<char>>,
)
    requires
        lb_nameq(a, na, b, nb),
        names_ext(nb, nb2),
    ensures
        lb_nameq(a, na, b, nb2),
    decreases a,
{
    match (a, b) {
        (
            LocalBranchesView::Last { body: g1, .. },
            LocalBranchesView::Last { body: g2, .. },
        ) => {
            lemma_l_nameq_ext(g1, na, g2, nb, nb2);
        },
        (
            LocalBranchesView::More { body: g1, rest: r1, .. },
            LocalBranchesView::More { body: g2, rest: r2, .. },
        ) => {
            lemma_l_nameq_ext(g1, na, g2, nb, nb2);
            lemma_lb_nameq_ext(*r1, na, *r2, nb, nb2);
        },
        _ => {},
    }
}

proof fn lemma_lb_nameq_labels(
    a: LocalBranchesView,
    na: Seq<Seq<char>>,
    b: LocalBranchesView,
    nb: Seq<Seq<char>>,
)
    requires
        lb_nameq(a, na, b, nb),
    ensures
        l_labels(b) == l_labels(a),
    decreases a,
{
    match (a, b) {
        (
            LocalBranchesView::More { rest: r1, .. },
            LocalBranchesView::More { rest: r2, .. },
        ) => {
            lemma_lb_nameq_labels(*r1, na, *r2, nb);
            assert(l_labels(b) =~= l_labels(a));
        },
        _ => {
            assert(l_labels(b) =~= l_labels(a));
        },
    }
}

pub proof fn lemma_ltokens_props(l: LocalView, names: Seq<Seq<char>>, scope: Seq<Seq<char>>)
    requires
        wf_local(l, names.len(), scope),
        forall|i: int| 0 <= i < names.len() ==> valid_ident(#[trigger] names[i]),
    ensures
        valid_tokens(local_tokens(l, names)),
        local_tokens(l, names).len() >= 1,
    decreases l,
{
    match l {
        LocalView::End => {},
        LocalView::Send { to, label, payload, cont } => {
            lemma_ltokens_props(*cont, names, scope);
            let head = seq![
                TokenV::Ident(names[to as int]),
                TokenV::Bang,
                TokenV::Ident(label),
                TokenV::LParen,
                TokenV::Ident(payload),
                TokenV::RParen,
                TokenV::Dot,
            ];
            assert(valid_tokens(head));
            lemma_valid_concat(head, local_tokens(*cont, names));
        },
        LocalView::Receive { from, label, payload, cont } => {
            lemma_ltokens_props(*cont, names, scope);
            let head = seq![
                TokenV::Ident(names[from as int]),
                TokenV::Query,
                TokenV::Ident(label),
                TokenV::LParen,
                TokenV::Ident(payload),
                TokenV::RParen,
                TokenV::Dot,
            ];
            assert(valid_tokens(head));
            lemma_valid_concat(head, local_tokens(*cont, names));
        },
        LocalView::InternalChoice { to, branches } => {
            lemma_lbtokens_props(*branches, names, scope);
            let head = seq![TokenV::Ident(names[to as int]), TokenV::Plus, TokenV::LBrace];
            assert(valid_tokens(head));
            lemma_valid_concat(head, lbranch_tokens(*branches, names));
            lemma_valid_concat(head + lbranch_tokens(*branches, names), seq![TokenV::RBrace]);
        },
        LocalView::ExternalChoice { from, branches } => {
            lemma_lbtokens_props(*branches, names, scope);
            let head = seq![TokenV::Ident(names[from as int]), TokenV::Amp, TokenV::LBrace];
            assert(valid_tokens(head));
            lemma_valid_concat(head, lbranch_tokens(*branches, names));
            lemma_valid_concat(head + lbranch_tokens(*branches, names), seq![TokenV::RBrace]);
        },
        LocalView::RecDef { var, body } => {
            lemma_ltokens_props(*body, names, scope.push(var));
            let head = seq![TokenV::KwRec, TokenV::Ident(var), TokenV::Dot];
            assert(valid_tokens(head));
            lemma_valid_concat(head, local_tokens(*body, names));
        },
        LocalView::RecVar { var } => {
            assert(valid_tokens(seq![TokenV::Ident(var)]));
        },
    }
}

proof fn lemma_lbtokens_props(b: LocalBranchesView, names: Seq<Seq<char>>, scope: Seq<Seq<char>>)
    requires
        wf_lbranches(b, names.len(), scope),
        forall|i: int| 0 <= i < names.len() ==> valid_ident(#[trigger] names[i]),
    ensures
        valid_tokens(lbranch_tokens(b, names)),
        lbranch_tokens(b, names).len() >= 3,
    decreases b,
{
    match b {
        LocalBranchesView::Last { label, body } => {
            lemma_ltokens_props(body, names, scope);
            let head = seq![TokenV::Ident(label), TokenV::Colon];
            assert(valid_tokens(head));
            lemma_valid_concat(head, local_tokens(body, names));
        },
        LocalBranchesView::More { label, body, rest } => {
            lemma_ltokens_props(body, names, scope);
            lemma_lbtokens_props(*rest, names, scope);
            let head = seq![TokenV::Ident(label), TokenV::Colon];
            assert(valid_tokens(head));
            lemma_valid_concat(head, local_tokens(body, names));
            lemma_valid_concat(head + local_tokens(body, names), seq![TokenV::Comma]);
            lemma_valid_concat(
                head + local_tokens(body, names) + seq![TokenV::Comma],
                lbranch_tokens(*rest, names),
            );
        },
    }
}

} // verus!

verus! {

/// The follower constraint for a printed local type: the next token, if
/// any, must not extend a recursion variable into a message or a choice.
pub open spec fn l_follower_ok(ts: Seq<TokenV>, p: int) -> bool {
    p == ts.len() || !(ts[p] is Bang || ts[p] is Query || ts[p] is Plus || ts[p] is Amp)
}

proof fn lemma_parse_print_l(
    ts: Seq<TokenV>,
    pos: int,
    names0: Seq<Seq<char>>,
    l: LocalView,
    names: Seq<Seq<char>>,
    scope: Seq<Seq<char>>,
)
    requires
        wf_local(l, names.len(), scope),
        distinct_seqs(names),
        forall|i: int| 0 <= i < names.len() ==> valid_ident(#[trigger] names[i]),
        0 <= pos,
        pos + local_tokens(l, names).len() <= ts.len(),
        ts.subrange(pos, pos + local_tokens(l, names).len() as int) == local_tokens(l, names),
        l_follower_ok(ts, pos + local_tokens(l, names).len() as int),
    ensures
        sp_local(ts, pos, names0, scope) matches Some((l2, p2, names1)) && {
            &&& p2 == pos + local_tokens(l, names).len()
            &&& names_ext(names0, names1)
            &&& l_nameq(l, names, l2, names1)
        },
    decreases l,
{
    let lt = local_tokens(l, names);
    let kk = lt.len() as int;
    assert forall|i: int| 0 <= i < kk implies ts[pos + i] == lt[i] by {
        assert(ts.subrange(pos, pos + kk)[i] == ts[pos + i]);
    }
    match l {
        LocalView::End => {
            assert(lt[0] == TokenV::KwEnd);
        },
        LocalView::RecVar { var } => {
            assert(lt[0] == TokenV::Ident(var));
            assert(ts[pos] == TokenV::Ident(var));
        },
        LocalView::RecDef { var, body } => {
            let head = seq![TokenV::KwRec, TokenV::Ident(var), TokenV::Dot];
            let bt = local_tokens(*body, names);
            lemma_ltokens_props(*body, names, scope.push(var));
            assert(lt == head + bt);
            assert(lt[0] == TokenV::KwRec && lt[1] == TokenV::Ident(var) && lt[2] == TokenV::Dot);
            assert forall|j: int| 0 <= j < bt.len() implies ts.subrange(pos + 3, pos + kk)[j]
                == bt[j] by {
                assert(ts.subrange(pos, pos + kk)[3 + j] == lt[3 + j]);
                assert(ts.subrange(pos + 3, pos + kk)[j] == ts[pos + 3 + j]);
            }
            assert(ts.subrange(pos + 3, pos + kk) =~= bt);
            lemma_parse_print_l(ts, pos + 3, names0, *body, names, scope.push(var));
        },
        LocalView::Send { to, label, payload, cont } => {
            let head = seq![
                TokenV::Ident(names[to as int]),
                TokenV::Bang,
                TokenV::Ident(label),
                TokenV::LParen,
                TokenV::Ident(payload),
                TokenV::RParen,
                TokenV::Dot,
            ];
            let ct = local_tokens(*cont, names);
            lemma_ltokens_props(*cont, names, scope);
            assert(lt == head + ct);
            assert forall|i: int| 0 <= i < 7 implies lt[i] == head[i] by {}
            let x = names[to as int];
            let (na1, peer) = intern_spec(names0, x);
            crate::parse::lemma_intern_props(names0, x);
            assert forall|j: int| 0 <= j < ct.len() implies ts.subrange(pos + 7, pos + kk)[j]
                == ct[j] by {
                assert(ts.subrange(pos, pos + kk)[7 + j] == lt[7 + j]);
                assert(ts.subrange(pos + 7, pos + kk)[j] == ts[pos + 7 + j]);
            }
            assert(ts.subrange(pos + 7, pos + kk) =~= ct);
            lemma_parse_print_l(ts, pos + 7, na1, *cont, names, scope);
            let (c2, p2, names1) = sp_local(ts, pos + 7, na1, scope).unwrap();
            assert(sp_local_msg(ts, pos, names0, scope, x) == Some(
                (
                    LocalView::Send { to: peer, label, payload, cont: Box::new(c2) },
                    p2,
                    names1,
                ),
            ));
            assert(names_ext(names0, names1));
            assert(names1[peer as int] == x);
        },
        LocalView::Receive { from, label, payload, cont } => {
            let head = seq![
                TokenV::Ident(names[from as int]),
                TokenV::Query,
                TokenV::Ident(label),
                TokenV::LParen,
                TokenV::Ident(payload),
                TokenV::RParen,
                TokenV::Dot,
            ];
            let ct = local_tokens(*cont, names);
            lemma_ltokens_props(*cont, names, scope);
            assert(lt == head + ct);
            assert forall|i: int| 0 <= i < 7 implies lt[i] == head[i] by {}
            let x = names[from as int];
            let (na1, peer) = intern_spec(names0, x);
            crate::parse::lemma_intern_props(names0, x);
            assert forall|j: int| 0 <= j < ct.len() implies ts.subrange(pos + 7, pos + kk)[j]
                == ct[j] by {
                assert(ts.subrange(pos, pos + kk)[7 + j] == lt[7 + j]);
                assert(ts.subrange(pos + 7, pos + kk)[j] == ts[pos + 7 + j]);
            }
            assert(ts.subrange(pos + 7, pos + kk) =~= ct);
            lemma_parse_print_l(ts, pos + 7, na1, *cont, names, scope);
            let (c2, p2, names1) = sp_local(ts, pos + 7, na1, scope).unwrap();
            assert(sp_local_msg(ts, pos, names0, scope, x) == Some(
                (
                    LocalView::Receive { from: peer, label, payload, cont: Box::new(c2) },
                    p2,
                    names1,
                ),
            ));
            assert(names_ext(names0, names1));
            assert(names1[peer as int] == x);
        },
        LocalView::InternalChoice { to, branches } => {
            let head = seq![TokenV::Ident(names[to as int]), TokenV::Plus, TokenV::LBrace];
            let bt = lbranch_tokens(*branches, names);
            lemma_lbtokens_props(*branches, names, scope);
            assert(lt == head + bt + seq![TokenV::RBrace]);
            assert forall|i: int| 0 <= i < 3 implies lt[i] == head[i] by {
                assert((head + bt)[i] == head[i]);
            }
            assert forall|i: int| 3 <= i < 3 + bt.len() implies lt[i] == bt[i - 3] by {
                assert((head + bt)[i] == bt[i - 3]);
            }
            assert(lt[kk - 1] == TokenV::RBrace);
            let x = names[to as int];
            let (na1, peer) = intern_spec(names0, x);
            crate::parse::lemma_intern_props(names0, x);
            assert forall|j: int| 0 <= j < bt.len() implies ts.subrange(
                pos + 3,
                pos + 3 + bt.len() as int,
            )[j] == bt[j] by {
                assert(ts.subrange(pos, pos + kk)[3 + j] == lt[3 + j]);
                assert(ts.subrange(pos + 3, pos + 3 + bt.len() as int)[j] == ts[pos + 3 + j]);
            }
            assert(ts.subrange(pos + 3, pos + 3 + bt.len() as int) =~= bt);
            assert(ts[pos + 3 + bt.len()] == TokenV::RBrace);
            lemma_parse_print_lb(ts, pos + 3, na1, *branches, names, scope);
            let (b2, p2, names1) = sp_lbranches(ts, pos + 3, na1, scope).unwrap();
            assert(p2 == pos + 3 + bt.len());
            assert(ts[p2] is RBrace);
            assert(sp_local_choice(ts, pos, names0, scope, x) == Some(
                (
                    LocalView::InternalChoice { to: peer, branches: Box::new(b2) },
                    p2 + 1,
                    names1,
                ),
            ));
            assert(names_ext(names0, names1));
            assert(names1[peer as int] == x);
        },
        LocalView::ExternalChoice { from, branches } => {
            let head = seq![TokenV::Ident(names[from as int]), TokenV::Amp, TokenV::LBrace];
            let bt = lbranch_tokens(*branches, names);
            lemma_lbtokens_props(*branches, names, scope);
            assert(lt == head + bt + seq![TokenV::RBrace]);
            assert forall|i: int| 0 <= i < 3 implies lt[i] == head[i] by {
                assert((head + bt)[i] == head[i]);
            }
            assert forall|i: int| 3 <= i < 3 + bt.len() implies lt[i] == bt[i - 3] by {
                assert((head + bt)[i] == bt[i - 3]);
            }
            assert(lt[kk - 1] == TokenV::RBrace);
            let x = names[from as int];
            let (na1, peer) = intern_spec(names0, x);
            crate::parse::lemma_intern_props(names0, x);
            assert forall|j: int| 0 <= j < bt.len() implies ts.subrange(
                pos + 3,
                pos + 3 + bt.len() as int,
            )[j] == bt[j] by {
                assert(ts.subrange(pos, pos + kk)[3 + j] == lt[3 + j]);
                assert(ts.subrange(pos + 3, pos + 3 + bt.len() as int)[j] == ts[pos + 3 + j]);
            }
            assert(ts.subrange(pos + 3, pos + 3 + bt.len() as int) =~= bt);
            assert(ts[pos + 3 + bt.len()] == TokenV::RBrace);
            lemma_parse_print_lb(ts, pos + 3, na1, *branches, names, scope);
            let (b2, p2, names1) = sp_lbranches(ts, pos + 3, na1, scope).unwrap();
            assert(p2 == pos + 3 + bt.len());
            assert(ts[p2] is RBrace);
            assert(sp_local_choice(ts, pos, names0, scope, x) == Some(
                (
                    LocalView::ExternalChoice { from: peer, branches: Box::new(b2) },
                    p2 + 1,
                    names1,
                ),
            ));
            assert(names_ext(names0, names1));
            assert(names1[peer as int] == x);
        },
    }
}

proof fn lemma_parse_print_lb(
    ts: Seq<TokenV>,
    pos: int,
    names0: Seq<Seq<char>>,
    b: LocalBranchesView,
    names: Seq<Seq<char>>,
    scope: Seq<Seq<char>>,
)
    requires
        wf_lbranches(b, names.len(), scope),
        distinct_seqs(l_labels(b)),
        distinct_seqs(names),
        forall|i: int| 0 <= i < names.len() ==> valid_ident(#[trigger] names[i]),
        0 <= pos,
        pos + lbranch_tokens(b, names).len() < ts.len(),
        ts.subrange(pos, pos + lbranch_tokens(b, names).len() as int) == lbranch_tokens(b, names),
        ts[pos + lbranch_tokens(b, names).len()] is RBrace,
    ensures
        sp_lbranches(ts, pos, names0, scope) matches Some((b2, p2, names1)) && {
            &&& p2 == pos + lbranch_tokens(b, names).len()
            &&& names_ext(names0, names1)
            &&& lb_nameq(b, names, b2, names1)
        },
    decreases b,
{
    let bt = lbranch_tokens(b, names);
    let kk = bt.len() as int;
    assert forall|i: int| 0 <= i < kk implies ts[pos + i] == bt[i] by {
        assert(ts.subrange(pos, pos + kk)[i] == ts[pos + i]);
    }
    match b {
        LocalBranchesView::Last { label, body } => {
            let head = seq![TokenV::Ident(label), TokenV::Colon];
            let lt = local_tokens(body, names);
            lemma_ltokens_props(body, names, scope);
            assert(bt == head + lt);
            assert(bt[0] == TokenV::Ident(label) && bt[1] == TokenV::Colon);
            assert forall|j: int| 0 <= j < lt.len() implies ts.subrange(pos + 2, pos + kk)[j]
                == lt[j] by {
                assert(ts.subrange(pos, pos + kk)[2 + j] == bt[2 + j]);
                assert(ts.subrange(pos + 2, pos + kk)[j] == ts[pos + 2 + j]);
            }
            assert(ts.subrange(pos + 2, pos + kk) =~= lt);
            assert(l_follower_ok(ts, pos + kk));
            lemma_parse_print_l(ts, pos + 2, names0, body, names, scope);
            let (g2, p2, names1) = sp_local(ts, pos + 2, names0, scope).unwrap();
            assert(p2 == pos + kk);
            assert(p2 > pos + 2);
            assert(!(ts[p2] is Comma));
        },
        LocalBranchesView::More { label, body, rest } => {
            let head = seq![TokenV::Ident(label), TokenV::Colon];
            let lt = local_tokens(body, names);
            let rt = lbranch_tokens(*rest, names);
            lemma_ltokens_props(body, names, scope);
            lemma_lbtokens_props(*rest, names, scope);
            assert(bt == head + lt + seq![TokenV::Comma] + rt);
            assert forall|i: int| 0 <= i < 2 implies bt[i] == head[i] by {
                assert(((head + lt) + seq![TokenV::Comma])[i] == (head + lt)[i]);
                assert((head + lt)[i] == head[i]);
            }
            assert forall|i: int| 2 <= i < 2 + lt.len() implies bt[i] == lt[i - 2] by {
                assert(((head + lt) + seq![TokenV::Comma])[i] == (head + lt)[i]);
                assert((head + lt)[i] == lt[i - 2]);
            }
            assert(bt[2 + lt.len() as int] == TokenV::Comma) by {
                assert(((head + lt) + seq![TokenV::Comma])[2 + lt.len() as int] == TokenV::Comma);
            }
            assert forall|i: int| 3 + lt.len() <= i < kk implies bt[i] == rt[i - 3 - lt.len()] by {}
            assert forall|j: int| 0 <= j < lt.len() implies ts.subrange(
                pos + 2,
                pos + 2 + lt.len() as int,
            )[j] == lt[j] by {
                assert(ts.subrange(pos, pos + kk)[2 + j] == bt[2 + j]);
                assert(ts.subrange(pos + 2, pos + 2 + lt.len() as int)[j] == ts[pos + 2 + j]);
            }
            assert(ts.subrange(pos + 2, pos + 2 + lt.len() as int) =~= lt);
            assert(ts[pos + 2 + lt.len()] == TokenV::Comma);
            lemma_parse_print_l(ts, pos + 2, names0, body, names, scope);
            let (g2, p2, namesa) = sp_local(ts, pos + 2, names0, scope).unwrap();
            assert(p2 == pos + 2 + lt.len());
            assert(p2 > pos + 2);
            assert(ts[p2] is Comma);
            assert forall|j: int| 0 <= j < rt.len() implies ts.subrange(p2 + 1, pos + kk)[j]
                == rt[j] by {
                assert(ts.subrange(pos, pos + kk)[3 + lt.len() + j] == bt[3 + lt.len() + j]);
                assert(bt[3 + lt.len() + j] == rt[j]);
                assert(ts.subrange(p2 + 1, pos + kk)[j] == ts[p2 + 1 + j]);
            }
            assert(ts.subrange(p2 + 1, pos + kk) =~= rt);
            assert(ts[pos + kk] is RBrace);
            let rl = l_labels(*rest);
            assert forall|i: int, j: int| 0 <= i < j < rl.len() implies rl[i] != rl[j] by {
                assert(l_labels(b)[i + 1] == rl[i]);
                assert(l_labels(b)[j + 1] == rl[j]);
            }
            lemma_parse_print_lb(ts, p2 + 1, namesa, *rest, names, scope);
            let (r2, p3, names1) = sp_lbranches(ts, p2 + 1, namesa, scope).unwrap();
            assert(p3 == pos + kk);
            lemma_lb_nameq_labels(*rest, names, r2, names1);
            assert(l_labels(r2) == rl);
            assert forall|i: int| 0 <= i < rl.len() implies rl[i] != label by {
                assert(l_labels(b)[0] == label);
                assert(l_labels(b)[i + 1] == rl[i]);
            }
            assert(!l_labels(r2).contains(label)) by {
                if l_labels(r2).contains(label) {
                    let i = choose|i: int|
                        0 <= i < l_labels(r2).len() && l_labels(r2)[i] == label;
                    assert(rl[i] == label);
                }
            }
            lemma_l_nameq_ext(body, names, g2, namesa, names1);
            assert(names_ext(names0, names1));
        },
    }
}

/// Printing a closed, well-formed local type with its registry and parsing
/// the text again succeeds and recovers the tree, up to the renaming of
/// role identifiers.
pub proof fn lemma_local_round_trip(l: LocalView, names: Seq<Seq<char>>)
    requires
        wf_local(l, names.len(), Seq::<Seq<char>>::empty()),
        distinct_seqs(names),
        forall|i: int| 0 <= i < names.len() ==> valid_ident(#[trigger] names[i]),
    ensures
        sp_parse_local(local_text(l, names)) matches Some((l2, names2)) && l_nameq(
            l,
            names,
            l2,
            names2,
        ),
{
    let sc = Seq::<Seq<char>>::empty();
    let lt = local_tokens(l, names);
    lemma_ltokens_props(l, names, sc);
    lemma_lex_render(lt);
    assert(sp_lex(local_text(l, names)) == Some(lt));
    assert(lt.subrange(0, lt.len() as int) =~= lt);
    lemma_parse_print_l(lt, 0, Seq::<Seq<char>>::empty(), l, names, sc);
}

} // verus!
