//! Printing: every tree renders back into the grammar's concrete syntax.
//! `global_tokens` / `local_tokens` give the token sequence, `render` the
//! text; the executable printers are proved to produce exactly that text.
use vstd::prelude::*;

use crate::ast::{
    GlobalBranches, GlobalBranchesView, GlobalType, GlobalView, LocalBranches, LocalBranchesView,
    LocalType, LocalView,
};
use crate::lex::{render, render_tokens, tok_view, toks_view, Token, TokenV};
use crate::roles::RoleRegistry;

verus! {

// ---------------------------------------------------------------------------
// Every role identifier must have a name in the registry that prints it.
// ---------------------------------------------------------------------------

pub open spec fn g_roles_ok(g: GlobalView, n: nat) -> bool
    decreases g,
{
    match g {
        GlobalView::End => true,
        GlobalView::Interaction { from, to, cont, .. } => from < n && to < n && g_roles_ok(
            *cont,
            n,
        ),
        GlobalView::Choice { from, to, branches } => from < n && to < n && gb_roles_ok(
            *branches,
            n,
        ),
        GlobalView::RecDef { body, .. } => g_roles_ok(*body, n),
        GlobalView::RecVar { .. } => true,
    }
}

pub open spec fn gb_roles_ok(b: GlobalBranchesView, n: nat) -> bool
    decreases b,
{
    match b {
        GlobalBranchesView::Last { body, .. } => g_roles_ok(body, n),
        GlobalBranchesView::More { body, rest, .. } => g_roles_ok(body, n) && gb_roles_ok(
            *rest,
            n,
        ),
    }
}

pub open spec fn l_roles_ok(l: LocalView, n: nat) -> bool
    decreases l,
{
    match l {
        LocalView::End => true,
        LocalView::Send { to, cont, .. } => to < n && l_roles_ok(*cont, n),
        LocalView::Receive { from, cont, .. } => from < n && l_roles_ok(*cont, n),
        LocalView::InternalChoice { to, branches } => to < n && lb_roles_ok(*branches, n),
        LocalView::ExternalChoice { from, branches } => from < n && lb_roles_ok(*branches, n),
        LocalView::RecDef { body, .. } => l_roles_ok(*body, n),
        LocalView::RecVar { .. } => true,
    }
}

pub open spec fn lb_roles_ok(b: LocalBranchesView, n: nat) -> bool
    decreases b,
{
    match b {
        LocalBranchesView::Last { body, .. } => l_roles_ok(body, n),
        LocalBranchesView::More { body, rest, .. } => l_roles_ok(body, n) && lb_roles_ok(
            *rest,
            n,
        ),
    }
}

// ---------------------------------------------------------------------------
// The token sequence a tree prints to.
// ---------------------------------------------------------------------------

pub open spec fn global_tokens(g: GlobalView, names: Seq<Seq<char>>) -> Seq<TokenV>
    decreases g,
{
    match g {
        GlobalView::End => seq![TokenV::KwEnd],
        GlobalView::Interaction { from, to, label, payload, cont } => seq![
            TokenV::Ident(names[from as int]),
            TokenV::Arrow,
            TokenV::Ident(names[to as int]),
            TokenV::Colon,
            TokenV::Ident(label),
            TokenV::LParen,
            TokenV::Ident(payload),
            TokenV::RParen,
            TokenV::Dot,
        ] + global_tokens(*cont, names),
        GlobalView::Choice { from, to, branches } => seq![
            TokenV::Ident(names[from as int]),
            TokenV::Arrow,
            TokenV::Ident(names[to as int]),
            TokenV::Colon,
            TokenV::LBrace,
        ] + gbranch_tokens(*branches, names) + seq![TokenV::RBrace],
        GlobalView::RecDef { var, body } => seq![TokenV::KwRec, TokenV::Ident(var), TokenV::Dot]
            + global_tokens(*body, names),
        GlobalView::RecVar { var } => seq![TokenV::Ident(var)],
    }
}

pub open spec fn gbranch_tokens(b: GlobalBranchesView, names: Seq<Seq<char>>) -> Seq<TokenV>
    decreases b,
{
    match b {
        GlobalBranchesView::Last { label, body } => seq![TokenV::Ident(label), TokenV::Colon]
            + global_tokens(body, names),
        GlobalBranchesView::More { label, body, rest } => seq![
            TokenV::Ident(label),
            TokenV::Colon,
        ] + global_tokens(body, names) + seq![TokenV::Comma] + gbranch_tokens(*rest, names),
    }
}

pub open spec fn local_tokens(l: LocalView, names: Seq<Seq<char>>) -> Seq<TokenV>
    decreases l,
{
    match l {
        LocalView::End => seq![TokenV::KwEnd],
        LocalView::Send { to, label, payload, cont } => seq![
            TokenV::Ident(names[to as int]),
            TokenV::Bang,
            TokenV::Ident(label),
            TokenV::LParen,
            TokenV::Ident(payload),
            TokenV::RParen,
            TokenV::Dot,
        ] + local_tokens(*cont, names),
        LocalView::Receive { from, label, payload, cont } => seq![
            TokenV::Ident(names[from as int]),
            TokenV::Query,
            TokenV::Ident(label),
            TokenV::LParen,
            TokenV::Ident(payload),
            TokenV::RParen,
            TokenV::Dot,
        ] + local_tokens(*cont, names),
        LocalView::InternalChoice { to, branches } => seq![
            TokenV::Ident(names[to as int]),
            TokenV::Plus,
            TokenV::LBrace,
        ] + lbranch_tokens(*branches, names) + seq![TokenV::RBrace],
        LocalView::ExternalChoice { from, branches } => seq![
            TokenV::Ident(names[from as int]),
            TokenV::Amp,
            TokenV::LBrace,
        ] + lbranch_tokens(*branches, names) + seq![TokenV::RBrace],
        LocalView::RecDef { var, body } => seq![TokenV::KwRec, TokenV::Ident(var), TokenV::Dot]
            + local_tokens(*body, names),
        LocalView::RecVar { var } => seq![TokenV::Ident(var)],
    }
}

pub open spec fn lbranch_tokens(b: LocalBranchesView, names: Seq<Seq<char>>) -> Seq<TokenV>
    decreases b,
{
    match b {
        LocalBranchesView::Last { label, body } => seq![TokenV::Ident(label), TokenV::Colon]
            + local_tokens(body, names),
        LocalBranchesView::More { label, body, rest } => seq![
            TokenV::Ident(label),
            TokenV::Colon,
        ] + local_tokens(body, names) + seq![TokenV::Comma] + lbranch_tokens(*rest, names),
    }
}

/// The canonical text of a global type.
pub open spec fn global_text(g: GlobalView, names: Seq<Seq<char>>) -> Seq<char> {
    render(global_tokens(g, names))
}

/// The canonical text of a local type.
pub open spec fn local_text(l: LocalView, names: Seq<Seq<char>>) -> Seq<char> {
    render(local_tokens(l, names))
}

pub broadcast proof fn lemma_toks_view_push(s: Seq<Token>, t: Token)
    ensures
        #[trigger] toks_view(s.push(t)) == toks_view(s).push(tok_view(t)),
{
    assert(toks_view(s.push(t)) =~= toks_view(s).push(tok_view(t)));
}

// ---------------------------------------------------------------------------
// Executable printers.
// ---------------------------------------------------------------------------

#[verifier::rlimit(60)]
fn push_global(g: &GlobalType, reg: &RoleRegistry, out: &mut Vec<Token>)
    requires
        g_roles_ok(g@, reg@.len()),
    ensures
        toks_view(final(out)@) == toks_view(old(out)@) + global_tokens(g@, reg@),
    decreases g,
{
    match g {
        GlobalType::End => {
            out.push(Token::KwEnd);
            proof {
                assert(toks_view(out@) =~= toks_view(old(out)@) + global_tokens(g@, reg@));
            }
        },
        GlobalType::Interaction { from, to, label, payload, cont } => {
            out.push(Token::Ident(reg.name_of(*from).to_owned()));
            out.push(Token::Arrow);
            out.push(Token::Ident(reg.name_of(*to).to_owned()));
            out.push(Token::Colon);
            out.push(Token::Ident(label.clone()));
            out.push(Token::LParen);
            out.push(Token::Ident(payload.clone()));
            out.push(Token::RParen);
            out.push(Token::Dot);
            push_global(cont, reg, out);
            proof {
                assert(toks_view(out@) =~= toks_view(old(out)@) + global_tokens(g@, reg@));
            }
        },
        GlobalType::Choice { from, to, branches } => {
            out.push(Token::Ident(reg.name_of(*from).to_owned()));
            out.push(Token::Arrow);
            out.push(Token::Ident(reg.name_of(*to).to_owned()));
            out.push(Token::Colon);
            out.push(Token::LBrace);
            let ghost mid = out@;
            push_gbranches(branches, reg, out);
            out.push(Token::RBrace);
            proof {
                broadcast use lemma_toks_view_push;

                assert(toks_view(mid) =~= toks_view(old(out)@) + seq![
                    TokenV::Ident(reg@[from.id as int]),
                    TokenV::Arrow,
                    TokenV::Ident(reg@[to.id as int]),
                    TokenV::Colon,
                    TokenV::LBrace,
                ]);
                assert(toks_view(out@) =~= toks_view(old(out)@) + global_tokens(g@, reg@));
            }
        },
        GlobalType::RecDef { var, body } => {
            out.push(Token::KwRec);
            out.push(Token::Ident(var.clone()));
            out.push(Token::Dot);
            push_global(body, reg, out);
            proof {
                assert(toks_view(out@) =~= toks_view(old(out)@) + global_tokens(g@, reg@));
            }
        },
        GlobalType::RecVar { var } => {
            out.push(Token::Ident(var.clone()));
            proof {
                assert(toks_view(out@) =~= toks_view(old(out)@) + global_tokens(g@, reg@));
            }
        },
    }
}

#[verifier::rlimit(60)]
fn push_gbranches(b: &GlobalBranches, reg: &RoleRegistry, out: &mut Vec<Token>)
    requires
        gb_roles_ok(b@, reg@.len()),
    ensures
        toks_view(final(out)@) == toks_view(old(out)@) + gbranch_tokens(b@, reg@),
    decreases b,
{
    match b {
        GlobalBranches::Last { label, body } => {
            out.push(Token::Ident(label.clone()));
            out.push(Token::Colon);
            push_global(body, reg, out);
            proof {
                assert(toks_view(out@) =~= toks_view(old(out)@) + gbranch_tokens(b@, reg@));
            }
        },
        GlobalBranches::More { label, body, rest } => {
            out.push(Token::Ident(label.clone()));
            out.push(Token::Colon);
            let ghost mid = out@;
            push_global(body, reg, out);
            out.push(Token::Comma);
            let ghost mid2 = out@;
            push_gbranches(rest, reg, out);
            proof {
                broadcast use lemma_toks_view_push;

                assert(toks_view(mid) =~= toks_view(old(out)@) + seq![
                    TokenV::Ident(label@),
                    TokenV::Colon,
                ]);
                assert(toks_view(mid2) == (toks_view(old(out)@) + seq![
                    TokenV::Ident(label@),
                    TokenV::Colon,
                ] + global_tokens(body@, reg@)).push(TokenV::Comma));
                assert(toks_view(out@) =~= toks_view(old(out)@) + gbranch_tokens(b@, reg@));
            }
        },
    }
}

#[verifier::rlimit(60)]
fn push_local(l: &LocalType, reg: &RoleRegistry, out: &mut Vec<Token>)
    requires
        l_roles_ok(l@, reg@.len()),
    ensures
        toks_view(final(out)@) == toks_view(old(out)@) + local_tokens(l@, reg@),
    decreases l,
{
    match l {
        LocalType::End => {
            out.push(Token::KwEnd);
            proof {
                assert(toks_view(out@) =~= toks_view(old(out)@) + local_tokens(l@, reg@));
            }
        },
        LocalType::Send { to, label, payload, cont } => {
            out.push(Token::Ident(reg.name_of(*to).to_owned()));
            out.push(Token::Bang);
            out.push(Token::Ident(label.clone()));
            out.push(Token::LParen);
            out.push(Token::Ident(payload.clone()));
            out.push(Token::RParen);
            out.push(Token::Dot);
            let ghost mid = out@;
            push_local(cont, reg, out);
            proof {
                broadcast use lemma_toks_view_push;

                assert(toks_view(mid) =~= toks_view(old(out)@) + seq![
                    TokenV::Ident(reg@[to.id as int]),
                    TokenV::Bang,
                    TokenV::Ident(label@),
                    TokenV::LParen,
                    TokenV::Ident(payload@),
                    TokenV::RParen,
                    TokenV::Dot,
                ]);
                assert(toks_view(out@) =~= toks_view(old(out)@) + local_tokens(l@, reg@));
            }
        },
        LocalType::Receive { from, label, payload, cont } => {
            out.push(Token::Ident(reg.name_of(*from).to_owned()));
            out.push(Token::Query);
            out.push(Token::Ident(label.clone()));
            out.push(Token::LParen);
            out.push(Token::Ident(payload.clone()));
            out.push(Token::RParen);
            out.push(Token::Dot);
            let ghost mid = out@;
            push_local(cont, reg, out);
            proof {
                broadcast use lemma_toks_view_push;

                assert(toks_view(mid) =~= toks_view(old(out)@) + seq![
                    TokenV::Ident(reg@[from.id as int]),
                    TokenV::Query,
                    TokenV::Ident(label@),
                    TokenV::LParen,
                    TokenV::Ident(payload@),
                    TokenV::RParen,
                    TokenV::Dot,
                ]);
                assert(toks_view(out@) =~= toks_view(old(out)@) + local_tokens(l@, reg@));
            }
        },
        LocalType::InternalChoice { to, branches } => {
            out.push(Token::Ident(reg.name_of(*to).to_owned()));
            out.push(Token::Plus);
            out.push(Token::LBrace);
            let ghost mid = out@;
            push_lbranches(branches, reg, out);
            out.push(Token::RBrace);
            proof {
                broadcast use lemma_toks_view_push;

                assert(toks_view(mid) =~= toks_view(old(out)@) + seq![
                    TokenV::Ident(reg@[to.id as int]),
                    TokenV::Plus,
                    TokenV::LBrace,
                ]);
                assert(toks_view(out@) =~= toks_view(old(out)@) + local_tokens(l@, reg@));
            }
        },
        LocalType::ExternalChoice { from, branches } => {
            out.push(Token::Ident(reg.name_of(*from).to_owned()));
            out.push(Token::Amp);
            out.push(Token::LBrace);
            let ghost mid = out@;
            push_lbranches(branches, reg, out);
            out.push(Token::RBrace);
            proof {
                broadcast use lemma_toks_view_push;

                assert(toks_view(mid) =~= toks_view(old(out)@) + seq![
                    TokenV::Ident(reg@[from.id as int]),
                    TokenV::Amp,
                    TokenV::LBrace,
                ]);
                assert(toks_view(out@) =~= toks_view(old(out)@) + local_tokens(l@, reg@));
            }
        },
        LocalType::RecDef { var, body } => {
            out.push(Token::KwRec);
            out.push(Token::Ident(var.clone()));
            out.push(Token::Dot);
            push_local(body, reg, out);
            proof {
                assert(toks_view(out@) =~= toks_view(old(out)@) + local_tokens(l@, reg@));
            }
        },
        LocalType::RecVar { var } => {
            out.push(Token::Ident(var.clone()));
            proof {
                assert(toks_view(out@) =~= toks_view(old(out)@) + local_tokens(l@, reg@));
            }
        },
    }
}

#[verifier::rlimit(60)]
fn push_lbranches(b: &LocalBranches, reg: &RoleRegistry, out: &mut Vec<Token>)
    requires
        lb_roles_ok(b@, reg@.len()),
    ensures
        toks_view(final(out)@) == toks_view(old(out)@) + lbranch_tokens(b@, reg@),
    decreases b,
{
    match b {
        LocalBranches::Last { label, body } => {
            out.push(Token::Ident(label.clone()));
            out.push(Token::Colon);
            push_local(body, reg, out);
            proof {
                assert(toks_view(out@) =~= toks_view(old(out)@) + lbranch_tokens(b@, reg@));
            }
        },
        LocalBranches::More { label, body, rest } => {
            out.push(Token::Ident(label.clone()));
            out.push(Token::Colon);
            let ghost mid = out@;
            push_local(body, reg, out);
            out.push(Token::Comma);
            let ghost mid2 = out@;
            push_lbranches(rest, reg, out);
            proof {
                broadcast use lemma_toks_view_push;

                assert(toks_view(mid) =~= toks_view(old(out)@) + seq![
                    TokenV::Ident(label@),
                    TokenV::Colon,
                ]);
                assert(toks_view(mid2) == (toks_view(old(out)@) + seq![
                    TokenV::Ident(label@),
                    TokenV::Colon,
                ] + local_tokens(body@, reg@)).push(TokenV::Comma));
                assert(toks_view(out@) =~= toks_view(old(out)@) + lbranch_tokens(b@, reg@));
            }
        },
    }
}

/// Renders a global type into the grammar's concrete syntax, writing each
/// role as its canonical name.
pub fn to_text_global(g: &GlobalType, reg: &RoleRegistry) -> (r: String)
    requires
        g_roles_ok(g@, reg@.len()),
    ensures
        r@ == global_text(g@, reg@),
{
    let mut toks: Vec<Token> = Vec::new();
    push_global(g, reg, &mut toks);
    proof {
        assert(toks_view(toks@) =~= global_tokens(g@, reg@));
    }
    render_tokens(&toks)
}

/// Renders a local type into the grammar's concrete syntax.
pub fn to_text_local(l: &LocalType, reg: &RoleRegistry) -> (r: String)
    requires
        l_roles_ok(l@, reg@.len()),
    ensures
        r@ == local_text(l@, reg@),
{
    let mut toks: Vec<Token> = Vec::new();
    push_local(l, reg, &mut toks);
    proof {
        assert(toks_view(toks@) =~= local_tokens(l@, reg@));
    }
    render_tokens(&toks)
}

} // verus!

verus! {

/// Does every role identifier in this global type have a name in `reg`?
/// Holds of every tree a parse returned together with `reg`.
pub fn roles_ok_global(g: &GlobalType, reg: &RoleRegistry) -> (r: bool)
    ensures
        r == g_roles_ok(g@, reg@.len()),
    decreases g,
{
    match g {
        GlobalType::End => true,
        GlobalType::Interaction { from, to, cont, .. } => from.id < reg.len() && to.id < reg.len()
            && roles_ok_global(cont, reg),
        GlobalType::Choice { from, to, branches } => from.id < reg.len() && to.id < reg.len()
            && roles_ok_gbranches(branches, reg),
        GlobalType::RecDef { body, .. } => roles_ok_global(body, reg),
        GlobalType::RecVar { .. } => true,
    }
}

fn roles_ok_gbranches(b: &GlobalBranches, reg: &RoleRegistry) -> (r: bool)
    ensures
        r == gb_roles_ok(b@, reg@.len()),
    decreases b,
{
    match b {
        GlobalBranches::Last { body, .. } => roles_ok_global(body, reg),
        GlobalBranches::More { body, rest, .. } => roles_ok_global(body, reg)
            && roles_ok_gbranches(rest, reg),
    }
}

/// The local counterpart of `roles_ok_global`.
pub fn roles_ok_local(l: &LocalType, reg: &RoleRegistry) -> (r: bool)
    ensures
        r == l_roles_ok(l@, reg@.len()),
    decreases l,
{
    match l {
        LocalType::End => true,
        LocalType::Send { to, cont, .. } => to.id < reg.len() && roles_ok_local(cont, reg),
        LocalType::Receive { from, cont, .. } => from.id < reg.len() && roles_ok_local(cont, reg),
        LocalType::InternalChoice { to, branches } => to.id < reg.len() && roles_ok_lbranches(
            branches,
            reg,
        ),
        LocalType::ExternalChoice { from, branches } => from.id < reg.len() && roles_ok_lbranches(
            branches,
            reg,
        ),
        LocalType::RecDef { body, .. } => roles_ok_local(body, reg),
        LocalType::RecVar { .. } => true,
    }
}

fn roles_ok_lbranches(b: &LocalBranches, reg: &RoleRegistry) -> (r: bool)
    ensures
        r == lb_roles_ok(b@, reg@.len()),
    decreases b,
{
    match b {
        LocalBranches::Last { body, .. } => roles_ok_local(body, reg),
        LocalBranches::More { body, rest, .. } => roles_ok_local(body, reg) && roles_ok_lbranches(
            rest,
            reg,
        ),
    }
}

} // verus!

verus! {

/// Well-formedness bounds every role identifier, so a well-formed tree is
/// printable against its registry.
pub proof fn lemma_wf_global_roles_ok(g: GlobalView, n: nat, scope: Seq<Seq<char>>)
    requires
        crate::ast::wf_global(g, n, scope),
    ensures
        g_roles_ok(g, n),
    decreases g,
{
    match g {
        GlobalView::Interaction { cont, .. } => {
            lemma_wf_global_roles_ok(*cont, n, scope);
        },
        GlobalView::Choice { branches, .. } => {
            lemma_wf_gbranches_roles_ok(*branches, n, scope);
        },
        GlobalView::RecDef { var, body } => {
            lemma_wf_global_roles_ok(*body, n, scope.push(var));
        },
        _ => {},
    }
}

proof fn lemma_wf_gbranches_roles_ok(b: GlobalBranchesView, n: nat, scope: Seq<Seq<char>>)
    requires
        crate::ast::wf_gbranches(b, n, scope),
    ensures
        gb_roles_ok(b, n),
    decreases b,
{
    match b {
        GlobalBranchesView::Last { body, .. } => {
            lemma_wf_global_roles_ok(body, n, scope);
        },
        GlobalBranchesView::More { body, rest, .. } => {
            lemma_wf_global_roles_ok(body, n, scope);
            lemma_wf_gbranches_roles_ok(*rest, n, scope);
        },
    }
}

/// The local counterpart of `lemma_wf_global_roles_ok`.
pub proof fn lemma_wf_local_roles_ok(l: LocalView, n: nat, scope: Seq<Seq<char>>)
    requires
        crate::ast::wf_local(l, n, scope),
    ensures
        l_roles_ok(l, n),
    decreases l,
{
    match l {
        LocalView::Send { cont, .. } => {
            lemma_wf_local_roles_ok(*cont, n, scope);
        },
        LocalView::Receive { cont, .. } => {
            lemma_wf_local_roles_ok(*cont, n, scope);
        },
        LocalView::InternalChoice { branches, .. } => {
            lemma_wf_lbranches_roles_ok(*branches, n, scope);
        },
        LocalView::ExternalChoice { branches, .. } => {
            lemma_wf_lbranches_roles_ok(*branches, n, scope);
        },
        LocalView::RecDef { var, body } => {
            lemma_wf_local_roles_ok(*body, n, scope.push(var));
        },
        _ => {},
    }
}

proof fn lemma_wf_lbranches_roles_ok(b: LocalBranchesView, n: nat, scope: Seq<Seq<char>>)
    requires
        crate::ast::wf_lbranches(b, n, scope),
    ensures
        lb_roles_ok(b, n),
    decreases b,
{
    match b {
        LocalBranchesView::Last { body, .. } => {
            lemma_wf_local_roles_ok(body, n, scope);
        },
        LocalBranchesView::More { body, rest, .. } => {
            lemma_wf_local_roles_ok(body, n, scope);
            lemma_wf_lbranches_roles_ok(*rest, n, scope);
        },
    }
}

} // verus!
