//! Abstract syntax for global and local session types, with their
//! mathematical views and well-formedness predicates.
use vstd::prelude::*;

verus! {

/// A protocol participant. Equality is by identifier; the canonical name
/// lives in the `RoleRegistry` that issued the identifier.
#[derive(Clone, Copy, PartialEq, Eq, Structural, Debug)]
pub struct Role {
    pub id: usize,
}

/// Whole-protocol view: the recursive global type.
#[derive(Debug)]
pub enum GlobalType {
    /// The protocol terminates.
    End,
    /// A point-to-point message `from -> to : label ( payload ) . cont`.
    Interaction { from: Role, to: Role, label: String, payload: String, cont: Box<GlobalType> },
    /// `from` selects one labelled branch; `from -> to : { l : G , ... }`.
    Choice { from: Role, to: Role, branches: Box<GlobalBranches> },
    /// A named fixpoint `rec var . body`.
    RecDef { var: String, body: Box<GlobalType> },
    /// A reference back to an enclosing `RecDef` with the same name.
    RecVar { var: String },
}

/// A non-empty ordered list of labelled global branches.
#[derive(Debug)]
pub enum GlobalBranches {
    Last { label: String, body: GlobalType },
    More { label: String, body: GlobalType, rest: Box<GlobalBranches> },
}

/// One role's view: the recursive local type.
#[derive(Debug)]
pub enum LocalType {
    End,
    /// Send `to ! label ( payload ) . cont`.
    Send { to: Role, label: String, payload: String, cont: Box<LocalType> },
    /// Receive `from ? label ( payload ) . cont`.
    Receive { from: Role, label: String, payload: String, cont: Box<LocalType> },
    /// The projected role is the selector: `to + { l : L , ... }`.
    InternalChoice { to: Role, branches: Box<LocalBranches> },
    /// The projected role is offered the branches: `from & { l : L , ... }`.
    ExternalChoice { from: Role, branches: Box<LocalBranches> },
    RecDef { var: String, body: Box<LocalType> },
    RecVar { var: String },
}

/// A non-empty ordered list of labelled local branches.
#[derive(Debug)]
pub enum LocalBranches {
    Last { label: String, body: LocalType },
    More { label: String, body: LocalType, rest: Box<LocalBranches> },
}

// ---------------------------------------------------------------------------
// Mathematical views: the same trees over `nat` role identifiers and
// `Seq<char>` names, used by every contract.
// ---------------------------------------------------------------------------

pub enum GlobalView {
    End,
    Interaction { from: nat, to: nat, label: Seq<char>, payload: Seq<char>, cont: Box<GlobalView> },
    Choice { from: nat, to: nat, branches: Box<GlobalBranchesView> },
    RecDef { var: Seq<char>, body: Box<GlobalView> },
    RecVar { var: Seq<char> },
}

pub enum GlobalBranchesView {
    Last { label: Seq<char>, body: GlobalView },
    More { label: Seq<char>, body: GlobalView, rest: Box<GlobalBranchesView> },
}

pub enum LocalView {
    End,
    Send { to: nat, label: Seq<char>, payload: Seq<char>, cont: Box<LocalView> },
    Receive { from: nat, label: Seq<char>, payload: Seq<char>, cont: Box<LocalView> },
    InternalChoice { to: nat, branches: Box<LocalBranchesView> },
    ExternalChoice { from: nat, branches: Box<LocalBranchesView> },
    RecDef { var: Seq<char>, body: Box<LocalView> },
    RecVar { var: Seq<char> },
}

pub enum LocalBranchesView {
    Last { label: Seq<char>, body: LocalView },
    More { label: Seq<char>, body: LocalView, rest: Box<LocalBranchesView> },
}

pub open spec fn gview(g: GlobalType) -> GlobalView
    decreases g,
{
    match g {
        GlobalType::End => GlobalView::End,
        GlobalType::Interaction { from, to, label, payload, cont } => GlobalView::Interaction {
            from: from.id as nat,
            to: to.id as nat,
            label: label@,
            payload: payload@,
            cont: Box::new(gview(*cont)),
        },
        GlobalType::Choice { from, to, branches } => GlobalView::Choice {
            from: from.id as nat,
            to: to.id as nat,
            branches: Box::new(gbview(*branches)),
        },
        GlobalType::RecDef { var, body } => GlobalView::RecDef {
            var: var@,
            body: Box::new(gview(*body)),
        },
        GlobalType::RecVar { var } => GlobalView::RecVar { var: var@ },
    }
}

pub open spec fn gbview(b: GlobalBranches) -> GlobalBranchesView
    decreases b,
{
    match b {
        GlobalBranches::Last { label, body } => GlobalBranchesView::Last {
            label: label@,
            body: gview(body),
        },
        GlobalBranches::More { label, body, rest } => GlobalBranchesView::More {
            label: label@,
            body: gview(body),
            rest: Box::new(gbview(*rest)),
        },
    }
}

pub open spec fn lview(l: LocalType) -> LocalView
    decreases l,
{
    match l {
        LocalType::End => LocalView::End,
        LocalType::Send { to, label, payload, cont } => LocalView::Send {
            to: to.id as nat,
            label: label@,
            payload: payload@,
            cont: Box::new(lview(*cont)),
        },
        LocalType::Receive { from, label, payload, cont } => LocalView::Receive {
            from: from.id as nat,
            label: label@,
            payload: payload@,
            cont: Box::new(lview(*cont)),
        },
        LocalType::InternalChoice { to, branches } => LocalView::InternalChoice {
            to: to.id as nat,
            branches: Box::new(lbview(*branches)),
        },
        LocalType::ExternalChoice { from, branches } => LocalView::ExternalChoice {
            from: from.id as nat,
            branches: Box::new(lbview(*branches)),
        },
        LocalType::RecDef { var, body } => LocalView::RecDef {
            var: var@,
            body: Box::new(lview(*body)),
        },
        LocalType::RecVar { var } => LocalView::RecVar { var: var@ },
    }
}

pub open spec fn lbview(b: LocalBranches) -> LocalBranchesView
    decreases b,
{
    match b {
        LocalBranches::Last { label, body } => LocalBranchesView::Last {
            label: label@,
            body: lview(body),
        },
        LocalBranches::More { label, body, rest } => LocalBranchesView::More {
            label: label@,
            body: lview(body),
            rest: Box::new(lbview(*rest)),
        },
    }
}

impl View for GlobalType {
    type V = GlobalView;

    open spec fn view(&self) -> GlobalView {
        gview(*self)
    }
}

impl View for GlobalBranches {
    type V = GlobalBranchesView;

    open spec fn view(&self) -> GlobalBranchesView {
        gbview(*self)
    }
}

impl View for LocalType {
    type V = LocalView;

    open spec fn view(&self) -> LocalView {
        lview(*self)
    }
}

impl View for LocalBranches {
    type V = LocalBranchesView;

    open spec fn view(&self) -> LocalBranchesView {
        lbview(*self)
    }
}

// ---------------------------------------------------------------------------
// Identifiers of the surface grammar: role names, labels, payload-type
// names and recursion variables are all non-empty words of identifier
// characters that are not keywords.
// ---------------------------------------------------------------------------

pub open spec fn is_ident_char(c: char) -> bool {
    let u = c as u32;
    (97 <= u && u <= 122) || (65 <= u && u <= 90) || (48 <= u && u <= 57) || u == 95
}

pub open spec fn kw_end() -> Seq<char> {
    seq!['e', 'n', 'd']
}

pub open spec fn kw_rec() -> Seq<char> {
    seq!['r', 'e', 'c']
}

pub open spec fn valid_ident(s: Seq<char>) -> bool {
    &&& s.len() > 0
    &&& forall|i: int| 0 <= i < s.len() ==> is_ident_char(#[trigger] s[i])
    &&& s != kw_end()
    &&& s != kw_rec()
}

// ---------------------------------------------------------------------------
// Labels of a branch list and their uniqueness.
// ---------------------------------------------------------------------------

pub open spec fn g_labels(b: GlobalBranchesView) -> Seq<Seq<char>>
    decreases b,
{
    match b {
        GlobalBranchesView::Last { label, .. } => seq![label],
        GlobalBranchesView::More { label, rest, .. } => seq![label] + g_labels(*rest),
    }
}

pub open spec fn l_labels(b: LocalBranchesView) -> Seq<Seq<char>>
    decreases b,
{
    match b {
        LocalBranchesView::Last { label, .. } => seq![label],
        LocalBranchesView::More { label, rest, .. } => seq![label] + l_labels(*rest),
    }
}

pub open spec fn distinct_seqs(s: Seq<Seq<char>>) -> bool {
    forall|i: int, j: int| 0 <= i < j < s.len() ==> s[i] != s[j]
}

// ---------------------------------------------------------------------------
// Well-formedness: role identifiers lie below the registry's size, the two
// ends of an interaction or choice differ, every name is a valid identifier,
// labels within one choice are distinct, and every recursion variable is
// bound by an enclosing definition (`scope` holds the variables in scope).
// ---------------------------------------------------------------------------

pub open spec fn wf_global(g: GlobalView, nroles: nat, scope: Seq<Seq<char>>) -> bool
    decreases g,
{
    match g {
        GlobalView::End => true,
        GlobalView::Interaction { from, to, label, payload, cont } => {
            &&& from < nroles
            &&& to < nroles
            &&& from != to
            &&& valid_ident(label)
            &&& valid_ident(payload)
            &&& wf_global(*cont, nroles, scope)
        },
        GlobalView::Choice { from, to, branches } => {
            &&& from < nroles
            &&& to < nroles
            &&& from != to
            &&& distinct_seqs(g_labels(*branches))
            &&& wf_gbranches(*branches, nroles, scope)
        },
        GlobalView::RecDef { var, body } => {
            &&& valid_ident(var)
            &&& wf_global(*body, nroles, scope.push(var))
        },
        GlobalView::RecVar { var } => {
            &&& valid_ident(var)
            &&& scope.contains(var)
        },
    }
}

pub open spec fn wf_gbranches(b: GlobalBranchesView, nroles: nat, scope: Seq<Seq<char>>) -> bool
    decreases b,
{
    match b {
        GlobalBranchesView::Last { label, body } => {
            &&& valid_ident(label)
            &&& wf_global(body, nroles, scope)
        },
        GlobalBranchesView::More { label, body, rest } => {
            &&& valid_ident(label)
            &&& wf_global(body, nroles, scope)
            &&& wf_gbranches(*rest, nroles, scope)
        },
    }
}

pub open spec fn wf_local(l: LocalView, nroles: nat, scope: Seq<Seq<char>>) -> bool
    decreases l,
{
    match l {
        LocalView::End => true,
        LocalView::Send { to, label, payload, cont } => {
            &&& to < nroles
            &&& valid_ident(label)
            &&& valid_ident(payload)
            &&& wf_local(*cont, nroles, scope)
        },
        LocalView::Receive { from, label, payload, cont } => {
            &&& from < nroles
            &&& valid_ident(label)
            &&& valid_ident(payload)
            &&& wf_local(*cont, nroles, scope)
        },
        LocalView::InternalChoice { to, branches } => {
            &&& to < nroles
            &&& distinct_seqs(l_labels(*branches))
            &&& wf_lbranches(*branches, nroles, scope)
        },
        LocalView::ExternalChoice { from, branches } => {
            &&& from < nroles
            &&& distinct_seqs(l_labels(*branches))
            &&& wf_lbranches(*branches, nroles, scope)
        },
        LocalView::RecDef { var, body } => {
            &&& valid_ident(var)
            &&& wf_local(*body, nroles, scope.push(var))
        },
        LocalView::RecVar { var } => {
            &&& valid_ident(var)
            &&& scope.contains(var)
        },
    }
}

pub open spec fn wf_lbranches(b: LocalBranchesView, nroles: nat, scope: Seq<Seq<char>>) -> bool
    decreases b,
{
    match b {
        LocalBranchesView::Last { label, body } => {
            &&& valid_ident(label)
            &&& wf_local(body, nroles, scope)
        },
        LocalBranchesView::More { label, body, rest } => {
            &&& valid_ident(label)
            &&& wf_local(body, nroles, scope)
            &&& wf_lbranches(*rest, nroles, scope)
        },
    }
}

} // verus!
