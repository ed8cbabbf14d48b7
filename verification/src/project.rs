//! Endpoint projection: deriving one role's local type from a global type.
//! `project_view` is the defining specification; the executable `project`
//! is proved to return exactly what it says.
use vstd::prelude::*;

use crate::ast::{
    GlobalBranches, GlobalBranchesView, GlobalType, GlobalView, LocalBranches, LocalBranchesView,
    LocalType, LocalView, Role,
};

verus! {

/// The projection relation of multiparty session types, as a function.
/// `None` means projection is undefined for `r` at this point: that is a
/// legitimate outcome, not a fault.
pub open spec fn project_view(g: GlobalView, r: nat) -> Option<LocalView>
    decreases g,
{
    match g {
        GlobalView::End => Some(LocalView::End),
        GlobalView::Interaction { from, to, label, payload, cont } => {
            match project_view(*cont, r) {
                Some(pc) => if r == from {
                    Some(LocalView::Send { to, label, payload, cont: Box::new(pc) })
                } else if r == to {
                    Some(LocalView::Receive { from, label, payload, cont: Box::new(pc) })
                } else {
                    Some(pc)
                },
                None => None,
            }
        },
        GlobalView::Choice { from, to, branches } => {
            if r == from {
                match project_branches(*branches, r) {
                    Some(bs) => Some(LocalView::InternalChoice { to, branches: Box::new(bs) }),
                    None => None,
                }
            } else if r == to {
                match project_branches(*branches, r) {
                    Some(bs) => Some(LocalView::ExternalChoice { from, branches: Box::new(bs) }),
                    None => None,
                }
            } else {
                merge_branches(*branches, r)
            }
        },
        GlobalView::RecDef { var, body } => {
            match project_view(*body, r) {
                Some(pb) => if pb == LocalView::End {
                    Some(LocalView::End)
                } else {
                    Some(LocalView::RecDef { var, body: Box::new(pb) })
                },
                None => None,
            }
        },
        GlobalView::RecVar { var } => Some(LocalView::RecVar { var }),
    }
}

/// Projection of every branch of a choice the role takes part in; labels
/// and order are kept. `None` as soon as one branch has no projection.
pub open spec fn project_branches(b: GlobalBranchesView, r: nat) -> Option<LocalBranchesView>
    decreases b,
{
    match b {
        GlobalBranchesView::Last { label, body } => match project_view(body, r) {
            Some(pb) => Some(LocalBranchesView::Last { label, body: pb }),
            None => None,
        },
        GlobalBranchesView::More { label, body, rest } => {
            match (project_view(body, r), project_branches(*rest, r)) {
                (Some(pb), Some(pr)) => Some(
                    LocalBranchesView::More { label, body: pb, rest: Box::new(pr) },
                ),
                _ => None,
            }
        },
    }
}

/// Merge for a role not taking part in the choice: defined only when every
/// branch projects to one structurally identical local type, which is then
/// the result.
pub open spec fn merge_branches(b: GlobalBranchesView, r: nat) -> Option<LocalView>
    decreases b,
{
    match b {
        GlobalBranchesView::Last { label, body } => project_view(body, r),
        GlobalBranchesView::More { label, body, rest } => {
            match (project_view(body, r), merge_branches(*rest, r)) {
                (Some(p1), Some(p2)) => if p1 == p2 {
                    Some(p1)
                } else {
                    None
                },
                _ => None,
            }
        },
    }
}

pub open spec fn opt_lview(o: Option<LocalType>) -> Option<LocalView> {
    match o {
        Some(l) => Some(l@),
        None => None,
    }
}

/// Structural equality of local types, decided field by field.
pub fn local_eq(a: &LocalType, b: &LocalType) -> (r: bool)
    ensures
        r == (a@ == b@),
    decreases a,
{
    match a {
        LocalType::End => match b {
            LocalType::End => true,
            _ => false,
        },
        LocalType::Send { to: t1, label: l1, payload: p1, cont: c1 } => match b {
            LocalType::Send { to: t2, label: l2, payload: p2, cont: c2 } => *t1 == *t2 && *l1 == *l2
                && *p1 == *p2 && local_eq(c1, c2),
            _ => false,
        },
        LocalType::Receive { from: f1, label: l1, payload: p1, cont: c1 } => match b {
            LocalType::Receive { from: f2, label: l2, payload: p2, cont: c2 } => *f1 == *f2 && *l1
                == *l2 && *p1 == *p2 && local_eq(c1, c2),
            _ => false,
        },
        LocalType::InternalChoice { to: t1, branches: b1 } => match b {
            LocalType::InternalChoice { to: t2, branches: b2 } => *t1 == *t2 && local_branches_eq(
                b1,
                b2,
            ),
            _ => false,
        },
        LocalType::ExternalChoice { from: f1, branches: b1 } => match b {
            LocalType::ExternalChoice { from: f2, branches: b2 } => *f1 == *f2 && local_branches_eq(
                b1,
                b2,
            ),
            _ => false,
        },
        LocalType::RecDef { var: v1, body: b1 } => match b {
            LocalType::RecDef { var: v2, body: b2 } => *v1 == *v2 && local_eq(b1, b2),
            _ => false,
        },
        LocalType::RecVar { var: v1 } => match b {
            LocalType::RecVar { var: v2 } => *v1 == *v2,
            _ => false,
        },
    }
}

/// Structural equality of local branch lists.
pub fn local_branches_eq(a: &LocalBranches, b: &LocalBranches) -> (r: bool)
    ensures
        r == (a@ == b@),
    decreases a,
{
    match a {
        LocalBranches::Last { label: l1, body: g1 } => match b {
            LocalBranches::Last { label: l2, body: g2 } => *l1 == *l2 && local_eq(g1, g2),
            _ => false,
        },
        LocalBranches::More { label: l1, body: g1, rest: r1 } => match b {
            LocalBranches::More { label: l2, body: g2, rest: r2 } => *l1 == *l2 && local_eq(g1, g2)
                && local_branches_eq(r1, r2),
            _ => false,
        },
    }
}

/// Is this local type exactly `End`?
fn is_end(l: &LocalType) -> (r: bool)
    ensures
        r == (l@ == LocalView::End),
{
    match l {
        LocalType::End => true,
        _ => false,
    }
}

/// Projects `g` onto `target`: the local type `target` must execute, or
/// `None` where the projection relation is undefined.
pub fn project(g: &GlobalType, target: &Role) -> (r: Option<LocalType>)
    ensures
        opt_lview(r) == project_view(g@, target.id as nat),
    decreases g,
{
    match g {
        GlobalType::End => Some(LocalType::End),
        GlobalType::Interaction { from, to, label, payload, cont } => {
            match project(cont, target) {
                Some(pc) => {
                    if target.id == from.id {
                        Some(LocalType::Send {
                            to: *to,
                            label: label.clone(),
                            payload: payload.clone(),
                            cont: Box::new(pc),
                        })
                    } else if target.id == to.id {
                        Some(LocalType::Receive {
                            from: *from,
                            label: label.clone(),
                            payload: payload.clone(),
                            cont: Box::new(pc),
                        })
                    } else {
                        Some(pc)
                    }
                },
                None => None,
            }
        },
        GlobalType::Choice { from, to, branches } => {
            if target.id == from.id {
                match project_all(branches, target) {
                    Some(bs) => Some(LocalType::InternalChoice { to: *to, branches: Box::new(bs) }),
                    None => None,
                }
            } else if target.id == to.id {
                match project_all(branches, target) {
                    Some(bs) => Some(
                        LocalType::ExternalChoice { from: *from, branches: Box::new(bs) },
                    ),
                    None => None,
                }
            } else {
                merge_all(branches, target)
            }
        },
        GlobalType::RecDef { var, body } => {
            match project(body, target) {
                Some(pb) => {
                    if is_end(&pb) {
                        Some(LocalType::End)
                    } else {
                        Some(LocalType::RecDef { var: var.clone(), body: Box::new(pb) })
                    }
                },
                None => None,
            }
        },
        GlobalType::RecVar { var } => Some(LocalType::RecVar { var: var.clone() }),
    }
}

/// Projects every branch for a participant of the choice.
fn project_all(b: &GlobalBranches, target: &Role) -> (r: Option<LocalBranches>)
    ensures
        (match r {
            Some(bs) => Some(bs@),
            None => None,
        }) == project_branches(b@, target.id as nat),
    decreases b,
{
    match b {
        GlobalBranches::Last { label, body } => match project(body, target) {
            Some(pb) => Some(LocalBranches::Last { label: label.clone(), body: pb }),
            None => None,
        },
        GlobalBranches::More { label, body, rest } => {
            match (project(body, target), project_all(rest, target)) {
                (Some(pb), Some(pr)) => Some(
                    LocalBranches::More { label: label.clone(), body: pb, rest: Box::new(pr) },
                ),
                _ => None,
            }
        },
    }
}

/// Merges the branch projections for a role outside the choice.
fn merge_all(b: &GlobalBranches, target: &Role) -> (r: Option<LocalType>)
    ensures
        opt_lview(r) == merge_branches(b@, target.id as nat),
    decreases b,
{
    match b {
        GlobalBranches::Last { label, body } => project(body, target),
        GlobalBranches::More { label, body, rest } => {
            match (project(body, target), merge_all(rest, target)) {
                (Some(p1), Some(p2)) => {
                    if local_eq(&p1, &p2) {
                        Some(p1)
                    } else {
                        None
                    }
                },
                _ => None,
            }
        },
    }
}

// ---------------------------------------------------------------------------
// Laws of projection.
// ---------------------------------------------------------------------------

/// Projecting a terminated protocol is defined for every role and yields
/// the terminated local type.
pub proof fn lemma_project_end(r: nat)
    ensures
        project_view(GlobalView::End, r) == Some(LocalView::End),
{
}

/// An interaction between two other roles is invisible: for a role that is
/// neither its sender nor its receiver, the interaction projects exactly as
/// its continuation does.
pub proof fn lemma_nonparticipant_transparent(
    from: nat,
    to: nat,
    label: Seq<char>,
    payload: Seq<char>,
    cont: GlobalView,
    r: nat,
)
    requires
        r != from,
        r != to,
    ensures
        project_view(
            GlobalView::Interaction { from, to, label, payload, cont: Box::new(cont) },
            r,
        ) == project_view(cont, r),
{
}

/// Duality of the two ends of an interaction: whenever the continuation
/// projects, the sender's projection is a `Send` and the receiver's a
/// `Receive`, both carrying the interaction's label and payload.
pub proof fn lemma_interaction_duality(
    from: nat,
    to: nat,
    label: Seq<char>,
    payload: Seq<char>,
    cont: GlobalView,
)
    requires
        from != to,
    ensures
        project_view(cont, from) matches Some(pf) ==> project_view(
            GlobalView::Interaction { from, to, label, payload, cont: Box::new(cont) },
            from,
        ) == Some(LocalView::Send { to, label, payload, cont: Box::new(pf) }),
        project_view(cont, to) matches Some(pt) ==> project_view(
            GlobalView::Interaction { from, to, label, payload, cont: Box::new(cont) },
            to,
        ) == Some(LocalView::Receive { from, label, payload, cont: Box::new(pt) }),
{
}

/// Merge is strict: a role outside a two-branch choice projects to the
/// common branch projection when the branches agree structurally, and to
/// nothing at all when they differ.
pub proof fn lemma_merge_strict(
    from: nat,
    to: nat,
    l1: Seq<char>,
    g1: GlobalView,
    l2: Seq<char>,
    g2: GlobalView,
    r: nat,
)
    requires
        r != from,
        r != to,
    ensures
        (match (project_view(g1, r), project_view(g2, r)) {
            (Some(p1), Some(p2)) => project_view(
                GlobalView::Choice {
                    from,
                    to,
                    branches: Box::new(
                        GlobalBranchesView::More {
                            label: l1,
                            body: g1,
                            rest: Box::new(GlobalBranchesView::Last { label: l2, body: g2 }),
                        },
                    ),
                },
                r,
            ) == if p1 == p2 {
                Some(p1)
            } else {
                None::<LocalView>
            },
            _ => true,
        }),
{
    let tail = GlobalBranchesView::Last { label: l2, body: g2 };
    let bs = GlobalBranchesView::More { label: l1, body: g1, rest: Box::new(tail) };
    let ch = GlobalView::Choice { from, to, branches: Box::new(bs) };
    assert(merge_branches(tail, r) == project_view(g2, r));
    assert(project_view(ch, r) == merge_branches(bs, r));
}

/// A recursion whose body projects to `End` is elided: the role never takes
/// part in the loop, so its projection is `End`, not a degenerate loop.
pub proof fn lemma_recursion_elision(var: Seq<char>, body: GlobalView, r: nat)
    requires
        project_view(body, r) == Some(LocalView::End),
    ensures
        project_view(GlobalView::RecDef { var, body: Box::new(body) }, r) == Some(LocalView::End),
{
}

} // verus!


verus! {

/// Projection never invents a role: every identifier in the projection was
/// in the global type, so the projection of a printable global type is
/// printable against the same registry.
pub proof fn lemma_project_roles_ok(g: GlobalView, r: nat, n: nat)
    requires
        crate::print::g_roles_ok(g, n),
    ensures
        project_view(g, r) matches Some(l) ==> crate::print::l_roles_ok(l, n),
    decreases g,
{
    match g {
        GlobalView::Interaction { cont, .. } => {
            lemma_project_roles_ok(*cont, r, n);
        },
        GlobalView::Choice { from, to, branches } => {
            if r == from || r == to {
                lemma_project_branches_roles_ok(*branches, r, n);
            } else {
                lemma_merge_roles_ok(*branches, r, n);
            }
        },
        GlobalView::RecDef { body, .. } => {
            lemma_project_roles_ok(*body, r, n);
        },
        _ => {},
    }
}

proof fn lemma_project_branches_roles_ok(b: GlobalBranchesView, r: nat, n: nat)
    requires
        crate::print::gb_roles_ok(b, n),
    ensures
        project_branches(b, r) matches Some(bs) ==> crate::print::lb_roles_ok(bs, n),
    decreases b,
{
    match b {
        GlobalBranchesView::Last { body, .. } => {
            lemma_project_roles_ok(body, r, n);
        },
        GlobalBranchesView::More { body, rest, .. } => {
            lemma_project_roles_ok(body, r, n);
            lemma_project_branches_roles_ok(*rest, r, n);
        },
    }
}

proof fn lemma_merge_roles_ok(b: GlobalBranchesView, r: nat, n: nat)
    requires
        crate::print::gb_roles_ok(b, n),
    ensures
        merge_branches(b, r) matches Some(l) ==> crate::print::l_roles_ok(l, n),
    decreases b,
{
    match b {
        GlobalBranchesView::Last { body, .. } => {
            lemma_project_roles_ok(body, r, n);
        },
        GlobalBranchesView::More { body, rest, .. } => {
            lemma_project_roles_ok(body, r, n);
            lemma_merge_roles_ok(*rest, r, n);
        },
    }
}

} // verus!

verus! {

proof fn lemma_project_branches_labels(b: GlobalBranchesView, r: nat)
    ensures
        project_branches(b, r) matches Some(bs) ==> crate::ast::l_labels(bs) == crate::ast::g_labels(
            b,
        ),
    decreases b,
{
    match b {
        GlobalBranchesView::Last { .. } => {
            if project_branches(b, r) is Some {
                let bs = project_branches(b, r).unwrap();
                assert(crate::ast::l_labels(bs) =~= crate::ast::g_labels(b));
            }
        },
        GlobalBranchesView::More { rest, .. } => {
            lemma_project_branches_labels(*rest, r);
            if project_branches(b, r) is Some {
                let bs = project_branches(b, r).unwrap();
                assert(crate::ast::l_labels(bs) =~= crate::ast::g_labels(b));
            }
        },
    }
}

/// Projection preserves well-formedness: labels and branch order are kept,
/// no role or recursion variable is invented, and the scope of every
/// recursion variable carries over. Together with the round-trip laws this
/// means the projection of a well-formed protocol can be printed and parsed
/// back.
pub proof fn lemma_project_wf(g: GlobalView, r: nat, n: nat, scope: Seq<Seq<char>>)
    requires
        crate::ast::wf_global(g, n, scope),
    ensures
        project_view(g, r) matches Some(l) ==> crate::ast::wf_local(l, n, scope),
    decreases g,
{
    match g {
        GlobalView::Interaction { cont, .. } => {
            lemma_project_wf(*cont, r, n, scope);
        },
        GlobalView::Choice { from, to, branches } => {
            if r == from || r == to {
                lemma_project_branches_wf(*branches, r, n, scope);
                lemma_project_branches_labels(*branches, r);
            } else {
                lemma_merge_wf(*branches, r, n, scope);
            }
        },
        GlobalView::RecDef { var, body } => {
            lemma_project_wf(*body, r, n, scope.push(var));
        },
        _ => {},
    }
}

proof fn lemma_project_branches_wf(b: GlobalBranchesView, r: nat, n: nat, scope: Seq<Seq<char>>)
    requires
        crate::ast::wf_gbranches(b, n, scope),
    ensures
        project_branches(b, r) matches Some(bs) ==> crate::ast::wf_lbranches(bs, n, scope),
    decreases b,
{
    match b {
        GlobalBranchesView::Last { body, .. } => {
            lemma_project_wf(body, r, n, scope);
        },
        GlobalBranchesView::More { body, rest, .. } => {
            lemma_project_wf(body, r, n, scope);
            lemma_project_branches_wf(*rest, r, n, scope);
        },
    }
}

proof fn lemma_merge_wf(b: GlobalBranchesView, r: nat, n: nat, scope: Seq<Seq<char>>)
    requires
        crate::ast::wf_gbranches(b, n, scope),
    ensures
        merge_branches(b, r) matches Some(l) ==> crate::ast::wf_local(l, n, scope),
    decreases b,
{
    match b {
        GlobalBranchesView::Last { body, .. } => {
            lemma_project_wf(body, r, n, scope);
        },
        GlobalBranchesView::More { body, rest, .. } => {
            lemma_project_wf(body, r, n, scope);
            lemma_merge_wf(*rest, r, n, scope);
        },
    }
}

} // verus!
