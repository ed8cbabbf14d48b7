use sesstype::ast::{GlobalBranches, GlobalType, LocalType, Role};
use sesstype::project::{local_eq, project};

fn role(id: usize) -> Role {
    Role { id }
}

fn ping_pong() -> GlobalType {
    // A -> B : ping ( Int ) . B -> A : pong ( Int ) . end
    GlobalType::Interaction {
        from: role(0),
        to: role(1),
        label: String::from("ping"),
        payload: String::from("Int"),
        cont: Box::new(GlobalType::Interaction {
            from: role(1),
            to: role(0),
            label: String::from("pong"),
            payload: String::from("Int"),
            cont: Box::new(GlobalType::End),
        }),
    }
}

#[test]
fn end_projects_to_end_for_any_role() {
    for id in 0..5 {
        match project(&GlobalType::End, &role(id)) {
            Some(LocalType::End) => {}
            other => panic!("projecting end gave {:?}", other.is_some()),
        }
    }
}

#[test]
fn ping_pong_sender_side() {
    let g = ping_pong();
    let expected = LocalType::Send {
        to: role(1),
        label: String::from("ping"),
        payload: String::from("Int"),
        cont: Box::new(LocalType::Receive {
            from: role(1),
            label: String::from("pong"),
            payload: String::from("Int"),
            cont: Box::new(LocalType::End),
        }),
    };
    let got = project(&g, &role(0)).expect("projection for the sender is defined");
    assert!(local_eq(&got, &expected));
}

#[test]
fn ping_pong_receiver_side() {
    let g = ping_pong();
    let expected = LocalType::Receive {
        from: role(0),
        label: String::from("ping"),
        payload: String::from("Int"),
        cont: Box::new(LocalType::Send {
            to: role(0),
            label: String::from("pong"),
            payload: String::from("Int"),
            cont: Box::new(LocalType::End),
        }),
    };
    let got = project(&g, &role(1)).expect("projection for the receiver is defined");
    assert!(local_eq(&got, &expected));
}

#[test]
fn ping_pong_outsider_sees_end() {
    let g = ping_pong();
    let got = project(&g, &role(2)).expect("an uninvolved role projects");
    assert!(local_eq(&got, &LocalType::End));
}

#[test]
fn nonparticipant_transparency_on_one_interaction() {
    // C is not part of A -> B, so the interaction projects as its continuation.
    let cont = GlobalType::Interaction {
        from: role(2),
        to: role(0),
        label: String::from("hi"),
        payload: String::from("Str"),
        cont: Box::new(GlobalType::End),
    };
    let mk_cont = || GlobalType::Interaction {
        from: role(2),
        to: role(0),
        label: String::from("hi"),
        payload: String::from("Str"),
        cont: Box::new(GlobalType::End),
    };
    let g = GlobalType::Interaction {
        from: role(0),
        to: role(1),
        label: String::from("m"),
        payload: String::from("Int"),
        cont: Box::new(mk_cont()),
    };
    let direct = project(&cont, &role(2)).expect("defined");
    let through = project(&g, &role(2)).expect("defined");
    assert!(local_eq(&direct, &through));
}

fn two_branch_choice(left: GlobalType, right: GlobalType) -> GlobalType {
    GlobalType::Choice {
        from: role(0),
        to: role(1),
        branches: Box::new(GlobalBranches::More {
            label: String::from("l"),
            body: left,
            rest: Box::new(GlobalBranches::Last {
                label: String::from("r"),
                body: right,
            }),
        }),
    }
}

#[test]
fn merge_rejects_diverging_branches() {
    // C hears nothing of the choice, yet would have to behave differently.
    let left = GlobalType::Interaction {
        from: role(0),
        to: role(2),
        label: String::from("yes"),
        payload: String::from("Int"),
        cont: Box::new(GlobalType::End),
    };
    let right = GlobalType::Interaction {
        from: role(0),
        to: role(2),
        label: String::from("no"),
        payload: String::from("Int"),
        cont: Box::new(GlobalType::End),
    };
    let g = two_branch_choice(left, right);
    assert!(project(&g, &role(2)).is_none());
}

#[test]
fn merge_accepts_identical_branches() {
    let mk = || GlobalType::Interaction {
        from: role(0),
        to: role(2),
        label: String::from("go"),
        payload: String::from("Int"),
        cont: Box::new(GlobalType::End),
    };
    let g = two_branch_choice(mk(), mk());
    let got = project(&g, &role(2)).expect("identical branches merge");
    let expected = LocalType::Receive {
        from: role(0),
        label: String::from("go"),
        payload: String::from("Int"),
        cont: Box::new(LocalType::End),
    };
    assert!(local_eq(&got, &expected));
}

#[test]
fn choice_projects_to_internal_and_external() {
    let g = two_branch_choice(GlobalType::End, GlobalType::End);
    match project(&g, &role(0)).expect("the selector projects") {
        LocalType::InternalChoice { to, .. } => assert_eq!(to.id, 1),
        _ => panic!("the selector must see an internal choice"),
    }
    match project(&g, &role(1)).expect("the offered role projects") {
        LocalType::ExternalChoice { from, .. } => assert_eq!(from.id, 0),
        _ => panic!("the offered role must see an external choice"),
    }
}

#[test]
fn recursion_with_end_body_is_elided() {
    let g = GlobalType::RecDef {
        var: String::from("X"),
        body: Box::new(GlobalType::End),
    };
    let got = project(&g, &role(0)).expect("defined");
    assert!(local_eq(&got, &LocalType::End));
}

#[test]
fn recursion_with_participation_is_kept() {
    // rec X . A -> B : tick ( Unit ) . X, projected for A, keeps the loop.
    let g = GlobalType::RecDef {
        var: String::from("X"),
        body: Box::new(GlobalType::Interaction {
            from: role(0),
            to: role(1),
            label: String::from("tick"),
            payload: String::from("Unit"),
            cont: Box::new(GlobalType::RecVar {
                var: String::from("X"),
            }),
        }),
    };
    let expected = LocalType::RecDef {
        var: String::from("X"),
        body: Box::new(LocalType::Send {
            to: role(1),
            label: String::from("tick"),
            payload: String::from("Unit"),
            cont: Box::new(LocalType::RecVar {
                var: String::from("X"),
            }),
        }),
    };
    let got = project(&g, &role(0)).expect("defined");
    assert!(local_eq(&got, &expected));
}

#[test]
fn recursion_var_projects_to_itself_for_outsiders() {
    // rec X . A -> B : tick ( Unit ) . X for C: the branches the loop takes
    // are invisible, but the loop variable survives, so the projection is a
    // degenerate loop, not end.
    let g = GlobalType::RecDef {
        var: String::from("X"),
        body: Box::new(GlobalType::Interaction {
            from: role(0),
            to: role(1),
            label: String::from("tick"),
            payload: String::from("Unit"),
            cont: Box::new(GlobalType::RecVar {
                var: String::from("X"),
            }),
        }),
    };
    let expected = LocalType::RecDef {
        var: String::from("X"),
        body: Box::new(LocalType::RecVar {
            var: String::from("X"),
        }),
    };
    let got = project(&g, &role(2)).expect("defined");
    assert!(local_eq(&got, &expected));
}

#[test]
fn local_eq_distinguishes_labels_and_roles() {
    let mk_a = || LocalType::Send {
        to: role(1),
        label: String::from("m"),
        payload: String::from("Int"),
        cont: Box::new(LocalType::End),
    };
    let a = mk_a();
    let b = LocalType::Send {
        to: role(1),
        label: String::from("n"),
        payload: String::from("Int"),
        cont: Box::new(LocalType::End),
    };
    let c = LocalType::Send {
        to: role(2),
        label: String::from("m"),
        payload: String::from("Int"),
        cont: Box::new(LocalType::End),
    };
    assert!(local_eq(&a, &mk_a()));
    assert!(!local_eq(&a, &b));
    assert!(!local_eq(&a, &c));
    assert!(!local_eq(&a, &LocalType::End));
}
