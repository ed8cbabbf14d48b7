use sesstype::ast::{GlobalType, LocalType, Role};
use sesstype::parse::{parse_global, parse_local};
use sesstype::print::{to_text_global, to_text_local};
use sesstype::project::project;
use sesstype::roles::RoleRegistry;

const PING_PONG: &str = "A -> B : ping ( Int ) . B -> A : pong ( Int ) . end ";

#[test]
fn parse_then_print_is_identity_on_canonical_text() {
    let (g, reg) = parse_global(PING_PONG).expect("the ping-pong protocol parses");
    assert_eq!(to_text_global(&g, &reg), PING_PONG);
}

#[test]
fn print_then_parse_recovers_the_tree() {
    let (g, reg) = parse_global(PING_PONG).expect("parses");
    let printed = to_text_global(&g, &reg);
    let (g2, reg2) = parse_global(&printed).expect("the printed text parses again");
    assert_eq!(to_text_global(&g2, &reg2), printed);
}

#[test]
fn parse_accepts_dense_spacing() {
    let (g, reg) = parse_global("A->B:ping(Int).end").expect("dense text parses");
    assert_eq!(to_text_global(&g, &reg), "A -> B : ping ( Int ) . end ");
}

#[test]
fn parse_global_registers_roles_in_order_of_appearance() {
    let (_, reg) = parse_global(PING_PONG).expect("parses");
    assert_eq!(reg.len(), 2);
    let a = reg.find_by_name("A").expect("A is registered");
    let b = reg.find_by_name("B").expect("B is registered");
    assert_eq!(a.id, 0);
    assert_eq!(b.id, 1);
    assert!(reg.find_by_name("C").is_none());
    assert_eq!(reg.name_of(a), "A");
    assert_eq!(reg.name_of(b), "B");
}

#[test]
fn registry_interns_each_name_once() {
    let mut reg = RoleRegistry::new();
    let a1 = reg.intern("alice");
    let b1 = reg.intern("bob");
    let a2 = reg.intern("alice");
    assert_eq!(a1.id, a2.id);
    assert_ne!(a1.id, b1.id);
    assert_eq!(reg.len(), 2);
    assert_eq!(reg.find_by_name("bob"), Some(Role { id: b1.id }));
}

#[test]
fn projected_ping_pong_prints_as_expected() {
    let (g, reg) = parse_global(PING_PONG).expect("parses");
    let a = reg.find_by_name("A").unwrap();
    let b = reg.find_by_name("B").unwrap();
    let for_a = project(&g, &a).expect("defined for A");
    let for_b = project(&g, &b).expect("defined for B");
    assert_eq!(to_text_local(&for_a, &reg), "B ! ping ( Int ) . B ? pong ( Int ) . end ");
    assert_eq!(to_text_local(&for_b, &reg), "A ? ping ( Int ) . A ! pong ( Int ) . end ");
}

#[test]
fn choice_parses_projects_and_prints() {
    let text = "A -> B : { yes : A -> B : go ( Unit ) . end , no : end } ";
    let (g, reg) = parse_global(text).expect("parses");
    assert_eq!(to_text_global(&g, &reg), text);
    let a = reg.find_by_name("A").unwrap();
    let b = reg.find_by_name("B").unwrap();
    let for_a = project(&g, &a).expect("defined for A");
    let for_b = project(&g, &b).expect("defined for B");
    assert_eq!(
        to_text_local(&for_a, &reg),
        "B + { yes : B ! go ( Unit ) . end , no : end } "
    );
    assert_eq!(
        to_text_local(&for_b, &reg),
        "A & { yes : A ? go ( Unit ) . end , no : end } "
    );
}

#[test]
fn recursion_parses_and_round_trips() {
    let text = "rec X . A -> B : tick ( Unit ) . X ";
    let (g, reg) = parse_global(text).expect("parses");
    assert_eq!(to_text_global(&g, &reg), text);
    match g {
        GlobalType::RecDef { ref var, .. } => assert_eq!(var, "X"),
        _ => panic!("expected a recursion binder"),
    }
}

#[test]
fn duplicate_choice_labels_are_a_parse_error() {
    let text = "A -> B : { l : end , l : end } ";
    let err = parse_global(text).expect_err("two branches share a label");
    let _ = err.msg;
}

#[test]
fn distinct_choice_labels_parse() {
    assert!(parse_global("A -> B : { l : end , m : end } ").is_ok());
}

#[test]
fn unbound_recursion_variable_is_a_parse_error() {
    assert!(parse_global("rec X . A -> B : m ( T ) . Y ").is_err());
    assert!(parse_global("X ").is_err());
}

#[test]
fn bound_recursion_variable_parses() {
    assert!(parse_global("rec X . A -> B : m ( T ) . X ").is_ok());
}

#[test]
fn self_interaction_is_a_parse_error() {
    assert!(parse_global("A -> A : m ( T ) . end ").is_err());
}

#[test]
fn lexical_error_is_reported_with_its_position() {
    let err = parse_global("A -> B ; end").expect_err("no token starts with a semicolon");
    assert_eq!(err.pos, 7);
}

#[test]
fn trailing_input_is_a_parse_error() {
    assert!(parse_global("end end").is_err());
    assert!(parse_global("").is_err());
}

#[test]
fn keywords_cannot_name_roles() {
    assert!(parse_global("rec -> B : m ( T ) . end ").is_err());
    assert!(parse_global("end -> B : m ( T ) . end ").is_err());
}

#[test]
fn local_types_parse_and_round_trip() {
    let text = "B ! ping ( Int ) . B ? pong ( Int ) . end ";
    let (l, reg) = parse_local(text).expect("parses");
    assert_eq!(to_text_local(&l, &reg), text);
    match l {
        LocalType::Send { ref label, .. } => assert_eq!(label, "ping"),
        _ => panic!("expected a send"),
    }
}

#[test]
fn local_choices_parse_and_round_trip() {
    let internal = "B + { l : end , m : B ! go ( Unit ) . end } ";
    let (li, reg) = parse_local(internal).expect("parses");
    assert_eq!(to_text_local(&li, &reg), internal);
    let external = "B & { l : end , m : B ? go ( Unit ) . end } ";
    let (le, reg2) = parse_local(external).expect("parses");
    assert_eq!(to_text_local(&le, &reg2), external);
}

#[test]
fn local_recursion_parses() {
    let text = "rec T . B ! tick ( Unit ) . T ";
    let (l, reg) = parse_local(text).expect("parses");
    assert_eq!(to_text_local(&l, &reg), text);
}

#[test]
fn local_duplicate_labels_are_a_parse_error() {
    assert!(parse_local("B + { l : end , l : end } ").is_err());
}

#[test]
fn global_syntax_is_not_local_syntax() {
    assert!(parse_local(PING_PONG).is_err());
    assert!(parse_global("B ! ping ( Int ) . end ").is_err());
}

#[test]
fn nested_protocol_round_trips() {
    let text = "rec Loop . Client -> Server : { get : Server -> Client : item ( Data ) . Loop , quit : end } ";
    let (g, reg) = parse_global(text).expect("parses");
    assert_eq!(to_text_global(&g, &reg), text);
    let (g2, reg2) = parse_global(&to_text_global(&g, &reg)).expect("parses again");
    assert_eq!(to_text_global(&g2, &reg2), text);
    let server = reg.find_by_name("Server").unwrap();
    let for_server = project(&g, &server).expect("defined for the server");
    assert_eq!(
        to_text_local(&for_server, &reg),
        "rec Loop . Client & { get : Client ! item ( Data ) . Loop , quit : end } "
    );
}

#[test]
fn projection_none_is_distinct_from_end() {
    // A choice whose branches disagree for an unobserving role has no
    // projection at all, which callers must render as an explicit marker.
    let text = "A -> B : { l : A -> C : x ( T ) . end , m : A -> C : y ( T ) . end } ";
    let (g, reg) = parse_global(text).expect("parses");
    let c = reg.find_by_name("C").unwrap();
    assert!(project(&g, &c).is_none());
}

#[test]
fn local_unbound_recursion_variable_is_a_parse_error() {
    assert!(parse_local("rec X . B ! m ( T ) . Y ").is_err());
    assert!(parse_local("X ").is_err());
}

#[test]
fn keywords_cannot_be_labels() {
    assert!(parse_global("A -> B : rec ( T ) . end ").is_err());
    assert!(parse_global("A -> B : end ( T ) . end ").is_err());
}
