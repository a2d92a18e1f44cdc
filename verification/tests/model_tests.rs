use erd::{parse_model, Attribute, Cardinality, Entity, Relationship};

fn parse_ok(input: &str) -> (Vec<Entity>, Vec<Relationship>) {
    match parse_model(input) {
        Ok(m) => m,
        Err(e) => panic!("expected a parse, got {:?}", e),
    }
}

#[test]
fn builders_set_flags() {
    let a = Attribute::new("species_id").pk().fk();
    assert!(a.in_pk);
    assert!(a.in_fk);
    assert!(!a.nullable);
    assert_eq!(a.aks, 0);
    assert_eq!(a.name, "species_id");
    let b = Attribute::new("note").null();
    assert!(b.nullable);
    assert!(!b.in_pk);
}

#[test]
fn ak_builder_toggles() {
    let a = Attribute::new("code").ak(1);
    assert_eq!(a.aks, 1);
    let a = a.ak(3);
    assert_eq!(a.aks, 0b101);
    let a = a.ak(1);
    assert_eq!(a.aks, 0b100);
    let a = a.ak(3);
    assert_eq!(a.aks, 0);
}

#[test]
fn entity_builder_appends() {
    let e = Entity::new("species").att(Attribute::new("species_id").pk()).att(
        Attribute::new("diet"),
    );
    assert_eq!(e.name, "species");
    assert_eq!(e.attributes.len(), 2);
    assert_eq!(e.attributes[0].name, "species_id");
    assert!(e.independent);
}

#[test]
fn key_toggle_idempotent_in_source() {
    let (entities, _) = parse_ok("[e]\ncode :ak1 :ak1\n");
    assert_eq!(entities[0].attributes[0].aks, 0);
    let (entities, _) = parse_ok("[e]\ncode :ak1\n");
    assert_eq!(entities[0].attributes[0].aks, 1);
}

#[test]
fn dependent_entity_detection() {
    let (entities, _) = parse_ok("[weak]\nparent_id :pk :fk\nx\n\n[strong]\nid :pk\nother :fk\n");
    assert!(!entities[0].independent);
    assert!(entities[1].independent);
}

#[test]
fn composite_role_names() {
    let (entities, _) = parse_ok("[predation]\npredator/species_id :pk :fk\n");
    assert_eq!(entities[0].attributes[0].name, "predator / species_id");
    assert!(entities[0].attributes[0].in_pk);
    assert!(entities[0].attributes[0].in_fk);
    assert!(!entities[0].independent);
}

#[test]
fn cardinality_forms() {
    let (_, rels) = parse_ok("e1 \"a\" *:1 e2 \"b\"\ne1 \"c\" 3+:2..5 e2 \"d\"\n");
    match &rels[0] {
        Relationship::Binary(e1, s1, c1, e2, s2, c2) => {
            assert_eq!(e1, "e1");
            assert_eq!(s1, "a");
            assert_eq!(*c1, Cardinality::AtLeast(0));
            assert_eq!(e2, "e2");
            assert_eq!(s2, "b");
            assert_eq!(*c2, Cardinality::Exactly(1));
        },
        _ => panic!("expected a binary relationship"),
    }
    match &rels[1] {
        Relationship::Binary(_, _, c1, _, _, c2) => {
            assert_eq!(*c1, Cardinality::AtLeast(3));
            assert_eq!(*c2, Cardinality::Range(2, 5));
        },
        _ => panic!("expected a binary relationship"),
    }
}

#[test]
fn subtype_lines() {
    let (_, rels) = parse_ok("animal >: cat + dog\nbiome =(biome_type) land + sea\n");
    match &rels[0] {
        Relationship::SubTypeOpen(sup, subs) => {
            assert_eq!(sup, "animal");
            assert_eq!(subs, &vec!["cat".to_string(), "dog".to_string()]);
        },
        _ => panic!("expected an open subtype"),
    }
    match &rels[1] {
        Relationship::SubTypeClosed(sup, disc, subs) => {
            assert_eq!(sup, "biome");
            assert_eq!(disc, "biome_type");
            assert_eq!(subs, &vec!["land".to_string(), "sea".to_string()]);
        },
        _ => panic!("expected a closed subtype"),
    }
}

#[test]
fn malformed_inputs_rejected() {
    assert!(parse_model("[unclosed\n").is_err());
    assert!(parse_model("attr_without_entity :pk\n").is_err());
    assert!(parse_model("[e]\nx :bogus\n").is_err());
    assert!(parse_model("[e]\nx :ak0\n").is_err());
    assert!(parse_model("[e]\nx :ak33\n").is_err());
    assert!(parse_model("e1 \"a\" 1 e2 \"b\"\n").is_err());
    assert!(parse_model("e1 \"a\" 1:2..x e2 \"b\"\n").is_err());
    assert!(parse_model("animal >: \n").is_err());
    assert!(parse_model("biome =() land\n").is_err());
    assert!(parse_model("e1 \"open role 1:1 e2 \"b\"\n").is_err());
    assert!(parse_model("[e]\nx :pk extra!\n").is_err());
}

#[test]
fn attribute_after_relationship_rejected() {
    assert!(parse_model("[e]\na :pk\ne \"r\" 1:1 f \"s\"\nb\n").is_err());
}

#[test]
fn blank_lines_ignored() {
    let (entities, rels) = parse_ok("\n\n[e]\n\na :pk\n\n\ne \"r\" 1:1 f \"s\"\n\n");
    assert_eq!(entities.len(), 1);
    assert_eq!(entities[0].attributes.len(), 1);
    assert_eq!(rels.len(), 1);
}

#[test]
fn empty_input_is_empty_model() {
    let (entities, rels) = parse_ok("");
    assert!(entities.is_empty());
    assert!(rels.is_empty());
}

#[test]
fn tabs_and_carriage_returns_are_whitespace() {
    let (entities, rels) = parse_ok("[e]\r\n\ta :pk\t:fk\r\n\ne1\t\"a\"\t1:1\te2 \"b\"\r\n");
    assert_eq!(entities.len(), 1);
    assert!(entities[0].attributes[0].in_pk);
    assert!(!entities[0].independent);
    assert_eq!(rels.len(), 1);
}

#[test]
fn oversized_cardinality_rejected() {
    assert!(parse_model("e1 \"a\" 99999999999999999999999999:1 e2 \"b\"\n").is_err());
    let (_, rels) = match parse_model("e1 \"a\" 18446744073709551615:1 e2 \"b\"\n") {
        Ok(m) => m,
        Err(_) => return,
    };
    match &rels[0] {
        Relationship::Binary(_, _, c1, _, _, _) => {
            assert_eq!(*c1, Cardinality::Exactly(usize::MAX));
        },
        _ => panic!("expected a binary relationship"),
    }
}

#[test]
fn leading_zeros_in_numbers() {
    let (entities, rels) = parse_ok("[e]\ncode :ak007\n\ne1 \"a\" 007:1 e2 \"b\"\n");
    assert_eq!(entities[0].attributes[0].aks, 1 << 6);
    match &rels[0] {
        Relationship::Binary(_, _, c1, _, _, _) => assert_eq!(*c1, Cardinality::Exactly(7)),
        _ => panic!("expected a binary relationship"),
    }
}
