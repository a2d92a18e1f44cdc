use erd::{parse_model, render_cardinality, render_dsl, render_graph, Cardinality, GraphStmt};

fn parse_ok(input: &str) -> (Vec<erd::Entity>, Vec<erd::Relationship>) {
    match parse_model(input) {
        Ok(m) => m,
        Err(e) => panic!("expected a parse, got {:?}", e),
    }
}

#[test]
fn cardinality_rendering_boundary() {
    assert_eq!(render_cardinality(Cardinality::Exactly(1)), "");
    assert_eq!(render_cardinality(Cardinality::Range(1, 1)), "");
    assert_eq!(render_cardinality(Cardinality::AtLeast(0)), "\u{2217}");
    assert_eq!(render_cardinality(Cardinality::AtLeast(3)), "3+");
    assert_eq!(render_cardinality(Cardinality::Range(2, 5)), "2..5");
    assert_eq!(render_cardinality(Cardinality::Exactly(0)), "0");
    assert_eq!(render_cardinality(Cardinality::Exactly(12345)), "12345");
    assert_eq!(render_cardinality(Cardinality::AtLeast(10)), "10+");
    assert_eq!(render_cardinality(Cardinality::Range(1, 2)), "1..2");
}

#[test]
fn subtype_node_fanout() {
    let (entities, rels) = parse_ok("Entity =(disc) A + B + C\n");
    let stmts = erd::emit_graph(&entities, &rels);
    assert_eq!(stmts.len(), 5);
    match &stmts[0] {
        GraphStmt::JunctionClosed { id, discriminator } => {
            assert_eq!(*id, 1);
            assert_eq!(discriminator, "disc");
        },
        _ => panic!("expected the junction node first"),
    }
    match &stmts[1] {
        GraphStmt::JunctionEdge { from, id } => {
            assert_eq!(from, "Entity");
            assert_eq!(*id, 1);
        },
        _ => panic!("expected the edge from the supertype"),
    }
    for (k, want) in ["A", "B", "C"].iter().enumerate() {
        match &stmts[2 + k] {
            GraphStmt::SubtypeEdge { id, to } => {
                assert_eq!(*id, 1);
                assert_eq!(to, want);
            },
            _ => panic!("expected an edge to each subtype, in order"),
        }
    }
}

#[test]
fn junction_ids_count_across_document() {
    let (entities, rels) = parse_ok(
        "a >: b + c\nx \"r\" 1:1 y \"s\"\nd =(t) e + f\n",
    );
    let doc = render_graph(&entities, &rels);
    assert!(doc.contains("subtype1 [shape=\"circle\" label=\"\" width=0.2]"));
    assert!(doc.contains("a -> subtype1"));
    assert!(doc.contains("subtype1 -> b"));
    assert!(doc.contains("subtype1 -> c"));
    assert!(doc.contains("subtype2 [shape=\"doublecircle\" label=<<font point-size=\"10\">t</font>> width=0.2 margin=0]"));
    assert!(doc.contains("d -> subtype2"));
    assert!(doc.contains("subtype2 -> e"));
    assert!(!doc.contains("subtype3"));
}

#[test]
fn end_to_end_example() {
    let input = "[person]\nperson_id :pk\nname\n\n[pet]\npet_id :pk\nowner_id :fk :null\n\nperson \"owns\" 0+:1 pet \"is owned by\"\n";
    let (entities, rels) = parse_ok(input);
    assert_eq!(entities.len(), 2);
    assert_eq!(entities[0].name, "person");
    assert!(entities[0].independent);
    assert_eq!(entities[0].attributes.len(), 2);
    assert!(entities[0].attributes[0].in_pk);
    assert_eq!(entities[0].attributes[1].name, "name");
    assert_eq!(entities[1].name, "pet");
    assert!(entities[1].independent);
    assert!(entities[1].attributes[1].in_fk);
    assert!(entities[1].attributes[1].nullable);
    assert_eq!(rels.len(), 1);
    match &rels[0] {
        erd::Relationship::Binary(e1, s1, c1, e2, s2, c2) => {
            assert_eq!(e1, "person");
            assert_eq!(s1, "owns");
            assert_eq!(*c1, Cardinality::AtLeast(0));
            assert_eq!(e2, "pet");
            assert_eq!(s2, "is owned by");
            assert_eq!(*c2, Cardinality::Exactly(1));
        },
        _ => panic!("expected one binary relationship"),
    }
    let doc = render_graph(&entities, &rels);
    assert!(doc.contains(
        "person -> pet [taillabel=\"\u{2217}\"] [headlabel=\"\"] [label=<<font point-size=\"10\">owns / is owned by</font>>]",
    ));
}

#[test]
fn document_markers_and_directives() {
    let (entities, rels) = parse_ok("[e]\na :pk\n");
    let doc = render_graph(&entities, &rels);
    assert!(doc.starts_with("digraph {\n"));
    assert!(doc.ends_with("}\n"));
    let nodes_at = doc.find("e [label=").unwrap();
    for d in ["node [shape=plain]", "splines=\"ortho\"", "edge [arrowhead=\"none\" color=\"gray\"]"] {
        assert!(doc.find(d).unwrap() < nodes_at);
    }
}

#[test]
fn dependent_entity_rendered_rounded() {
    let (entities, rels) = parse_ok("[weak]\nparent_id :pk :fk\n\n[strong]\nid :pk\n");
    let doc = render_graph(&entities, &rels);
    let weak_at = doc.find("weak [label=").unwrap();
    let strong_at = doc.find("strong [label=").unwrap();
    let rounded_at = doc.find("style=\"rounded\"").unwrap();
    assert!(weak_at < rounded_at && rounded_at < strong_at);
    assert_eq!(doc.matches("style=\"rounded\"").count(), 1);
}

#[test]
fn attribute_decorations_in_order() {
    let (entities, rels) = parse_ok("[e]\ncode :fk :null :ak2 :ak1\nplain\n");
    let doc = render_graph(&entities, &rels);
    assert!(doc.contains("<font point-size=\"8\">FK AK1 AK2 NULL </font>"));
    assert!(doc.contains("<tr><td align=\"left\">plain</td><td align=\"left\"></td></tr>"));
}

#[test]
fn key_attributes_separated_from_the_rest() {
    let (entities, rels) = parse_ok("[e]\nid :pk\nnote\n");
    let doc = render_graph(&entities, &rels);
    let id_at = doc.find("<tr><td align=\"left\">id</td>").unwrap();
    let hr_at = doc.find("<hr />").unwrap();
    let note_at = doc.find("<tr><td align=\"left\">note</td>").unwrap();
    assert!(id_at < hr_at && hr_at < note_at);
    let (entities2, rels2) = parse_ok("[f]\nid :pk\n");
    let doc2 = render_graph(&entities2, &rels2);
    assert!(!doc2.contains("<hr />"));
}

#[test]
fn round_trip_is_stable() {
    let input = "[person]\nperson_id :pk\nemail :ak1\nname\n\n[pet]\npet_id :pk\nowner_id :fk :null\n\nperson \"owns\" 0+:1 pet \"is owned by\"\npet >: cat + dog\npet =(kind) tame + wild\n";
    let (e1, r1) = parse_ok(input);
    let d1 = render_dsl(&e1, &r1);
    let (e2, r2) = parse_ok(&d1);
    let d2 = render_dsl(&e2, &r2);
    assert_eq!(d1, d2);
    let (e3, r3) = parse_ok(&d2);
    let d3 = render_dsl(&e3, &r3);
    assert_eq!(d2, d3);
    assert_eq!(e1.len(), e2.len());
    assert_eq!(r1.len(), r2.len());
    let g1 = render_graph(&e1, &r1);
    let g2 = render_graph(&e2, &r2);
    assert_eq!(g1, g2);
}
