//! The graph description as structured statements: one node per entity,
//! one edge per binary relationship, and a numbered junction node with its
//! edges per subtype relationship.  Turning statements into text is the
//! business of the rendering module.

use vstd::prelude::*;

use crate::model::{
    attrs_view,
    names_view,
    entities_view,
    rels_view,
    AttrV,
    Attribute,
    Cardinality,
    Entity,
    EntityV,
    ModelV,
    RelV,
    Relationship,
};

verus! {

/// Mathematical view of a [`GraphStmt`].
#[verifier::ext_equal]
pub enum GraphStmtV {
    EntityNode { name: Seq<char>, pk_attrs: Seq<AttrV>, other_attrs: Seq<AttrV>, rounded: bool },
    BinaryEdge {
        from: Seq<char>,
        to: Seq<char>,
        card_from: Cardinality,
        card_to: Cardinality,
        role_from: Seq<char>,
        role_to: Seq<char>,
    },
    JunctionOpen { id: int },
    JunctionClosed { id: int, discriminator: Seq<char> },
    JunctionEdge { from: Seq<char>, id: int },
    SubtypeEdge { id: int, to: Seq<char> },
}

/// One statement of the graph description: an entity node (primary-key
/// attributes separated from the rest, rounded when the entity is
/// dependent), an edge for a binary relationship, a junction node for a
/// subtype relationship (unlabeled when open, discriminator-labeled when
/// closed), the edge from a supertype to its junction, or an edge from a
/// junction to one subtype.
pub enum GraphStmt {
    EntityNode { name: String, pk_attrs: Vec<Attribute>, other_attrs: Vec<Attribute>, rounded: bool },
    BinaryEdge {
        from: String,
        to: String,
        card_from: Cardinality,
        card_to: Cardinality,
        role_from: String,
        role_to: String,
    },
    JunctionOpen { id: usize },
    JunctionClosed { id: usize, discriminator: String },
    JunctionEdge { from: String, id: usize },
    SubtypeEdge { id: usize, to: String },
}

impl View for GraphStmt {
    type V = GraphStmtV;

    open spec fn view(&self) -> GraphStmtV {
        match self {
            GraphStmt::EntityNode { name, pk_attrs, other_attrs, rounded } => GraphStmtV::EntityNode {
                name: name@,
                pk_attrs: attrs_view(pk_attrs@),
                other_attrs: attrs_view(other_attrs@),
                rounded: *rounded,
            },
            GraphStmt::BinaryEdge { from, to, card_from, card_to, role_from, role_to } => GraphStmtV::BinaryEdge {
                from: from@,
                to: to@,
                card_from: *card_from,
                card_to: *card_to,
                role_from: role_from@,
                role_to: role_to@,
            },
            GraphStmt::JunctionOpen { id } => GraphStmtV::JunctionOpen { id: *id as int },
            GraphStmt::JunctionClosed { id, discriminator } => GraphStmtV::JunctionClosed {
                id: *id as int,
                discriminator: discriminator@,
            },
            GraphStmt::JunctionEdge { from, id } => GraphStmtV::JunctionEdge {
                from: from@,
                id: *id as int,
            },
            GraphStmt::SubtypeEdge { id, to } => GraphStmtV::SubtypeEdge { id: *id as int, to: to@ },
        }
    }
}

pub open spec fn stmts_view(s: Seq<GraphStmt>) -> Seq<GraphStmtV> {
    s.map_values(|g: GraphStmt| g@)
}

/// The attributes that participate in the primary key, in declaration
/// order.
pub open spec fn keyed(attrs: Seq<AttrV>) -> Seq<AttrV>
    decreases attrs.len(),
{
    if attrs.len() == 0 {
        Seq::empty()
    } else {
        let rest = keyed(attrs.drop_last());
        if attrs.last().in_pk {
            rest.push(attrs.last())
        } else {
            rest
        }
    }
}

/// The attributes outside the primary key, in declaration order.
pub open spec fn nonkeyed(attrs: Seq<AttrV>) -> Seq<AttrV>
    decreases attrs.len(),
{
    if attrs.len() == 0 {
        Seq::empty()
    } else {
        let rest = nonkeyed(attrs.drop_last());
        if !attrs.last().in_pk {
            rest.push(attrs.last())
        } else {
            rest
        }
    }
}

/// The node statement for one entity.
pub open spec fn node_stmt(e: EntityV) -> GraphStmtV {
    GraphStmtV::EntityNode {
        name: e.name,
        pk_attrs: keyed(e.attributes),
        other_attrs: nonkeyed(e.attributes),
        rounded: !e.independent,
    }
}

pub open spec fn nodes_of(es: Seq<EntityV>) -> Seq<GraphStmtV> {
    es.map_values(|e: EntityV| node_stmt(e))
}

/// Whether the relationship consumes one junction-node identifier.
pub open spec fn uses_junction(r: RelV) -> bool {
    !(r is Binary)
}

/// The statements emitted for one relationship, with `id` the next free
/// junction-node identifier: a binary relationship is a single edge; a
/// subtype relationship is its junction node, the edge from the supertype
/// to the junction, and one edge from the junction to each subtype in
/// listed order.
pub open spec fn rel_stmts(r: RelV, id: int) -> Seq<GraphStmtV> {
    match r {
        RelV::Binary(e1, s1, c1, e2, s2, c2) => seq![
            GraphStmtV::BinaryEdge {
                from: e1,
                to: e2,
                card_from: c1,
                card_to: c2,
                role_from: s1,
                role_to: s2,
            },
        ],
        RelV::SubTypeOpen(sup, subs) => seq![
            GraphStmtV::JunctionOpen { id },
            GraphStmtV::JunctionEdge { from: sup, id },
        ] + subs.map_values(|n: Seq<char>| GraphStmtV::SubtypeEdge { id, to: n }),
        RelV::SubTypeClosed(sup, disc, subs) => seq![
            GraphStmtV::JunctionClosed { id, discriminator: disc },
            GraphStmtV::JunctionEdge { from: sup, id },
        ] + subs.map_values(|n: Seq<char>| GraphStmtV::SubtypeEdge { id, to: n }),
    }
}

/// The statements for the relationships from index `k` on, numbering
/// junction nodes monotonically from `id`.
pub open spec fn rels_stmts_from(rs: Seq<RelV>, k: int, id: int) -> Seq<GraphStmtV>
    decreases rs.len() - k,
{
    if 0 <= k < rs.len() {
        let next = if uses_junction(rs[k]) {
            id + 1
        } else {
            id
        };
        rel_stmts(rs[k], id) + rels_stmts_from(rs, k + 1, next)
    } else {
        Seq::empty()
    }
}

/// The whole document as statements: the entity nodes in input order, then
/// the relationship statements in input order, junction identifiers
/// counting up from 1 across the whole document.
pub open spec fn emit_spec(m: ModelV) -> Seq<GraphStmtV> {
    nodes_of(m.entities) + rels_stmts_from(m.rels, 0, 1)
}

/// Subtype fan-out: the statements for a closed subtype relationship are
/// exactly one discriminator junction node, one edge from the supertype to
/// it, and one edge from it to each subtype, in listed order; an open
/// subtype relationship differs only in its unlabeled junction node.
pub proof fn lemma_subtype_fanout(r: RelV, id: int, sup: Seq<char>, disc: Seq<char>, subs: Seq<Seq<char>>)
    requires
        r == RelV::SubTypeClosed(sup, disc, subs),
    ensures
        rel_stmts(r, id).len() == 2 + subs.len(),
        rel_stmts(r, id)[0] == (GraphStmtV::JunctionClosed { id, discriminator: disc }),
        rel_stmts(r, id)[1] == (GraphStmtV::JunctionEdge { from: sup, id }),
        forall|k: int|
            0 <= k < subs.len() ==> rel_stmts(r, id)[2 + k] == (GraphStmtV::SubtypeEdge {
                id,
                to: subs[k],
            }),
{
}

fn dup_attr(a: &Attribute) -> (r: Attribute)
    ensures
        r@ == a@,
{
    Attribute {
        name: a.name.clone(),
        in_pk: a.in_pk,
        in_fk: a.in_fk,
        nullable: a.nullable,
        aks: a.aks,
    }
}

/// Splits an entity's attributes into the primary-key block and the rest.
fn partition_attrs(attrs: &Vec<Attribute>) -> (r: (Vec<Attribute>, Vec<Attribute>))
    ensures
        attrs_view(r.0@) == keyed(attrs_view(attrs@)),
        attrs_view(r.1@) == nonkeyed(attrs_view(attrs@)),
{
    let mut pk: Vec<Attribute> = Vec::new();
    let mut nk: Vec<Attribute> = Vec::new();
    let n = attrs.len();
    let mut i: usize = 0;
    proof {
        assert(attrs_view(pk@) =~= keyed(attrs_view(attrs@).subrange(0, 0)));
        assert(attrs_view(nk@) =~= nonkeyed(attrs_view(attrs@).subrange(0, 0)));
    }
    while i < n
        invariant
            i <= n,
            n == attrs@.len(),
            attrs_view(pk@) == keyed(attrs_view(attrs@).subrange(0, i as int)),
            attrs_view(nk@) == nonkeyed(attrs_view(attrs@).subrange(0, i as int)),
        decreases n - i,
    {
        let ghost prefix = attrs_view(attrs@).subrange(0, i as int);
        let a = dup_attr(&attrs[i]);
        let ghost av = a@;
        if a.in_pk {
            pk.push(a);
        } else {
            nk.push(a);
        }
        proof {
            let prefix2 = attrs_view(attrs@).subrange(0, i + 1);
            assert(prefix2.drop_last() =~= prefix);
            assert(prefix2.last() == av);
            if av.in_pk {
                assert(attrs_view(pk@) =~= keyed(prefix).push(av));
                assert(attrs_view(nk@) == nonkeyed(prefix2));
            } else {
                assert(attrs_view(nk@) =~= nonkeyed(prefix).push(av));
                assert(attrs_view(pk@) == keyed(prefix2));
            }
        }
        i = i + 1;
    }
    proof {
        assert(attrs_view(attrs@).subrange(0, n as int) =~= attrs_view(attrs@));
    }
    (pk, nk)
}

/// Emits the graph-description statements for a model: the entity nodes,
/// then the relationship statements, junction nodes numbered from 1 in
/// relationship order.
pub fn emit_graph(entities: &Vec<Entity>, relationships: &Vec<Relationship>) -> (out: Vec<
    GraphStmt,
>)
    requires
        relationships@.len() < usize::MAX,
    ensures
        stmts_view(out@) == emit_spec(
            ModelV { entities: entities_view(entities@), rels: rels_view(relationships@) },
        ),
{
    let ghost ev = entities_view(entities@);
    let ghost rv = rels_view(relationships@);
    let mut out: Vec<GraphStmt> = Vec::new();
    let ne = entities.len();
    let mut i: usize = 0;
    proof {
        assert(stmts_view(out@) =~= nodes_of(ev.subrange(0, 0)));
    }
    while i < ne
        invariant
            i <= ne,
            ne == entities@.len(),
            ev == entities_view(entities@),
            stmts_view(out@) == nodes_of(ev.subrange(0, i as int)),
        decreases ne - i,
    {
        let ghost prefix = ev.subrange(0, i as int);
        let e = &entities[i];
        let (pk, nk) = partition_attrs(&e.attributes);
        let stmt = GraphStmt::EntityNode {
            name: e.name.clone(),
            pk_attrs: pk,
            other_attrs: nk,
            rounded: !e.independent,
        };
        let ghost sv = stmt@;
        out.push(stmt);
        proof {
            assert(sv == node_stmt(ev[i as int]));
            assert(ev.subrange(0, i + 1).drop_last() =~= prefix);
            assert(stmts_view(out@) =~= nodes_of(prefix).push(sv));
            assert(nodes_of(ev.subrange(0, i + 1)) =~= nodes_of(prefix).push(
                node_stmt(ev[i as int]),
            ));
        }
        i = i + 1;
    }
    proof {
        assert(ev.subrange(0, ne as int) =~= ev);
    }
    let ghost nodes_part = stmts_view(out@);
    let nr = relationships.len();
    let mut j: usize = 0;
    let mut id: usize = 1;
    while j < nr
        invariant
            j <= nr,
            nr == relationships@.len(),
            nr < usize::MAX,
            1 <= id <= j + 1,
            rv == rels_view(relationships@),
            stmts_view(out@) + rels_stmts_from(rv, j as int, id as int) == nodes_part
                + rels_stmts_from(rv, 0, 1),
        decreases nr - j,
    {
        let ghost pre = stmts_view(out@);
        let ghost target = rel_stmts(rv[j as int], id as int);
        let r = &relationships[j];
        let junction: bool;
        match r {
            Relationship::Binary(e1, s1, c1, e2, s2, c2) => {
                out.push(
                    GraphStmt::BinaryEdge {
                        from: e1.clone(),
                        to: e2.clone(),
                        card_from: *c1,
                        card_to: *c2,
                        role_from: s1.clone(),
                        role_to: s2.clone(),
                    },
                );
                junction = false;
                proof {
                    assert(stmts_view(out@) =~= pre + target);
                }
            },
            Relationship::SubTypeOpen(sup, subs) => {
                out.push(GraphStmt::JunctionOpen { id });
                out.push(GraphStmt::JunctionEdge { from: sup.clone(), id });
                push_subtype_edges(&mut out, id, subs);
                junction = true;
                proof {
                    assert(stmts_view(out@) =~= pre + target);
                }
            },
            Relationship::SubTypeClosed(sup, disc, subs) => {
                out.push(GraphStmt::JunctionClosed { id, discriminator: disc.clone() });
                out.push(GraphStmt::JunctionEdge { from: sup.clone(), id });
                push_subtype_edges(&mut out, id, subs);
                junction = true;
                proof {
                    assert(stmts_view(out@) =~= pre + target);
                }
            },
        }
        proof {
            let next = if uses_junction(rv[j as int]) {
                id + 1
            } else {
                id as int
            };
            assert(rels_stmts_from(rv, j as int, id as int) == target + rels_stmts_from(
                rv,
                j + 1,
                next,
            ));
            assert(pre + (target + rels_stmts_from(rv, j + 1, next)) =~= (pre + target)
                + rels_stmts_from(rv, j + 1, next));
        }
        if junction {
            id = id + 1;
        }
        j = j + 1;
    }
    proof {
        assert(stmts_view(out@) + rels_stmts_from(rv, nr as int, id as int) =~= stmts_view(out@));
        assert(stmts_view(out@) =~= emit_spec(ModelV { entities: ev, rels: rv }));
    }
    out
}

/// One edge from the junction node `id` to each subtype, in listed order.
fn push_subtype_edges(out: &mut Vec<GraphStmt>, id: usize, subs: &Vec<String>)
    ensures
        stmts_view(final(out)@) == stmts_view(old(out)@) + names_view(subs@).map_values(
            |n: Seq<char>| GraphStmtV::SubtypeEdge { id: id as int, to: n },
        ),
{
    let ghost base = stmts_view(old(out)@);
    let ghost target = names_view(subs@).map_values(
        |n: Seq<char>| GraphStmtV::SubtypeEdge { id: id as int, to: n },
    );
    let n = subs.len();
    let mut k: usize = 0;
    proof {
        assert(stmts_view(out@) =~= base + target.subrange(0, 0));
    }
    while k < n
        invariant
            k <= n,
            n == subs@.len(),
            base == stmts_view(old(out)@),
            target == names_view(subs@).map_values(
                |n: Seq<char>| GraphStmtV::SubtypeEdge { id: id as int, to: n },
            ),
            stmts_view(out@) == base + target.subrange(0, k as int),
        decreases n - k,
    {
        let stmt = GraphStmt::SubtypeEdge { id, to: subs[k].clone() };
        let ghost sv = stmt@;
        let ghost before = stmts_view(out@);
        out.push(stmt);
        proof {
            assert(names_view(subs@)[k as int] == subs@[k as int]@);
            assert(sv == target[k as int]);
            assert(stmts_view(out@) =~= before.push(sv));
            assert(before.push(sv) =~= base + target.subrange(0, k + 1));
        }
        k = k + 1;
    }
    proof {
        assert(target.subrange(0, n as int) =~= target);
    }
}

} // verus!
