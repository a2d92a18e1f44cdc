//! The in-memory model of an entity-relationship description: attributes
//! with key and nullability modifiers, entities, cardinalities, and
//! relationships (binary or subtype).

use vstd::prelude::*;

verus! {

/// Mathematical view of an [`Attribute`]: the label as a character
/// sequence together with the modifier flags.
#[verifier::ext_equal]
pub struct AttrV {
    pub name: Seq<char>,
    pub in_pk: bool,
    pub in_fk: bool,
    pub nullable: bool,
    pub aks: u32,
}

/// A named property of an entity.  `aks` is a bit set: bit `n - 1` is set
/// when the attribute belongs to alternate-key group `n`.
pub struct Attribute {
    pub name: String,
    pub in_pk: bool,
    pub in_fk: bool,
    pub nullable: bool,
    pub aks: u32,
}

impl View for Attribute {
    type V = AttrV;

    open spec fn view(&self) -> AttrV {
        AttrV {
            name: self.name@,
            in_pk: self.in_pk,
            in_fk: self.in_fk,
            nullable: self.nullable,
            aks: self.aks,
        }
    }
}

/// The alternate-key bit set after toggling group `id` (1-based).
pub open spec fn ak_toggled(aks: u32, id: u8) -> u32
    recommends
        1 <= id <= 32,
{
    aks ^ (1u32 << ((id - 1) as u32))
}

impl Attribute {
    /// A plain descriptive attribute: no modifiers set.
    pub fn new(name: &str) -> (a: Attribute)
        ensures
            a@ == (AttrV { name: name@, in_pk: false, in_fk: false, nullable: false, aks: 0u32 }),
    {
        Attribute { name: name.to_owned(), in_pk: false, in_fk: false, nullable: false, aks: 0 }
    }

    /// Marks the attribute as a foreign (inherited) key.
    pub fn fk(self) -> (a: Attribute)
        ensures
            a@ == (AttrV { in_fk: true, ..self@ }),
    {
        Attribute { in_fk: true, ..self }
    }

    /// Marks the attribute as part of the primary key.
    pub fn pk(self) -> (a: Attribute)
        ensures
            a@ == (AttrV { in_pk: true, ..self@ }),
    {
        Attribute { in_pk: true, ..self }
    }

    /// Marks the attribute as nullable.
    pub fn null(self) -> (a: Attribute)
        ensures
            a@ == (AttrV { nullable: true, ..self@ }),
    {
        Attribute { nullable: true, ..self }
    }

    /// Toggles membership in alternate-key group `id` (1-based): applying
    /// the same group twice cancels it.
    pub fn ak(self, id: u8) -> (a: Attribute)
        requires
            1 <= id <= 32,
        ensures
            a@ == (AttrV { aks: ak_toggled(self.aks, id), ..self@ }),
    {
        let shift: u32 = (id - 1) as u32;
        Attribute { aks: self.aks ^ (1u32 << shift), ..self }
    }
}

/// Toggling the same alternate-key group twice returns the bit set to its
/// original value (exclusive-or semantics).
pub proof fn lemma_ak_toggle_idempotent(aks: u32, id: u8)
    requires
        1 <= id <= 32,
    ensures
        ak_toggled(ak_toggled(aks, id), id) == aks,
{
    let s = (id - 1) as u32;
    assert((aks ^ (1u32 << s)) ^ (1u32 << s) == aks) by (bit_vector);
}

/// Mathematical view of an [`Entity`].
#[verifier::ext_equal]
pub struct EntityV {
    pub name: Seq<char>,
    pub attributes: Seq<AttrV>,
    pub independent: bool,
}

/// True when some attribute is simultaneously a primary-key and a
/// foreign-key attribute, i.e. the entity's identity is wholly or partly
/// inherited from another entity.
pub open spec fn has_inherited_key(attributes: Seq<AttrV>) -> bool {
    exists|i: int| 0 <= i < attributes.len() && attributes[i].in_pk && attributes[i].in_fk
}

/// The `independent` flag is derived: false exactly when the entity has an
/// attribute that is both a primary-key and a foreign-key attribute.
pub open spec fn entity_wf(e: EntityV) -> bool {
    e.independent == !has_inherited_key(e.attributes)
}

/// A modeled thing with an identity and an ordered list of attributes.
pub struct Entity {
    pub name: String,
    pub attributes: Vec<Attribute>,
    pub independent: bool,
}

impl View for Entity {
    type V = EntityV;

    open spec fn view(&self) -> EntityV {
        EntityV {
            name: self.name@,
            attributes: attrs_view(self.attributes@),
            independent: self.independent,
        }
    }
}

impl Entity {
    /// An entity with no attributes yet; with none, it is independent.
    pub fn new(name: &str) -> (e: Entity)
        ensures
            e@.name == name@,
            e@.attributes == Seq::<AttrV>::empty(),
            e@.independent,
    {
        let e = Entity { name: name.to_owned(), attributes: Vec::new(), independent: true };
        proof {
            assert(e@.attributes =~= Seq::<AttrV>::empty());
        }
        e
    }

    /// Appends one attribute, leaving the name and the `independent` flag
    /// as they were.
    pub fn att(self, a: Attribute) -> (e: Entity)
        ensures
            e@.name == self@.name,
            e@.attributes == self@.attributes.push(a@),
            e@.independent == self@.independent,
    {
        let ghost before = self@.attributes;
        let mut attributes = self.attributes;
        attributes.push(a);
        let e = Entity { name: self.name, attributes, independent: self.independent };
        proof {
            assert(e@.attributes =~= before.push(a@));
        }
        e
    }
}

/// In a well-formed entity the dependent (weak) entities are exactly those
/// with an attribute marked as both a primary-key and a foreign-key
/// attribute.
pub proof fn lemma_dependent_entity(e: EntityV)
    requires
        entity_wf(e),
    ensures
        has_inherited_key(e.attributes) <==> !e.independent,
{
}

/// How many instances of the other entity each instance may participate
/// with on one side of a binary relationship.  `AtLeast(0)` denotes
/// "many": unbounded and optional.
#[derive(Clone, Copy, PartialEq, Eq, Structural, Debug)]
pub enum Cardinality {
    Exactly(usize),
    Range(usize, usize),
    AtLeast(usize),
}

/// Mathematical view of a [`Relationship`]: entity names, role labels and
/// discriminators as character sequences.
#[verifier::ext_equal]
pub enum RelV {
    Binary(Seq<char>, Seq<char>, Cardinality, Seq<char>, Seq<char>, Cardinality),
    SubTypeOpen(Seq<char>, Seq<Seq<char>>),
    SubTypeClosed(Seq<char>, Seq<char>, Seq<Seq<char>>),
}

/// A relationship between entities, referred to by name.
///
/// `Binary(entity1, role1, card1, entity2, role2, card2)` is a named
/// bidirectional association.  `SubTypeOpen(supertype, subtypes)` is a
/// non-exhaustive, non-exclusive generalization.  `SubTypeClosed(supertype,
/// discriminator, subtypes)` is an exhaustive, mutually exclusive partition
/// labeled by a discriminator.
pub enum Relationship {
    Binary(String, String, Cardinality, String, String, Cardinality),
    SubTypeOpen(String, Vec<String>),
    SubTypeClosed(String, String, Vec<String>),
}

impl View for Relationship {
    type V = RelV;

    open spec fn view(&self) -> RelV {
        match self {
            Relationship::Binary(e1, s1, c1, e2, s2, c2) => RelV::Binary(
                e1@,
                s1@,
                *c1,
                e2@,
                s2@,
                *c2,
            ),
            Relationship::SubTypeOpen(sup, subs) => RelV::SubTypeOpen(sup@, names_view(subs@)),
            Relationship::SubTypeClosed(sup, disc, subs) => RelV::SubTypeClosed(
                sup@,
                disc@,
                names_view(subs@),
            ),
        }
    }
}

/// Views of a list of attributes, entities, relationships or names.
pub open spec fn attrs_view(s: Seq<Attribute>) -> Seq<AttrV> {
    s.map_values(|a: Attribute| a@)
}

pub open spec fn entities_view(s: Seq<Entity>) -> Seq<EntityV> {
    s.map_values(|e: Entity| e@)
}

pub open spec fn rels_view(s: Seq<Relationship>) -> Seq<RelV> {
    s.map_values(|r: Relationship| r@)
}

pub open spec fn names_view(s: Seq<String>) -> Seq<Seq<char>> {
    s.map_values(|n: String| n@)
}

/// A parsed model: the entities and the relationships, each in input
/// order.
#[verifier::ext_equal]
pub struct ModelV {
    pub entities: Seq<EntityV>,
    pub rels: Seq<RelV>,
}

} // verus!
