//! Recursive-descent parser for the textual notation.
//!
//! The grammar is line oriented.  A line is blank, an entity header
//! `[name]`, an attribute line `name [/ name] [:pk] [:fk] [:null] [:akN]*`,
//! a binary relationship `E1 "role1" card1:card2 E2 "role2"`, an open
//! subtype line `E >: A + B`, or a closed subtype line `E =(disc) A + B`.
//! Attribute lines attach to the most recent entity header.
//!
//! The whole grammar is stated by the specification-level functions below;
//! each executable function returns exactly what its specification twin
//! computes, so [`parse_model`] succeeds on precisely the inputs the
//! grammar admits.

use vstd::prelude::*;

use crate::model::{
    ak_toggled,
    entity_wf,
    has_inherited_key,
    attrs_view,
    entities_view,
    names_view,
    rels_view,
    AttrV,
    Attribute,
    Cardinality,
    Entity,
    EntityV,
    ModelV,
    RelV,
    Relationship,
};
use vstd::string::StrSliceExecFns;
use vstd::string::StringExecFns;

use crate::scan::{
    find_char,
    find_char_at,
    lemma_find_char_bounds,
    lemma_scan_digits_bounds,
    lemma_scan_name_bounds,
    lemma_skip_ws_bounds,
    sat_value,
    sat_value_at,
    scan_digits,
    scan_digits_at,
    scan_name,
    scan_name_at,
    skip_ws,
    skip_ws_at,
};

verus! {

/// The input does not conform to the grammar; the payload is the character
/// offset of the line on which parsing failed.
#[derive(Clone, Copy, PartialEq, Eq, Structural, Debug)]
pub enum ParseError {
    MalformedInput(usize),
}

/// A cardinality expression: `*`, `n`, `n+` or `n..m`, with every number
/// required to fit in `usize`.  Yields the cardinality and the position
/// just past it.
pub open spec fn sp_parse_card(s: Seq<char>, i: int, e: int) -> Option<(Cardinality, int)> {
    if i < e && 0 <= i < s.len() && s[i] == '*' {
        Some((Cardinality::AtLeast(0), i + 1))
    } else {
        let d1 = scan_digits(s, i, e);
        if d1 == i {
            None
        } else {
            let v = sat_value(s, i, d1, 0, usize::MAX as nat);
            if v > usize::MAX as nat {
                None
            } else if d1 < e && 0 <= d1 < s.len() && s[d1] == '+' {
                Some((Cardinality::AtLeast(v as usize), d1 + 1))
            } else if d1 + 1 < e && 0 <= d1 && d1 + 1 < s.len() && s[d1] == '.' && s[d1 + 1]
                == '.' {
                let d2 = scan_digits(s, d1 + 2, e);
                if d2 == d1 + 2 {
                    None
                } else {
                    let w = sat_value(s, d1 + 2, d2, 0, usize::MAX as nat);
                    if w > usize::MAX as nat {
                        None
                    } else {
                        Some((Cardinality::Range(v as usize, w as usize), d2))
                    }
                }
            } else {
                Some((Cardinality::Exactly(v as usize), d1))
            }
        }
    }
}

/// The modifier list of an attribute line: zero or more of `:pk`, `:fk`,
/// `:null` and `:akN` (with `1 <= N <= 32`), applied left to right to `a`.
pub open spec fn sp_parse_mods(s: Seq<char>, i: int, e: int, a: AttrV) -> Option<AttrV>
    decreases e - i,
    when 0 <= i <= e <= s.len()
    via sp_parse_mods_dec
{
    if i >= e {
        Some(a)
    } else if s[i] != ':' {
        None
    } else {
        let w = scan_name(s, i + 1, e);
        let rest = skip_ws(s, w, e);
        if w == i + 3 && s[i + 1] == 'p' && s[i + 2] == 'k' {
            sp_parse_mods(s, rest, e, AttrV { in_pk: true, ..a })
        } else if w == i + 3 && s[i + 1] == 'f' && s[i + 2] == 'k' {
            sp_parse_mods(s, rest, e, AttrV { in_fk: true, ..a })
        } else if w == i + 5 && s[i + 1] == 'n' && s[i + 2] == 'u' && s[i + 3] == 'l' && s[i + 4]
            == 'l' {
            sp_parse_mods(s, rest, e, AttrV { nullable: true, ..a })
        } else if w > i + 3 && s[i + 1] == 'a' && s[i + 2] == 'k' && scan_digits(s, i + 3, e)
            == w {
            let v = sat_value(s, i + 3, w, 0, 32);
            if 1 <= v <= 32 {
                sp_parse_mods(s, rest, e, AttrV { aks: ak_toggled(a.aks, v as u8), ..a })
            } else {
                None
            }
        } else {
            None
        }
    }
}

#[via_fn]
proof fn sp_parse_mods_dec(s: Seq<char>, i: int, e: int, a: AttrV) {
    if 0 <= i <= e <= s.len() && i < e && s[i] == ':' {
        lemma_scan_name_bounds(s, i + 1, e);
        lemma_skip_ws_bounds(s, scan_name(s, i + 1, e), e);
    }
}

/// An attribute line starting at `i` (its first non-blank character): a
/// name, an optional `/`-separated second role-qualified name joined with
/// `" / "`, then the modifier list.
pub open spec fn sp_parse_attr(s: Seq<char>, i: int, e: int) -> Option<AttrV>
    recommends
        0 <= i <= e <= s.len(),
{
    let n1 = scan_name(s, i, e);
    if n1 == i {
        None
    } else {
        let k = skip_ws(s, n1, e);
        if k < e && 0 <= k < s.len() && s[k] == '/' {
            let k2 = skip_ws(s, k + 1, e);
            let n2 = scan_name(s, k2, e);
            if n2 == k2 {
                None
            } else {
                let name = s.subrange(i, n1) + " / "@ + s.subrange(k2, n2);
                sp_parse_mods(
                    s,
                    skip_ws(s, n2, e),
                    e,
                    AttrV { name, in_pk: false, in_fk: false, nullable: false, aks: 0u32 },
                )
            }
        } else {
            sp_parse_mods(
                s,
                k,
                e,
                AttrV {
                    name: s.subrange(i, n1),
                    in_pk: false,
                    in_fk: false,
                    nullable: false,
                    aks: 0u32,
                },
            )
        }
    }
}

/// A plus-separated, non-empty list of subtype names running to the end of
/// the line.
pub open spec fn sp_parse_subs(s: Seq<char>, i: int, e: int, acc: Seq<Seq<char>>) -> Option<
    Seq<Seq<char>>,
>
    decreases e - i,
    when 0 <= i <= e <= s.len()
    via sp_parse_subs_dec
{
    let n1 = scan_name(s, i, e);
    if n1 == i {
        None
    } else {
        let name = s.subrange(i, n1);
        let k = skip_ws(s, n1, e);
        if k >= e {
            Some(acc.push(name))
        } else if s[k] == '+' {
            sp_parse_subs(s, skip_ws(s, k + 1, e), e, acc.push(name))
        } else {
            None
        }
    }
}

#[via_fn]
proof fn sp_parse_subs_dec(s: Seq<char>, i: int, e: int, acc: Seq<Seq<char>>) {
    if 0 <= i <= e <= s.len() {
        lemma_scan_name_bounds(s, i, e);
        let n1 = scan_name(s, i, e);
        lemma_skip_ws_bounds(s, n1, e);
        let k = skip_ws(s, n1, e);
        if n1 != i && k < e {
            lemma_skip_ws_bounds(s, k + 1, e);
        }
    }
}

/// The remainder of a binary relationship line, starting at the opening
/// quote of the first role label; `e1` is the first entity name.
pub open spec fn sp_parse_binary(s: Seq<char>, q: int, e: int, e1: Seq<char>) -> Option<RelV>
    recommends
        0 <= q < e <= s.len(),
{
    let r1 = find_char(s, q + 1, e, '"');
    if r1 >= e {
        None
    } else {
        let role1 = s.subrange(q + 1, r1);
        let p0 = skip_ws(s, r1 + 1, e);
        match sp_parse_card(s, p0, e) {
            None => None,
            Some((c1, p1)) => {
                let p2 = skip_ws(s, p1, e);
                if p2 < e && 0 <= p2 < s.len() && s[p2] == ':' {
                    let p3 = skip_ws(s, p2 + 1, e);
                    match sp_parse_card(s, p3, e) {
                        None => None,
                        Some((c2, p4)) => {
                            let p5 = skip_ws(s, p4, e);
                            let n2 = scan_name(s, p5, e);
                            if n2 == p5 {
                                None
                            } else {
                                let p6 = skip_ws(s, n2, e);
                                if p6 < e && 0 <= p6 < s.len() && s[p6] == '"' {
                                    let r2 = find_char(s, p6 + 1, e, '"');
                                    if r2 >= e || skip_ws(s, r2 + 1, e) != e {
                                        None
                                    } else {
                                        Some(
                                            RelV::Binary(
                                                e1,
                                                role1,
                                                c1,
                                                s.subrange(p5, n2),
                                                s.subrange(p6 + 1, r2),
                                                c2,
                                            ),
                                        )
                                    }
                                } else {
                                    None
                                }
                            }
                        },
                    }
                } else {
                    None
                }
            },
        }
    }
}

/// One parsed line.
pub enum LineV {
    Blank,
    Header(Seq<char>),
    Attr(AttrV),
    Rel(RelV),
}

/// Classifies and parses the line `[i, e)`.  A line is blank, an entity
/// header, an attribute line, or one of the three relationship shapes; the
/// shape is decided by the first character after the leading name.
pub open spec fn sp_parse_line(s: Seq<char>, i: int, e: int) -> Option<LineV>
    recommends
        0 <= i <= e <= s.len(),
{
    let j = skip_ws(s, i, e);
    if j >= e {
        Some(LineV::Blank)
    } else if s[j] == '[' {
        let k = skip_ws(s, j + 1, e);
        let n1 = scan_name(s, k, e);
        if n1 == k {
            None
        } else {
            let l = skip_ws(s, n1, e);
            if l < e && 0 <= l < s.len() && s[l] == ']' && skip_ws(s, l + 1, e) == e {
                Some(LineV::Header(s.subrange(k, n1)))
            } else {
                None
            }
        }
    } else {
        let n1 = scan_name(s, j, e);
        if n1 == j {
            None
        } else {
            let k = skip_ws(s, n1, e);
            if k < e && 0 <= k < s.len() && s[k] == '"' {
                match sp_parse_binary(s, k, e, s.subrange(j, n1)) {
                    None => None,
                    Some(r) => Some(LineV::Rel(r)),
                }
            } else if k < e && 0 <= k < s.len() && s[k] == '>' {
                if k + 1 < e && k + 1 < s.len() && s[k + 1] == ':' {
                    match sp_parse_subs(s, skip_ws(s, k + 2, e), e, Seq::empty()) {
                        None => None,
                        Some(subs) => Some(
                            LineV::Rel(RelV::SubTypeOpen(s.subrange(j, n1), subs)),
                        ),
                    }
                } else {
                    None
                }
            } else if k < e && 0 <= k < s.len() && s[k] == '=' {
                if k + 1 < e && k + 1 < s.len() && s[k + 1] == '(' {
                    let d0 = skip_ws(s, k + 2, e);
                    let d1 = scan_name(s, d0, e);
                    if d1 == d0 {
                        None
                    } else {
                        let p = skip_ws(s, d1, e);
                        if p < e && 0 <= p < s.len() && s[p] == ')' {
                            match sp_parse_subs(s, skip_ws(s, p + 1, e), e, Seq::empty()) {
                                None => None,
                                Some(subs) => Some(
                                    LineV::Rel(
                                        RelV::SubTypeClosed(
                                            s.subrange(j, n1),
                                            s.subrange(d0, d1),
                                            subs,
                                        ),
                                    ),
                                ),
                            }
                        } else {
                            None
                        }
                    }
                } else {
                    None
                }
            } else {
                match sp_parse_attr(s, j, e) {
                    None => None,
                    Some(a) => Some(LineV::Attr(a)),
                }
            }
        }
    }
}

/// The whole input from position `i` on, with the entities and
/// relationships accumulated so far.  `in_entity` is true while attribute
/// lines may still attach to the most recent entity header.
pub open spec fn sp_parse_rest(
    s: Seq<char>,
    i: int,
    entities: Seq<EntityV>,
    rels: Seq<RelV>,
    in_entity: bool,
) -> Option<ModelV>
    decreases s.len() - i,
    when 0 <= i <= s.len()
    via sp_parse_rest_dec
{
    if i >= s.len() {
        Some(ModelV { entities, rels })
    } else {
        let e = find_char(s, i, s.len() as int, '\n');
        let next = if e < s.len() {
            e + 1
        } else {
            s.len() as int
        };
        match sp_parse_line(s, i, e) {
            None => None,
            Some(LineV::Blank) => sp_parse_rest(s, next, entities, rels, in_entity),
            Some(LineV::Header(n)) => sp_parse_rest(
                s,
                next,
                entities.push(EntityV { name: n, attributes: Seq::empty(), independent: true }),
                rels,
                true,
            ),
            Some(LineV::Attr(a)) => {
                if in_entity && entities.len() > 0 {
                    let last = entities[entities.len() - 1];
                    let updated = EntityV {
                        name: last.name,
                        attributes: last.attributes.push(a),
                        independent: last.independent && !(a.in_pk && a.in_fk),
                    };
                    sp_parse_rest(
                        s,
                        next,
                        entities.update(entities.len() - 1, updated),
                        rels,
                        true,
                    )
                } else {
                    None
                }
            },
            Some(LineV::Rel(r)) => sp_parse_rest(s, next, entities, rels.push(r), false),
        }
    }
}

#[via_fn]
proof fn sp_parse_rest_dec(
    s: Seq<char>,
    i: int,
    entities: Seq<EntityV>,
    rels: Seq<RelV>,
    in_entity: bool,
) {
    if 0 <= i <= s.len() && i < s.len() {
        lemma_find_char_bounds(s, i, s.len() as int, '\n');
    }
}

/// The grammar: the models of syntactically valid inputs, and `None` for
/// every other input.
pub open spec fn sp_parse_model(s: Seq<char>) -> Option<ModelV> {
    sp_parse_rest(s, 0, Seq::empty(), Seq::empty(), false)
}

proof fn lemma_inherited_push(attrs: Seq<AttrV>, a: AttrV)
    ensures
        has_inherited_key(attrs.push(a)) == (has_inherited_key(attrs) || (a.in_pk && a.in_fk)),
{
    if has_inherited_key(attrs) {
        let i = choose|i: int| 0 <= i < attrs.len() && attrs[i].in_pk && attrs[i].in_fk;
        assert(attrs.push(a)[i].in_pk && attrs.push(a)[i].in_fk);
    }
    if a.in_pk && a.in_fk {
        assert(attrs.push(a)[attrs.len() as int].in_pk && attrs.push(a)[attrs.len() as int].in_fk);
    }
    if has_inherited_key(attrs.push(a)) {
        let i = choose|i: int|
            0 <= i < attrs.push(a).len() && attrs.push(a)[i].in_pk && attrs.push(a)[i].in_fk;
        if i < attrs.len() {
            assert(attrs[i].in_pk && attrs[i].in_fk);
        }
    }
}

proof fn lemma_parse_rest_entities_wf(
    s: Seq<char>,
    i: int,
    entities: Seq<EntityV>,
    rels: Seq<RelV>,
    in_entity: bool,
    m: ModelV,
)
    requires
        0 <= i <= s.len(),
        forall|k: int| 0 <= k < entities.len() ==> entity_wf(#[trigger] entities[k]),
        sp_parse_rest(s, i, entities, rels, in_entity) == Some(m),
    ensures
        forall|k: int| 0 <= k < m.entities.len() ==> entity_wf(#[trigger] m.entities[k]),
    decreases s.len() - i,
{
    if i >= s.len() {
        assert(m.entities == entities);
    } else {
        let e = find_char(s, i, s.len() as int, '\n');
        lemma_find_char_bounds(s, i, s.len() as int, '\n');
        let next = if e < s.len() {
            e + 1
        } else {
            s.len() as int
        };
        match sp_parse_line(s, i, e) {
            None => {},
            Some(LineV::Blank) => {
                lemma_parse_rest_entities_wf(s, next, entities, rels, in_entity, m);
            },
            Some(LineV::Header(n)) => {
                let fresh = EntityV { name: n, attributes: Seq::empty(), independent: true };
                assert(!has_inherited_key(fresh.attributes));
                let es2 = entities.push(fresh);
                assert(forall|k: int| 0 <= k < es2.len() ==> entity_wf(#[trigger] es2[k]));
                lemma_parse_rest_entities_wf(s, next, es2, rels, true, m);
            },
            Some(LineV::Attr(a)) => {
                if in_entity && entities.len() > 0 {
                    let last = entities[entities.len() - 1];
                    let updated = EntityV {
                        name: last.name,
                        attributes: last.attributes.push(a),
                        independent: last.independent && !(a.in_pk && a.in_fk),
                    };
                    lemma_inherited_push(last.attributes, a);
                    assert(entity_wf(updated));
                    let es2 = entities.update(entities.len() - 1, updated);
                    assert(forall|k: int| 0 <= k < es2.len() ==> entity_wf(#[trigger] es2[k]));
                    lemma_parse_rest_entities_wf(s, next, es2, rels, true, m);
                }
            },
            Some(LineV::Rel(r)) => {
                lemma_parse_rest_entities_wf(s, next, entities, rels.push(r), false, m);
            },
        }
    }
}

/// Dependent-entity detection: in every model a successful parse returns,
/// each entity's `independent` flag is false exactly when some attribute
/// of that entity is marked as both a primary-key and a foreign-key
/// attribute.
pub proof fn lemma_parse_model_entities_wf(s: Seq<char>, m: ModelV)
    requires
        sp_parse_model(s) == Some(m),
    ensures
        forall|k: int| 0 <= k < m.entities.len() ==> entity_wf(#[trigger] m.entities[k]),
{
    lemma_parse_rest_entities_wf(s, 0, Seq::empty(), Seq::empty(), false, m);
}

/// A slice of the input as an owned string.
fn text_of(s: &str, i: usize, j: usize) -> (r: String)
    requires
        i <= j <= s@.len(),
    ensures
        r@ == s@.subrange(i as int, j as int),
{
    s.substring_char(i, j).to_owned()
}

/// Executable twin of [`sp_parse_card`].
fn parse_card_at(s: &str, i: usize, e: usize) -> (r: Option<(Cardinality, usize)>)
    requires
        i <= e <= s@.len(),
    ensures
        match r {
            Some((c, p)) => sp_parse_card(s@, i as int, e as int) == Some((c, p as int)) && i <= p
                <= e,
            None => sp_parse_card(s@, i as int, e as int) is None,
        },
{
    if i < e && s.get_char(i) == '*' {
        return Some((Cardinality::AtLeast(0), i + 1));
    }
    let d1 = scan_digits_at(s, i, e);
    if d1 == i {
        return None;
    }
    proof {
        lemma_scan_digits_bounds(s@, i as int, e as int);
        assert(usize::MAX as u128 <= u64::MAX as u128);
    }
    let cap: u128 = usize::MAX as u128;
    let v = sat_value_at(s, i, d1, 0, cap);
    if v > cap {
        return None;
    }
    let vz: usize = v as usize;
    if d1 < e && s.get_char(d1) == '+' {
        return Some((Cardinality::AtLeast(vz), d1 + 1));
    }
    if d1 < e && s.get_char(d1) == '.' && d1 + 1 < e && s.get_char(d1 + 1) == '.' {
        let d2 = scan_digits_at(s, d1 + 2, e);
        if d2 == d1 + 2 {
            return None;
        }
        proof {
            lemma_scan_digits_bounds(s@, d1 as int + 2, e as int);
        }
        let w = sat_value_at(s, d1 + 2, d2, 0, cap);
        if w > cap {
            return None;
        }
        return Some((Cardinality::Range(vz, w as usize), d2));
    }
    Some((Cardinality::Exactly(vz), d1))
}

/// Executable twin of [`sp_parse_mods`].
fn parse_mods_at(s: &str, i: usize, e: usize, a: Attribute) -> (r: Option<Attribute>)
    requires
        i <= e <= s@.len(),
    ensures
        match r {
            Some(a2) => sp_parse_mods(s@, i as int, e as int, a@) == Some(a2@),
            None => sp_parse_mods(s@, i as int, e as int, a@) is None,
        },
    decreases e - i,
{
    if i >= e {
        return Some(a);
    }
    if s.get_char(i) != ':' {
        return None;
    }
    let w = scan_name_at(s, i + 1, e);
    let rest = skip_ws_at(s, w, e);
    let wl = w - (i + 1);
    if wl == 2 && s.get_char(i + 1) == 'p' && s.get_char(w - 1) == 'k' {
        return parse_mods_at(s, rest, e, a.pk());
    }
    if wl == 2 && s.get_char(i + 1) == 'f' && s.get_char(w - 1) == 'k' {
        return parse_mods_at(s, rest, e, a.fk());
    }
    if wl == 4 && s.get_char(i + 1) == 'n' && s.get_char(i + 2) == 'u' && s.get_char(w - 2) == 'l'
        && s.get_char(w - 1) == 'l' {
        return parse_mods_at(s, rest, e, a.null());
    }
    if wl > 2 && s.get_char(i + 1) == 'a' && s.get_char(i + 2) == 'k' {
        let d = scan_digits_at(s, i + 3, e);
        if d != w {
            return None;
        }
        proof {
            lemma_scan_digits_bounds(s@, i as int + 3, e as int);
        }
        let v = sat_value_at(s, i + 3, w, 0, 32);
        if 1 <= v && v <= 32 {
            return parse_mods_at(s, rest, e, a.ak(v as u8));
        }
        return None;
    }
    None
}

/// Executable twin of [`sp_parse_attr`].
fn parse_attr_at(s: &str, i: usize, e: usize) -> (r: Option<Attribute>)
    requires
        i <= e <= s@.len(),
    ensures
        match r {
            Some(a) => sp_parse_attr(s@, i as int, e as int) == Some(a@),
            None => sp_parse_attr(s@, i as int, e as int) is None,
        },
{
    let n1 = scan_name_at(s, i, e);
    if n1 == i {
        return None;
    }
    let k = skip_ws_at(s, n1, e);
    if k < e && s.get_char(k) == '/' {
        let k2 = skip_ws_at(s, k + 1, e);
        let n2 = scan_name_at(s, k2, e);
        if n2 == k2 {
            return None;
        }
        let mut name = text_of(s, i, n1);
        name.append(" / ");
        let second = text_of(s, k2, n2);
        name.append(second.as_str());
        let a = Attribute { name, in_pk: false, in_fk: false, nullable: false, aks: 0 };
        parse_mods_at(s, skip_ws_at(s, n2, e), e, a)
    } else {
        let a = Attribute {
            name: text_of(s, i, n1),
            in_pk: false,
            in_fk: false,
            nullable: false,
            aks: 0,
        };
        parse_mods_at(s, k, e, a)
    }
}

/// Executable twin of [`sp_parse_subs`].
fn parse_subs_at(s: &str, i: usize, e: usize, acc: Vec<String>) -> (r: Option<Vec<String>>)
    requires
        i <= e <= s@.len(),
    ensures
        match r {
            Some(v) => sp_parse_subs(s@, i as int, e as int, names_view(acc@)) == Some(
                names_view(v@),
            ),
            None => sp_parse_subs(s@, i as int, e as int, names_view(acc@)) is None,
        },
    decreases e - i,
{
    let n1 = scan_name_at(s, i, e);
    if n1 == i {
        return None;
    }
    let name = text_of(s, i, n1);
    let k = skip_ws_at(s, n1, e);
    let ghost acc_v = names_view(acc@);
    let mut acc2 = acc;
    acc2.push(name);
    proof {
        assert(names_view(acc2@) =~= acc_v.push(s@.subrange(i as int, n1 as int)));
    }
    if k >= e {
        return Some(acc2);
    }
    if s.get_char(k) == '+' {
        let k2 = skip_ws_at(s, k + 1, e);
        parse_subs_at(s, k2, e, acc2)
    } else {
        None
    }
}

/// Executable twin of [`sp_parse_binary`].
fn parse_binary_at(s: &str, q: usize, e: usize, e1: String) -> (r: Option<Relationship>)
    requires
        q < e <= s@.len(),
    ensures
        match r {
            Some(rel) => sp_parse_binary(s@, q as int, e as int, e1@) == Some(rel@),
            None => sp_parse_binary(s@, q as int, e as int, e1@) is None,
        },
{
    let r1 = find_char_at(s, q + 1, e, '"');
    if r1 >= e {
        return None;
    }
    let role1 = text_of(s, q + 1, r1);
    let p0 = skip_ws_at(s, r1 + 1, e);
    let c1p = parse_card_at(s, p0, e);
    match c1p {
        None => None,
        Some((c1, p1)) => {
            let p2 = skip_ws_at(s, p1, e);
            if p2 < e && s.get_char(p2) == ':' {
                let p3 = skip_ws_at(s, p2 + 1, e);
                let c2p = parse_card_at(s, p3, e);
                match c2p {
                    None => None,
                    Some((c2, p4)) => {
                        let p5 = skip_ws_at(s, p4, e);
                        let n2 = scan_name_at(s, p5, e);
                        if n2 == p5 {
                            return None;
                        }
                        let p6 = skip_ws_at(s, n2, e);
                        if p6 < e && s.get_char(p6) == '"' {
                            let r2 = find_char_at(s, p6 + 1, e, '"');
                            if r2 >= e {
                                return None;
                            }
                            if skip_ws_at(s, r2 + 1, e) != e {
                                return None;
                            }
                            let e2 = text_of(s, p5, n2);
                            let role2 = text_of(s, p6 + 1, r2);
                            Some(Relationship::Binary(e1, role1, c1, e2, role2, c2))
                        } else {
                            None
                        }
                    },
                }
            } else {
                None
            }
        },
    }
}

/// One parsed line, executable side.
enum Line {
    Blank,
    Header(String),
    Attr(Attribute),
    Rel(Relationship),
}

spec fn line_view(l: Line) -> LineV {
    match l {
        Line::Blank => LineV::Blank,
        Line::Header(n) => LineV::Header(n@),
        Line::Attr(a) => LineV::Attr(a@),
        Line::Rel(r) => LineV::Rel(r@),
    }
}

/// Executable twin of [`sp_parse_line`].
fn parse_line_at(s: &str, i: usize, e: usize) -> (r: Option<Line>)
    requires
        i <= e <= s@.len(),
    ensures
        match r {
            Some(l) => sp_parse_line(s@, i as int, e as int) == Some(line_view(l)),
            None => sp_parse_line(s@, i as int, e as int) is None,
        },
{
    let j = skip_ws_at(s, i, e);
    if j >= e {
        return Some(Line::Blank);
    }
    if s.get_char(j) == '[' {
        let k = skip_ws_at(s, j + 1, e);
        let n1 = scan_name_at(s, k, e);
        if n1 == k {
            return None;
        }
        let l = skip_ws_at(s, n1, e);
        if l < e && s.get_char(l) == ']' && skip_ws_at(s, l + 1, e) == e {
            return Some(Line::Header(text_of(s, k, n1)));
        }
        return None;
    }
    let n1 = scan_name_at(s, j, e);
    if n1 == j {
        return None;
    }
    let k = skip_ws_at(s, n1, e);
    if k < e && s.get_char(k) == '"' {
        let name = text_of(s, j, n1);
        return match parse_binary_at(s, k, e, name) {
            None => None,
            Some(rel) => Some(Line::Rel(rel)),
        };
    }
    if k < e && s.get_char(k) == '>' {
        if k + 1 < e && s.get_char(k + 1) == ':' {
            let p0 = skip_ws_at(s, k + 2, e);
            proof {
                assert(names_view(Seq::<String>::empty()) =~= Seq::<Seq<char>>::empty());
            }
            return match parse_subs_at(s, p0, e, Vec::new()) {
                None => None,
                Some(subs) => Some(Line::Rel(Relationship::SubTypeOpen(text_of(s, j, n1), subs))),
            };
        }
        return None;
    }
    if k < e && s.get_char(k) == '=' {
        if k + 1 < e && s.get_char(k + 1) == '(' {
            let d0 = skip_ws_at(s, k + 2, e);
            let d1 = scan_name_at(s, d0, e);
            if d1 == d0 {
                return None;
            }
            let p = skip_ws_at(s, d1, e);
            if p < e && s.get_char(p) == ')' {
                let p0 = skip_ws_at(s, p + 1, e);
                proof {
                    assert(names_view(Seq::<String>::empty()) =~= Seq::<Seq<char>>::empty());
                }
                return match parse_subs_at(s, p0, e, Vec::new()) {
                    None => None,
                    Some(subs) => Some(
                        Line::Rel(
                            Relationship::SubTypeClosed(
                                text_of(s, j, n1),
                                text_of(s, d0, d1),
                                subs,
                            ),
                        ),
                    ),
                };
            }
            return None;
        }
        return None;
    }
    match parse_attr_at(s, j, e) {
        None => None,
        Some(a) => Some(Line::Attr(a)),
    }
}

/// Executable twin of [`sp_parse_rest`]; `n` is the character length of
/// the whole input.
fn parse_rest_at(
    s: &str,
    n: usize,
    i: usize,
    entities: Vec<Entity>,
    rels: Vec<Relationship>,
    in_entity: bool,
) -> (r: Result<(Vec<Entity>, Vec<Relationship>), ParseError>)
    requires
        i <= n,
        n == s@.len(),
    ensures
        match r {
            Ok(m) => sp_parse_rest(
                s@,
                i as int,
                entities_view(entities@),
                rels_view(rels@),
                in_entity,
            ) == Some(ModelV { entities: entities_view(m.0@), rels: rels_view(m.1@) }),
            Err(_) => sp_parse_rest(
                s@,
                i as int,
                entities_view(entities@),
                rels_view(rels@),
                in_entity,
            ) is None,
        },
    decreases n - i,
{
    if i >= n {
        return Ok((entities, rels));
    }
    let el = find_char_at(s, i, n, '\n');
    let next = if el < n {
        el + 1
    } else {
        n
    };
    match parse_line_at(s, i, el) {
        None => Err(ParseError::MalformedInput(i)),
        Some(Line::Blank) => parse_rest_at(s, n, next, entities, rels, in_entity),
        Some(Line::Header(name)) => {
            let ghost ev = entities_view(entities@);
            let ghost nv = name@;
            let mut es = entities;
            es.push(Entity { name, attributes: Vec::new(), independent: true });
            proof {
                assert(entities_view(es@) =~~= ev.push(
                    EntityV { name: nv, attributes: Seq::empty(), independent: true },
                ));
            }
            parse_rest_at(s, n, next, es, rels, true)
        },
        Some(Line::Attr(a)) => {
            if in_entity && entities.len() > 0 {
                let ghost ev = entities_view(entities@);
                let ghost av = a@;
                let both = a.in_pk && a.in_fk;
                let mut es = entities;
                let last_opt = es.pop();
                let mut last = match last_opt {
                    Some(l) => l,
                    None => {
                        return Err(ParseError::MalformedInput(i));
                    },
                };
                let ghost lv = last@;
                last.attributes.push(a);
                last.independent = last.independent && !both;
                es.push(last);
                proof {
                    let updated = EntityV {
                        name: lv.name,
                        attributes: lv.attributes.push(av),
                        independent: lv.independent && !(av.in_pk && av.in_fk),
                    };
                    assert(entities_view(es@) =~~= ev.update(ev.len() - 1, updated));
                }
                parse_rest_at(s, n, next, es, rels, true)
            } else {
                Err(ParseError::MalformedInput(i))
            }
        },
        Some(Line::Rel(rel)) => {
            let ghost rv = rels_view(rels@);
            let ghost relv = rel@;
            let mut rs = rels;
            rs.push(rel);
            proof {
                assert(rels_view(rs@) =~~= rv.push(relv));
            }
            parse_rest_at(s, n, next, entities, rs, false)
        },
    }
}

/// Parses the textual notation into the model: the entities and the
/// relationships, each in input order.
///
/// Succeeds on exactly the inputs that the grammar ([`sp_parse_model`])
/// admits, and then returns exactly the model the grammar assigns to the
/// input; every other input is rejected with `MalformedInput`.
pub fn parse_model(input: &str) -> (r: Result<(Vec<Entity>, Vec<Relationship>), ParseError>)
    ensures
        match r {
            Ok(m) => sp_parse_model(input@) == Some(
                ModelV { entities: entities_view(m.0@), rels: rels_view(m.1@) },
            ),
            Err(_) => sp_parse_model(input@) is None,
        },
{
    let n = input.unicode_len();
    proof {
        assert(entities_view(Seq::<Entity>::empty()) =~= Seq::<EntityV>::empty());
        assert(rels_view(Seq::<Relationship>::empty()) =~= Seq::<RelV>::empty());
    }
    parse_rest_at(input, n, 0, Vec::new(), Vec::new(), false)
}

} // verus!
