//! Re-serialization of a model into the textual notation itself: one
//! entity block per entity and one relationship line per relationship, in
//! order.  Re-parsing the rendered text recovers the same entity,
//! attribute and relationship facts; the round trip is exercised against
//! the parser by the test suite.

use vstd::prelude::*;
use vstd::string::StrSliceExecFns;
use vstd::string::StringExecFns;

use crate::model::{
    attrs_view,
    entities_view,
    names_view,
    rels_view,
    AttrV,
    Attribute,
    Cardinality,
    Entity,
    EntityV,
    ModelV,
    RelV,
    Relationship,
};
use crate::parser::sp_parse_card;
use crate::render::{dec_rep, digit_char, push_dec};
use crate::scan::{is_digit, sat_value, scan_digits};

verus! {

/// The cardinality token: `*` for "many", `n`, `n+` or `n..m`.
pub open spec fn card_dsl(c: Cardinality) -> Seq<char> {
    match c {
        Cardinality::Exactly(n) => dec_rep(n as nat),
        Cardinality::Range(n, m) => dec_rep(n as nat) + ".."@ + dec_rep(m as nat),
        Cardinality::AtLeast(n) => if n == 0 {
            "*"@
        } else {
            dec_rep(n as nat) + "+"@
        },
    }
}

fn push_card_dsl(out: &mut String, c: Cardinality)
    ensures
        final(out)@ == old(out)@ + card_dsl(c),
{
    match c {
        Cardinality::Exactly(n) => {
            push_dec(out, n);
        },
        Cardinality::Range(n, m) => {
            push_dec(out, n);
            out.append("..");
            push_dec(out, m);
        },
        Cardinality::AtLeast(n) => {
            if n == 0 {
                out.append("*");
            } else {
                push_dec(out, n);
                out.append("+");
            }
        },
    }
    proof {
        assert(out@ =~= old(out)@ + card_dsl(c));
    }
}

/// The `:akN` modifiers of an attribute for the groups from bit `i` on.
pub open spec fn ak_dsl_from(aks: u32, i: int) -> Seq<char>
    decreases 32 - i,
{
    if 0 <= i < 32 {
        (if aks & (1u32 << (i as u32)) != 0 {
            " :ak"@ + dec_rep((i + 1) as nat)
        } else {
            Seq::empty()
        }) + ak_dsl_from(aks, i + 1)
    } else {
        Seq::empty()
    }
}

/// One attribute line: the name, then `:pk`, `:fk`, `:null` and the
/// `:akN` modifiers it carries.
pub open spec fn attr_dsl(a: AttrV) -> Seq<char> {
    a.name + (if a.in_pk {
        " :pk"@
    } else {
        Seq::empty()
    }) + (if a.in_fk {
        " :fk"@
    } else {
        Seq::empty()
    }) + (if a.nullable {
        " :null"@
    } else {
        Seq::empty()
    }) + ak_dsl_from(a.aks, 0) + "\n"@
}

fn push_ak_dsl(out: &mut String, aks: u32, i: u32)
    requires
        i <= 32,
    ensures
        final(out)@ == old(out)@ + ak_dsl_from(aks, i as int),
    decreases 32 - i,
{
    if i >= 32 {
        proof {
            assert(out@ =~= old(out)@ + ak_dsl_from(aks, i as int));
        }
        return ;
    }
    if aks & (1u32 << i) != 0 {
        out.append(" :ak");
        push_dec(out, (i + 1) as usize);
    }
    push_ak_dsl(out, aks, i + 1);
    proof {
        assert(out@ =~= old(out)@ + ak_dsl_from(aks, i as int));
    }
}

fn push_attr_dsl(out: &mut String, a: &Attribute)
    ensures
        final(out)@ == old(out)@ + attr_dsl(a@),
{
    out.append(a.name.as_str());
    if a.in_pk {
        out.append(" :pk");
    }
    if a.in_fk {
        out.append(" :fk");
    }
    if a.nullable {
        out.append(" :null");
    }
    push_ak_dsl(out, a.aks, 0);
    out.append("\n");
    proof {
        assert(out@ =~= old(out)@ + attr_dsl(a@));
    }
}

/// The attribute lines of an entity block from index `i` on.
pub open spec fn attrs_dsl(attrs: Seq<AttrV>) -> Seq<char>
    decreases attrs.len(),
{
    if attrs.len() == 0 {
        Seq::empty()
    } else {
        attr_dsl(attrs[0]) + attrs_dsl(attrs.drop_first())
    }
}

fn push_attrs_dsl(out: &mut String, attrs: &Vec<Attribute>, i: usize)
    requires
        i <= attrs@.len(),
    ensures
        final(out)@ == old(out)@ + attrs_dsl(attrs_view(attrs@).skip(i as int)),
    decreases attrs@.len() - i,
{
    if i < attrs.len() {
        push_attr_dsl(out, &attrs[i]);
        push_attrs_dsl(out, attrs, i + 1);
        proof {
            let tail = attrs_view(attrs@).skip(i as int);
            assert(tail[0] == attrs_view(attrs@)[i as int]);
            assert(tail.drop_first() =~= attrs_view(attrs@).skip(i + 1));
            assert(out@ =~= old(out)@ + attrs_dsl(tail));
        }
    } else {
        proof {
            assert(attrs_view(attrs@).skip(i as int) =~= Seq::<AttrV>::empty());
            assert(out@ =~= old(out)@ + attrs_dsl(attrs_view(attrs@).skip(i as int)));
        }
    }
}

/// One entity block: the header line and the attribute lines.
pub open spec fn entity_dsl(e: EntityV) -> Seq<char> {
    "["@ + e.name + "]\n"@ + attrs_dsl(e.attributes) + "\n"@
}

fn push_entity_dsl(out: &mut String, e: &Entity)
    ensures
        final(out)@ == old(out)@ + entity_dsl(e@),
{
    out.append("[");
    out.append(e.name.as_str());
    out.append("]\n");
    push_attrs_dsl(out, &e.attributes, 0);
    out.append("\n");
    proof {
        assert(attrs_view(e.attributes@).skip(0) =~= attrs_view(e.attributes@));
        assert(out@ =~= old(out)@ + entity_dsl(e@));
    }
}

/// A plus-separated subtype list from index `i` on (each name but the
/// first preceded by ` + `).
pub open spec fn subs_dsl(subs: Seq<Seq<char>>, i: int) -> Seq<char>
    decreases subs.len() - i,
{
    if 0 <= i < subs.len() {
        (if i > 0 {
            " + "@
        } else {
            Seq::empty()
        }) + subs[i] + subs_dsl(subs, i + 1)
    } else {
        Seq::empty()
    }
}

fn push_subs_dsl(out: &mut String, subs: &Vec<String>, i: usize)
    requires
        i <= subs@.len(),
    ensures
        final(out)@ == old(out)@ + subs_dsl(names_view(subs@), i as int),
    decreases subs@.len() - i,
{
    if i < subs.len() {
        if i > 0 {
            out.append(" + ");
        }
        out.append(subs[i].as_str());
        push_subs_dsl(out, subs, i + 1);
        proof {
            assert(out@ =~= old(out)@ + subs_dsl(names_view(subs@), i as int));
        }
    } else {
        proof {
            assert(out@ =~= old(out)@ + subs_dsl(names_view(subs@), i as int));
        }
    }
}

/// One relationship line, in the notation's three shapes.
pub open spec fn rel_dsl(r: RelV) -> Seq<char> {
    match r {
        RelV::Binary(e1, s1, c1, e2, s2, c2) => e1 + " \""@ + s1 + "\" "@ + card_dsl(c1) + ":"@
            + card_dsl(c2) + " "@ + e2 + " \""@ + s2 + "\"\n"@,
        RelV::SubTypeOpen(sup, subs) => sup + " >: "@ + subs_dsl(subs, 0) + "\n"@,
        RelV::SubTypeClosed(sup, disc, subs) => sup + " =("@ + disc + ") "@ + subs_dsl(subs, 0)
            + "\n"@,
    }
}

fn push_rel_dsl(out: &mut String, r: &Relationship)
    ensures
        final(out)@ == old(out)@ + rel_dsl(r@),
{
    match r {
        Relationship::Binary(e1, s1, c1, e2, s2, c2) => {
            out.append(e1.as_str());
            out.append(" \"");
            out.append(s1.as_str());
            out.append("\" ");
            push_card_dsl(out, *c1);
            out.append(":");
            push_card_dsl(out, *c2);
            out.append(" ");
            out.append(e2.as_str());
            out.append(" \"");
            out.append(s2.as_str());
            out.append("\"\n");
            proof {
                assert(out@ =~= old(out)@ + rel_dsl(r@));
            }
        },
        Relationship::SubTypeOpen(sup, subs) => {
            out.append(sup.as_str());
            out.append(" >: ");
            push_subs_dsl(out, subs, 0);
            out.append("\n");
            proof {
                assert(out@ =~= old(out)@ + rel_dsl(r@));
            }
        },
        Relationship::SubTypeClosed(sup, disc, subs) => {
            out.append(sup.as_str());
            out.append(" =(");
            out.append(disc.as_str());
            out.append(") ");
            push_subs_dsl(out, subs, 0);
            out.append("\n");
            proof {
                assert(out@ =~= old(out)@ + rel_dsl(r@));
            }
        },
    }
}

/// The entity blocks from index `i` on.
pub open spec fn entities_dsl(es: Seq<EntityV>) -> Seq<char>
    decreases es.len(),
{
    if es.len() == 0 {
        Seq::empty()
    } else {
        entity_dsl(es[0]) + entities_dsl(es.drop_first())
    }
}

/// The relationship lines from index `i` on.
pub open spec fn rels_dsl(rs: Seq<RelV>) -> Seq<char>
    decreases rs.len(),
{
    if rs.len() == 0 {
        Seq::empty()
    } else {
        rel_dsl(rs[0]) + rels_dsl(rs.drop_first())
    }
}

/// The whole model in the textual notation: the entity blocks, then the
/// relationship lines.
pub open spec fn model_dsl(m: ModelV) -> Seq<char> {
    entities_dsl(m.entities) + rels_dsl(m.rels)
}

fn push_entities_dsl(out: &mut String, es: &Vec<Entity>, i: usize)
    requires
        i <= es@.len(),
    ensures
        final(out)@ == old(out)@ + entities_dsl(entities_view(es@).skip(i as int)),
    decreases es@.len() - i,
{
    if i < es.len() {
        push_entity_dsl(out, &es[i]);
        push_entities_dsl(out, es, i + 1);
        proof {
            let tail = entities_view(es@).skip(i as int);
            assert(tail[0] == entities_view(es@)[i as int]);
            assert(tail.drop_first() =~= entities_view(es@).skip(i + 1));
            assert(out@ =~= old(out)@ + entities_dsl(tail));
        }
    } else {
        proof {
            assert(entities_view(es@).skip(i as int) =~= Seq::<EntityV>::empty());
            assert(out@ =~= old(out)@ + entities_dsl(entities_view(es@).skip(i as int)));
        }
    }
}

fn push_rels_dsl(out: &mut String, rs: &Vec<Relationship>, i: usize)
    requires
        i <= rs@.len(),
    ensures
        final(out)@ == old(out)@ + rels_dsl(rels_view(rs@).skip(i as int)),
    decreases rs@.len() - i,
{
    if i < rs.len() {
        push_rel_dsl(out, &rs[i]);
        push_rels_dsl(out, rs, i + 1);
        proof {
            let tail = rels_view(rs@).skip(i as int);
            assert(tail[0] == rels_view(rs@)[i as int]);
            assert(tail.drop_first() =~= rels_view(rs@).skip(i + 1));
            assert(out@ =~= old(out)@ + rels_dsl(tail));
        }
    } else {
        proof {
            assert(rels_view(rs@).skip(i as int) =~= Seq::<RelV>::empty());
            assert(out@ =~= old(out)@ + rels_dsl(rels_view(rs@).skip(i as int)));
        }
    }
}

proof fn lemma_dec_rep_digits(n: nat)
    ensures
        dec_rep(n).len() >= 1,
        forall|k: int| 0 <= k < dec_rep(n).len() ==> is_digit(#[trigger] dec_rep(n)[k]),
    decreases n,
{
    if n < 10 {
        assert(is_digit(digit_char(n)));
    } else {
        lemma_dec_rep_digits(n / 10);
        assert(is_digit(digit_char(n % 10)));
    }
}

proof fn lemma_scan_digits_stops(s: Seq<char>, i: int, j: int, e: int)
    requires
        0 <= i <= j <= e <= s.len(),
        forall|k: int| i <= k < j ==> is_digit(#[trigger] s[k]),
        j == e || !is_digit(s[j]),
    ensures
        scan_digits(s, i, e) == j,
    decreases j - i,
{
    if i < j {
        lemma_scan_digits_stops(s, i + 1, j, e);
    }
}

/// Processing `[i, j)` and then `[j, e)` is processing `[i, e)`.
proof fn lemma_sat_value_split(s: Seq<char>, i: int, j: int, e: int, acc: nat, cap: nat)
    requires
        0 <= i <= j <= e,
    ensures
        sat_value(s, i, e, acc, cap) == sat_value(s, j, e, sat_value(s, i, j, acc, cap), cap),
    decreases j - i,
{
    if i < j && 0 <= i < s.len() {
        let d = (s[i] as u32 - '0' as u32) as nat;
        let grown = acc * 10 + d;
        let acc2: nat = if grown > cap {
            (cap + 1) as nat
        } else {
            grown
        };
        lemma_sat_value_split(s, i + 1, j, e, acc2, cap);
    }
}

/// Reading the decimal notation of `n` back yields `n`.
proof fn lemma_sat_value_of_dec(s: Seq<char>, i: int, j: int, n: nat, cap: nat)
    requires
        0 <= i <= j <= s.len(),
        s.subrange(i, j) == dec_rep(n),
        n <= cap,
    ensures
        sat_value(s, i, j, 0, cap) == n,
    decreases n,
{
    lemma_dec_rep_digits(n);
    assert(j - i == dec_rep(n).len());
    if n < 10 {
        assert(s[i] == dec_rep(n)[0]);
        assert(s[i] == digit_char(n));
        assert((s[i] as u32 - '0' as u32) as nat == n);
        assert(sat_value(s, i + 1, j, n, cap) == n);
    } else {
        lemma_dec_rep_digits(n / 10);
        vstd::arithmetic::div_mod::lemma_fundamental_div_mod(n as int, 10);
        assert(s.subrange(i, j - 1) =~= dec_rep(n / 10)) by {
            assert(forall|k: int|
                0 <= k < dec_rep(n).len() - 1 ==> dec_rep(n)[k] == dec_rep(n / 10)[k]);
            assert(forall|k: int| i <= k < j ==> s[k] == dec_rep(n)[k - i]);
        }
        lemma_sat_value_of_dec(s, i, j - 1, n / 10, cap);
        lemma_sat_value_split(s, i, j - 1, j, 0, cap);
        assert(s[j - 1] == dec_rep(n)[j - 1 - i]);
        assert(s[j - 1] == digit_char(n % 10));
        assert((s[j - 1] as u32 - '0' as u32) as nat == n % 10);
        let v = sat_value(s, i, j - 1, 0, cap);
        assert(v == n / 10);
        assert(v * 10 + n % 10 == n);
        assert(sat_value(s, j, j, n, cap) == n);
        assert(sat_value(s, j - 1, j, v, cap) == n);
    }
}

/// Round trip of the cardinality token: parsing the rendered token of any
/// cardinality yields that cardinality back, ending exactly at the token's
/// end, whenever the token stops there (it runs to the end of the line or
/// the next character is the `:` or space that the notation puts after
/// it).
pub proof fn lemma_card_dsl_round_trip(s: Seq<char>, i: int, e: int, lend: int, c: Cardinality)
    requires
        0 <= i <= e <= lend <= s.len(),
        s.subrange(i, e) == card_dsl(c),
        e - i == card_dsl(c).len(),
        e < lend ==> (s[e] == ':' || s[e] == ' '),
    ensures
        sp_parse_card(s, i, lend) == Some((c, e)),
{
    reveal_strlit("*");
    reveal_strlit("..");
    reveal_strlit("+");
    assert(forall|k: int| i <= k < e ==> s[k] == card_dsl(c)[k - i]);
    match c {
        Cardinality::Exactly(n) => {
            lemma_dec_rep_digits(n as nat);
            lemma_scan_digits_stops(s, i, e, lend);
            lemma_sat_value_of_dec(s, i, e, n as nat, usize::MAX as nat);
        },
        Cardinality::Range(n, m) => {
            lemma_dec_rep_digits(n as nat);
            lemma_dec_rep_digits(m as nat);
            let a = i + dec_rep(n as nat).len();
            let b = a + 2;
            assert(s.subrange(i, a) =~= dec_rep(n as nat));
            assert(s.subrange(b, e) =~= dec_rep(m as nat));
            assert(s[a] == '.' && s[a + 1] == '.');
            assert(!is_digit('.'));
            lemma_scan_digits_stops(s, i, a, lend);
            lemma_sat_value_of_dec(s, i, a, n as nat, usize::MAX as nat);
            lemma_scan_digits_stops(s, b, e, lend);
            lemma_sat_value_of_dec(s, b, e, m as nat, usize::MAX as nat);
        },
        Cardinality::AtLeast(n) => {
            if n == 0 {
                assert(s[i] == '*');
            } else {
                lemma_dec_rep_digits(n as nat);
                let a = i + dec_rep(n as nat).len();
                assert(s.subrange(i, a) =~= dec_rep(n as nat));
                assert(s[a] == '+');
                assert(!is_digit('+'));
                lemma_scan_digits_stops(s, i, a, lend);
                lemma_sat_value_of_dec(s, i, a, n as nat, usize::MAX as nat);
            }
        },
    }
}

/// Re-serializes a model into the textual notation.
pub fn render_dsl(entities: &Vec<Entity>, relationships: &Vec<Relationship>) -> (r: String)
    ensures
        r@ == model_dsl(
            ModelV { entities: entities_view(entities@), rels: rels_view(relationships@) },
        ),
{
    let mut out = String::new();
    push_entities_dsl(&mut out, entities, 0);
    push_rels_dsl(&mut out, relationships, 0);
    proof {
        assert(entities_view(entities@).skip(0) =~= entities_view(entities@));
        assert(rels_view(relationships@).skip(0) =~= rels_view(relationships@));
        assert(out@ =~= model_dsl(
            ModelV { entities: entities_view(entities@), rels: rels_view(relationships@) },
        ));
    }
    out
}

} // verus!
