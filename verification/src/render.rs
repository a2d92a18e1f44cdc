//! Rendering: from graph-description statements to the textual document.
//! Every piece of text is pinned down by a specification-level function;
//! each executable renderer appends exactly that text.

use vstd::prelude::*;
use vstd::string::StrSliceExecFns;
use vstd::string::StringExecFns;

use crate::graph::{
    emit_graph,
    emit_spec,
    stmts_view,
    GraphStmt,
    GraphStmtV,
};
use crate::model::{
    attrs_view,
    entities_view,
    names_view,
    rels_view,
    AttrV,
    Attribute,
    Cardinality,
    Entity,
    ModelV,
    Relationship,
};

verus! {

pub open spec fn digit_char(d: nat) -> char {
    if d == 0 {
        '0'
    } else if d == 1 {
        '1'
    } else if d == 2 {
        '2'
    } else if d == 3 {
        '3'
    } else if d == 4 {
        '4'
    } else if d == 5 {
        '5'
    } else if d == 6 {
        '6'
    } else if d == 7 {
        '7'
    } else if d == 8 {
        '8'
    } else {
        '9'
    }
}

/// The usual decimal notation of `n`, most significant digit first, no
/// leading zeros (just `0` for zero).
pub open spec fn dec_rep(n: nat) -> Seq<char>
    decreases n,
{
    if n < 10 {
        seq![digit_char(n)]
    } else {
        dec_rep(n / 10).push(digit_char(n % 10))
    }
}

fn digit_str(d: usize) -> (r: &'static str)
    requires
        d < 10,
    ensures
        r@ == seq![digit_char(d as nat)],
{
    let r: &'static str = if d == 0 {
        "0"
    } else if d == 1 {
        "1"
    } else if d == 2 {
        "2"
    } else if d == 3 {
        "3"
    } else if d == 4 {
        "4"
    } else if d == 5 {
        "5"
    } else if d == 6 {
        "6"
    } else if d == 7 {
        "7"
    } else if d == 8 {
        "8"
    } else {
        "9"
    };
    proof {
        reveal_strlit("0");
        reveal_strlit("1");
        reveal_strlit("2");
        reveal_strlit("3");
        reveal_strlit("4");
        reveal_strlit("5");
        reveal_strlit("6");
        reveal_strlit("7");
        reveal_strlit("8");
        reveal_strlit("9");
        assert(r@ =~= seq![digit_char(d as nat)]);
    }
    r
}

/// Appends the decimal notation of `n`.
pub(crate) fn push_dec(out: &mut String, n: usize)
    ensures
        final(out)@ == old(out)@ + dec_rep(n as nat),
    decreases n,
{
    if n < 10 {
        out.append(digit_str(n));
        proof {
            assert(out@ =~= old(out)@ + dec_rep(n as nat));
        }
    } else {
        push_dec(out, n / 10);
        out.append(digit_str(n % 10));
        proof {
            assert(out@ =~= old(out)@ + dec_rep(n as nat));
        }
    }
}

/// The label for one cardinality: the common "exactly one" is elided,
/// `AtLeast(0)` is the "many" glyph, `AtLeast(n)` is `n+`, `Range(n, m)`
/// is `n..m`, and `Exactly(n)` is the number itself.
pub open spec fn card_str(c: Cardinality) -> Seq<char> {
    match c {
        Cardinality::Exactly(n) => if n == 1 {
            Seq::empty()
        } else {
            dec_rep(n as nat)
        },
        Cardinality::Range(n, m) => if n == 1 && m == 1 {
            Seq::empty()
        } else {
            dec_rep(n as nat) + ".."@ + dec_rep(m as nat)
        },
        Cardinality::AtLeast(n) => if n == 0 {
            "\u{2217}"@
        } else {
            dec_rep(n as nat) + "+"@
        },
    }
}

fn push_card(out: &mut String, c: Cardinality)
    ensures
        final(out)@ == old(out)@ + card_str(c),
{
    match c {
        Cardinality::Exactly(n) => {
            if n != 1 {
                push_dec(out, n);
            }
        },
        Cardinality::Range(n, m) => {
            if !(n == 1 && m == 1) {
                push_dec(out, n);
                out.append("..");
                push_dec(out, m);
            }
        },
        Cardinality::AtLeast(n) => {
            if n == 0 {
                out.append("\u{2217}");
            } else {
                push_dec(out, n);
                out.append("+");
            }
        },
    }
    proof {
        assert(out@ =~= old(out)@ + card_str(c));
    }
}

/// The label for one cardinality, as an owned string.
pub fn render_cardinality(c: Cardinality) -> (r: String)
    ensures
        r@ == card_str(c),
{
    let mut out = String::new();
    push_card(&mut out, c);
    proof {
        assert(out@ =~= card_str(c));
    }
    out
}

/// The `AK{n}` decorations for the alternate-key groups from bit `i` on,
/// in ascending group order.
pub open spec fn ak_mods_from(aks: u32, i: int) -> Seq<Seq<char>>
    decreases 32 - i,
{
    if 0 <= i < 32 {
        (if aks & (1u32 << (i as u32)) != 0 {
            seq!["AK"@ + dec_rep((i + 1) as nat)]
        } else {
            Seq::empty()
        }) + ak_mods_from(aks, i + 1)
    } else {
        Seq::empty()
    }
}

/// The decoration strings of one attribute, in this fixed order: `FK`,
/// then `AK{n}` for each alternate-key group in ascending order, then
/// `NULL`.
pub open spec fn mods_seq(a: AttrV) -> Seq<Seq<char>> {
    (if a.in_fk {
        seq!["FK"@]
    } else {
        Seq::empty()
    }) + ak_mods_from(a.aks, 0) + (if a.nullable {
        seq!["NULL"@]
    } else {
        Seq::empty()
    })
}

fn ak_mod_strings(aks: u32, i: u32, acc: Vec<String>) -> (r: Vec<String>)
    requires
        i <= 32,
    ensures
        names_view(r@) == names_view(acc@) + ak_mods_from(aks, i as int),
    decreases 32 - i,
{
    if i >= 32 {
        proof {
            assert(names_view(acc@) + ak_mods_from(aks, i as int) =~= names_view(acc@));
        }
        return acc;
    }
    let mut acc2 = acc;
    if aks & (1u32 << i) != 0 {
        let mut t = "AK".to_owned();
        push_dec(&mut t, (i + 1) as usize);
        let ghost tv = t@;
        acc2.push(t);
        proof {
            assert(tv == "AK"@ + dec_rep((i + 1) as nat));
            assert(names_view(acc2@) =~= names_view(acc@).push(tv));
        }
    }
    let r = ak_mod_strings(aks, i + 1, acc2);
    proof {
        assert(names_view(r@) =~= names_view(acc@) + ak_mods_from(aks, i as int));
    }
    r
}

/// The decoration strings of one attribute.
fn mod_strings(a: &Attribute) -> (r: Vec<String>)
    ensures
        names_view(r@) == mods_seq(a@),
{
    let mut ms: Vec<String> = Vec::new();
    let ghost empty_names = names_view(ms@);
    proof {
        assert(empty_names =~= Seq::<Seq<char>>::empty());
    }
    if a.in_fk {
        ms.push("FK".to_owned());
        proof {
            assert(names_view(ms@) =~= seq!["FK"@]);
        }
    }
    let ms2 = ak_mod_strings(a.aks, 0, ms);
    let mut ms3 = ms2;
    if a.nullable {
        let ghost before = names_view(ms3@);
        ms3.push("NULL".to_owned());
        proof {
            assert(names_view(ms3@) =~= before.push("NULL"@));
        }
    }
    proof {
        assert(names_view(ms3@) =~= mods_seq(a@));
    }
    ms3
}

/// The decorations joined, each followed by one space.
pub open spec fn mods_text(ms: Seq<Seq<char>>) -> Seq<char>
    decreases ms.len(),
{
    if ms.len() == 0 {
        Seq::empty()
    } else {
        ms[0] + " "@ + mods_text(ms.drop_first())
    }
}

fn push_mods(out: &mut String, ms: &Vec<String>, i: usize)
    requires
        i <= ms@.len(),
    ensures
        final(out)@ == old(out)@ + mods_text(names_view(ms@).skip(i as int)),
    decreases ms@.len() - i,
{
    if i < ms.len() {
        out.append(ms[i].as_str());
        out.append(" ");
        push_mods(out, ms, i + 1);
        proof {
            let tail = names_view(ms@).skip(i as int);
            assert(tail[0] == names_view(ms@)[i as int]);
            assert(tail.drop_first() =~= names_view(ms@).skip(i + 1));
            assert(out@ =~= old(out)@ + mods_text(tail));
        }
    } else {
        proof {
            assert(names_view(ms@).skip(i as int) =~= Seq::<Seq<char>>::empty());
            assert(out@ =~= old(out)@ + mods_text(names_view(ms@).skip(i as int)));
        }
    }
}

/// One attribute row of an entity's table: the name, then (when the
/// attribute carries modifiers) the decorations in a smaller font.
pub open spec fn attr_row(a: AttrV) -> Seq<char> {
    "<tr><td align=\"left\">"@ + a.name + "</td><td align=\"left\">"@ + (if mods_seq(a).len()
        > 0 {
        "<font point-size=\"8\">"@ + mods_text(mods_seq(a)) + "</font>"@
    } else {
        Seq::empty()
    }) + "</td></tr>\n"@
}

fn push_attr_row(out: &mut String, a: &Attribute)
    ensures
        final(out)@ == old(out)@ + attr_row(a@),
{
    out.append("<tr><td align=\"left\">");
    out.append(a.name.as_str());
    out.append("</td><td align=\"left\">");
    let ms = mod_strings(a);
    if ms.len() > 0 {
        out.append("<font point-size=\"8\">");
        push_mods(out, &ms, 0);
        out.append("</font>");
        proof {
            assert(names_view(ms@).skip(0) =~= names_view(ms@));
        }
    }
    out.append("</td></tr>\n");
    proof {
        assert(out@ =~= old(out)@ + attr_row(a@));
    }
}

/// The rows for a block of attributes, in order.
pub open spec fn attr_rows(attrs: Seq<AttrV>) -> Seq<char>
    decreases attrs.len(),
{
    if attrs.len() == 0 {
        Seq::empty()
    } else {
        attr_row(attrs[0]) + attr_rows(attrs.drop_first())
    }
}

fn push_attr_rows(out: &mut String, attrs: &Vec<Attribute>, i: usize)
    requires
        i <= attrs@.len(),
    ensures
        final(out)@ == old(out)@ + attr_rows(attrs_view(attrs@).skip(i as int)),
    decreases attrs@.len() - i,
{
    if i < attrs.len() {
        push_attr_row(out, &attrs[i]);
        push_attr_rows(out, attrs, i + 1);
        proof {
            let tail = attrs_view(attrs@).skip(i as int);
            assert(tail[0] == attrs_view(attrs@)[i as int]);
            assert(tail.drop_first() =~= attrs_view(attrs@).skip(i + 1));
            assert(out@ =~= old(out)@ + attr_rows(tail));
        }
    } else {
        proof {
            assert(attrs_view(attrs@).skip(i as int) =~= Seq::<AttrV>::empty());
            assert(out@ =~= old(out)@ + attr_rows(attrs_view(attrs@).skip(i as int)));
        }
    }
}

/// The text of one statement.
pub open spec fn stmt_text(g: GraphStmtV) -> Seq<char> {
    match g {
        GraphStmtV::EntityNode { name, pk_attrs, other_attrs, rounded } => name
            + " [label=<<table cellspacing=\"0\" border=\"0\"><tr><td align=\"left\">"@ + name
            + "</td></tr><tr><td><table cellborder=\"0\" "@ + (if rounded {
            "style=\"rounded\""@
        } else {
            Seq::empty()
        }) + ">\n"@ + attr_rows(pk_attrs) + (if other_attrs.len() > 0 {
            "<hr />\n"@
        } else {
            Seq::empty()
        }) + attr_rows(other_attrs) + "</table></td></tr></table>\n>]\n"@,
        GraphStmtV::BinaryEdge { from, to, card_from, card_to, role_from, role_to } => from
            + " -> "@ + to + " [taillabel=\""@ + card_str(card_from) + "\"] [headlabel=\""@
            + card_str(card_to) + "\"] [label=<<font point-size=\"10\">"@ + role_from + " / "@
            + role_to + "</font>>]\n"@,
        GraphStmtV::JunctionOpen { id } => "subtype"@ + dec_rep(id as nat)
            + " [shape=\"circle\" label=\"\" width=0.2]\n"@,
        GraphStmtV::JunctionClosed { id, discriminator } => "subtype"@ + dec_rep(id as nat)
            + " [shape=\"doublecircle\" label=<<font point-size=\"10\">"@ + discriminator
            + "</font>> width=0.2 margin=0]\n"@,
        GraphStmtV::JunctionEdge { from, id } => from + " -> subtype"@ + dec_rep(id as nat)
            + "\n"@,
        GraphStmtV::SubtypeEdge { id, to } => "subtype"@ + dec_rep(id as nat) + " -> "@ + to
            + "\n"@,
    }
}

#[verifier::rlimit(60)]
fn push_stmt(out: &mut String, g: &GraphStmt)
    ensures
        final(out)@ == old(out)@ + stmt_text(g@),
{
    match g {
        GraphStmt::EntityNode { name, pk_attrs, other_attrs, rounded } => {
            out.append(name.as_str());
            out.append(" [label=<<table cellspacing=\"0\" border=\"0\"><tr><td align=\"left\">");
            out.append(name.as_str());
            out.append("</td></tr><tr><td><table cellborder=\"0\" ");
            if *rounded {
                out.append("style=\"rounded\"");
            }
            out.append(">\n");
            push_attr_rows(out, pk_attrs, 0);
            if other_attrs.len() > 0 {
                out.append("<hr />\n");
            }
            push_attr_rows(out, other_attrs, 0);
            out.append("</table></td></tr></table>\n>]\n");
            proof {
                assert(attrs_view(pk_attrs@).skip(0) =~= attrs_view(pk_attrs@));
                assert(attrs_view(other_attrs@).skip(0) =~= attrs_view(other_attrs@));
                assert(out@ =~= old(out)@ + stmt_text(g@));
            }
        },
        GraphStmt::BinaryEdge { from, to, card_from, card_to, role_from, role_to } => {
            out.append(from.as_str());
            out.append(" -> ");
            out.append(to.as_str());
            out.append(" [taillabel=\"");
            push_card(out, *card_from);
            out.append("\"] [headlabel=\"");
            push_card(out, *card_to);
            out.append("\"] [label=<<font point-size=\"10\">");
            out.append(role_from.as_str());
            out.append(" / ");
            out.append(role_to.as_str());
            out.append("</font>>]\n");
            proof {
                assert(out@ =~= old(out)@ + stmt_text(g@));
            }
        },
        GraphStmt::JunctionOpen { id } => {
            out.append("subtype");
            push_dec(out, *id);
            out.append(" [shape=\"circle\" label=\"\" width=0.2]\n");
            proof {
                assert(out@ =~= old(out)@ + stmt_text(g@));
            }
        },
        GraphStmt::JunctionClosed { id, discriminator } => {
            out.append("subtype");
            push_dec(out, *id);
            out.append(" [shape=\"doublecircle\" label=<<font point-size=\"10\">");
            out.append(discriminator.as_str());
            out.append("</font>> width=0.2 margin=0]\n");
            proof {
                assert(out@ =~= old(out)@ + stmt_text(g@));
            }
        },
        GraphStmt::JunctionEdge { from, id } => {
            out.append(from.as_str());
            out.append(" -> subtype");
            push_dec(out, *id);
            out.append("\n");
            proof {
                assert(out@ =~= old(out)@ + stmt_text(g@));
            }
        },
        GraphStmt::SubtypeEdge { id, to } => {
            out.append("subtype");
            push_dec(out, *id);
            out.append(" -> ");
            out.append(to.as_str());
            out.append("\n");
            proof {
                assert(out@ =~= old(out)@ + stmt_text(g@));
            }
        },
    }
}

/// The text of a statement list, in order.
pub open spec fn stmts_text(gs: Seq<GraphStmtV>) -> Seq<char>
    decreases gs.len(),
{
    if gs.len() == 0 {
        Seq::empty()
    } else {
        stmt_text(gs[0]) + stmts_text(gs.drop_first())
    }
}

fn push_stmts(out: &mut String, gs: &Vec<GraphStmt>, i: usize)
    requires
        i <= gs@.len(),
    ensures
        final(out)@ == old(out)@ + stmts_text(stmts_view(gs@).skip(i as int)),
    decreases gs@.len() - i,
{
    if i < gs.len() {
        push_stmt(out, &gs[i]);
        push_stmts(out, gs, i + 1);
        proof {
            let tail = stmts_view(gs@).skip(i as int);
            assert(tail[0] == stmts_view(gs@)[i as int]);
            assert(tail.drop_first() =~= stmts_view(gs@).skip(i + 1));
            assert(out@ =~= old(out)@ + stmts_text(tail));
        }
    } else {
        proof {
            assert(stmts_view(gs@).skip(i as int) =~= Seq::<GraphStmtV>::empty());
            assert(out@ =~= old(out)@ + stmts_text(stmts_view(gs@).skip(i as int)));
        }
    }
}

/// The whole document: the graph-start marker, the node and edge style
/// directives, the statements in order, and the graph-end marker.
pub open spec fn doc_text(gs: Seq<GraphStmtV>) -> Seq<char> {
    "digraph {\n"@ + "node [shape=plain]\n"@ + "splines=\"ortho\"\n"@
        + "edge [arrowhead=\"none\" color=\"gray\"]\n"@ + stmts_text(gs) + "}\n"@
}

/// Renders a list of statements as a document.
pub fn render_doc(gs: &Vec<GraphStmt>) -> (r: String)
    ensures
        r@ == doc_text(stmts_view(gs@)),
{
    let mut out = String::new();
    out.append("digraph {\n");
    out.append("node [shape=plain]\n");
    out.append("splines=\"ortho\"\n");
    out.append("edge [arrowhead=\"none\" color=\"gray\"]\n");
    push_stmts(&mut out, gs, 0);
    out.append("}\n");
    proof {
        assert(stmts_view(gs@).skip(0) =~= stmts_view(gs@));
        assert(out@ =~= doc_text(stmts_view(gs@)));
    }
    out
}

/// Turns a model into the graph-description document: one node per entity,
/// one edge per binary relationship, and a numbered junction node with its
/// edges per subtype relationship, rendered in input order between the
/// document's start marker, style directives and end marker.
pub fn render_graph(entities: &Vec<Entity>, relationships: &Vec<Relationship>) -> (r: String)
    requires
        relationships@.len() < usize::MAX,
    ensures
        r@ == doc_text(
            emit_spec(
                ModelV { entities: entities_view(entities@), rels: rels_view(relationships@) },
            ),
        ),
{
    let stmts = emit_graph(entities, relationships);
    render_doc(&stmts)
}

} // verus!
