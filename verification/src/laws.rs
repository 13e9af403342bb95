//! Laws of the two renderings, stated over the statement sequences that
//! define them.

use vstd::prelude::*;

use crate::doc::{spec_link_n_str, DocV, FieldV, LinkN, LinkV};
use crate::emit::{
    der_def_stmts, der_link_stmts, der_stmts, orm_edge_stmts, orm_field_row, orm_link_row,
    orm_rows, orm_stmts, orm_table_stmts, outgoing_links, spec_der, spec_orm, DerStmt, OrmStmt,
};
use crate::lex::TokenV;
use crate::parse::{has_eq, is_card, spec_card_of, spec_parse_link};

verus! {

/// How many statements of a DER rendering satisfy a predicate.
pub open spec fn der_count(ss: Seq<DerStmt>, p: spec_fn(DerStmt) -> bool) -> nat
    decreases ss.len(),
{
    if ss.len() == 0 {
        0
    } else {
        der_count(ss.drop_last(), p) + if p(ss.last()) {
            1nat
        } else {
            0
        }
    }
}

/// How many statements of an ORM rendering satisfy a predicate.
pub open spec fn orm_count(ss: Seq<OrmStmt>, p: spec_fn(OrmStmt) -> bool) -> nat
    decreases ss.len(),
{
    if ss.len() == 0 {
        0
    } else {
        orm_count(ss.drop_last(), p) + if p(ss.last()) {
            1nat
        } else {
            0
        }
    }
}

/// Recognizes a record-node statement.
pub open spec fn is_der_record() -> spec_fn(DerStmt) -> bool {
    |s: DerStmt| s is Record
}

/// Recognizes a diamond-node statement.
pub open spec fn is_der_diamond() -> spec_fn(DerStmt) -> bool {
    |s: DerStmt| s is Diamond
}

/// Recognizes a connecting-edge statement.
pub open spec fn is_der_edge() -> spec_fn(DerStmt) -> bool {
    |s: DerStmt| s is EdgeFrom || s is EdgeTo
}

/// Recognizes a table-node statement.
pub open spec fn is_orm_table() -> spec_fn(OrmStmt) -> bool {
    |s: OrmStmt| s is Table
}

/// Recognizes a directed-edge statement.
pub open spec fn is_orm_edge() -> spec_fn(OrmStmt) -> bool {
    |s: OrmStmt| s is Edge
}

proof fn lemma_der_count_push(ss: Seq<DerStmt>, s: DerStmt, p: spec_fn(DerStmt) -> bool)
    ensures
        der_count(ss.push(s), p) == der_count(ss, p) + if p(s) {
            1nat
        } else {
            0
        },
{
    assert(ss.push(s).drop_last() =~= ss);
    assert(ss.push(s).last() == s);
}

proof fn lemma_der_count_concat(a: Seq<DerStmt>, b: Seq<DerStmt>, p: spec_fn(DerStmt) -> bool)
    ensures
        der_count(a + b, p) == der_count(a, p) + der_count(b, p),
    decreases b.len(),
{
    if b.len() == 0 {
        assert(a + b =~= a);
    } else {
        assert((a + b).drop_last() =~= a + b.drop_last());
        assert((a + b).last() == b.last());
        lemma_der_count_concat(a, b.drop_last(), p);
    }
}

proof fn lemma_orm_count_push(ss: Seq<OrmStmt>, s: OrmStmt, p: spec_fn(OrmStmt) -> bool)
    ensures
        orm_count(ss.push(s), p) == orm_count(ss, p) + if p(s) {
            1nat
        } else {
            0
        },
{
    assert(ss.push(s).drop_last() =~= ss);
    assert(ss.push(s).last() == s);
}

proof fn lemma_orm_count_concat(a: Seq<OrmStmt>, b: Seq<OrmStmt>, p: spec_fn(OrmStmt) -> bool)
    ensures
        orm_count(a + b, p) == orm_count(a, p) + orm_count(b, p),
    decreases b.len(),
{
    if b.len() == 0 {
        assert(a + b =~= a);
    } else {
        assert((a + b).drop_last() =~= a + b.drop_last());
        assert((a + b).last() == b.last());
        lemma_orm_count_concat(a, b.drop_last(), p);
    }
}

proof fn lemma_der_def_stmts_counts(defs: Seq<crate::doc::DefV>)
    ensures
        der_count(der_def_stmts(defs), is_der_record()) == defs.len(),
        der_count(der_def_stmts(defs), is_der_diamond()) == 0,
        der_count(der_def_stmts(defs), is_der_edge()) == 0,
    decreases defs.len(),
{
    if defs.len() == 0 {
        assert(der_def_stmts(defs) =~= Seq::<DerStmt>::empty());
    } else {
        let prev = defs.drop_last();
        lemma_der_def_stmts_counts(prev);
        assert(der_def_stmts(defs) =~= der_def_stmts(prev).push(DerStmt::Record(defs.last())));
        lemma_der_count_push(der_def_stmts(prev), DerStmt::Record(defs.last()), is_der_record());
        lemma_der_count_push(der_def_stmts(prev), DerStmt::Record(defs.last()), is_der_diamond());
        lemma_der_count_push(der_def_stmts(prev), DerStmt::Record(defs.last()), is_der_edge());
    }
}

proof fn lemma_der_link_stmts_counts(links: Seq<LinkV>)
    ensures
        der_count(der_link_stmts(links), is_der_record()) == 0,
        der_count(der_link_stmts(links), is_der_diamond()) == links.len(),
        der_count(der_link_stmts(links), is_der_edge()) == 2 * links.len(),
    decreases links.len(),
{
    if links.len() == 0 {
    } else {
        reveal_with_fuel(der_count, 5);
        let prev = links.drop_last();
        let l = links.last();
        lemma_der_link_stmts_counts(prev);
        let trio = seq![DerStmt::Diamond(l), DerStmt::EdgeFrom(l), DerStmt::EdgeTo(l)];
        lemma_der_count_concat(der_link_stmts(prev), trio, is_der_record());
        lemma_der_count_concat(der_link_stmts(prev), trio, is_der_diamond());
        lemma_der_count_concat(der_link_stmts(prev), trio, is_der_edge());
        assert(trio.drop_last() =~= seq![DerStmt::Diamond(l), DerStmt::EdgeFrom(l)]);
        assert(trio.drop_last().drop_last() =~= seq![DerStmt::Diamond(l)]);
        assert(seq![DerStmt::Diamond(l)].drop_last() =~= Seq::<DerStmt>::empty());
    }
}

/// In the DER rendering of a document with `N` entity definitions and `M`
/// relationships, the statement sequence holds exactly `N` record nodes,
/// `M` diamond nodes, and `2 * M` connecting edges. The output of the DER
/// emitter is exactly these statements rendered in order.
pub proof fn lemma_der_statement_counts(doc: DocV)
    ensures
        spec_der(doc) == "graph {\nnode [shape=plaintext];\n"@ + crate::emit::render_der(
            der_def_stmts(doc.defs),
        ) + "node [shape=diamond, fontsize=11];\n"@ + crate::emit::render_der(
            der_link_stmts(doc.links),
        ) + "}\n"@,
        der_stmts(doc) == der_def_stmts(doc.defs) + der_link_stmts(doc.links),
        der_count(der_stmts(doc), is_der_record()) == doc.defs.len(),
        der_count(der_stmts(doc), is_der_diamond()) == doc.links.len(),
        der_count(der_stmts(doc), is_der_edge()) == 2 * doc.links.len(),
{
    lemma_der_def_stmts_counts(doc.defs);
    lemma_der_link_stmts_counts(doc.links);
    lemma_der_count_concat(der_def_stmts(doc.defs), der_link_stmts(doc.links), is_der_record());
    lemma_der_count_concat(der_def_stmts(doc.defs), der_link_stmts(doc.links), is_der_diamond());
    lemma_der_count_concat(der_def_stmts(doc.defs), der_link_stmts(doc.links), is_der_edge());
}

proof fn lemma_orm_table_stmts_counts(defs: Seq<crate::doc::DefV>, links: Seq<LinkV>)
    ensures
        orm_count(orm_table_stmts(defs, links), is_orm_table()) == defs.len(),
        orm_count(orm_table_stmts(defs, links), is_orm_edge()) == 0,
    decreases defs.len(),
{
    if defs.len() == 0 {
        assert(orm_table_stmts(defs, links) =~= Seq::<OrmStmt>::empty());
    } else {
        let prev = defs.drop_last();
        lemma_orm_table_stmts_counts(prev, links);
        let stmt = OrmStmt::Table(defs.last(), outgoing_links(links, defs.last().name));
        assert(orm_table_stmts(defs, links) =~= orm_table_stmts(prev, links).push(stmt));
        lemma_orm_count_push(orm_table_stmts(prev, links), stmt, is_orm_table());
        lemma_orm_count_push(orm_table_stmts(prev, links), stmt, is_orm_edge());
    }
}

proof fn lemma_orm_edge_stmts_counts(links: Seq<LinkV>)
    ensures
        orm_count(orm_edge_stmts(links), is_orm_table()) == 0,
        orm_count(orm_edge_stmts(links), is_orm_edge()) == links.len(),
    decreases links.len(),
{
    if links.len() == 0 {
        assert(orm_edge_stmts(links) =~= Seq::<OrmStmt>::empty());
    } else {
        let prev = links.drop_last();
        lemma_orm_edge_stmts_counts(prev);
        assert(orm_edge_stmts(links) =~= orm_edge_stmts(prev).push(OrmStmt::Edge(links.last())));
        lemma_orm_count_push(orm_edge_stmts(prev), OrmStmt::Edge(links.last()), is_orm_table());
        lemma_orm_count_push(orm_edge_stmts(prev), OrmStmt::Edge(links.last()), is_orm_edge());
    }
}

/// In the ORM rendering of a document with `N` entity definitions and `M`
/// relationships, the statement sequence holds exactly `N` table nodes and
/// `M` directed edges, and every table's row count is its entity's field
/// count plus its outgoing-relationship count. The output of the ORM
/// emitter is exactly these statements rendered in order.
pub proof fn lemma_orm_statement_counts(doc: DocV)
    ensures
        spec_orm(doc) == "digraph {\ngraph [layout=dot];\nnode [shape=plaintext];\n"@
            + crate::emit::render_orm(orm_table_stmts(doc.defs, doc.links))
            + crate::emit::render_orm(orm_edge_stmts(doc.links)) + "}\n"@,
        orm_stmts(doc) == orm_table_stmts(doc.defs, doc.links) + orm_edge_stmts(doc.links),
        orm_count(orm_stmts(doc), is_orm_table()) == doc.defs.len(),
        orm_count(orm_stmts(doc), is_orm_edge()) == doc.links.len(),
        forall|k: int|
            0 <= k < doc.defs.len() ==> orm_rows(
                #[trigger] doc.defs[k],
                outgoing_links(doc.links, doc.defs[k].name),
            ).len() == doc.defs[k].fields.len() + outgoing_links(
                doc.links,
                doc.defs[k].name,
            ).len(),
{
    lemma_orm_table_stmts_counts(doc.defs, doc.links);
    lemma_orm_edge_stmts_counts(doc.links);
    lemma_orm_count_concat(
        orm_table_stmts(doc.defs, doc.links),
        orm_edge_stmts(doc.links),
        is_orm_table(),
    );
    lemma_orm_count_concat(
        orm_table_stmts(doc.defs, doc.links),
        orm_edge_stmts(doc.links),
        is_orm_edge(),
    );
}

/// A field renders with the `pk` marker in the ORM view exactly when its
/// name is `id`, whatever its declared type.
pub proof fn lemma_id_field_marks_pk(f: FieldV)
    ensures
        orm_field_row(f).marker == "pk"@ <==> f.name == "id"@,
{
    reveal_strlit("pk");
    reveal_strlit("");
    assert("pk"@.len() == 2);
    assert(""@.len() == 0);
}

/// A relationship renders its foreign-key row with the `fk_pk` marker in
/// the ORM view exactly when its key flag is set; all others render `fk`.
pub proof fn lemma_pk_link_marks_fk_pk(l: LinkV)
    ensures
        orm_link_row(l).marker == "fk_pk"@ <==> l.is_pk,
        !l.is_pk ==> orm_link_row(l).marker == "fk"@,
{
    reveal_strlit("fk_pk");
    reveal_strlit("fk");
    assert("fk_pk"@.len() == 5);
    assert("fk"@.len() == 2);
}

/// A parsed relationship's key flag is set exactly when its arrow body
/// contains an equality character.
pub proof fn lemma_parsed_link_pk(toks: Seq<TokenV>)
    requires
        spec_parse_link(toks) is Ok,
    ensures
        spec_parse_link(toks)->Ok_0.0.is_pk == has_eq(toks[2]->Arrow_0),
{
}

/// Each of the four cardinality tokens maps to its documented display
/// string, and the mapping is lossless: distinct cardinalities display
/// differently, so the display determines the cardinality.
pub proof fn lemma_cardinality_round_trip()
    ensures
        is_card("1"@) && spec_card_of("1"@) == LinkN::One && spec_link_n_str(LinkN::One) == "1"@,
        is_card("1?"@) && spec_card_of("1?"@) == LinkN::MaybeOne && spec_link_n_str(
            LinkN::MaybeOne,
        ) == "(0,1)"@,
        is_card("n"@) && spec_card_of("n"@) == LinkN::Many && spec_link_n_str(LinkN::Many)
            == "(1,N)"@,
        is_card("n?"@) && spec_card_of("n?"@) == LinkN::MaybeMany && spec_link_n_str(
            LinkN::MaybeMany,
        ) == "(0,N)"@,
        forall|a: LinkN, b: LinkN| spec_link_n_str(a) == spec_link_n_str(b) ==> a == b,
{
    reveal_strlit("1");
    reveal_strlit("1?");
    reveal_strlit("n");
    reveal_strlit("n?");
    reveal_strlit("(0,1)");
    reveal_strlit("(1,N)");
    reveal_strlit("(0,N)");
    assert("1"@.len() == 1);
    assert("1?"@.len() == 2);
    assert("n"@.len() == 1);
    assert("n?"@.len() == 2);
    assert("(0,1)"@.len() == 5);
    assert("(1,N)"@.len() == 5);
    assert("(0,N)"@.len() == 5);
    assert("1"@[0] == '1');
    assert("n"@[0] == 'n');
    assert("1?"@[0] == '1');
    assert("n?"@[0] == 'n');
    assert("(0,1)"@[1] == '0');
    assert("(1,N)"@[1] == '1');
    assert("(0,N)"@[1] == '0');
    assert("(0,1)"@[3] == '1');
    assert("(0,N)"@[3] == 'N');
}

/// Rendering is a pure function of the document: both emitters give equal
/// documents byte-identical output. Together with the emitters' contracts,
/// which pin each output to exactly [`spec_der`] and [`spec_orm`] of the
/// document, rendering the same document twice yields identical bytes.
pub proof fn lemma_render_deterministic(d1: DocV, d2: DocV)
    requires
        d1 == d2,
    ensures
        spec_der(d1) == spec_der(d2),
        spec_orm(d1) == spec_orm(d2),
{
}

} // verus!
