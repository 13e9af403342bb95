//! The two rendering backends.
//!
//! [`emit_der`] renders a document as an entity-relationship graph: one
//! record node per entity, one diamond node per relationship, and two
//! connecting edges per relationship. [`emit_orm`] renders the same
//! document as a relational schema: one table node per entity, whose rows
//! are its fields followed by foreign-key columns synthesized from its
//! outgoing relationships, and one directed edge per relationship.
//!
//! Each emitter's output is pinned exactly: it is the rendering, statement
//! by statement, of the statement sequence that [`der_stmts`] or
//! [`orm_stmts`] assigns to the document.

use vstd::prelude::*;

use crate::doc::{links_view, spec_link_n_str, Def, DefV, Doc, DocV, FieldV, Link, LinkV};
use crate::parse::str_eq;

verus! {

/// Relies on `String::push` of std: appends one character.
pub assume_specification[ String::push ](s: &mut String, c: char)
    ensures
        final(s)@ == old(s)@.push(c),
;

/// An uppercase ASCII letter lowered; any other character unchanged.
pub open spec fn lower_char(c: char) -> char {
    if 'A' as u32 <= c as u32 && c as u32 <= 'Z' as u32 {
        ((c as u32 + 32) as char)
    } else {
        c
    }
}

/// A text lowered character by character.
pub open spec fn lower_str(s: Seq<char>) -> Seq<char> {
    Seq::new(s.len(), |i: int| lower_char(s[i]))
}

fn lower_char_exec(c: char) -> (r: char)
    ensures
        r == lower_char(c),
{
    let u = c as u32;
    if 65 <= u && u <= 90 {
        let b = (c as u8) + 32;
        b as char
    } else {
        c
    }
}

/// Lowers a text character by character.
fn lower_string(s: &str) -> (r: String)
    ensures
        r@ == lower_str(s@),
{
    let n = s.unicode_len();
    let mut r = String::new();
    let mut i: usize = 0;
    while i < n
        invariant
            i <= n,
            n == s@.len(),
            r@ == lower_str(s@).take(i as int),
        decreases n - i,
    {
        let c = s.get_char(i);
        let lc = lower_char_exec(c);
        proof {
            assert(lower_str(s@).take(i as int + 1) =~= lower_str(s@).take(i as int).push(
                lower_char(s@[i as int]),
            ));
        }
        r.push(lc);
        i = i + 1;
    }
    proof {
        assert(lower_str(s@).take(n as int) =~= lower_str(s@));
    }
    r
}

/// The label text shown for a relationship: its label, or empty if absent.
pub open spec fn label_text(l: LinkV) -> Seq<char> {
    match l.label {
        Some(t) => t,
        None => Seq::empty(),
    }
}

/// The synthesized identity of a relationship's diamond node.
pub open spec fn diamond_id(l: LinkV) -> Seq<char> {
    l.from + "_"@ + l.to + "_"@ + label_text(l)
}

/// One statement of the DER rendering.
pub enum DerStmt {
    /// The record node of one entity.
    Record(DefV),
    /// The diamond node of one relationship.
    Diamond(LinkV),
    /// The edge from the source entity to the diamond.
    EdgeFrom(LinkV),
    /// The edge from the diamond to the destination entity.
    EdgeTo(LinkV),
}

/// One field row of a DER record node.
pub open spec fn der_field_row(f: FieldV) -> Seq<char> {
    "<TR><TD>"@ + f.field_type + "</TD><TD>"@ + f.name + "</TD></TR>\n"@
}

/// The field rows of a DER record node, in declared order.
pub open spec fn der_fields_str(fs: Seq<FieldV>) -> Seq<char>
    decreases fs.len(),
{
    if fs.len() == 0 {
        Seq::empty()
    } else {
        der_fields_str(fs.drop_last()) + der_field_row(fs.last())
    }
}

/// The text of one DER statement.
pub open spec fn der_stmt_str(s: DerStmt) -> Seq<char> {
    match s {
        DerStmt::Record(d) => d.name + " [label=<\n<TABLE border=\"0\" cellborder=\"1\" cellspacing=\"0\">\n<TR><TD colspan=\"2\" bgcolor=\"gray\">"@
            + d.name + "</TD></TR>\n"@ + der_fields_str(d.fields) + "</TABLE> >];\n"@,
        DerStmt::Diamond(l) => "\t"@ + diamond_id(l) + " [label=<"@ + label_text(l) + ">];\n"@,
        DerStmt::EdgeFrom(l) => "\t"@ + l.from + " -- "@ + diamond_id(l) + " [taillabel=<"@
            + spec_link_n_str(l.from_count) + ">];\n"@,
        DerStmt::EdgeTo(l) => "\t"@ + diamond_id(l) + " -- "@ + l.to + "   [headlabel=<"@
            + spec_link_n_str(l.to_count) + ">];\n"@,
    }
}

/// The record-node statements of the entities, in source order.
pub open spec fn der_def_stmts(defs: Seq<DefV>) -> Seq<DerStmt> {
    defs.map_values(|d: DefV| DerStmt::Record(d))
}

/// The diamond and edge statements of the relationships, in source order:
/// for each relationship its diamond, then its two connecting edges.
pub open spec fn der_link_stmts(links: Seq<LinkV>) -> Seq<DerStmt>
    decreases links.len(),
{
    if links.len() == 0 {
        Seq::empty()
    } else {
        der_link_stmts(links.drop_last()) + seq![
            DerStmt::Diamond(links.last()),
            DerStmt::EdgeFrom(links.last()),
            DerStmt::EdgeTo(links.last()),
        ]
    }
}

/// Statements rendered one after the other.
pub open spec fn render_der(ss: Seq<DerStmt>) -> Seq<char>
    decreases ss.len(),
{
    if ss.len() == 0 {
        Seq::empty()
    } else {
        render_der(ss.drop_last()) + der_stmt_str(ss.last())
    }
}

/// The whole statement sequence of the DER rendering.
pub open spec fn der_stmts(doc: DocV) -> Seq<DerStmt> {
    der_def_stmts(doc.defs) + der_link_stmts(doc.links)
}

/// The DER rendering of a document: a prologue, the record nodes, a node
/// attribute line, the diamond and edge statements, and the closing brace.
pub open spec fn spec_der(doc: DocV) -> Seq<char> {
    "graph {\nnode [shape=plaintext];\n"@ + render_der(der_def_stmts(doc.defs))
        + "node [shape=diamond, fontsize=11];\n"@ + render_der(der_link_stmts(doc.links)) + "}\n"@
}

proof fn lemma_render_der_push(ss: Seq<DerStmt>, s: DerStmt)
    ensures
        render_der(ss.push(s)) == render_der(ss) + der_stmt_str(s),
{
    assert(ss.push(s).drop_last() =~= ss);
    assert(ss.push(s).last() == s);
}

/// One row of an ORM table: a key marker and a column text.
pub struct OrmRow {
    pub marker: Seq<char>,
    pub column: Seq<char>,
}

/// The row an entity field renders as: marked `pk` exactly when the field
/// is named `id`, and its name prefixed with `+`.
pub open spec fn orm_field_row(f: FieldV) -> OrmRow {
    OrmRow {
        marker: if f.name == "id"@ {
            "pk"@
        } else {
            ""@
        },
        column: "+"@ + f.name,
    }
}

/// The row an outgoing relationship renders as: marked `fk_pk` exactly
/// when the relationship's arrow carried an equality character, else `fk`;
/// the column is the destination name lowercased, with `+` and `_id`.
pub open spec fn orm_link_row(l: LinkV) -> OrmRow {
    OrmRow {
        marker: if l.is_pk {
            "fk_pk"@
        } else {
            "fk"@
        },
        column: "+"@ + lower_str(l.to) + "_id"@,
    }
}

/// The text of one table row: one line per cell.
pub open spec fn spec_table_row(cells: Seq<Seq<char>>) -> Seq<char> {
    "<TR>\n"@ + table_cells_str(cells) + "</TR>\n"@
}

/// The cell lines of a table row.
pub open spec fn table_cells_str(cells: Seq<Seq<char>>) -> Seq<char>
    decreases cells.len(),
{
    if cells.len() == 0 {
        Seq::empty()
    } else {
        table_cells_str(cells.drop_last()) + "<TD align=\"LEFT\">"@ + cells.last() + "</TD>\n"@
    }
}

/// The text of one ORM row.
pub open spec fn orm_row_str(r: OrmRow) -> Seq<char> {
    spec_table_row(seq![r.marker, r.column])
}

/// The rows of one table: the entity's fields in declared order, then one
/// row per outgoing relationship in source order.
pub open spec fn orm_rows(d: DefV, outgoing: Seq<LinkV>) -> Seq<OrmRow> {
    d.fields.map_values(|f: FieldV| orm_field_row(f)) + outgoing.map_values(
        |l: LinkV| orm_link_row(l),
    )
}

/// Rows rendered one after the other.
pub open spec fn orm_rows_str(rows: Seq<OrmRow>) -> Seq<char>
    decreases rows.len(),
{
    if rows.len() == 0 {
        Seq::empty()
    } else {
        orm_rows_str(rows.drop_last()) + orm_row_str(rows.last())
    }
}

proof fn lemma_orm_rows_str_push(rows: Seq<OrmRow>, r: OrmRow)
    ensures
        orm_rows_str(rows.push(r)) == orm_rows_str(rows) + orm_row_str(r),
{
    assert(rows.push(r).drop_last() =~= rows);
    assert(rows.push(r).last() == r);
}

/// The relationships whose source is the named entity, in source order.
pub open spec fn outgoing_links(links: Seq<LinkV>, name: Seq<char>) -> Seq<LinkV>
    decreases links.len(),
{
    if links.len() == 0 {
        Seq::empty()
    } else if links.last().from == name {
        outgoing_links(links.drop_last(), name).push(links.last())
    } else {
        outgoing_links(links.drop_last(), name)
    }
}

/// One statement of the ORM rendering.
pub enum OrmStmt {
    /// The table node of one entity, with its outgoing relationships.
    Table(DefV, Seq<LinkV>),
    /// The directed edge of one relationship.
    Edge(LinkV),
}

/// The text of one ORM statement.
pub open spec fn orm_stmt_str(s: OrmStmt) -> Seq<char> {
    match s {
        OrmStmt::Table(d, outgoing) => d.name + " [label=<\n<TABLE border=\"1\" ALIGN=\"LEFT\" cellborder=\"0\" cellspacing=\"0\">\n<TR><TD colspan=\"2\" border=\"1\">"@
            + d.name + "</TD></TR>\n"@ + orm_rows_str(orm_rows(d, outgoing)) + "</TABLE> >];\n"@,
        OrmStmt::Edge(l) => "\t"@ + l.from + " -> "@ + l.to + " [headlabel=<"@ + spec_link_n_str(
            l.to_count,
        ) + "> labelangle=45 labeldistance=2.1];\n"@,
    }
}

/// The table statements of the entities, in source order, each with its
/// outgoing relationships.
pub open spec fn orm_table_stmts(defs: Seq<DefV>, links: Seq<LinkV>) -> Seq<OrmStmt> {
    defs.map_values(|d: DefV| OrmStmt::Table(d, outgoing_links(links, d.name)))
}

/// The edge statements of the relationships, in source order.
pub open spec fn orm_edge_stmts(links: Seq<LinkV>) -> Seq<OrmStmt> {
    links.map_values(|l: LinkV| OrmStmt::Edge(l))
}

/// Statements rendered one after the other.
pub open spec fn render_orm(ss: Seq<OrmStmt>) -> Seq<char>
    decreases ss.len(),
{
    if ss.len() == 0 {
        Seq::empty()
    } else {
        render_orm(ss.drop_last()) + orm_stmt_str(ss.last())
    }
}

proof fn lemma_render_orm_push(ss: Seq<OrmStmt>, s: OrmStmt)
    ensures
        render_orm(ss.push(s)) == render_orm(ss) + orm_stmt_str(s),
{
    assert(ss.push(s).drop_last() =~= ss);
    assert(ss.push(s).last() == s);
}

/// The whole statement sequence of the ORM rendering.
pub open spec fn orm_stmts(doc: DocV) -> Seq<OrmStmt> {
    orm_table_stmts(doc.defs, doc.links) + orm_edge_stmts(doc.links)
}

/// The ORM rendering of a document: a prologue, the table nodes, the
/// directed edges, and the closing brace.
pub open spec fn spec_orm(doc: DocV) -> Seq<char> {
    "digraph {\ngraph [layout=dot];\nnode [shape=plaintext];\n"@ + render_orm(
        orm_table_stmts(doc.defs, doc.links),
    ) + render_orm(orm_edge_stmts(doc.links)) + "}\n"@
}

/// One table row with the given cells, one line per cell.
pub fn table_fields(cells: &[&str]) -> (s: String)
    ensures
        s@ == spec_table_row(cells@.map_values(|c: &str| c@)),
{
    let ghost cv = cells@.map_values(|c: &str| c@);
    let mut s = String::new();
    s.append("<TR>\n");
    let mut i: usize = 0;
    proof {
        assert(cv.take(0) =~= Seq::<Seq<char>>::empty());
        assert(s@ =~= "<TR>\n"@ + table_cells_str(cv.take(0)));
    }
    while i < cells.len()
        invariant
            i <= cells@.len(),
            cv == cells@.map_values(|c: &str| c@),
            s@ == "<TR>\n"@ + table_cells_str(cv.take(i as int)),
        decreases cells@.len() - i,
    {
        s.append("<TD align=\"LEFT\">");
        s.append(cells[i]);
        s.append("</TD>\n");
        proof {
            assert(cv[i as int] == cells@[i as int]@);
            assert(cv.take(i as int + 1).drop_last() =~= cv.take(i as int));
            assert(s@ =~= "<TR>\n"@ + table_cells_str(cv.take(i as int + 1)));
        }
        i = i + 1;
    }
    s.append("</TR>\n");
    proof {
        assert(cv.take(cells@.len() as int) =~= cv);
        assert(s@ =~= spec_table_row(cv));
    }
    s
}

/// The record node of one entity, in the DER style.
fn der_record_string(def: &Def) -> (s: String)
    ensures
        s@ == der_stmt_str(DerStmt::Record(def@)),
{
    let mut s = String::new();
    s.append(def.name.as_str());
    s.append(
        " [label=<\n<TABLE border=\"0\" cellborder=\"1\" cellspacing=\"0\">\n<TR><TD colspan=\"2\" bgcolor=\"gray\">",
    );
    s.append(def.name.as_str());
    s.append("</TD></TR>\n");
    let ghost hdr = s@;
    let ghost fv = def@.fields;
    let mut i: usize = 0;
    proof {
        assert(fv.take(0) =~= Seq::<FieldV>::empty());
        assert(s@ =~= hdr + der_fields_str(fv.take(0)));
    }
    while i < def.fields.len()
        invariant
            i <= def.fields@.len(),
            fv == def@.fields,
            fv.len() == def.fields@.len(),
            s@ == hdr + der_fields_str(fv.take(i as int)),
        decreases def.fields@.len() - i,
    {
        s.append("<TR><TD>");
        s.append(def.fields[i].field_type.as_str());
        s.append("</TD><TD>");
        s.append(def.fields[i].name.as_str());
        s.append("</TD></TR>\n");
        proof {
            assert(fv[i as int] == def.fields@[i as int]@);
            assert(fv.take(i as int + 1).drop_last() =~= fv.take(i as int));
            assert(s@ =~= hdr + der_fields_str(fv.take(i as int + 1)));
        }
        i = i + 1;
    }
    s.append("</TABLE> >];\n");
    proof {
        assert(fv.take(fv.len() as int) =~= fv);
        assert(s@ =~= der_stmt_str(DerStmt::Record(def@)));
    }
    s
}

/// The label text of a relationship, empty if absent.
fn label_string(link: &Link) -> (r: &str)
    ensures
        r@ == label_text(link@),
{
    let label: &str = match &link.label {
        Some(t) => t.as_str(),
        None => "",
    };
    proof {
        reveal_strlit("");
        assert(""@ =~= Seq::<char>::empty());
    }
    label
}

/// The synthesized identity of a relationship's diamond node.
fn diamond_id_string(link: &Link) -> (s: String)
    ensures
        s@ == diamond_id(link@),
{
    let label = label_string(link);
    let mut s = String::new();
    s.append(link.from.as_str());
    s.append("_");
    s.append(link.to.as_str());
    s.append("_");
    s.append(label);
    proof {
        assert(s@ =~= diamond_id(link@));
    }
    s
}

/// The diamond node of one relationship and its two connecting edges, in
/// the DER style.
fn der_link_string(link: &Link) -> (s: String)
    ensures
        s@ == der_stmt_str(DerStmt::Diamond(link@)) + der_stmt_str(DerStmt::EdgeFrom(link@))
            + der_stmt_str(DerStmt::EdgeTo(link@)),
{
    let label = label_string(link);
    let id = diamond_id_string(link);
    let mut s = String::new();
    // the diamond node
    s.append("\t");
    s.append(id.as_str());
    s.append(" [label=<");
    s.append(label);
    s.append(">];\n");
    proof {
        assert(s@ =~= der_stmt_str(DerStmt::Diamond(link@)));
    }
    // the edge from the source entity to the diamond
    let ghost first = s@;
    s.append("\t");
    s.append(link.from.as_str());
    s.append(" -- ");
    s.append(id.as_str());
    s.append(" [taillabel=<");
    s.append(link.from_count.display());
    s.append(">];\n");
    proof {
        assert(s@ =~= first + der_stmt_str(DerStmt::EdgeFrom(link@)));
    }
    // the edge from the diamond to the destination entity
    let ghost second = s@;
    s.append("\t");
    s.append(id.as_str());
    s.append(" -- ");
    s.append(link.to.as_str());
    s.append("   [headlabel=<");
    s.append(link.to_count.display());
    s.append(">];\n");
    proof {
        assert(s@ =~= second + der_stmt_str(DerStmt::EdgeTo(link@)));
        assert(s@ =~= der_stmt_str(DerStmt::Diamond(link@)) + der_stmt_str(
            DerStmt::EdgeFrom(link@),
        ) + der_stmt_str(DerStmt::EdgeTo(link@)));
    }
    s
}

/// Renders a document as an entity-relationship graph. The output is
/// exactly [`spec_der`] of the document: the statements of [`der_stmts`]
/// rendered in order between the prologue and the closing brace.
pub fn emit_der(doc: &Doc) -> (out: String)
    ensures
        out@ == spec_der(doc@),
{
    let ghost dv = doc@;
    let mut out = String::new();
    out.append("graph {\nnode [shape=plaintext];\n");
    let ghost hdr = "graph {\nnode [shape=plaintext];\n"@;
    let mut i: usize = 0;
    proof {
        assert(dv.defs.take(0) =~= Seq::<DefV>::empty());
        assert(der_def_stmts(Seq::<DefV>::empty()) =~= Seq::<DerStmt>::empty());
        assert(out@ =~= hdr + render_der(der_def_stmts(dv.defs.take(0))));
    }
    while i < doc.defs.len()
        invariant
            i <= doc.defs@.len(),
            dv == doc@,
            dv.defs.len() == doc.defs@.len(),
            out@ == hdr + render_der(der_def_stmts(dv.defs.take(i as int))),
        decreases doc.defs@.len() - i,
    {
        let rec = der_record_string(&doc.defs[i]);
        out.append(rec.as_str());
        proof {
            assert(dv.defs[i as int] == doc.defs@[i as int]@);
            lemma_render_der_push(
                der_def_stmts(dv.defs.take(i as int)),
                DerStmt::Record(dv.defs[i as int]),
            );
            assert(der_def_stmts(dv.defs.take(i as int + 1)) =~= der_def_stmts(
                dv.defs.take(i as int),
            ).push(DerStmt::Record(dv.defs[i as int])));
            assert(out@ =~= hdr + render_der(der_def_stmts(dv.defs.take(i as int + 1))));
        }
        i = i + 1;
    }
    out.append("node [shape=diamond, fontsize=11];\n");
    let ghost mid = hdr + render_der(der_def_stmts(dv.defs))
        + "node [shape=diamond, fontsize=11];\n"@;
    let mut j: usize = 0;
    proof {
        assert(dv.defs.take(doc.defs@.len() as int) =~= dv.defs);
        assert(dv.links.take(0) =~= Seq::<LinkV>::empty());
        assert(out@ =~= mid + render_der(der_link_stmts(dv.links.take(0))));
    }
    while j < doc.links.len()
        invariant
            j <= doc.links@.len(),
            dv == doc@,
            dv.links.len() == doc.links@.len(),
            out@ == mid + render_der(der_link_stmts(dv.links.take(j as int))),
        decreases doc.links@.len() - j,
    {
        let ghost l = dv.links[j as int];
        proof {
            assert(dv.links[j as int] == doc.links@[j as int]@);
        }
        let piece = der_link_string(&doc.links[j]);
        out.append(piece.as_str());
        proof {
            let prev = der_link_stmts(dv.links.take(j as int));
            lemma_render_der_push(prev, DerStmt::Diamond(l));
            lemma_render_der_push(prev.push(DerStmt::Diamond(l)), DerStmt::EdgeFrom(l));
            lemma_render_der_push(
                prev.push(DerStmt::Diamond(l)).push(DerStmt::EdgeFrom(l)),
                DerStmt::EdgeTo(l),
            );
            assert(dv.links.take(j as int + 1).drop_last() =~= dv.links.take(j as int));
            assert(der_link_stmts(dv.links.take(j as int + 1)) =~= prev.push(
                DerStmt::Diamond(l),
            ).push(DerStmt::EdgeFrom(l)).push(DerStmt::EdgeTo(l)));
            assert(out@ =~= mid + render_der(der_link_stmts(dv.links.take(j as int + 1))));
        }
        j = j + 1;
    }
    out.append("}\n");
    proof {
        assert(dv.links.take(doc.links@.len() as int) =~= dv.links);
        assert(out@ =~= spec_der(dv));
    }
    out
}

/// The table node of one entity, in the ORM style, with one row per field
/// and one per outgoing relationship.
fn orm_table_string(def: &Def, links: &Vec<Link>) -> (s: String)
    ensures
        s@ == orm_stmt_str(
            OrmStmt::Table(def@, outgoing_links(links_view(links@), def@.name)),
        ),
{
    let ghost lv = links_view(links@);
    let ghost fv = def@.fields;
    let mut s = String::new();
    s.append(def.name.as_str());
    s.append(
        " [label=<\n<TABLE border=\"1\" ALIGN=\"LEFT\" cellborder=\"0\" cellspacing=\"0\">\n<TR><TD colspan=\"2\" border=\"1\">",
    );
    s.append(def.name.as_str());
    s.append("</TD></TR>\n");
    let ghost hdr = s@;
    let mut i: usize = 0;
    proof {
        assert(fv.take(0) =~= Seq::<FieldV>::empty());
        assert(fv.take(0).map_values(|f: FieldV| orm_field_row(f)) =~= Seq::<OrmRow>::empty());
        assert(s@ =~= hdr + orm_rows_str(fv.take(0).map_values(|f: FieldV| orm_field_row(f))));
    }
    while i < def.fields.len()
        invariant
            i <= def.fields@.len(),
            fv == def@.fields,
            fv.len() == def.fields@.len(),
            s@ == hdr + orm_rows_str(fv.take(i as int).map_values(|f: FieldV| orm_field_row(f))),
        decreases def.fields@.len() - i,
    {
        let marker: &str = if str_eq(def.fields[i].name.as_str(), "id") {
            "pk"
        } else {
            ""
        };
        let mut column = String::from_str("+");
        column.append(def.fields[i].name.as_str());
        let cells: [&str; 2] = [marker, column.as_str()];
        let row = table_fields(&cells);
        s.append(row.as_str());
        proof {
            assert(fv[i as int] == def.fields@[i as int]@);
            assert(cells@.map_values(|c: &str| c@) =~= seq![marker@, column@]);
            assert(row@ == orm_row_str(orm_field_row(fv[i as int])));
            let prev = fv.take(i as int).map_values(|f: FieldV| orm_field_row(f));
            lemma_orm_rows_str_push(prev, orm_field_row(fv[i as int]));
            assert(fv.take(i as int + 1).map_values(|f: FieldV| orm_field_row(f)) =~= prev.push(
                orm_field_row(fv[i as int]),
            ));
            assert(s@ =~= hdr + orm_rows_str(
                fv.take(i as int + 1).map_values(|f: FieldV| orm_field_row(f)),
            ));
        }
        i = i + 1;
    }
    let ghost frows = fv.map_values(|f: FieldV| orm_field_row(f));
    let mut j: usize = 0;
    proof {
        assert(fv.take(fv.len() as int) =~= fv);
        assert(lv.take(0) =~= Seq::<LinkV>::empty());
        assert(outgoing_links(lv.take(0), def@.name) =~= Seq::<LinkV>::empty());
        assert(outgoing_links(lv.take(0), def@.name).map_values(|l: LinkV| orm_link_row(l))
            =~= Seq::<OrmRow>::empty());
        assert(frows + Seq::<OrmRow>::empty() =~= frows);
        assert(s@ =~= hdr + orm_rows_str(
            frows + outgoing_links(lv.take(0), def@.name).map_values(|l: LinkV| orm_link_row(l)),
        ));
    }
    while j < links.len()
        invariant
            j <= links@.len(),
            lv == links_view(links@),
            lv.len() == links@.len(),
            fv == def@.fields,
            frows == fv.map_values(|f: FieldV| orm_field_row(f)),
            s@ == hdr + orm_rows_str(
                frows + outgoing_links(lv.take(j as int), def@.name).map_values(
                    |l: LinkV| orm_link_row(l),
                ),
            ),
        decreases links@.len() - j,
    {
        let ghost l = lv[j as int];
        let ghost prev_out = outgoing_links(lv.take(j as int), def@.name);
        proof {
            assert(lv[j as int] == links@[j as int]@);
            assert(lv.take(j as int + 1).drop_last() =~= lv.take(j as int));
        }
        if str_eq(links[j].from.as_str(), def.name.as_str()) {
            let marker: &str = if links[j].body.is_pk {
                "fk_pk"
            } else {
                "fk"
            };
            let mut column = String::from_str("+");
            let low = lower_string(links[j].to.as_str());
            column.append(low.as_str());
            column.append("_id");
            let cells: [&str; 2] = [marker, column.as_str()];
            let row = table_fields(&cells);
            s.append(row.as_str());
            proof {
                assert(cells@.map_values(|c: &str| c@) =~= seq![marker@, column@]);
                assert(row@ == orm_row_str(orm_link_row(l)));
                assert(outgoing_links(lv.take(j as int + 1), def@.name) =~= prev_out.push(l));
                lemma_orm_rows_str_push(
                    frows + prev_out.map_values(|x: LinkV| orm_link_row(x)),
                    orm_link_row(l),
                );
                assert(frows + prev_out.push(l).map_values(|x: LinkV| orm_link_row(x)) =~= (frows
                    + prev_out.map_values(|x: LinkV| orm_link_row(x))).push(orm_link_row(l)));
                assert(s@ =~= hdr + orm_rows_str(
                    frows + outgoing_links(lv.take(j as int + 1), def@.name).map_values(
                        |x: LinkV| orm_link_row(x),
                    ),
                ));
            }
        } else {
            proof {
                assert(outgoing_links(lv.take(j as int + 1), def@.name) =~= prev_out);
            }
        }
        j = j + 1;
    }
    s.append("</TABLE> >];\n");
    proof {
        assert(lv.take(lv.len() as int) =~= lv);
        assert(frows + outgoing_links(lv, def@.name).map_values(|l: LinkV| orm_link_row(l))
            =~= orm_rows(def@, outgoing_links(lv, def@.name)));
        assert(s@ =~= orm_stmt_str(OrmStmt::Table(def@, outgoing_links(lv, def@.name))));
    }
    s
}

/// Renders a document as a relational schema. The output is exactly
/// [`spec_orm`] of the document: the statements of [`orm_stmts`] rendered
/// in order between the prologue and the closing brace.
pub fn emit_orm(doc: &Doc) -> (out: String)
    ensures
        out@ == spec_orm(doc@),
{
    let ghost dv = doc@;
    let mut out = String::new();
    out.append("digraph {\ngraph [layout=dot];\nnode [shape=plaintext];\n");
    let ghost hdr = "digraph {\ngraph [layout=dot];\nnode [shape=plaintext];\n"@;
    let mut i: usize = 0;
    proof {
        assert(dv.defs.take(0) =~= Seq::<DefV>::empty());
        assert(orm_table_stmts(dv.defs.take(0), dv.links) =~= Seq::<OrmStmt>::empty());
        assert(out@ =~= hdr + render_orm(orm_table_stmts(dv.defs.take(0), dv.links)));
    }
    while i < doc.defs.len()
        invariant
            i <= doc.defs@.len(),
            dv == doc@,
            dv.defs.len() == doc.defs@.len(),
            out@ == hdr + render_orm(orm_table_stmts(dv.defs.take(i as int), dv.links)),
        decreases doc.defs@.len() - i,
    {
        let tbl = orm_table_string(&doc.defs[i], &doc.links);
        out.append(tbl.as_str());
        proof {
            assert(dv.defs[i as int] == doc.defs@[i as int]@);
            assert(links_view(doc.links@) == dv.links);
            let stmt = OrmStmt::Table(
                dv.defs[i as int],
                outgoing_links(dv.links, dv.defs[i as int].name),
            );
            lemma_render_orm_push(orm_table_stmts(dv.defs.take(i as int), dv.links), stmt);
            assert(orm_table_stmts(dv.defs.take(i as int + 1), dv.links) =~= orm_table_stmts(
                dv.defs.take(i as int),
                dv.links,
            ).push(stmt));
            assert(out@ =~= hdr + render_orm(
                orm_table_stmts(dv.defs.take(i as int + 1), dv.links),
            ));
        }
        i = i + 1;
    }
    let ghost mid = hdr + render_orm(orm_table_stmts(dv.defs, dv.links));
    let mut j: usize = 0;
    proof {
        assert(dv.defs.take(doc.defs@.len() as int) =~= dv.defs);
        assert(dv.links.take(0) =~= Seq::<LinkV>::empty());
        assert(orm_edge_stmts(dv.links.take(0)) =~= Seq::<OrmStmt>::empty());
        assert(out@ =~= mid + render_orm(orm_edge_stmts(dv.links.take(0))));
    }
    while j < doc.links.len()
        invariant
            j <= doc.links@.len(),
            dv == doc@,
            dv.links.len() == doc.links@.len(),
            out@ == mid + render_orm(orm_edge_stmts(dv.links.take(j as int))),
        decreases doc.links@.len() - j,
    {
        out.append("\t");
        out.append(doc.links[j].from.as_str());
        out.append(" -> ");
        out.append(doc.links[j].to.as_str());
        out.append(" [headlabel=<");
        out.append(doc.links[j].to_count.display());
        out.append("> labelangle=45 labeldistance=2.1];\n");
        proof {
            assert(dv.links[j as int] == doc.links@[j as int]@);
            let l = dv.links[j as int];
            lemma_render_orm_push(orm_edge_stmts(dv.links.take(j as int)), OrmStmt::Edge(l));
            assert(orm_edge_stmts(dv.links.take(j as int + 1)) =~= orm_edge_stmts(
                dv.links.take(j as int),
            ).push(OrmStmt::Edge(l)));
            assert(out@ =~= mid + render_orm(orm_edge_stmts(dv.links.take(j as int + 1))));
        }
        j = j + 1;
    }
    out.append("}\n");
    proof {
        assert(dv.links.take(doc.links@.len() as int) =~= dv.links);
        assert(out@ =~= spec_orm(dv));
    }
    out
}

} // verus!
