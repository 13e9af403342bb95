use dialang::{emit_der, emit_orm, parse_document, table_fields, LinkN, ParseError, Tag};

fn count(haystack: &str, needle: &str) -> usize {
    haystack.matches(needle).count()
}

const EXAMPLE: &str = "User {\n  int id;\n  string name;\n}\nOrder {\n  int id;\n}\nUser 1 -> n Order \"places\"\n";

#[test]
fn parses_entities_and_relationships() {
    let doc = parse_document(EXAMPLE).expect("example parses");
    assert_eq!(doc.defs.len(), 2);
    assert_eq!(doc.links.len(), 1);
    assert_eq!(doc.defs[0].name, "User");
    assert_eq!(doc.defs[0].fields.len(), 2);
    assert_eq!(doc.defs[0].fields[0].field_type, "int");
    assert_eq!(doc.defs[0].fields[0].name, "id");
    assert_eq!(doc.defs[0].fields[1].field_type, "string");
    assert_eq!(doc.defs[0].fields[1].name, "name");
    assert_eq!(doc.defs[1].name, "Order");
    assert_eq!(doc.defs[1].fields.len(), 1);
    let link = &doc.links[0];
    assert_eq!(link.from, "User");
    assert_eq!(link.to, "Order");
    assert_eq!(link.from_count, LinkN::One);
    assert_eq!(link.to_count, LinkN::Many);
    assert!(!link.body.is_pk);
    assert_eq!(link.label.as_deref(), Some("places"));
}

#[test]
fn der_example_output() {
    let doc = parse_document(EXAMPLE).unwrap();
    let out = emit_der(&doc);
    assert!(out.starts_with("graph {\nnode [shape=plaintext];\n"));
    assert!(out.ends_with("}\n"));
    // the User record node with its two field rows
    assert!(out.contains("<TR><TD colspan=\"2\" bgcolor=\"gray\">User</TD></TR>"));
    assert!(out.contains("<TR><TD>int</TD><TD>id</TD></TR>"));
    assert!(out.contains("<TR><TD>string</TD><TD>name</TD></TR>"));
    // the Order record node with its single field row
    assert!(out.contains("<TR><TD colspan=\"2\" bgcolor=\"gray\">Order</TD></TR>"));
    // one diamond labeled with the relationship label
    assert!(out.contains("\tUser_Order_places [label=<places>];\n"));
    // two edges annotated with the cardinality display forms
    assert!(out.contains("\tUser -- User_Order_places [taillabel=<1>];\n"));
    assert!(out.contains("\tUser_Order_places -- Order   [headlabel=<(1,N)>];\n"));
}

#[test]
fn orm_example_output() {
    let doc = parse_document(EXAMPLE).unwrap();
    let out = emit_orm(&doc);
    assert!(out.starts_with("digraph {\ngraph [layout=dot];\nnode [shape=plaintext];\n"));
    // User table: pk row for id, unmarked row for name, fk row synthesized
    // from the outgoing relationship
    assert!(out.contains("<TR><TD colspan=\"2\" border=\"1\">User</TD></TR>"));
    assert!(out.contains("<TD align=\"LEFT\">pk</TD>\n<TD align=\"LEFT\">+id</TD>"));
    assert!(out.contains("<TD align=\"LEFT\"></TD>\n<TD align=\"LEFT\">+name</TD>"));
    assert!(out.contains("<TD align=\"LEFT\">fk</TD>\n<TD align=\"LEFT\">+order_id</TD>"));
    // Order table has no fk row
    assert!(out.contains("<TR><TD colspan=\"2\" border=\"1\">Order</TD></TR>"));
    assert_eq!(count(&out, "+order_id"), 1);
    // one directed edge labeled with the destination cardinality
    assert!(out.contains("\tUser -> Order [headlabel=<(1,N)> labelangle=45 labeldistance=2.1];\n"));
}

#[test]
fn der_node_and_edge_counts() {
    let src = "A { int id; }\nB { int id; }\nC { int x; }\nA 1 -> n B\nB 1? => n? C \"owns\"\n";
    let doc = parse_document(src).unwrap();
    let out = emit_der(&doc);
    // one record node per entity
    assert_eq!(count(&out, "<TABLE border=\"0\" cellborder=\"1\" cellspacing=\"0\">"), 3);
    // one diamond and two edges per relationship
    assert_eq!(count(&out, " [label=<"), 3 + 2); // 3 records + 2 diamonds
    assert_eq!(count(&out, "taillabel"), 2);
    assert_eq!(count(&out, "headlabel"), 2);
    assert_eq!(count(&out, " -- "), 4);
}

#[test]
fn orm_node_edge_and_row_counts() {
    let src = "A { int id; }\nB { int id; }\nC { int x; }\nA 1 -> n B\nB 1? => n? C \"owns\"\n";
    let doc = parse_document(src).unwrap();
    let out = emit_orm(&doc);
    // one table node per entity
    assert_eq!(count(&out, "<TABLE border=\"1\" ALIGN=\"LEFT\""), 3);
    // one directed edge per relationship
    assert_eq!(count(&out, " -> "), 2);
    // total rows: one per field plus one per outgoing relationship
    assert_eq!(count(&out, "<TR>\n"), 3 + 2);
}

#[test]
fn id_field_always_pk_marked() {
    // the marker follows the name `id`, whatever the declared type
    let doc = parse_document("T { string id; int other; }").unwrap();
    let out = emit_orm(&doc);
    assert!(out.contains("<TD align=\"LEFT\">pk</TD>\n<TD align=\"LEFT\">+id</TD>"));
    assert!(out.contains("<TD align=\"LEFT\"></TD>\n<TD align=\"LEFT\">+other</TD>"));
    assert_eq!(count(&out, ">pk<"), 1);
}

#[test]
fn equality_arrow_marks_fk_pk() {
    let plain = parse_document("A { int id; }\nB { int id; }\nA 1 -> n B").unwrap();
    let out_plain = emit_orm(&plain);
    assert!(out_plain.contains("<TD align=\"LEFT\">fk</TD>\n<TD align=\"LEFT\">+b_id</TD>"));
    assert!(!out_plain.contains("fk_pk"));

    let keyed = parse_document("A { int id; }\nB { int id; }\nA 1 => n B").unwrap();
    assert!(keyed.links[0].body.is_pk);
    let out_keyed = emit_orm(&keyed);
    assert!(out_keyed.contains("<TD align=\"LEFT\">fk_pk</TD>\n<TD align=\"LEFT\">+b_id</TD>"));
}

#[test]
fn cardinality_tokens_round_trip() {
    let src = "A 1 -> 1 B\nA 1? -> 1? B\nA n -> n B\nA n? -> n? B\n";
    let doc = parse_document(src).unwrap();
    assert_eq!(doc.links[0].from_count, LinkN::One);
    assert_eq!(doc.links[1].from_count, LinkN::MaybeOne);
    assert_eq!(doc.links[2].from_count, LinkN::Many);
    assert_eq!(doc.links[3].from_count, LinkN::MaybeMany);
    let out = emit_der(&doc);
    assert!(out.contains("[taillabel=<1>]"));
    assert!(out.contains("[taillabel=<(0,1)>]"));
    assert!(out.contains("[taillabel=<(1,N)>]"));
    assert!(out.contains("[taillabel=<(0,N)>]"));
    let orm = emit_orm(&doc);
    assert!(orm.contains("headlabel=<1>"));
    assert!(orm.contains("headlabel=<(0,1)>"));
    assert!(orm.contains("headlabel=<(1,N)>"));
    assert!(orm.contains("headlabel=<(0,N)>"));
}

#[test]
fn rendering_twice_is_byte_identical() {
    let doc = parse_document(EXAMPLE).unwrap();
    assert_eq!(emit_der(&doc), emit_der(&doc));
    assert_eq!(emit_orm(&doc), emit_orm(&doc));
}

#[test]
fn missing_destination_is_missing_token_error() {
    let r = parse_document("User 1 -> n");
    assert_eq!(r.unwrap_err(), ParseError::Missing);
}

#[test]
fn bad_character_is_text_error() {
    assert_eq!(parse_document("User @ Order").unwrap_err(), ParseError::Text);
}

#[test]
fn unterminated_label_is_text_error() {
    assert_eq!(
        parse_document("A 1 -> n B \"no end").unwrap_err(),
        ParseError::Text
    );
}

#[test]
fn wrong_token_reports_expected_and_actual() {
    // a block opener where the destination name should stand
    let r = parse_document("User 1 -> n {");
    assert_eq!(
        r.unwrap_err(),
        ParseError::Mismatch { expected: Tag::Name, actual: Tag::BlockOpen }
    );
    // a missing field separator inside a definition
    let r2 = parse_document("User { int id }");
    assert_eq!(
        r2.unwrap_err(),
        ParseError::Mismatch { expected: Tag::FieldEnd, actual: Tag::BlockClose }
    );
    // a cardinality token where a name should stand
    let r3 = parse_document("1 1 -> n B");
    assert_eq!(
        r3.unwrap_err(),
        ParseError::Mismatch { expected: Tag::Name, actual: Tag::Card }
    );
}

#[test]
fn unclosed_definition_is_missing() {
    assert_eq!(parse_document("User { int id;").unwrap_err(), ParseError::Missing);
}

#[test]
fn empty_input_renders_empty_graphs() {
    let doc = parse_document("").unwrap();
    assert_eq!(doc.defs.len(), 0);
    assert_eq!(doc.links.len(), 0);
    assert_eq!(
        emit_der(&doc),
        "graph {\nnode [shape=plaintext];\nnode [shape=diamond, fontsize=11];\n}\n"
    );
    assert_eq!(
        emit_orm(&doc),
        "digraph {\ngraph [layout=dot];\nnode [shape=plaintext];\n}\n"
    );
}

#[test]
fn label_is_optional() {
    let doc = parse_document("A 1 -> n B").unwrap();
    assert_eq!(doc.links[0].label, None);
    let out = emit_der(&doc);
    // the diamond identity ends with the empty label
    assert!(out.contains("\tA_B_ [label=<>];\n"));
}

#[test]
fn foreign_key_column_is_lowercased() {
    let doc = parse_document("Shop { int id; }\nHTTPServer { int id; }\nShop 1 -> n HTTPServer").unwrap();
    let out = emit_orm(&doc);
    assert!(out.contains("+httpserver_id"));
}

#[test]
fn dangling_relationship_still_renders_edge() {
    // no validation: a relationship to or from an undefined entity keeps
    // its edge, and no table receives its foreign-key row
    let doc = parse_document("A { int id; }\nGhostly 1 -> n A").unwrap();
    let orm = emit_orm(&doc);
    assert!(orm.contains("\tGhostly -> A [headlabel=<(1,N)>"));
    assert!(!orm.contains("+a_id"));
    let der = emit_der(&doc);
    assert!(der.contains("\tGhostly -- Ghostly_A_ [taillabel=<1>];\n"));
    assert!(der.contains("\tGhostly_A_ -- A   [headlabel=<(1,N)>];\n"));
}

#[test]
fn table_fields_renders_one_line_per_cell() {
    let row = table_fields(&["pk", "+id"]);
    assert_eq!(
        row,
        "<TR>\n<TD align=\"LEFT\">pk</TD>\n<TD align=\"LEFT\">+id</TD>\n</TR>\n"
    );
    assert_eq!(table_fields(&[]), "<TR>\n</TR>\n");
}

#[test]
fn truncated_relationship_is_missing() {
    assert_eq!(parse_document("User 1").unwrap_err(), ParseError::Missing);
    assert_eq!(parse_document("User").unwrap_err(), ParseError::Missing);
}

#[test]
fn name_in_arrow_position_is_mismatch() {
    assert_eq!(
        parse_document("User 1 id n Order").unwrap_err(),
        ParseError::Mismatch { expected: Tag::Arrow, actual: Tag::Name }
    );
}

#[test]
fn word_that_names_nothing_is_mismatch() {
    // a word that is neither an identifier nor a cardinality token
    assert_eq!(
        parse_document("1x { }").unwrap_err(),
        ParseError::Mismatch { expected: Tag::Name, actual: Tag::Word }
    );
}

#[test]
fn cardinality_word_usable_as_entity_name() {
    // the word `n` is a cardinality token only where a cardinality is
    // required; elsewhere it is an ordinary identifier
    let doc = parse_document("n { int id; }").unwrap();
    assert_eq!(doc.defs[0].name, "n");
}

#[test]
fn statements_in_any_order() {
    // a relationship may precede the definitions it names
    let doc = parse_document("A 1 -> n B\nA { int id; }\nB { int id; }").unwrap();
    assert_eq!(doc.defs.len(), 2);
    assert_eq!(doc.links.len(), 1);
    let out = emit_orm(&doc);
    assert!(out.contains("+b_id"));
}
