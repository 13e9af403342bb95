//! Parsing token sequences into documents.
//!
//! A document is a sequence of entity definitions (`Name { type name; ... }`)
//! and relationship statements
//! (`from card arrow card to ["label"]`), in any order. [`spec_parse_doc`]
//! is the mathematical parser over tokens; [`spec_parse_document`] composes
//! it with the tokenizer; [`parse_document`] computes exactly that.

use vstd::prelude::*;

use crate::doc::{
    defs_view, fields_view, links_view, Def, DefV, Doc, DocV, Field, FieldV, Link, LinkBody,
    LinkN, LinkV,
};
use crate::lex::{lex, spec_lex, toks_view, ParseError, Tag, Token, TokenV};

verus! {

/// A character that may begin an identifier.
pub open spec fn is_ident_start(c: char) -> bool {
    ('a' as u32 <= c as u32 && c as u32 <= 'z' as u32)
        || ('A' as u32 <= c as u32 && c as u32 <= 'Z' as u32)
        || c == '_'
}

/// A character that may continue an identifier.
pub open spec fn is_ident_rest(c: char) -> bool {
    is_ident_start(c) || ('0' as u32 <= c as u32 && c as u32 <= '9' as u32)
}

/// An identifier: what may name an entity, a field, or a field type.
pub open spec fn is_ident(w: Seq<char>) -> bool {
    &&& w.len() > 0
    &&& is_ident_start(w[0])
    &&& forall|i: int| 1 <= i < w.len() ==> is_ident_rest(#[trigger] w[i])
}

/// A cardinality token: one of the four card words.
pub open spec fn is_card(w: Seq<char>) -> bool {
    w == "1"@ || w == "1?"@ || w == "n"@ || w == "n?"@
}

/// The cardinality a card word stands for.
pub open spec fn spec_card_of(w: Seq<char>) -> LinkN {
    if w == "1"@ {
        LinkN::One
    } else if w == "1?"@ {
        LinkN::MaybeOne
    } else if w == "n"@ {
        LinkN::Many
    } else {
        LinkN::MaybeMany
    }
}

/// Whether an arrow body contains an equality character, which marks the
/// synthesized foreign key as part of the destination's primary key.
pub open spec fn has_eq(s: Seq<char>) -> bool {
    exists|i: int| 0 <= i < s.len() && s[i] == '='
}

/// The kind of construct a token stands for, for error reporting.
pub open spec fn spec_tag_of(t: TokenV) -> Tag {
    match t {
        TokenV::Word(w) => if is_card(w) {
            Tag::Card
        } else if is_ident(w) {
            Tag::Name
        } else {
            Tag::Word
        },
        TokenV::Arrow(_) => Tag::Arrow,
        TokenV::LBrace => Tag::BlockOpen,
        TokenV::RBrace => Tag::BlockClose,
        TokenV::Semi => Tag::FieldEnd,
        TokenV::Quoted(_) => Tag::Label,
    }
}

/// Parses field declarations up to and including the closing `}`.
/// On success: the fields, and how many tokens were consumed.
pub open spec fn spec_parse_fields(toks: Seq<TokenV>) -> Result<(Seq<FieldV>, int), ParseError>
    decreases toks.len(),
{
    if toks.len() == 0 {
        Err(ParseError::Missing)
    } else if toks[0] is RBrace {
        Ok((Seq::empty(), 1))
    } else if !(toks[0] is Word && is_ident(toks[0]->Word_0)) {
        Err(ParseError::Mismatch { expected: Tag::Name, actual: spec_tag_of(toks[0]) })
    } else if toks.len() < 2 {
        Err(ParseError::Missing)
    } else if !(toks[1] is Word && is_ident(toks[1]->Word_0)) {
        Err(ParseError::Mismatch { expected: Tag::Name, actual: spec_tag_of(toks[1]) })
    } else if toks.len() < 3 {
        Err(ParseError::Missing)
    } else if !(toks[2] is Semi) {
        Err(ParseError::Mismatch { expected: Tag::FieldEnd, actual: spec_tag_of(toks[2]) })
    } else {
        match spec_parse_fields(toks.skip(3)) {
            Err(e) => Err(e),
            Ok(p) => Ok(
                (
                    seq![FieldV { field_type: toks[0]->Word_0, name: toks[1]->Word_0 }] + p.0,
                    3 + p.1,
                ),
            ),
        }
    }
}

/// Parses one entity definition. The first token is the entity name and the
/// second opens the field block.
pub open spec fn spec_parse_def(toks: Seq<TokenV>) -> Result<(DefV, int), ParseError> {
    match spec_parse_fields(toks.skip(2)) {
        Err(e) => Err(e),
        Ok(p) => Ok((DefV { name: toks[0]->Word_0, fields: p.0 }, 2 + p.1)),
    }
}

/// Parses one relationship statement. The first token is the source entity
/// name; then a cardinality, an arrow body, a cardinality, the destination
/// name, and an optional quoted label.
pub open spec fn spec_parse_link(toks: Seq<TokenV>) -> Result<(LinkV, int), ParseError> {
    if toks.len() < 2 {
        Err(ParseError::Missing)
    } else if !(toks[1] is Word && is_card(toks[1]->Word_0)) {
        Err(ParseError::Mismatch { expected: Tag::Card, actual: spec_tag_of(toks[1]) })
    } else if toks.len() < 3 {
        Err(ParseError::Missing)
    } else if !(toks[2] is Arrow) {
        Err(ParseError::Mismatch { expected: Tag::Arrow, actual: spec_tag_of(toks[2]) })
    } else if toks.len() < 4 {
        Err(ParseError::Missing)
    } else if !(toks[3] is Word && is_card(toks[3]->Word_0)) {
        Err(ParseError::Mismatch { expected: Tag::Card, actual: spec_tag_of(toks[3]) })
    } else if toks.len() < 5 {
        Err(ParseError::Missing)
    } else if !(toks[4] is Word && is_ident(toks[4]->Word_0)) {
        Err(ParseError::Mismatch { expected: Tag::Name, actual: spec_tag_of(toks[4]) })
    } else if toks.len() >= 6 && toks[5] is Quoted {
        Ok(
            (
                LinkV {
                    from: toks[0]->Word_0,
                    from_count: spec_card_of(toks[1]->Word_0),
                    is_pk: has_eq(toks[2]->Arrow_0),
                    to_count: spec_card_of(toks[3]->Word_0),
                    to: toks[4]->Word_0,
                    label: Some(toks[5]->Quoted_0),
                },
                6,
            ),
        )
    } else {
        Ok(
            (
                LinkV {
                    from: toks[0]->Word_0,
                    from_count: spec_card_of(toks[1]->Word_0),
                    is_pk: has_eq(toks[2]->Arrow_0),
                    to_count: spec_card_of(toks[3]->Word_0),
                    to: toks[4]->Word_0,
                    label: None,
                },
                5,
            ),
        )
    }
}

/// Adds a definition parsed in front of the outcome on the remaining tokens.
pub open spec fn doc_prepend_def(d: DefV, rest: Result<DocV, ParseError>) -> Result<
    DocV,
    ParseError,
> {
    match rest {
        Err(e) => Err(e),
        Ok(doc) => Ok(DocV { links: doc.links, defs: seq![d] + doc.defs }),
    }
}

/// Adds a relationship parsed in front of the outcome on the remaining
/// tokens.
pub open spec fn doc_prepend_link(l: LinkV, rest: Result<DocV, ParseError>) -> Result<
    DocV,
    ParseError,
> {
    match rest {
        Err(e) => Err(e),
        Ok(doc) => Ok(DocV { links: seq![l] + doc.links, defs: doc.defs }),
    }
}

/// The mathematical parser: statements in source order until the tokens are
/// exhausted. A definition is recognized by its opening `{`; anything else
/// after a leading name is read as a relationship statement.
pub open spec fn spec_parse_doc(toks: Seq<TokenV>) -> Result<DocV, ParseError>
    decreases toks.len(),
{
    if toks.len() == 0 {
        Ok(DocV { links: Seq::empty(), defs: Seq::empty() })
    } else if !(toks[0] is Word && is_ident(toks[0]->Word_0)) {
        Err(ParseError::Mismatch { expected: Tag::Name, actual: spec_tag_of(toks[0]) })
    } else if toks.len() >= 2 && toks[1] is LBrace {
        match spec_parse_def(toks) {
            Err(e) => Err(e),
            Ok(p) => if 1 <= p.1 <= toks.len() {
                doc_prepend_def(p.0, spec_parse_doc(toks.skip(p.1)))
            } else {
                Err(ParseError::Missing)
            },
        }
    } else {
        match spec_parse_link(toks) {
            Err(e) => Err(e),
            Ok(p) => if 1 <= p.1 <= toks.len() {
                doc_prepend_link(p.0, spec_parse_doc(toks.skip(p.1)))
            } else {
                Err(ParseError::Missing)
            },
        }
    }
}

/// What parsing a whole source text yields: tokenization followed by the
/// statement parser.
pub open spec fn spec_parse_document(s: Seq<char>) -> Result<DocV, ParseError> {
    match spec_lex(s) {
        None => Err(ParseError::Text),
        Some(ts) => spec_parse_doc(ts),
    }
}

fn ident_start_char(c: char) -> (b: bool)
    ensures
        b == is_ident_start(c),
{
    (('a' as u32) <= (c as u32) && (c as u32) <= ('z' as u32)) || (('A' as u32) <= (c as u32) && (c
        as u32) <= ('Z' as u32)) || c == '_'
}

fn ident_rest_char(c: char) -> (b: bool)
    ensures
        b == is_ident_rest(c),
{
    ident_start_char(c) || (('0' as u32) <= (c as u32) && (c as u32) <= ('9' as u32))
}

/// Whether a word is an identifier.
fn ident_str(w: &str) -> (b: bool)
    ensures
        b == is_ident(w@),
{
    let n = w.unicode_len();
    if n == 0 {
        return false;
    }
    if !ident_start_char(w.get_char(0)) {
        return false;
    }
    let mut i: usize = 1;
    while i < n
        invariant
            1 <= i <= n,
            n == w@.len(),
            is_ident_start(w@[0]),
            forall|m: int| 1 <= m < i ==> is_ident_rest(#[trigger] w@[m]),
        decreases n - i,
    {
        if !ident_rest_char(w.get_char(i)) {
            return false;
        }
        i = i + 1;
    }
    true
}

/// Compares two strings character for character.
pub(crate) fn str_eq(a: &str, b: &str) -> (r: bool)
    ensures
        r == (a@ == b@),
{
    let sa = String::from_str(a);
    let sb = String::from_str(b);
    sa == sb
}

/// Reads a cardinality token: `Some` exactly on the four card words.
fn card_of(w: &str) -> (r: Option<LinkN>)
    ensures
        r is Some <==> is_card(w@),
        r is Some ==> r->Some_0 == spec_card_of(w@),
{
    if str_eq(w, "1") {
        Some(LinkN::One)
    } else if str_eq(w, "1?") {
        Some(LinkN::MaybeOne)
    } else if str_eq(w, "n") {
        Some(LinkN::Many)
    } else if str_eq(w, "n?") {
        Some(LinkN::MaybeMany)
    } else {
        None
    }
}

/// Whether an arrow body contains an equality character.
fn arrow_has_eq(s: &str) -> (b: bool)
    ensures
        b == has_eq(s@),
{
    let n = s.unicode_len();
    let mut i: usize = 0;
    while i < n
        invariant
            0 <= i <= n,
            n == s@.len(),
            forall|m: int| 0 <= m < i ==> s@[m] != '=',
        decreases n - i,
    {
        if s.get_char(i) == '=' {
            return true;
        }
        i = i + 1;
    }
    false
}

/// The kind of construct a token stands for.
fn tag_of(t: &Token) -> (g: Tag)
    ensures
        g == spec_tag_of(t@),
{
    match t {
        Token::Word(w) => {
            if card_of(w.as_str()).is_some() {
                Tag::Card
            } else if ident_str(w.as_str()) {
                Tag::Name
            } else {
                Tag::Word
            }
        },
        Token::Arrow(_) => Tag::Arrow,
        Token::LBrace => Tag::BlockOpen,
        Token::RBrace => Tag::BlockClose,
        Token::Semi => Tag::FieldEnd,
        Token::Quoted(_) => Tag::Label,
    }
}

/// Prepends already-parsed fields to the outcome on the remaining tokens.
pub open spec fn fields_combine(
    prefix: Seq<FieldV>,
    extra: int,
    rest: Result<(Seq<FieldV>, int), ParseError>,
) -> Result<(Seq<FieldV>, int), ParseError> {
    match rest {
        Err(e) => Err(e),
        Ok(p) => Ok((prefix + p.0, extra + p.1)),
    }
}

proof fn lemma_fields_combine_assoc(
    prefix: Seq<FieldV>,
    extra: int,
    f: FieldV,
    rest: Result<(Seq<FieldV>, int), ParseError>,
)
    ensures
        fields_combine(prefix, extra, fields_combine(seq![f], 3, rest)) == fields_combine(
            prefix.push(f),
            extra + 3,
            rest,
        ),
{
    match rest {
        Err(_) => {},
        Ok(p) => {
            assert(prefix + (seq![f] + p.0) =~= prefix.push(f) + p.0);
        },
    }
}

/// Parses field declarations starting at `start`, up to and including the
/// closing `}`, computing exactly [`spec_parse_fields`] on the remaining
/// tokens.
fn parse_fields(toks: &Vec<Token>, start: usize) -> (r: Result<(Vec<Field>, usize), ParseError>)
    requires
        start <= toks@.len(),
    ensures
        match r {
            Ok(p) => spec_parse_fields(toks_view(toks@).skip(start as int)) == Ok::<
                _,
                ParseError,
            >((fields_view(p.0@), p.1 as int)) && 1 <= p.1 && start + p.1 <= toks@.len(),
            Err(e) => spec_parse_fields(toks_view(toks@).skip(start as int)) == Err::<
                (Seq<FieldV>, int),
                ParseError,
            >(e),
        },
{
    let ghost tv = toks_view(toks@);
    let ghost t0 = tv.skip(start as int);
    let mut fields: Vec<Field> = Vec::new();
    let mut j: usize = start;
    proof {
        assert(fields_view(fields@) =~= Seq::<FieldV>::empty());
        if spec_parse_fields(t0) is Ok {
            let p = spec_parse_fields(t0)->Ok_0;
            assert(Seq::<FieldV>::empty() + p.0 =~= p.0);
        }
        assert(tv.skip(start as int) == t0);
    }
    loop
        invariant
            start <= j <= toks@.len(),
            tv == toks_view(toks@),
            t0 == tv.skip(start as int),
            spec_parse_fields(t0) == fields_combine(
                fields_view(fields@),
                j - start,
                spec_parse_fields(tv.skip(j as int)),
            ),
        decreases toks@.len() - j,
    {
        let ghost tj = tv.skip(j as int);
        let ghost pre = fields_view(fields@);
        if j >= toks.len() {
            proof {
                assert(tj =~= Seq::<TokenV>::empty());
            }
            return Err(ParseError::Missing);
        }
        proof {
            assert(tj.len() == tv.len() - j);
            assert(forall|k: int| 0 <= k < tj.len() ==> tj[k] == tv[j + k]);
            assert(forall|k: int| 0 <= k < tv.len() ==> tv[k] == toks@[k]@);
        }
        let first_name: &String = match &toks[j] {
            Token::RBrace => {
                proof {
                    assert(pre + Seq::<FieldV>::empty() =~= pre);
                }
                return Ok((fields, j - start + 1));
            },
            Token::Word(w) => {
                if !ident_str(w.as_str()) {
                    return Err(
                        ParseError::Mismatch { expected: Tag::Name, actual: tag_of(&toks[j]) },
                    );
                }
                w
            },
            _ => {
                return Err(ParseError::Mismatch { expected: Tag::Name, actual: tag_of(&toks[j]) });
            },
        };
        if j + 1 >= toks.len() {
            return Err(ParseError::Missing);
        }
        proof {
            assert(tj[1] == tv[j + 1]);
        }
        let second_name: &String = match &toks[j + 1] {
            Token::Word(w) => {
                if !ident_str(w.as_str()) {
                    return Err(
                        ParseError::Mismatch { expected: Tag::Name, actual: tag_of(&toks[j + 1]) },
                    );
                }
                w
            },
            _ => {
                return Err(
                    ParseError::Mismatch { expected: Tag::Name, actual: tag_of(&toks[j + 1]) },
                );
            },
        };
        if j + 2 >= toks.len() {
            return Err(ParseError::Missing);
        }
        proof {
            assert(tj[2] == tv[j + 2]);
        }
        let semi_there = matches!(&toks[j + 2], Token::Semi);
        if !semi_there {
            return Err(ParseError::Mismatch { expected: Tag::FieldEnd, actual: tag_of(&toks[j + 2]) });
        }
        let field = Field { field_type: first_name.clone(), name: second_name.clone() };
        proof {
            let fv = FieldV { field_type: tj[0]->Word_0, name: tj[1]->Word_0 };
            assert(tj.skip(3) =~= tv.skip(j + 3));
            lemma_fields_combine_assoc(pre, j - start, fv, spec_parse_fields(tv.skip(j + 3)));
            assert(fields_view(fields@.push(field)) =~= pre.push(fv));
        }
        fields.push(field);
        j = j + 3;
    }
}

/// Parses one relationship statement starting at `start`, computing exactly
/// [`spec_parse_link`] on the remaining tokens.
fn parse_link(toks: &Vec<Token>, start: usize) -> (r: Result<(Link, usize), ParseError>)
    requires
        start < toks@.len(),
        toks_view(toks@)[start as int] is Word,
        is_ident(toks_view(toks@)[start as int]->Word_0),
    ensures
        match r {
            Ok(p) => spec_parse_link(toks_view(toks@).skip(start as int)) == Ok::<
                _,
                ParseError,
            >((p.0@, p.1 as int)) && 1 <= p.1 && start + p.1 <= toks@.len(),
            Err(e) => spec_parse_link(toks_view(toks@).skip(start as int)) == Err::<
                (LinkV, int),
                ParseError,
            >(e),
        },
{
    let ghost tv = toks_view(toks@);
    let ghost ts = tv.skip(start as int);
    let n = toks.len();
    proof {
        assert(n == tv.len());
        assert(ts.len() == tv.len() - start);
        assert(forall|k: int| 0 <= k < ts.len() ==> ts[k] == tv[start + k]);
        assert(forall|k: int| 0 <= k < tv.len() ==> tv[k] == toks@[k]@);
    }
    let from: &String = match &toks[start] {
        Token::Word(w) => w,
        _ => {
            return unreached();
        },
    };
    if start + 1 >= n {
        return Err(ParseError::Missing);
    }
    proof {
        assert(ts[1] == tv[start + 1]);
    }
    let from_count: LinkN = match &toks[start + 1] {
        Token::Word(w) => {
            match card_of(w.as_str()) {
                Some(c) => c,
                None => {
                    return Err(
                        ParseError::Mismatch { expected: Tag::Card, actual: tag_of(&toks[start + 1]) },
                    );
                },
            }
        },
        _ => {
            return Err(
                ParseError::Mismatch { expected: Tag::Card, actual: tag_of(&toks[start + 1]) },
            );
        },
    };
    if start + 2 >= n {
        return Err(ParseError::Missing);
    }
    proof {
        assert(ts[2] == tv[start + 2]);
    }
    let is_pk: bool = match &toks[start + 2] {
        Token::Arrow(a) => arrow_has_eq(a.as_str()),
        _ => {
            return Err(
                ParseError::Mismatch { expected: Tag::Arrow, actual: tag_of(&toks[start + 2]) },
            );
        },
    };
    if start + 3 >= n {
        return Err(ParseError::Missing);
    }
    proof {
        assert(ts[3] == tv[start + 3]);
    }
    let to_count: LinkN = match &toks[start + 3] {
        Token::Word(w) => {
            match card_of(w.as_str()) {
                Some(c) => c,
                None => {
                    return Err(
                        ParseError::Mismatch { expected: Tag::Card, actual: tag_of(&toks[start + 3]) },
                    );
                },
            }
        },
        _ => {
            return Err(
                ParseError::Mismatch { expected: Tag::Card, actual: tag_of(&toks[start + 3]) },
            );
        },
    };
    if start + 4 >= n {
        return Err(ParseError::Missing);
    }
    proof {
        assert(ts[4] == tv[start + 4]);
    }
    let to: &String = match &toks[start + 4] {
        Token::Word(w) => {
            if !ident_str(w.as_str()) {
                return Err(
                    ParseError::Mismatch { expected: Tag::Name, actual: tag_of(&toks[start + 4]) },
                );
            }
            w
        },
        _ => {
            return Err(
                ParseError::Mismatch { expected: Tag::Name, actual: tag_of(&toks[start + 4]) },
            );
        },
    };
    let mut label: Option<String> = None;
    let mut consumed: usize = 5;
    if start + 5 < n {
        proof {
            assert(ts[5] == tv[start + 5]);
        }
        match &toks[start + 5] {
            Token::Quoted(l) => {
                label = Some(l.clone());
                consumed = 6;
            },
            _ => {},
        }
    }
    let link = Link {
        from: from.clone(),
        from_count,
        body: LinkBody { is_pk },
        to_count,
        to: to.clone(),
        label,
    };
    Ok((link, consumed))
}

/// Parses one entity definition starting at `start`, computing exactly
/// [`spec_parse_def`] on the remaining tokens.
fn parse_def(toks: &Vec<Token>, start: usize) -> (r: Result<(Def, usize), ParseError>)
    requires
        start + 1 < toks@.len(),
        toks_view(toks@)[start as int] is Word,
        is_ident(toks_view(toks@)[start as int]->Word_0),
        toks_view(toks@)[start as int + 1] is LBrace,
    ensures
        match r {
            Ok(p) => spec_parse_def(toks_view(toks@).skip(start as int)) == Ok::<
                _,
                ParseError,
            >((p.0@, p.1 as int)) && 1 <= p.1 && start + p.1 <= toks@.len(),
            Err(e) => spec_parse_def(toks_view(toks@).skip(start as int)) == Err::<
                (DefV, int),
                ParseError,
            >(e),
        },
{
    let ghost tv = toks_view(toks@);
    let ghost ts = tv.skip(start as int);
    let n = toks.len();
    proof {
        assert(n == tv.len());
        assert(ts.len() == tv.len() - start);
        assert(forall|k: int| 0 <= k < ts.len() ==> ts[k] == tv[start + k]);
        assert(forall|k: int| 0 <= k < tv.len() ==> tv[k] == toks@[k]@);
        assert(ts.skip(2) =~= tv.skip(start + 2));
    }
    let name: &String = match &toks[start] {
        Token::Word(w) => w,
        _ => {
            return unreached();
        },
    };
    match parse_fields(toks, start + 2) {
        Err(e) => Err(e),
        Ok(p) => {
            let def = Def { name: name.clone(), fields: p.0 };
            Ok((def, 2 + p.1))
        },
    }
}

proof fn lemma_doc_prepend_def_assoc(
    pd: Seq<DefV>,
    pl: Seq<LinkV>,
    d: DefV,
    rest: Result<DocV, ParseError>,
)
    ensures
        doc_combine(pd, pl, doc_prepend_def(d, rest)) == doc_combine(pd.push(d), pl, rest),
{
    match rest {
        Err(_) => {},
        Ok(doc) => {
            assert(pd + (seq![d] + doc.defs) =~= pd.push(d) + doc.defs);
        },
    }
}

proof fn lemma_doc_prepend_link_assoc(
    pd: Seq<DefV>,
    pl: Seq<LinkV>,
    l: LinkV,
    rest: Result<DocV, ParseError>,
)
    ensures
        doc_combine(pd, pl, doc_prepend_link(l, rest)) == doc_combine(pd, pl.push(l), rest),
{
    match rest {
        Err(_) => {},
        Ok(doc) => {
            assert(pl + (seq![l] + doc.links) =~= pl.push(l) + doc.links);
        },
    }
}

/// Adds already-parsed definitions and relationships in front of the
/// outcome on the remaining tokens.
pub open spec fn doc_combine(
    pd: Seq<DefV>,
    pl: Seq<LinkV>,
    rest: Result<DocV, ParseError>,
) -> Result<DocV, ParseError> {
    match rest {
        Err(e) => Err(e),
        Ok(doc) => Ok(DocV { links: pl + doc.links, defs: pd + doc.defs }),
    }
}

/// Parses a whole source text into a document, computing exactly
/// [`spec_parse_document`]: the definitions and the relationships each in
/// source order on success, and the error the grammar assigns to the text
/// otherwise.
pub fn parse_document(src: &str) -> (r: Result<Doc, ParseError>)
    ensures
        match spec_parse_document(src@) {
            Ok(d) => r is Ok && r->Ok_0@ == d,
            Err(e) => r is Err && r->Err_0 == e,
        },
{
    let toks: Vec<Token> = match lex(src) {
        Ok(t) => t,
        Err(e) => {
            return Err(e);
        },
    };
    let ghost tv = toks_view(toks@);
    let mut defs: Vec<Def> = Vec::new();
    let mut links: Vec<Link> = Vec::new();
    let mut i: usize = 0;
    proof {
        assert(tv.skip(0) =~= tv);
        assert(defs_view(defs@) =~= Seq::<DefV>::empty());
        assert(links_view(links@) =~= Seq::<LinkV>::empty());
        if spec_parse_doc(tv) is Ok {
            let d = spec_parse_doc(tv)->Ok_0;
            assert(Seq::<DefV>::empty() + d.defs =~= d.defs);
            assert(Seq::<LinkV>::empty() + d.links =~= d.links);
        }
    }
    while i < toks.len()
        invariant
            i <= toks@.len(),
            tv == toks_view(toks@),
            spec_parse_document(src@) == spec_parse_doc(tv),
            spec_parse_doc(tv) == doc_combine(
                defs_view(defs@),
                links_view(links@),
                spec_parse_doc(tv.skip(i as int)),
            ),
        decreases toks@.len() - i,
    {
        let ghost ti = tv.skip(i as int);
        let ghost pd = defs_view(defs@);
        let ghost pl = links_view(links@);
        proof {
            assert(ti.len() == tv.len() - i);
            assert(forall|k: int| 0 <= k < ti.len() ==> ti[k] == tv[i + k]);
            assert(forall|k: int| 0 <= k < tv.len() ==> tv[k] == toks@[k]@);
        }
        let name_ok = match &toks[i] {
            Token::Word(w) => ident_str(w.as_str()),
            _ => false,
        };
        if !name_ok {
            return Err(ParseError::Mismatch { expected: Tag::Name, actual: tag_of(&toks[i]) });
        }
        let opens_block = i + 1 < toks.len() && matches!(&toks[i + 1], Token::LBrace);
        proof {
            if i + 1 < tv.len() {
                assert(ti[1] == tv[i + 1]);
            }
        }
        if opens_block {
            match parse_def(&toks, i) {
                Err(e) => {
                    return Err(e);
                },
                Ok(p) => {
                    proof {
                        assert(ti.skip(p.1 as int) =~= tv.skip(i + p.1));
                        lemma_doc_prepend_def_assoc(pd, pl, p.0@, spec_parse_doc(tv.skip(i + p.1)));
                        assert(defs_view(defs@.push(p.0)) =~= pd.push(p.0@));
                    }
                    let m = p.1;
                    defs.push(p.0);
                    i = i + m;
                },
            }
        } else {
            match parse_link(&toks, i) {
                Err(e) => {
                    return Err(e);
                },
                Ok(p) => {
                    proof {
                        assert(ti.skip(p.1 as int) =~= tv.skip(i + p.1));
                        lemma_doc_prepend_link_assoc(pd, pl, p.0@, spec_parse_doc(tv.skip(i + p.1)));
                        assert(links_view(links@.push(p.0)) =~= pl.push(p.0@));
                    }
                    let m = p.1;
                    links.push(p.0);
                    i = i + m;
                },
            }
        }
    }
    proof {
        assert(tv.skip(toks@.len() as int) =~= Seq::<TokenV>::empty());
        assert(defs_view(defs@) + Seq::<DefV>::empty() =~= defs_view(defs@));
        assert(links_view(links@) + Seq::<LinkV>::empty() =~= links_view(links@));
    }
    Ok(Doc { links, defs })
}

} // verus!
