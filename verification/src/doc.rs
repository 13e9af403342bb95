//! The document model: entity definitions, relationships, and the
//! cardinality markers that annotate them.

use vstd::prelude::*;

verus! {

/// Cardinality of one side of a relationship.
#[derive(Clone, Copy, Debug, PartialEq, Eq, Structural)]
pub enum LinkN {
    /// Exactly one.
    One,
    /// Zero or one.
    MaybeOne,
    /// One or many.
    Many,
    /// Zero or many.
    MaybeMany,
}

/// The display form of a cardinality marker, as it appears in both
/// rendering styles.
pub open spec fn spec_link_n_str(n: LinkN) -> Seq<char> {
    match n {
        LinkN::One => "1"@,
        LinkN::MaybeOne => "(0,1)"@,
        LinkN::Many => "(1,N)"@,
        LinkN::MaybeMany => "(0,N)"@,
    }
}

impl LinkN {
    /// The display form of this cardinality marker.
    pub fn display(&self) -> (r: &'static str)
        ensures
            r@ == spec_link_n_str(*self),
    {
        match self {
            LinkN::One => "1",
            LinkN::MaybeOne => "(0,1)",
            LinkN::Many => "(1,N)",
            LinkN::MaybeMany => "(0,N)",
        }
    }
}

/// What a relationship's arrow body conveys: whether the generated foreign
/// key on the "to" side also behaves as part of that table's primary key.
#[derive(Clone, Copy, Debug, PartialEq, Eq, Structural)]
pub struct LinkBody {
    pub is_pk: bool,
}

/// One typed field of an entity definition.
#[derive(Clone, Debug)]
pub struct Field {
    pub field_type: String,
    pub name: String,
}

/// The mathematical value of a [`Field`].
pub struct FieldV {
    pub field_type: Seq<char>,
    pub name: Seq<char>,
}

impl View for Field {
    type V = FieldV;

    open spec fn view(&self) -> FieldV {
        FieldV { field_type: self.field_type@, name: self.name@ }
    }
}

/// One entity definition: a name and an ordered list of fields.
#[derive(Clone, Debug)]
pub struct Def {
    pub name: String,
    pub fields: Vec<Field>,
}

/// The mathematical value of a [`Def`].
pub struct DefV {
    pub name: Seq<char>,
    pub fields: Seq<FieldV>,
}

/// The view of a field vector, field by field.
pub open spec fn fields_view(fs: Seq<Field>) -> Seq<FieldV> {
    fs.map_values(|f: Field| f@)
}

impl View for Def {
    type V = DefV;

    open spec fn view(&self) -> DefV {
        DefV { name: self.name@, fields: fields_view(self.fields@) }
    }
}

/// One directed relationship between two entities, referenced by name.
#[derive(Clone, Debug)]
pub struct Link {
    pub from: String,
    pub from_count: LinkN,
    pub body: LinkBody,
    pub to_count: LinkN,
    pub to: String,
    pub label: Option<String>,
}

/// The mathematical value of a [`Link`].
pub struct LinkV {
    pub from: Seq<char>,
    pub from_count: LinkN,
    pub is_pk: bool,
    pub to_count: LinkN,
    pub to: Seq<char>,
    pub label: Option<Seq<char>>,
}

impl View for Link {
    type V = LinkV;

    open spec fn view(&self) -> LinkV {
        LinkV {
            from: self.from@,
            from_count: self.from_count,
            is_pk: self.body.is_pk,
            to_count: self.to_count,
            to: self.to@,
            label: match self.label {
                Some(ref l) => Some(l@),
                None => None,
            },
        }
    }
}

/// A whole document: entity definitions and relationships, each list in
/// source order.
#[derive(Debug)]
pub struct Doc {
    pub links: Vec<Link>,
    pub defs: Vec<Def>,
}

/// The mathematical value of a [`Doc`].
pub struct DocV {
    pub links: Seq<LinkV>,
    pub defs: Seq<DefV>,
}

/// The view of a definition vector.
pub open spec fn defs_view(ds: Seq<Def>) -> Seq<DefV> {
    ds.map_values(|d: Def| d@)
}

/// The view of a relationship vector.
pub open spec fn links_view(ls: Seq<Link>) -> Seq<LinkV> {
    ls.map_values(|l: Link| l@)
}

impl View for Doc {
    type V = DocV;

    open spec fn view(&self) -> DocV {
        DocV { links: links_view(self.links@), defs: defs_view(self.defs@) }
    }
}

} // verus!
