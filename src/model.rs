use vstd::prelude::*;

verus! {

/// The kind of a documented entity. Kinds without a path strategy yet are
/// carried as `Other`, with their tag.
#[derive(Clone, Debug, PartialEq, Eq)]
pub enum EntityKind {
    Crate,
    Module,
    Struct,
    Other(String),
}

/// The tag under which a kind is written in the input document.
pub open spec fn kind_tag(k: EntityKind) -> Seq<char> {
    match k {
        EntityKind::Crate => "crate"@,
        EntityKind::Module => "module"@,
        EntityKind::Struct => "struct"@,
        EntityKind::Other(t) => t@,
    }
}

impl EntityKind {
    /// Reads a kind from its tag.
    pub fn from_tag(tag: &str) -> (r: EntityKind)
        ensures
            kind_tag(r) == tag@,
            r is Other ==> tag@ != "crate"@ && tag@ != "module"@ && tag@ != "struct"@,
    {
        if crate::ident::same_text(tag, "crate") {
            EntityKind::Crate
        } else if crate::ident::same_text(tag, "module") {
            EntityKind::Module
        } else if crate::ident::same_text(tag, "struct") {
            EntityKind::Struct
        } else {
            EntityKind::Other(String::from_str(tag))
        }
    }

    /// The tag of this kind.
    pub fn tag(&self) -> (r: String)
        ensures
            r@ == kind_tag(*self),
    {
        match self {
            EntityKind::Crate => String::from_str("crate"),
            EntityKind::Module => String::from_str("module"),
            EntityKind::Struct => String::from_str("struct"),
            EntityKind::Other(t) => String::from_str(t.as_str()),
        }
    }
}

/// A named, ordered list of references from one entity to others.
#[derive(Clone, Debug, PartialEq, Eq)]
pub struct Relationship {
    pub name: String,
    pub targets: Vec<String>,
}

/// One documented item: its kind, its fully qualified identifier, its raw
/// documentation text if any, and its relationships if any.
#[derive(Clone, Debug, PartialEq, Eq)]
pub struct Entity {
    pub kind: EntityKind,
    pub id: String,
    pub docs: Option<String>,
    pub relationships: Option<Vec<Relationship>>,
}

/// The input: the primary entity (the crate) and the entities related to it.
#[derive(Clone, Debug, PartialEq, Eq)]
pub struct Document {
    pub primary: Entity,
    pub included: Vec<Entity>,
}

/// Why rendering stopped.
#[derive(Clone, Debug, PartialEq, Eq)]
pub enum RenderError {
    /// No path strategy exists for an entity of this kind; holds its tag.
    UnsupportedKind(String),
    /// No relative path could be built between two pages.
    Unresolvable,
}

} // verus!
