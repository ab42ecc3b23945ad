//! Renders a graph of documented code entities into a tree of static HTML pages:
//! canonical output paths, relative links between pages, documentation text
//! converted to HTML, and the per-page context handed to a template engine.

pub mod context;
pub mod docs;
pub mod ident;
pub mod laws;
pub mod model;
pub mod paths;
pub mod tree;

pub use context::{
    Context, Dangling, Section, Summary, generate_context, resource_by_id, short_name_of,
};
pub use docs::{docs_for_resource, docs_from_html};
pub use ident::{same_text, split_id};
pub use model::{Document, Entity, EntityKind, Relationship, RenderError};
pub use paths::{join_path, path_for_resource, relative_link};
pub use tree::{Page, page_for, render_docs};
