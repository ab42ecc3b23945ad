use vstd::prelude::*;
use crate::model::Entity;

verus! {

/// The HTML that CommonMark conversion gives for a text.
pub uninterp spec fn commonmark_html(text: Seq<char>) -> Seq<char>;

/// Relies on pulldown_cmark::html::push_html over pulldown_cmark::Parser::new:
/// the HTML rendering of a CommonMark text, which depends on the text alone.
/// An empty text parses to no events, and no events write nothing.
#[verifier::external_body]
fn markdown_to_html(text: &str) -> (r: String)
    ensures
        r@ == commonmark_html(text@),
        text@.len() == 0 ==> r@.len() == 0,
{
    let mut out = String::new();
    pulldown_cmark::html::push_html(&mut out, pulldown_cmark::Parser::new(text));
    out
}

pub open spec fn opt_view(o: Option<String>) -> Option<Seq<char>> {
    match o {
        Some(s) => Some(s@),
        None => None,
    }
}

/// Converted documentation counts only when it is not empty.
pub open spec fn nonempty_html(h: Seq<char>) -> Option<Seq<char>> {
    if h.len() == 0 {
        None
    } else {
        Some(h)
    }
}

/// The rendered documentation of an entity with documentation text `docs`.
pub open spec fn rendered_docs(docs: Option<String>) -> Option<Seq<char>> {
    match docs {
        Some(t) => nonempty_html(commonmark_html(t@)),
        None => None,
    }
}

/// Keeps converted documentation when it is not empty.
pub fn docs_from_html(html: String) -> (r: Option<String>)
    ensures
        opt_view(r) == nonempty_html(html@),
{
    if html.as_str().unicode_len() == 0 {
        None
    } else {
        Some(html)
    }
}

/// The documentation of an entity converted to HTML, or `None` where it has
/// none or the conversion is empty.
pub fn docs_for_resource(e: &Entity) -> (r: Option<String>)
    ensures
        opt_view(r) == rendered_docs(e.docs),
        e.docs is None ==> r is None,
        e.docs matches Some(t) && t@.len() == 0 ==> r is None,
{
    match &e.docs {
        Some(text) => docs_from_html(markdown_to_html(text.as_str())),
        None => None,
    }
}

/// Documentation conversion depends on the documentation text alone, and an
/// entity without documentation text has no rendered documentation.
pub proof fn law_docs_determined(a: Option<String>, b: Option<String>)
    requires
        opt_view(a) == opt_view(b),
    ensures
        rendered_docs(a) == rendered_docs(b),
        rendered_docs(None) is None,
{
}

} // verus!
