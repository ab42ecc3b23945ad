use vstd::prelude::*;
use crate::context::{
    Context, ContextView, Dangling, context_of, context_view, dangling_of, danglings_view,
    all_supported, generate_context, has_tag, law_context_total, plain_page, plain_pages,
    referred,
};
use crate::model::{Document, Entity, RenderError, kind_tag};
use crate::paths::{path_for_resource, path_of};

verus! {

/// One page to write: its path under the output root, the context to render
/// its template with, and the dangling targets met while building it.
#[derive(Clone, Debug, PartialEq, Eq)]
pub struct Page {
    pub path: Vec<String>,
    pub context: Context,
    pub warnings: Vec<Dangling>,
}

pub type PageView = (Seq<Seq<char>>, ContextView, Seq<(Seq<char>, Seq<char>)>);

pub open spec fn page_view(p: Page) -> PageView {
    (p.path.deep_view(), context_view(p.context), danglings_view(p.warnings@))
}

/// The page of `e`, under the `doc2` directory of the output root, or the tag
/// of a kind without a path strategy.
pub open spec fn page_of(inc: Seq<Entity>, e: Entity) -> Result<PageView, Seq<char>> {
    match path_of(e.kind, e.id@) {
        None => Err(kind_tag(e.kind)),
        Some(p) => match context_of(inc, e) {
            Err(t) => Err(t),
            Ok(c) => Ok((seq!["doc2"@] + p, c, referred(dangling_of(inc, e), e.id@))),
        },
    }
}

/// The entities of a document in rendering order: the primary one, then the
/// included ones in their order.
pub open spec fn render_order(d: Document) -> Seq<Entity> {
    seq![d.primary] + d.included@
}

pub open spec fn plain_document(d: Document) -> bool {
    plain_page(d.primary) && plain_pages(d.included@)
}

/// The page of one entity.
pub fn page_for(document: &Document, e: &Entity) -> (r: Result<Page, RenderError>)
    ensures
        plain_page(*e) && plain_pages(document.included@) ==> match page_of(
            document.included@,
            *e,
        ) {
            Ok(v) => r is Ok && page_view(r->Ok_0) == v,
            Err(t) => r is Err && has_tag(r->Err_0, t),
        },
{
    let rel = path_for_resource(e)?;
    let mut path: Vec<String> = Vec::new();
    path.push(String::from_str("doc2"));
    let mut rest = rel;
    let ghost a = path.deep_view();
    let ghost b = rest.deep_view();
    path.append(&mut rest);
    assert(path.deep_view() =~= a + b);
    let (context, warnings) = generate_context(document, e)?;
    Ok(Page { path, context, warnings })
}

/// Plans the documentation tree of a document: one page for the primary
/// entity, then one for each included entity, in order. Stops at the first
/// entity that cannot be rendered.
pub fn render_docs(document: &Document) -> (r: Result<Vec<Page>, RenderError>)
    ensures
        plain_document(*document) ==> match r {
            Ok(pages) => pages.len() == render_order(*document).len() && forall|i: int|
                0 <= i < pages.len() ==> page_of(document.included@, render_order(*document)[i])
                    == Ok::<PageView, Seq<char>>(page_view(#[trigger] pages@[i])),
            Err(err) => exists|j: int|
                0 <= j < render_order(*document).len() && (forall|i: int|
                    0 <= i < j ==> page_of(document.included@, #[trigger] render_order(
                        *document,
                    )[i]) is Ok) && page_of(document.included@, render_order(*document)[j]) is Err
                    && has_tag(err, page_of(document.included@, render_order(*document)[j])->Err_0),
        },
{
    let ghost inc = document.included@;
    let ghost all = render_order(*document);
    let ghost plain = plain_document(*document);
    let mut pages: Vec<Page> = Vec::new();
    match page_for(document, &document.primary) {
        Ok(p) => pages.push(p),
        Err(err) => {
            assert(plain ==> all[0] == document.primary);
            return Err(err);
        },
    }
    let mut i: usize = 0;
    while i < document.included.len()
        invariant
            inc == document.included@,
            all == render_order(*document),
            plain == plain_document(*document),
            i <= inc.len(),
            pages.len() == i + 1,
            plain ==> forall|k: int|
                0 <= k < pages.len() ==> page_of(inc, all[k]) == Ok::<PageView, Seq<char>>(
                    page_view(#[trigger] pages@[k]),
                ),
        decreases inc.len() - i,
    {
        assert(all[i + 1] == inc[i as int]);
        proof {
            if plain {
                assert(plain_page(inc[i as int]));
            }
        }
        match page_for(document, &document.included[i]) {
            Ok(p) => {
                pages.push(p);
            },
            Err(err) => {
                proof {
                    if plain {
                        assert forall|k: int| 0 <= k < i + 1 implies page_of(
                            inc,
                            #[trigger] all[k],
                        ) is Ok by {
                            assert(page_of(inc, all[k]) == Ok::<PageView, Seq<char>>(
                                page_view(pages@[k]),
                            ));
                        }
                    }
                }
                return Err(err);
            },
        }
        i = i + 1;
    }
    Ok(pages)
}

/// A document whose entities all have a path strategy renders a page for
/// every entity, dangling relationship targets or not.
pub proof fn law_every_page_rendered(d: Document)
    requires
        all_supported(render_order(d)),
    ensures
        forall|i: int|
            0 <= i < render_order(d).len() ==> #[trigger] page_of(d.included@, render_order(d)[i])
                is Ok,
{
    let all = render_order(d);
    assert forall|i: int| 0 <= i < d.included@.len() implies path_of(
        (#[trigger] d.included@[i]).kind,
        d.included@[i].id@,
    ) is Some by {
        assert(all[i + 1] == d.included@[i]);
    }
    assert forall|i: int| 0 <= i < all.len() implies #[trigger] page_of(d.included@, all[i]) is Ok by {
        assert(path_of(all[i].kind, all[i].id@) is Some);
        law_context_total(d.included@, all[i]);
    }
}

} // verus!
