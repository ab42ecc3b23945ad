use vstd::prelude::*;
use crate::docs::{docs_for_resource, opt_view, rendered_docs};
use crate::ident::{short_name, split_id, lemma_segments_nonempty};
use crate::model::{Document, Entity, RenderError, Relationship, kind_tag};
use crate::paths::{all_plain, link_of, path_of, relative_link};

verus! {

/// What a page lists of a related entity: its short name, the link to its
/// page, and its rendered documentation.
#[derive(Clone, Debug, PartialEq, Eq)]
pub struct Summary {
    pub name: String,
    pub link: String,
    pub docs: Option<String>,
}

/// The related entities under one relationship name, in the relationship's order.
#[derive(Clone, Debug, PartialEq, Eq)]
pub struct Section {
    pub name: String,
    pub items: Vec<Summary>,
}

/// What the template of one page is rendered with.
#[derive(Clone, Debug, PartialEq, Eq)]
pub struct Context {
    pub kind: String,
    pub name: String,
    pub docs: Option<String>,
    pub sections: Option<Vec<Section>>,
}

/// A relationship target that is not among the document's included entities.
#[derive(Clone, Debug, PartialEq, Eq)]
pub struct Dangling {
    pub missing: String,
    pub referrer: String,
}

pub type SummaryView = (Seq<char>, Seq<char>, Option<Seq<char>>);

pub type SectionView = (Seq<char>, Seq<SummaryView>);

pub type ContextView = (Seq<char>, Seq<char>, Option<Seq<char>>, Option<Seq<SectionView>>);

pub open spec fn summary_view(s: Summary) -> SummaryView {
    (s.name@, s.link@, opt_view(s.docs))
}

pub open spec fn summaries_view(v: Seq<Summary>) -> Seq<SummaryView> {
    v.map_values(|s: Summary| summary_view(s))
}

pub open spec fn section_view(s: Section) -> SectionView {
    (s.name@, summaries_view(s.items@))
}

pub open spec fn sections_view(v: Seq<Section>) -> Seq<SectionView> {
    v.map_values(|s: Section| section_view(s))
}

pub open spec fn context_view(c: Context) -> ContextView {
    (
        c.kind@,
        c.name@,
        opt_view(c.docs),
        match c.sections {
            Some(s) => Some(sections_view(s@)),
            None => None,
        },
    )
}

/// The first entity of `inc` with identifier `id`.
pub open spec fn lookup(inc: Seq<Entity>, id: Seq<char>) -> Option<Entity>
    decreases inc.len(),
{
    if inc.len() == 0 {
        None
    } else if inc[0].id@ == id {
        Some(inc[0])
    } else {
        lookup(inc.drop_first(), id)
    }
}

/// The summary of `to` as listed on the page of `from`, or the tag of a kind
/// without a path strategy.
pub open spec fn summary_of(from: Entity, to: Entity) -> Result<SummaryView, Seq<char>> {
    match (path_of(from.kind, from.id@), path_of(to.kind, to.id@)) {
        (None, _) => Err(kind_tag(from.kind)),
        (Some(_), None) => Err(kind_tag(to.kind)),
        (Some(pf), Some(pt)) => Ok((short_name(to.id@), link_of(pf, pt), rendered_docs(to.docs))),
    }
}

/// The summaries of the targets that resolve, in order; dangling targets are skipped.
pub open spec fn summaries_of(inc: Seq<Entity>, from: Entity, targets: Seq<String>) -> Result<
    Seq<SummaryView>,
    Seq<char>,
>
    decreases targets.len(),
{
    if targets.len() == 0 {
        Ok(Seq::empty())
    } else {
        match summaries_of(inc, from, targets.drop_last()) {
            Err(t) => Err(t),
            Ok(prev) => match lookup(inc, targets.last()@) {
                None => Ok(prev),
                Some(e) => match summary_of(from, e) {
                    Err(t) => Err(t),
                    Ok(s) => Ok(prev.push(s)),
                },
            },
        }
    }
}

/// The targets that do not resolve, in order.
pub open spec fn missing_of(inc: Seq<Entity>, targets: Seq<String>) -> Seq<Seq<char>>
    decreases targets.len(),
{
    if targets.len() == 0 {
        Seq::empty()
    } else if lookup(inc, targets.last()@) is None {
        missing_of(inc, targets.drop_last()).push(targets.last()@)
    } else {
        missing_of(inc, targets.drop_last())
    }
}

/// One section per relationship, in order.
pub open spec fn sections_of(inc: Seq<Entity>, from: Entity, rels: Seq<Relationship>) -> Result<
    Seq<SectionView>,
    Seq<char>,
>
    decreases rels.len(),
{
    if rels.len() == 0 {
        Ok(Seq::empty())
    } else {
        match sections_of(inc, from, rels.drop_last()) {
            Err(t) => Err(t),
            Ok(prev) => match summaries_of(inc, from, rels.last().targets@) {
                Err(t) => Err(t),
                Ok(items) => Ok(prev.push((rels.last().name@, items))),
            },
        }
    }
}

/// The dangling targets of all relationships, in order.
pub open spec fn missing_in(inc: Seq<Entity>, rels: Seq<Relationship>) -> Seq<Seq<char>>
    decreases rels.len(),
{
    if rels.len() == 0 {
        Seq::empty()
    } else {
        missing_in(inc, rels.drop_last()) + missing_of(inc, rels.last().targets@)
    }
}

/// The context of the page of `e`, or the tag of a kind without a path strategy.
pub open spec fn context_of(inc: Seq<Entity>, e: Entity) -> Result<ContextView, Seq<char>> {
    let head = (kind_tag(e.kind), short_name(e.id@), rendered_docs(e.docs));
    match e.relationships {
        None => Ok((head.0, head.1, head.2, None)),
        Some(rels) => match sections_of(inc, e, rels@) {
            Err(t) => Err(t),
            Ok(s) => Ok((head.0, head.1, head.2, Some(s))),
        },
    }
}

/// The dangling targets met while building the context of `e`.
pub open spec fn dangling_of(inc: Seq<Entity>, e: Entity) -> Seq<Seq<char>> {
    match e.relationships {
        None => Seq::empty(),
        Some(rels) => missing_in(inc, rels@),
    }
}

/// The page of an entity, where it has one, is made of plain segments.
pub open spec fn plain_page(e: Entity) -> bool {
    path_of(e.kind, e.id@) is Some ==> all_plain(path_of(e.kind, e.id@)->0)
}

pub open spec fn plain_pages(inc: Seq<Entity>) -> bool {
    forall|i: int| 0 <= i < inc.len() ==> plain_page(#[trigger] inc[i])
}

proof fn lemma_lookup_member(inc: Seq<Entity>, id: Seq<char>)
    ensures
        lookup(inc, id) matches Some(e) ==> inc.contains(e) && e.id@ == id,
    decreases inc.len(),
{
    if inc.len() > 0 && inc[0].id@ != id {
        lemma_lookup_member(inc.drop_first(), id);
        if let Some(e) = lookup(inc, id) {
            let j = choose|j: int| 0 <= j < inc.drop_first().len() && inc.drop_first()[j] == e;
            assert(inc[j + 1] == e);
        }
    } else if inc.len() > 0 {
        assert(inc[0] == inc[0]);
    }
}

/// Finds the first included entity with identifier `id`.
pub fn resource_by_id<'a>(document: &'a Document, id: &str) -> (r: Option<&'a Entity>)
    ensures
        match r {
            Some(e) => lookup(document.included@, id@) == Some(*e),
            None => lookup(document.included@, id@) is None,
        },
{
    let inc = &document.included;
    let mut i: usize = 0;
    assert(inc@.subrange(0, inc.len() as int) =~= inc@);
    while i < inc.len()
        invariant
            inc@ == document.included@,
            i <= inc.len(),
            lookup(inc@, id@) == lookup(inc@.subrange(i as int, inc.len() as int), id@),
        decreases inc.len() - i,
    {
        let ghost rest = inc@.subrange(i as int, inc.len() as int);
        assert(rest.drop_first() =~= inc@.subrange(i + 1, inc.len() as int));
        assert(rest[0] == inc@[i as int]);
        if crate::ident::same_text(inc[i].id.as_str(), id) {
            assert(lookup(rest, id@) == Some(rest[0]));
            let found = &inc[i];
            assert(*found == rest[0]);

            return Some(found);
        }
        i = i + 1;
    }
    None
}

pub open spec fn dangling_view(d: Dangling) -> (Seq<char>, Seq<char>) {
    (d.missing@, d.referrer@)
}

pub open spec fn danglings_view(v: Seq<Dangling>) -> Seq<(Seq<char>, Seq<char>)> {
    v.map_values(|d: Dangling| dangling_view(d))
}

/// Missing identifiers paired with the identifier of the entity that refers to them.
pub open spec fn referred(missing: Seq<Seq<char>>, referrer: Seq<char>) -> Seq<(Seq<char>, Seq<char>)> {
    missing.map_values(|m: Seq<char>| (m, referrer))
}

/// The error that carries tag `t`.
pub open spec fn has_tag(e: RenderError, t: Seq<char>) -> bool {
    match e {
        RenderError::UnsupportedKind(x) => x@ == t,
        _ => false,
    }
}

proof fn lemma_summaries_err_stays(inc: Seq<Entity>, from: Entity, targets: Seq<String>, n: int)
    requires
        0 <= n <= targets.len(),
        summaries_of(inc, from, targets.subrange(0, n)) is Err,
    ensures
        summaries_of(inc, from, targets) == summaries_of(inc, from, targets.subrange(0, n)),
    decreases targets.len() - n,
{
    if n < targets.len() {
        assert(targets.subrange(0, n + 1).drop_last() =~= targets.subrange(0, n));
        lemma_summaries_err_stays(inc, from, targets, n + 1);
    } else {
        assert(targets.subrange(0, n) =~= targets);
    }
}

/// The last segment of an identifier.
pub fn short_name_of(id: &str) -> (r: String)
    ensures
        r@ == short_name(id@),
{
    let mut segs = split_id(id);
    proof {
        lemma_segments_nonempty(id@);
    }
    segs.pop().unwrap()
}

/// The summaries of the resolving targets of one relationship, in order;
/// each dangling target is skipped and recorded in `warnings`.
fn summaries_for(
    document: &Document,
    from: &Entity,
    targets: &Vec<String>,
    warnings: &mut Vec<Dangling>,
) -> (r: Result<Vec<Summary>, RenderError>)
    ensures
        plain_page(*from) && plain_pages(document.included@) ==> match summaries_of(
            document.included@,
            *from,
            targets@,
        ) {
            Ok(s) => r is Ok && summaries_view(r->Ok_0@) == s && danglings_view(final(warnings)@)
                == danglings_view(old(warnings)@) + referred(
                missing_of(document.included@, targets@),
                from.id@,
            ),
            Err(t) => r is Err && has_tag(r->Err_0, t),
        },
{
    let ghost inc = document.included@;
    let ghost plain = plain_page(*from) && plain_pages(inc);
    let ghost w0 = danglings_view(warnings@);
    let mut items: Vec<Summary> = Vec::new();
    let mut i: usize = 0;
    proof {
        assert(targets@.subrange(0, 0) =~= Seq::<String>::empty());
        assert(summaries_view(items@) =~= Seq::<SummaryView>::empty());
        assert(danglings_view(warnings@) =~= w0 + referred(Seq::empty(), from.id@));
    }
    while i < targets.len()
        invariant
            inc == document.included@,
            plain == (plain_page(*from) && plain_pages(inc)),
            i <= targets.len(),
            plain ==> summaries_of(inc, *from, targets@.subrange(0, i as int)) == Ok::<
                Seq<SummaryView>,
                Seq<char>,
            >(summaries_view(items@)),
            plain ==> danglings_view(warnings@) == w0 + referred(
                missing_of(inc, targets@.subrange(0, i as int)),
                from.id@,
            ),
        decreases targets.len() - i,
    {
        let ghost pre = targets@.subrange(0, i as int);
        let ghost next = targets@.subrange(0, i + 1);
        proof {
            assert(next.drop_last() =~= pre);
            assert(next.last() == targets@[i as int]);
        }
        match resource_by_id(document, targets[i].as_str()) {
            None => {
                let ghost before = warnings@;
                warnings.push(Dangling { missing: targets[i].clone(), referrer: from.id.clone() });
                proof {
                    assert(danglings_view(warnings@) =~= danglings_view(before).push(
                        (targets@[i as int]@, from.id@),
                    ));
                    assert(referred(missing_of(inc, next), from.id@) =~= referred(
                        missing_of(inc, pre),
                        from.id@,
                    ).push((targets@[i as int]@, from.id@)));
                    assert(w0 + referred(missing_of(inc, next), from.id@) =~= (w0 + referred(
                        missing_of(inc, pre),
                        from.id@,
                    )).push((targets@[i as int]@, from.id@)));
                }
            },
            Some(e) => {
                proof {
                    lemma_lookup_member(inc, targets@[i as int]@);
                    if plain {
                        let j = choose|j: int| 0 <= j < inc.len() && inc[j] == *e;
                        assert(plain_page(inc[j]));
                    }
                }
                let link = match relative_link(from, e) {
                    Ok(l) => l,
                    Err(err) => {
                        proof {
                            if plain {
                                assert(summaries_of(inc, *from, next) is Err);
                                lemma_summaries_err_stays(inc, *from, targets@, i + 1);
                            }
                        }
                        return Err(err);
                    },
                };
                let summary = Summary {
                    name: short_name_of(e.id.as_str()),
                    link,
                    docs: docs_for_resource(e),
                };
                let ghost before = items@;
                items.push(summary);
                proof {
                    assert(summaries_view(items@) =~= summaries_view(before).push(
                        summary_view(summary),
                    ));
                }
            },
        }
        i = i + 1;
    }
    proof {
        assert(targets@.subrange(0, targets.len() as int) =~= targets@);
    }
    Ok(items)
}

proof fn lemma_sections_err_stays(inc: Seq<Entity>, from: Entity, rels: Seq<Relationship>, n: int)
    requires
        0 <= n <= rels.len(),
        sections_of(inc, from, rels.subrange(0, n)) is Err,
    ensures
        sections_of(inc, from, rels) == sections_of(inc, from, rels.subrange(0, n)),
    decreases rels.len() - n,
{
    if n < rels.len() {
        assert(rels.subrange(0, n + 1).drop_last() =~= rels.subrange(0, n));
        lemma_sections_err_stays(inc, from, rels, n + 1);
    } else {
        assert(rels.subrange(0, n) =~= rels);
    }
}

/// Builds the context of the page of `resource`: its kind, short name and
/// documentation, and for each relationship the summaries of the targets
/// that resolve, with the dangling targets met on the way.
pub fn generate_context(document: &Document, resource: &Entity) -> (r: Result<
    (Context, Vec<Dangling>),
    RenderError,
>)
    ensures
        r is Ok ==> {
            &&& r->Ok_0.0.kind@ == kind_tag(resource.kind)
            &&& r->Ok_0.0.name@ == short_name(resource.id@)
            &&& opt_view(r->Ok_0.0.docs) == rendered_docs(resource.docs)
            &&& (r->Ok_0.0.sections is Some <==> resource.relationships is Some)
        },
        plain_page(*resource) && plain_pages(document.included@) ==> match context_of(
            document.included@,
            *resource,
        ) {
            Ok(c) => r is Ok && context_view(r->Ok_0.0) == c && danglings_view(r->Ok_0.1@)
                == referred(dangling_of(document.included@, *resource), resource.id@),
            Err(t) => r is Err && has_tag(r->Err_0, t),
        },
{
    let ghost inc = document.included@;
    let ghost plain = plain_page(*resource) && plain_pages(inc);
    let kind = resource.kind.tag();
    let name = short_name_of(resource.id.as_str());
    let docs = docs_for_resource(resource);
    let mut warnings: Vec<Dangling> = Vec::new();
    let sections = match &resource.relationships {
        None => None,
        Some(rels) => {
            let mut secs: Vec<Section> = Vec::new();
            let mut i: usize = 0;
            proof {
                assert(rels@.subrange(0, 0) =~= Seq::<Relationship>::empty());
                assert(sections_view(secs@) =~= Seq::<SectionView>::empty());
                assert(danglings_view(warnings@) =~= referred(Seq::empty(), resource.id@));
            }
            while i < rels.len()
                invariant
                    inc == document.included@,
                    resource.relationships == Some(*rels),
                    plain == (plain_page(*resource) && plain_pages(inc)),
                    i <= rels.len(),
                    plain ==> sections_of(inc, *resource, rels@.subrange(0, i as int)) == Ok::<
                        Seq<SectionView>,
                        Seq<char>,
                    >(sections_view(secs@)),
                    plain ==> danglings_view(warnings@) == referred(
                        missing_in(inc, rels@.subrange(0, i as int)),
                        resource.id@,
                    ),
                decreases rels.len() - i,
            {
                let ghost pre = rels@.subrange(0, i as int);
                let ghost next = rels@.subrange(0, i + 1);
                let ghost w_before = warnings@;
                proof {
                    assert(next.drop_last() =~= pre);
                    assert(next.last() == rels@[i as int]);
                }
                let rel = &rels[i];
                let items = match summaries_for(document, resource, &rel.targets, &mut warnings) {
                    Ok(v) => v,
                    Err(err) => {
                        proof {
                            if plain {
                                assert(*rel == rels@[i as int]);
                                let st = summaries_of(inc, *resource, rel.targets@);
                                assert(st is Err);
                                assert(sections_of(inc, *resource, next) == Err::<
                                    Seq<SectionView>,
                                    Seq<char>,
                                >(st->Err_0));
                                lemma_sections_err_stays(inc, *resource, rels@, i + 1);
                                assert(resource.relationships == Some(*rels));
                                assert(context_of(inc, *resource) == Err::<ContextView, Seq<char>>(
                                    st->Err_0,
                                ));
                            }
                        }
                        return Err(err);
                    },
                };
                assert(*rel == rels@[i as int]);
                let ghost before = secs@;
                let section = Section { name: rel.name.clone(), items };
                secs.push(section);
                proof {
                    assert(sections_view(secs@) =~= sections_view(before).push(
                        section_view(section),
                    ));
                    let m0 = missing_in(inc, pre);
                    let m1 = missing_of(inc, rel.targets@);
                    assert(referred(m0 + m1, resource.id@) =~= referred(m0, resource.id@)
                        + referred(m1, resource.id@));
                }
                i = i + 1;
            }
            proof {
                assert(rels@.subrange(0, rels.len() as int) =~= rels@);
            }
            Some(secs)
        },
    };
    Ok((Context { kind, name, docs, sections }, warnings))
}

/// A target that no included entity carries is left out of its section as if
/// it had not been listed, and is reported among the dangling targets.
pub proof fn law_dangling_skipped(inc: Seq<Entity>, from: Entity, targets: Seq<String>, k: int)
    requires
        0 <= k < targets.len(),
        lookup(inc, targets[k]@) is None,
    ensures
        summaries_of(inc, from, targets) == summaries_of(inc, from, targets.remove(k)),
        missing_of(inc, targets) == missing_of(inc, targets.remove(k)).insert(
            missing_of(inc, targets.subrange(0, k)).len() as int,
            targets[k]@,
        ),
    decreases targets.len(),
{
    if k == targets.len() - 1 {
        assert(targets.remove(k) =~= targets.drop_last());
        assert(targets.subrange(0, k) =~= targets.drop_last());
        assert(missing_of(inc, targets) =~= missing_of(inc, targets.drop_last()).push(targets[k]@));
    } else {
        let d = targets.drop_last();
        law_dangling_skipped(inc, from, d, k);
        assert(targets.remove(k).drop_last() =~= d.remove(k));
        assert(targets.remove(k).last() == targets.last());
        assert(d.subrange(0, k) =~= targets.subrange(0, k));
        let n = missing_of(inc, targets.subrange(0, k)).len() as int;
        assert(d.remove(k).subrange(0, k) =~= targets.subrange(0, k));
        lemma_missing_prefix_len(inc, d.remove(k), k);
        let x = missing_of(inc, d.remove(k));
        if lookup(inc, targets.last()@) is None {
            assert(missing_of(inc, targets.remove(k)) == x.push(targets.last()@));
            assert(x.push(targets.last()@).insert(n, targets[k]@) =~= x.insert(n, targets[k]@).push(
                targets.last()@,
            ));
            assert(missing_of(inc, targets.remove(k)).insert(n, targets[k]@) =~= missing_of(
                inc,
                d.remove(k),
            ).insert(n, targets[k]@).push(targets.last()@));
        }
    }
}

proof fn lemma_missing_prefix_len(inc: Seq<Entity>, targets: Seq<String>, k: int)
    requires
        0 <= k <= targets.len(),
    ensures
        missing_of(inc, targets.subrange(0, k)).len() <= missing_of(inc, targets).len(),
    decreases targets.len(),
{
    if k < targets.len() {
        assert(targets.drop_last().subrange(0, k) =~= targets.subrange(0, k));
        lemma_missing_prefix_len(inc, targets.drop_last(), k);
    } else {
        assert(targets.subrange(0, k) =~= targets);
    }
}

/// Every entity of `inc` has a path strategy.
pub open spec fn all_supported(inc: Seq<Entity>) -> bool {
    forall|i: int| 0 <= i < inc.len() ==> path_of((#[trigger] inc[i]).kind, inc[i].id@) is Some
}

proof fn lemma_summaries_ok(inc: Seq<Entity>, from: Entity, targets: Seq<String>)
    requires
        all_supported(inc),
        path_of(from.kind, from.id@) is Some,
    ensures
        summaries_of(inc, from, targets) is Ok,
    decreases targets.len(),
{
    if targets.len() > 0 {
        lemma_summaries_ok(inc, from, targets.drop_last());
        lemma_lookup_member(inc, targets.last()@);
        if let Some(e) = lookup(inc, targets.last()@) {
            let j = choose|j: int| 0 <= j < inc.len() && inc[j] == e;
            assert(path_of(inc[j].kind, inc[j].id@) is Some);
        }
    }
}

proof fn lemma_sections_ok(inc: Seq<Entity>, from: Entity, rels: Seq<Relationship>)
    requires
        all_supported(inc),
        path_of(from.kind, from.id@) is Some,
    ensures
        sections_of(inc, from, rels) is Ok,
    decreases rels.len(),
{
    if rels.len() > 0 {
        lemma_sections_ok(inc, from, rels.drop_last());
        lemma_summaries_ok(inc, from, rels.last().targets@);
    }
}

/// Dangling targets never make a context fail: where the entity and every
/// included entity have a path strategy, the context of the entity is built,
/// whatever its relationships refer to.
pub proof fn law_context_total(inc: Seq<Entity>, e: Entity)
    requires
        all_supported(inc),
        path_of(e.kind, e.id@) is Some,
    ensures
        context_of(inc, e) is Ok,
{
    if let Some(rels) = e.relationships {
        lemma_sections_ok(inc, e, rels@);
    }
}

} // verus!
