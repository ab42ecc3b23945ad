use vstd::prelude::*;
use crate::ident::{segments, short_name, split_id, lemma_segments_nonempty};
use crate::model::{Entity, EntityKind, RenderError, kind_tag};

verus! {

/// The file name of a non-container item: `<kind-tag>.<short-name>.html`.
pub open spec fn item_file(tag: Seq<char>, short: Seq<char>) -> Seq<char> {
    tag + "."@ + short + ".html"@
}

/// The output path of an entity, as segments, or `None` for a kind without a
/// path strategy. Crates and modules are directories holding `index.html`;
/// other items are files in the directory of their parent.
pub open spec fn path_of(kind: EntityKind, id: Seq<char>) -> Option<Seq<Seq<char>>> {
    match kind {
        EntityKind::Crate | EntityKind::Module => Some(segments(id) + seq!["index.html"@]),
        EntityKind::Struct => Some(
            segments(id).drop_last() + seq![item_file("struct"@, short_name(id))],
        ),
        EntityKind::Other(_) => None,
    }
}

/// The error for an entity kind without a path strategy.
pub open spec fn unsupported(e: RenderError, k: EntityKind) -> bool {
    match e {
        RenderError::UnsupportedKind(t) => t@ == kind_tag(k),
        _ => false,
    }
}

/// A path segment that every platform parses as one ordinary component.
pub open spec fn plain_segment(s: Seq<char>) -> bool {
    &&& s.len() > 0
    &&& s != "."@
    &&& s != ".."@
    &&& forall|i: int| 0 <= i < s.len() ==> s[i] != '/' && s[i] != '\\' && s[i] != ':'
}

pub open spec fn all_plain(p: Seq<Seq<char>>) -> bool {
    forall|i: int| 0 <= i < p.len() ==> plain_segment(#[trigger] p[i])
}

/// Segments joined with `/`.
pub open spec fn join_slash(p: Seq<Seq<char>>) -> Seq<char>
    decreases p.len(),
{
    if p.len() <= 1 {
        if p.len() == 0 { Seq::empty() } else { p[0] }
    } else {
        join_slash(p.drop_last()) + "/"@ + p.last()
    }
}

/// A text split on `/`, from the right.
pub open spec fn split_slash(s: Seq<char>) -> Seq<Seq<char>>
    decreases s.len(),
{
    if s.len() == 0 {
        seq![Seq::<char>::empty()]
    } else if s.last() == '/' {
        split_slash(s.drop_last()).push(Seq::empty())
    } else {
        let r = split_slash(s.drop_last());
        r.update(r.len() - 1, r.last().push(s.last()))
    }
}

/// Follows a link written with `/` from directory `base`; an empty link names
/// the directory itself.
pub open spec fn follow(base: Seq<Seq<char>>, link: Seq<char>) -> Seq<Seq<char>> {
    if link.len() == 0 {
        base
    } else {
        resolve(base, split_slash(link))
    }
}

/// How many leading segments two paths share.
pub open spec fn common_len(a: Seq<Seq<char>>, b: Seq<Seq<char>>) -> nat
    decreases a.len(),
{
    if a.len() == 0 || b.len() == 0 || a[0] != b[0] {
        0
    } else {
        1 + common_len(a.drop_first(), b.drop_first())
    }
}

/// `n` parent-directory steps.
pub open spec fn ups(n: nat) -> Seq<Seq<char>> {
    Seq::new(n, |i: int| ".."@)
}

/// The relative path from directory `base` to `path`: up past what `base`
/// does not share with `path`, then down the rest of `path`.
pub open spec fn rel_segments(path: Seq<Seq<char>>, base: Seq<Seq<char>>) -> Seq<Seq<char>> {
    let k = common_len(path, base);
    ups((base.len() - k) as nat) + path.subrange(k as int, path.len() as int)
}

/// Follows a relative path from directory `base`, one segment at a time.
pub open spec fn resolve(base: Seq<Seq<char>>, rel: Seq<Seq<char>>) -> Seq<Seq<char>>
    decreases rel.len(),
{
    if rel.len() == 0 {
        base
    } else if rel[0] == ".."@ {
        resolve(if base.len() == 0 { base } else { base.drop_last() }, rel.drop_first())
    } else {
        resolve(base.push(rel[0]), rel.drop_first())
    }
}

/// The link from the page of `from` to the page of `to`, relative to the
/// directory that holds the page of `from`.
pub open spec fn link_of(from: Seq<Seq<char>>, to: Seq<Seq<char>>) -> Seq<char> {
    join_slash(rel_segments(to, from.drop_last()))
}

/// Relies on pathdiff::diff_paths: for two relative paths of plain components,
/// it returns the parent steps out of `base` past the components it does not
/// share with `path`, then the rest of `path`.
#[verifier::external_body]
fn diff_components(path: &Vec<String>, base: &Vec<String>) -> (r: Option<Vec<String>>)
    ensures
        all_plain(path.deep_view()) && all_plain(base.deep_view()) ==> r is Some
            && r->0.deep_view() == rel_segments(path.deep_view(), base.deep_view()),
{
    let path: std::path::PathBuf = path.iter().collect();
    let base: std::path::PathBuf = base.iter().collect();
    pathdiff::diff_paths(&path, &base).map(
        |d| d.iter().map(|c| c.to_string_lossy().into_owned()).collect(),
    )
}

/// The output path of an entity, as segments.
pub fn path_for_resource(e: &Entity) -> (r: Result<Vec<String>, RenderError>)
    ensures
        match path_of(e.kind, e.id@) {
            Some(p) => r matches Ok(v) && v.deep_view() == p,
            None => r is Err && unsupported(r->Err_0, e.kind),
        },
{
    let mut segs = split_id(e.id.as_str());
    proof {
        lemma_segments_nonempty(e.id@);
    }
    match &e.kind {
        EntityKind::Crate | EntityKind::Module => {
            let ghost before = segs.deep_view();
            segs.push(String::from_str("index.html"));
            assert(segs.deep_view() =~= before + seq!["index.html"@]);
            Ok(segs)
        },
        EntityKind::Struct => {
            let ghost before = segs.deep_view();
            let short = segs.pop().unwrap();
            let file = String::from_str("struct").concat(".").concat(short.as_str()).concat(
                ".html",
            );
            assert(file@ =~= item_file("struct"@, short_name(e.id@)));
            let ghost mid = segs.deep_view();
            assert(mid =~= before.drop_last());
            segs.push(file);
            assert(segs.deep_view() =~= mid + seq![file@]);
            Ok(segs)
        },
        EntityKind::Other(t) => Err(RenderError::UnsupportedKind(String::from_str(t.as_str()))),
    }
}

/// Joins path segments with `/`.
pub fn join_path(p: &Vec<String>) -> (r: String)
    ensures
        r@ == join_slash(p.deep_view()),
{
    if p.len() == 0 {
        return String::new();
    }
    let mut out = String::from_str(p[0].as_str());
    let mut i: usize = 1;
    assert(p.deep_view().subrange(0, 1) =~= seq![p[0]@]);
    while i < p.len()
        invariant
            1 <= i <= p.len(),
            out@ == join_slash(p.deep_view().subrange(0, i as int)),
        decreases p.len() - i,
    {
        let ghost q = p.deep_view().subrange(0, i + 1);
        assert(q.drop_last() =~= p.deep_view().subrange(0, i as int));
        out.append("/");
        out.append(p[i].as_str());
        i = i + 1;
    }
    assert(p.deep_view().subrange(0, p.len() as int) =~= p.deep_view());
    out
}

/// The link from the page of `from` to the page of `to`, relative to the
/// directory holding the page of `from`, with `/` between segments.
pub fn relative_link(from: &Entity, to: &Entity) -> (r: Result<String, RenderError>)
    ensures
        match (path_of(from.kind, from.id@), path_of(to.kind, to.id@)) {
            (None, _) => r is Err && unsupported(r->Err_0, from.kind),
            (Some(_), None) => r is Err && unsupported(r->Err_0, to.kind),
            (Some(pf), Some(pt)) => match r {
                Ok(l) => all_plain(pf) && all_plain(pt) ==> l@ == link_of(pf, pt),
                Err(e) => e == RenderError::Unresolvable && !(all_plain(pf) && all_plain(pt)),
            },
        },
{
    let mut base = path_for_resource(from)?;
    let path = path_for_resource(to)?;
    let ghost full = base.deep_view();
    base.pop();
    assert(base.deep_view() =~= full.drop_last());
    assert(all_plain(full) ==> all_plain(base.deep_view()));
    match diff_components(&path, &base) {
        Some(rel) => Ok(join_path(&rel)),
        None => Err(RenderError::Unresolvable),
    }
}

} // verus!
