use vstd::prelude::*;
use crate::ident::{segments, short_name, lemma_segments_nonempty, lemma_segments_injective};
use crate::model::EntityKind;
use crate::paths::{
    all_plain, common_len, follow, item_file, join_slash, link_of, path_of, plain_segment,
    rel_segments, resolve, split_slash, ups,
};

verus! {

/// A crate or a module is rendered to `index.html` inside one directory per
/// segment of its identifier.
pub proof fn law_container_path(kind: EntityKind, id: Seq<char>)
    requires
        kind is Crate || kind is Module,
    ensures
        path_of(kind, id) is Some,
        path_of(kind, id)->0.len() == segments(id).len() + 1,
        path_of(kind, id)->0.drop_last() == segments(id),
        path_of(kind, id)->0.last() == "index.html"@,
{
    let p = path_of(kind, id)->0;
    assert(p.drop_last() =~= segments(id));
}

/// A struct is rendered to `struct.<short-name>.html` inside the directory of
/// its parent, where the short name is the identifier's last segment.
pub proof fn law_item_path(id: Seq<char>)
    ensures
        path_of(EntityKind::Struct, id) is Some,
        path_of(EntityKind::Struct, id)->0.last() == item_file("struct"@, segments(id).last()),
        path_of(EntityKind::Struct, id)->0.drop_last() == segments(id).drop_last(),
        path_of(EntityKind::Struct, id)->0.len() == segments(id).len(),
{
    lemma_segments_nonempty(id);
    let p = path_of(EntityKind::Struct, id)->0;
    assert(p.drop_last() =~= segments(id).drop_last());
}

proof fn lemma_item_file_injective(x: Seq<char>, y: Seq<char>)
    requires
        item_file("struct"@, x) == item_file("struct"@, y),
    ensures
        x == y,
{
    reveal_strlit("struct");
    reveal_strlit(".");
    reveal_strlit(".html");
    let fx = item_file("struct"@, x);
    let fy = item_file("struct"@, y);
    assert("struct"@.len() == 6);
    assert("."@.len() == 1);
    assert(".html"@.len() == 5);
    assert(fx.len() == 12 + x.len());
    assert(x.len() == y.len());
    assert(x =~= fx.subrange(7, 7 + x.len() as int));
    assert(y =~= fy.subrange(7, 7 + y.len() as int));
}

/// Entities with distinct identifiers never share an output path.
pub proof fn law_paths_distinct(ka: EntityKind, a: Seq<char>, kb: EntityKind, b: Seq<char>)
    requires
        a != b,
        path_of(ka, a) is Some,
        path_of(kb, b) is Some,
    ensures
        path_of(ka, a)->0 != path_of(kb, b)->0,
{
    let p = path_of(ka, a)->0;
    let q = path_of(kb, b)->0;
    lemma_segments_nonempty(a);
    lemma_segments_nonempty(b);
    if p == q {
        reveal_strlit("index.html");
        reveal_strlit("struct");
        if ka is Struct && kb is Struct {
            assert(p.last() == item_file("struct"@, short_name(a)));
            assert(q.last() == item_file("struct"@, short_name(b)));
            lemma_item_file_injective(short_name(a), short_name(b));
            let sa = segments(a);
            let sb = segments(b);
            assert(p.drop_last() == sa.drop_last());
            assert(q.drop_last() == sb.drop_last());
            assert(sa =~= sa.drop_last().push(sa.last()));
            assert(sb =~= sb.drop_last().push(sb.last()));
            lemma_segments_injective(a, b);
        } else if ka is Struct {
            assert(p.last()[0] == 's');
            assert(q.last()[0] == 'i');
        } else if kb is Struct {
            assert(p.last()[0] == 'i');
            assert(q.last()[0] == 's');
        } else {
            assert(p.drop_last() =~= segments(a));
            assert(q.drop_last() =~= segments(b));
            lemma_segments_injective(a, b);
        }
    }
}

proof fn lemma_common_prefix(a: Seq<Seq<char>>, b: Seq<Seq<char>>)
    ensures
        common_len(a, b) <= a.len(),
        common_len(a, b) <= b.len(),
        a.subrange(0, common_len(a, b) as int) == b.subrange(0, common_len(a, b) as int),
    decreases a.len(),
{
    if !(a.len() == 0 || b.len() == 0 || a[0] != b[0]) {
        lemma_common_prefix(a.drop_first(), b.drop_first());
        let k = common_len(a, b) as int;
        assert(a.subrange(0, k) =~= seq![a[0]] + a.drop_first().subrange(0, k - 1));
        assert(b.subrange(0, k) =~= seq![b[0]] + b.drop_first().subrange(0, k - 1));
    } else {
        assert(a.subrange(0, 0) =~= b.subrange(0, 0));
    }
}

proof fn lemma_resolve_ups(base: Seq<Seq<char>>, m: nat, rest: Seq<Seq<char>>)
    requires
        m <= base.len(),
    ensures
        resolve(base, ups(m) + rest) == resolve(base.subrange(0, base.len() - m), rest),
    decreases m,
{
    reveal_strlit("..");
    if m == 0 {
        assert(ups(0) + rest =~= rest);
        assert(base.subrange(0, base.len() as int) =~= base);
    } else {
        let rel = ups(m) + rest;
        assert(rel[0] == ".."@);
        assert(rel.drop_first() =~= ups((m - 1) as nat) + rest);
        lemma_resolve_ups(base.drop_last(), (m - 1) as nat, rest);
        assert(base.drop_last().subrange(0, base.drop_last().len() - (m - 1)) =~= base.subrange(
            0,
            base.len() - m,
        ));
    }
}

proof fn lemma_resolve_down(base: Seq<Seq<char>>, rest: Seq<Seq<char>>)
    requires
        all_plain(rest),
    ensures
        resolve(base, rest) == base + rest,
    decreases rest.len(),
{
    if rest.len() == 0 {
        assert(base + rest =~= base);
    } else {
        assert(plain_segment(rest[0]));
        assert(all_plain(rest.drop_first()));
        lemma_resolve_down(base.push(rest[0]), rest.drop_first());
        assert(base.push(rest[0]) + rest.drop_first() =~= base + rest);
    }
}

/// Following the relative path from a directory to a path made of plain
/// segments lands exactly on that path.
pub proof fn law_link_round_trip(base: Seq<Seq<char>>, path: Seq<Seq<char>>)
    requires
        all_plain(path),
    ensures
        resolve(base, rel_segments(path, base)) == path,
{
    lemma_common_prefix(path, base);
    let k = common_len(path, base) as int;
    let rest = path.subrange(k, path.len() as int);
    lemma_resolve_ups(base, (base.len() - k) as nat, rest);
    assert(base.subrange(0, base.len() - (base.len() - k)) =~= base.subrange(0, k));
    assert(all_plain(rest));
    lemma_resolve_down(base.subrange(0, k), rest);
    assert(path.subrange(0, k) + rest =~= path);
}

pub open spec fn no_slash(s: Seq<char>) -> bool {
    forall|i: int| 0 <= i < s.len() ==> s[i] != '/'
}

proof fn lemma_split_tail(a: Seq<Seq<char>>, pre: Seq<char>, b: Seq<char>)
    requires
        no_slash(b),
        a.len() >= 1,
        split_slash(pre) == a,
    ensures
        split_slash(pre + b) == a.update(a.len() - 1, a.last() + b),
    decreases b.len(),
{
    if b.len() == 0 {
        assert(pre + b =~= pre);
        assert(a.update(a.len() - 1, a.last() + b) =~= a);
    } else {
        let b0 = b.drop_last();
        lemma_split_tail(a, pre, b0);
        let s = pre + b;
        assert(s.drop_last() =~= pre + b0);
        assert(s.last() == b.last());
        assert(a.last() + b0 + seq![b.last()] =~= a.last() + b);
        let r = split_slash(pre + b0);
        assert(r.last() == a.last() + b0);
        assert(r.len() == a.len());
        assert(r.last().push(s.last()) =~= a.last() + b);
        assert(r.update(r.len() - 1, r.last().push(s.last())) =~= a.update(
            a.len() - 1,
            a.last() + b,
        ));
    }
}

proof fn lemma_split_join(p: Seq<Seq<char>>)
    requires
        p.len() >= 1,
        forall|i: int| 0 <= i < p.len() ==> no_slash(#[trigger] p[i]),
    ensures
        split_slash(join_slash(p)) == p,
    decreases p.len(),
{
    if p.len() == 1 {
        assert(split_slash(Seq::empty()) == seq![Seq::<char>::empty()]);
        assert(Seq::<char>::empty() + p[0] =~= p[0]);
        lemma_split_tail(seq![Seq::<char>::empty()], Seq::empty(), p[0]);
        assert(seq![Seq::<char>::empty()].update(0, Seq::<char>::empty() + p[0]) =~= p);
    } else {
        let d = p.drop_last();
        assert forall|i: int| 0 <= i < d.len() implies no_slash(#[trigger] d[i]) by {
            assert(d[i] == p[i]);
        }
        lemma_split_join(d);
        let pre = join_slash(d) + "/"@;
        reveal_strlit("/");
        assert(pre.drop_last() =~= join_slash(d));
        assert(pre.last() == '/');
        let a = d.push(Seq::<char>::empty());
        assert(split_slash(pre) == a);
        assert(no_slash(p[p.len() - 1]));
        lemma_split_tail(a, pre, p.last());
        assert(a.update(a.len() - 1, a.last() + p.last()) =~= p);
    }
}

/// A link, split on `/` and followed from the directory holding the page of
/// `from`, lands exactly on the page of `to`, when the page of `to` is made of
/// plain segments.
pub proof fn law_link_follows(from: Seq<Seq<char>>, to: Seq<Seq<char>>)
    requires
        all_plain(to),
    ensures
        follow(from.drop_last(), link_of(from, to)) == to,
{
    let base = from.drop_last();
    let rel = rel_segments(to, base);
    law_link_round_trip(base, to);
    reveal_strlit("..");
    if rel.len() == 0 {
        if link_of(from, to).len() != 0 {
            assert(join_slash(rel) == Seq::<char>::empty());
        }
        assert(resolve(base, rel) == base);
    } else {
        lemma_common_prefix(to, base);
        let k = common_len(to, base) as int;
        assert forall|i: int| 0 <= i < rel.len() implies no_slash(#[trigger] rel[i]) by {
            if i < base.len() - k {
                assert(rel[i] == ".."@);
            } else {
                assert(rel[i] == to[k + i - (base.len() - k)]);
                assert(plain_segment(to[k + i - (base.len() - k)]));
            }
        }
        lemma_split_join(rel);
        if link_of(from, to).len() == 0 {
            assert(split_slash(Seq::<char>::empty()) =~= seq![Seq::<char>::empty()]);
            assert(rel =~= seq![Seq::<char>::empty()]);
            if 0 < base.len() - k {
                assert(rel[0] == ".."@);
            } else {
                assert(plain_segment(to[k]));
            }
        }
    }
}

} // verus!
