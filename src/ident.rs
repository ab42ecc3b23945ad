use vstd::prelude::*;

verus! {

/// True when `s` holds the separator `::` at position `i`.
pub open spec fn sep_at(s: Seq<char>, i: int) -> bool {
    0 <= i && i + 1 < s.len() && s[i] == ':' && s[i + 1] == ':'
}

/// Puts `c` in front of the first segment of `r`.
pub open spec fn prepend_first(c: Seq<char>, r: Seq<Seq<char>>) -> Seq<Seq<char>> {
    r.update(0, c + r[0])
}

/// The segments of an identifier split on `::`, leftmost separators first,
/// as `str::split("::")` yields them.
pub open spec fn segments(s: Seq<char>) -> Seq<Seq<char>>
    decreases s.len(),
{
    if s.len() == 0 {
        seq![Seq::<char>::empty()]
    } else if sep_at(s, 0) {
        seq![Seq::<char>::empty()] + segments(s.subrange(2, s.len() as int))
    } else {
        prepend_first(seq![s[0]], segments(s.subrange(1, s.len() as int)))
    }
}

/// Segments joined back with `::` between them.
pub open spec fn join_sep(r: Seq<Seq<char>>) -> Seq<char>
    decreases r.len(),
{
    if r.len() <= 1 {
        if r.len() == 0 { Seq::empty() } else { r[0] }
    } else {
        r[0] + seq![':', ':'] + join_sep(r.drop_first())
    }
}

/// The last segment of an identifier: the item's short name.
pub open spec fn short_name(s: Seq<char>) -> Seq<char> {
    segments(s).last()
}

pub proof fn lemma_segments_nonempty(s: Seq<char>)
    ensures
        segments(s).len() >= 1,
    decreases s.len(),
{
    if s.len() > 0 {
        if sep_at(s, 0) {
            lemma_segments_nonempty(s.subrange(2, s.len() as int));
        } else {
            lemma_segments_nonempty(s.subrange(1, s.len() as int));
        }
    }
}

proof fn lemma_join_prepend(c: Seq<char>, r: Seq<Seq<char>>)
    requires
        r.len() >= 1,
    ensures
        join_sep(prepend_first(c, r)) == c + join_sep(r),
{
    let p = prepend_first(c, r);
    if r.len() > 1 {
        assert(p.drop_first() =~= r.drop_first());
        assert(join_sep(p) =~= c + join_sep(r));
    }
}

/// Joining the segments of an identifier gives the identifier back, so two
/// identifiers with the same segments are the same identifier.
pub proof fn lemma_join_segments(s: Seq<char>)
    ensures
        join_sep(segments(s)) == s,
    decreases s.len(),
{
    if s.len() > 0 {
        if sep_at(s, 0) {
            let rest = s.subrange(2, s.len() as int);
            lemma_join_segments(rest);
            lemma_segments_nonempty(rest);
            let r = segments(s);
            assert(r.drop_first() =~= segments(rest));
            assert(join_sep(r) =~= s);
        } else {
            let rest = s.subrange(1, s.len() as int);
            lemma_join_segments(rest);
            lemma_segments_nonempty(rest);
            lemma_join_prepend(seq![s[0]], segments(rest));
            assert(seq![s[0]] + rest =~= s);
        }
    }
}

/// Distinct identifiers have distinct segments.
pub proof fn lemma_segments_injective(a: Seq<char>, b: Seq<char>)
    requires
        segments(a) == segments(b),
    ensures
        a == b,
{
    lemma_join_segments(a);
    lemma_join_segments(b);
}

/// Compares two texts character by character.
pub fn same_text(a: &str, b: &str) -> (r: bool)
    ensures
        r == (a@ == b@),
{
    let n = a.unicode_len();
    let m = b.unicode_len();
    if n != m {
        return false;
    }
    let mut i: usize = 0;
    while i < n
        invariant
            n == a@.len(),
            m == b@.len(),
            n == m,
            i <= n,
            forall|j: int| 0 <= j < i ==> a@[j] == b@[j],
        decreases n - i,
    {
        if a.get_char(i) != b.get_char(i) {
            return false;
        }
        i = i + 1;
    }
    assert(a@ =~= b@);
    true
}

/// Splits an identifier into its segments on `::`.
pub fn split_id(s: &str) -> (r: Vec<String>)
    ensures
        r.deep_view() == segments(s@),
{
    let n = s.unicode_len();
    let mut out: Vec<String> = Vec::new();
    let mut start: usize = 0;
    let mut i: usize = 0;
    proof {
        lemma_segments_nonempty(s@);
        assert(s@.subrange(0, n as int) =~= s@);
        assert(prepend_first(Seq::empty(), segments(s@)) =~= segments(s@));
        assert(out.deep_view() =~= Seq::<Seq<char>>::empty());
    }
    while i < n
        invariant
            n == s@.len(),
            start <= i <= n,
            segments(s@) == out.deep_view() + prepend_first(
                s@.subrange(start as int, i as int),
                segments(s@.subrange(i as int, n as int)),
            ),
        decreases n - i,
    {
        let ghost cur = s@.subrange(start as int, i as int);
        let ghost tail = s@.subrange(i as int, n as int);
        if i + 1 < n && s.get_char(i) == ':' && s.get_char(i + 1) == ':' {
            let seg = String::from_str(s.substring_char(start, i));
            let ghost rest = s@.subrange(i + 2, n as int);
            proof {
                assert(sep_at(tail, 0));
                assert(tail.subrange(2, tail.len() as int) =~= rest);
                lemma_segments_nonempty(rest);
                assert(prepend_first(Seq::empty(), segments(rest)) =~= segments(rest));
                assert(prepend_first(cur, segments(tail)) =~= seq![cur] + segments(rest));
            }
            let ghost before = out.deep_view();
            out.push(seg);
            proof {
                assert(out.deep_view() =~= before + seq![cur]);
            }
            i = i + 2;
            start = i;
            proof {
                assert(s@.subrange(start as int, i as int) =~= Seq::<char>::empty());
                assert(segments(s@) =~= out.deep_view() + prepend_first(
                    s@.subrange(start as int, i as int),
                    segments(s@.subrange(i as int, n as int)),
                ));
            }
        } else {
            let ghost rest = s@.subrange(i + 1, n as int);
            proof {
                assert(!sep_at(tail, 0));
                assert(tail.subrange(1, tail.len() as int) =~= rest);
                lemma_segments_nonempty(rest);
                assert(tail[0] == s@[i as int]);
                assert(segments(tail) == prepend_first(seq![tail[0]], segments(rest)));
                assert(s@.subrange(start as int, i + 1) =~= cur + seq![tail[0]]);
                let r0 = segments(rest)[0];
                assert(cur + (seq![tail[0]] + r0) =~= (cur + seq![tail[0]]) + r0);
                assert(prepend_first(cur, segments(tail)) =~= prepend_first(
                    s@.subrange(start as int, i + 1),
                    segments(rest),
                ));
            }
            i = i + 1;
        }
    }
    let last = String::from_str(s.substring_char(start, n));
    proof {
        assert(s@.subrange(n as int, n as int) =~= Seq::<char>::empty());
        assert(prepend_first(s@.subrange(start as int, n as int), seq![Seq::<char>::empty()])
            =~= seq![last@]);
    }
    let ghost before = out.deep_view();
    out.push(last);
    assert(out.deep_view() =~= before + seq![last@]);
    assert(out.deep_view() =~= segments(s@));
    out
}

} // verus!
