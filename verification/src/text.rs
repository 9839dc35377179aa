//! Character-sequence models and verified string helpers: splitting a
//! semicolon-delimited list, taking a path's final component, and substring
//! containment.

use vstd::prelude::*;

verus! {

/// The segments of `s` split on `';'`, empty segments kept.
/// Splitting the empty sequence gives one empty segment.
pub open spec fn split_semi(s: Seq<char>) -> Seq<Seq<char>>
    decreases s.len(),
{
    if s.len() == 0 {
        seq![Seq::<char>::empty()]
    } else if s[0] == ';' {
        seq![Seq::<char>::empty()] + split_semi(s.drop_first())
    } else {
        let rest = split_semi(s.drop_first());
        seq![seq![s[0]] + rest[0]] + rest.drop_first()
    }
}

/// The non-empty segments, in order.
pub open spec fn keep_nonempty(segs: Seq<Seq<char>>) -> Seq<Seq<char>>
    decreases segs.len(),
{
    if segs.len() == 0 {
        Seq::<Seq<char>>::empty()
    } else if segs.last().len() > 0 {
        keep_nonempty(segs.drop_last()).push(segs.last())
    } else {
        keep_nonempty(segs.drop_last())
    }
}

/// The declared list encoded in `s`: the non-empty `';'`-separated segments.
pub open spec fn list_of(s: Seq<char>) -> Seq<Seq<char>> {
    keep_nonempty(split_semi(s))
}

proof fn lemma_split_semi_nonempty(s: Seq<char>)
    ensures
        split_semi(s).len() >= 1,
    decreases s.len(),
{
    if s.len() != 0 {
        lemma_split_semi_nonempty(s.drop_first());
    }
}

/// A completed prefix glued onto the first pending segment.
spec fn glue_first(pre: Seq<char>, segs: Seq<Seq<char>>) -> Seq<Seq<char>> {
    seq![pre + segs[0]] + segs.drop_first()
}

/// Splits `s` on `';'` and returns the non-empty segments in order.
pub fn split_list(s: &str) -> (r: Vec<String>)
    ensures
        r.deep_view() == list_of(s@),
{
    let len: usize = s.unicode_len();
    let mut out: Vec<String> = Vec::new();
    let ghost mut done: Seq<Seq<char>> = Seq::empty();
    let mut start: usize = 0;
    let mut i: usize = 0;
    proof {
        lemma_split_semi_nonempty(s@);
        assert(s@.subrange(0, len as int) =~= s@);
        assert(split_semi(s@) =~~= done + glue_first(
            s@.subrange(0, 0),
            split_semi(s@.subrange(0, len as int)),
        ));
    }
    while i < len
        invariant
            len == s@.len(),
            start <= i <= len,
            split_semi(s@) == done + glue_first(
                s@.subrange(start as int, i as int),
                split_semi(s@.subrange(i as int, len as int)),
            ),
            out.deep_view() == keep_nonempty(done),
        decreases len - i,
    {
        let ghost rest = s@.subrange(i as int, len as int);
        let ghost rest2 = s@.subrange(i as int + 1, len as int);
        proof {
            assert(rest.len() > 0);
            assert(rest[0] == s@[i as int]);
            assert(rest.drop_first() =~= rest2);
            lemma_split_semi_nonempty(rest2);
        }
        let c = s.get_char(i);
        if c == ';' {
            let ghost cur = s@.subrange(start as int, i as int);
            proof {
                assert(split_semi(rest) =~~= seq![Seq::<char>::empty()] + split_semi(rest2));
                assert(glue_first(cur, split_semi(rest)) =~~= seq![cur] + glue_first(
                    s@.subrange(i as int + 1, i as int + 1),
                    split_semi(rest2),
                ));
                assert(split_semi(s@) =~~= (done + seq![cur]) + glue_first(
                    s@.subrange(i as int + 1, i as int + 1),
                    split_semi(rest2),
                ));
            }
            if start < i {
                let seg = s.substring_char(start, i).to_owned();
                out.push(seg);
                proof {
                    assert((done + seq![cur]).drop_last() =~= done);
                    assert(out.deep_view() =~~= keep_nonempty(done + seq![cur]));
                }
            } else {
                proof {
                    assert(cur.len() == 0);
                    assert((done + seq![cur]).drop_last() =~= done);
                    assert(out.deep_view() =~~= keep_nonempty(done + seq![cur]));
                }
            }
            proof {
                done = done + seq![cur];
            }
            start = i + 1;
        } else {
            proof {
                let cur = s@.subrange(start as int, i as int);
                let cur2 = s@.subrange(start as int, i as int + 1);
                assert(split_semi(rest) =~~= seq![seq![rest[0]] + split_semi(rest2)[0]]
                    + split_semi(rest2).drop_first());
                assert(cur2 =~= cur + seq![s@[i as int]]);
                assert(cur2 + split_semi(rest2)[0] =~= cur + (seq![rest[0]] + split_semi(rest2)[0]));
                assert(glue_first(cur, split_semi(rest)) =~~= glue_first(cur2, split_semi(rest2)));
            }
        }
        i = i + 1;
    }
    let ghost cur = s@.subrange(start as int, len as int);
    proof {
        let rest = s@.subrange(len as int, len as int);
        assert(rest =~= Seq::<char>::empty());
        assert(split_semi(rest) =~~= seq![Seq::<char>::empty()]);
        assert(glue_first(cur, split_semi(rest)) =~~= seq![cur]);
        assert(split_semi(s@) =~~= done + seq![cur]);
    }
    if start < len {
        let seg = s.substring_char(start, len).to_owned();
        out.push(seg);
        proof {
            assert((done + seq![cur]).drop_last() =~= done);
            assert(out.deep_view() =~~= keep_nonempty(done + seq![cur]));
        }
    } else {
        proof {
            assert(cur.len() == 0);
            assert((done + seq![cur]).drop_last() =~= done);
            assert(out.deep_view() =~~= keep_nonempty(done + seq![cur]));
        }
    }
    out
}

/// The final path component: the characters after the last `'/'`.
pub open spec fn basename_of(p: Seq<char>) -> Seq<char>
    decreases p.len(),
{
    if p.len() == 0 {
        p
    } else if p.last() == '/' {
        Seq::<char>::empty()
    } else {
        basename_of(p.drop_last()).push(p.last())
    }
}

proof fn lemma_basename_suffix(p: Seq<char>, k: int)
    requires
        0 <= k <= p.len(),
        forall|j: int| k <= j < p.len() ==> p[j] != '/',
        k == 0 || p[k - 1] == '/',
    ensures
        basename_of(p) == p.subrange(k, p.len() as int),
    decreases p.len(),
{
    if k == p.len() {
        if p.len() == 0 {
            assert(basename_of(p) =~= p.subrange(k, p.len() as int));
        } else {
            assert(p.last() == p[k - 1]);
            assert(basename_of(p) =~= p.subrange(k, p.len() as int));
        }
    } else {
        assert(p.last() == p[p.len() - 1]);
        assert(p.last() != '/');
        lemma_basename_suffix(p.drop_last(), k);
        assert(p.drop_last().subrange(k, p.len() - 1) =~= p.subrange(k, p.len() - 1));
        assert(basename_of(p) =~= p.subrange(k, p.len() as int));
    }
}

/// The final path component of `path`: everything after the last `'/'`, or
/// the whole string when it has none.
pub fn basename(path: &str) -> (r: String)
    ensures
        r@ == basename_of(path@),
{
    let len: usize = path.unicode_len();
    let mut k: usize = 0;
    let mut i: usize = 0;
    while i < len
        invariant
            len == path@.len(),
            k <= i <= len,
            forall|j: int| k <= j < i ==> path@[j] != '/',
            k == 0 || path@[k - 1] == '/',
        decreases len - i,
    {
        if path.get_char(i) == '/' {
            k = i + 1;
        }
        i = i + 1;
    }
    proof {
        lemma_basename_suffix(path@, k as int);
    }
    path.substring_char(k, len).to_owned()
}

/// Character-for-character equality of two string slices.
pub fn str_eq(a: &str, b: &str) -> (r: bool)
    ensures
        r == (a@ == b@),
{
    let alen: usize = a.unicode_len();
    let blen: usize = b.unicode_len();
    if alen != blen {
        return false;
    }
    let mut i: usize = 0;
    while i < alen
        invariant
            alen == a@.len(),
            alen == b@.len(),
            i <= alen,
            forall|j: int| 0 <= j < i ==> a@[j] == b@[j],
        decreases alen - i,
    {
        if a.get_char(i) != b.get_char(i) {
            return false;
        }
        i = i + 1;
    }
    proof {
        assert(a@ =~= b@);
    }
    true
}

/// `needle` occurs in `hay` as a contiguous run of characters; the empty
/// sequence occurs in everything.
pub open spec fn contains_seq(hay: Seq<char>, needle: Seq<char>) -> bool {
    exists|i: int|
        0 <= i <= hay.len() - needle.len() && #[trigger] hay.subrange(i, i + needle.len())
            == needle
}

fn match_at(hay: &str, needle: &str, i: usize, hlen: usize, nlen: usize) -> (r: bool)
    requires
        hlen == hay@.len(),
        nlen == needle@.len(),
        i + nlen <= hlen,
    ensures
        r == (hay@.subrange(i as int, i as int + needle@.len()) == needle@),
{
    let mut j: usize = 0;
    while j < nlen
        invariant
            hlen == hay@.len(),
            nlen == needle@.len(),
            i + nlen <= hlen,
            j <= nlen,
            forall|m: int| 0 <= m < j ==> hay@[i + m] == needle@[m],
        decreases nlen - j,
    {
        if hay.get_char(i + j) != needle.get_char(j) {
            proof {
                let pos = i as int + j as int;
                assert(hay@.subrange(i as int, i as int + nlen as int)[j as int] == hay@[pos]);
            }
            return false;
        }
        j = j + 1;
    }
    proof {
        assert(hay@.subrange(i as int, i as int + nlen as int) =~= needle@);
    }
    true
}

/// Whether `needle` occurs in `hay` as a substring.
pub fn str_contains(hay: &str, needle: &str) -> (r: bool)
    ensures
        r == contains_seq(hay@, needle@),
{
    let hlen: usize = hay.unicode_len();
    let nlen: usize = needle.unicode_len();
    if nlen > hlen {
        return false;
    }
    if nlen == 0 {
        proof {
            assert(hay@.subrange(0, 0 + needle@.len() as int) =~= needle@);
        }
        return true;
    }
    let bound: usize = hlen - nlen;
    let mut i: usize = 0;
    while i <= bound
        invariant
            hlen == hay@.len(),
            nlen == needle@.len(),
            1 <= nlen <= hlen,
            bound == hlen - nlen,
            i <= bound + 1,
            forall|k: int|
                0 <= k < i ==> #[trigger] hay@.subrange(k, k + needle@.len()) != needle@,
        decreases bound + 1 - i,
    {
        if match_at(hay, needle, i, hlen, nlen) {
            return true;
        }
        i = i + 1;
    }
    false
}

} // verus!
