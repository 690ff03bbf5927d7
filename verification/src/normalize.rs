//! URL source normalizer: merges literal URLs with the URL lists parsed
//! from input files into one deduplicated, lexicographically sorted
//! sequence.

use vstd::prelude::*;
use crate::text::{
    chars_lt, strict_sorted, distinct_strs, str_lt, str_eq, lemma_chars_lt_connected,
    lemma_chars_lt_transitive, lemma_strict_sorted_distinct,
};

verus! {

/// Membership in a concatenation is membership in either part.
pub proof fn lemma_contains_add<A>(a: Seq<A>, b: Seq<A>, x: A)
    ensures
        (a + b).contains(x) <==> a.contains(x) || b.contains(x),
{
    if a.contains(x) {
        let i = choose|i: int| 0 <= i < a.len() && a[i] == x;
        assert((a + b)[i] == x);
    }
    if b.contains(x) {
        let i = choose|i: int| 0 <= i < b.len() && b[i] == x;
        assert((a + b)[a.len() + i] == x);
    }
    if (a + b).contains(x) {
        let i = choose|i: int| 0 <= i < (a + b).len() && (a + b)[i] == x;
        if i < a.len() {
            assert(a[i] == x);
        } else {
            assert(b[i - a.len()] == x);
        }
    }
}

/// Membership after a push is membership before, or the pushed element.
pub proof fn lemma_contains_push<A>(a: Seq<A>, e: A, x: A)
    ensures
        a.push(e).contains(x) <==> a.contains(x) || x == e,
{
    if a.contains(x) {
        let i = choose|i: int| 0 <= i < a.len() && a[i] == x;
        assert(a.push(e)[i] == x);
    }
    assert(a.push(e)[a.len() as int] == e);
    if a.push(e).contains(x) {
        let i = choose|i: int| 0 <= i < a.push(e).len() && a.push(e)[i] == x;
        if i < a.len() {
            assert(a[i] == x);
        }
    }
}

/// Insert `url` into a strictly sorted vector of strings, keeping it
/// sorted and free of duplicates; a string already present is dropped.
pub fn insert_url(urls: &mut Vec<String>, url: String)
    requires
        strict_sorted(old(urls).deep_view()),
    ensures
        strict_sorted(final(urls).deep_view()),
        forall|s: Seq<char>| #[trigger]
            final(urls).deep_view().contains(s) <==> old(urls).deep_view().contains(s) || s
                == url@,
{
    let ghost pre = urls@;
    let ghost pre_dv = urls.deep_view();
    let n = urls.len();
    let mut i: usize = 0;
    while i < n && str_lt(urls[i].as_str(), url.as_str())
        invariant
            n == urls@.len(),
            i <= n,
            urls@ == pre,
            forall|k: int| 0 <= k < i ==> chars_lt(#[trigger] urls.deep_view()[k], url@),
        decreases n - i,
    {
        i += 1;
    }
    if i < n && str_eq(urls[i].as_str(), url.as_str()) {
        proof {
            assert(urls.deep_view()[i as int] == url@);
            assert(urls.deep_view().contains(url@));
        }
        return ;
    }
    proof {
        pre.insert_ensures(i as int, url);
        if i < n {
            lemma_chars_lt_connected(url@, pre_dv[i as int]);
        }
    }
    urls.insert(i, url);
    proof {
        let dv = urls.deep_view();
        assert(dv.len() == pre_dv.len() + 1);
        assert(forall|k: int| 0 <= k < i ==> dv[k] == pre_dv[k]);
        assert(forall|k: int| i <= k < pre_dv.len() ==> dv[k + 1] == pre_dv[k]);
        assert(dv[i as int] == url@);
        assert forall|p: int, q: int| 0 <= p < q < dv.len() implies chars_lt(dv[p], dv[q]) by {
            if q < i {
            } else if p < i && q == i {
            } else if p < i && q > i {
                assert(dv[q] == pre_dv[q - 1]);
            } else if p == i {
                assert(dv[q] == pre_dv[q - 1]);
                if q - 1 > i {
                    lemma_chars_lt_transitive(url@, pre_dv[i as int], pre_dv[q - 1]);
                }
            } else {
                assert(dv[p] == pre_dv[p - 1]);
                assert(dv[q] == pre_dv[q - 1]);
            }
        }
        assert forall|s: Seq<char>| #[trigger]
            dv.contains(s) <==> (pre_dv.contains(s) || s == url@) by {
            if dv.contains(s) {
                let k = choose|k: int| 0 <= k < dv.len() && dv[k] == s;
                if k < i {
                    assert(pre_dv[k] == s);
                    assert(pre_dv.contains(s));
                } else if k > i {
                    assert(pre_dv[k - 1] == s);
                    assert(pre_dv.contains(s));
                }
            }
            if pre_dv.contains(s) {
                let k = choose|k: int| 0 <= k < pre_dv.len() && pre_dv[k] == s;
                if k < i {
                    assert(dv[k] == s);
                } else {
                    assert(dv[k + 1] == s);
                }
                assert(dv.contains(s));
            }
            if s == url@ {
                assert(dv[i as int] == s);
                assert(dv.contains(s));
            }
        }
    }
}

/// Sorted deduplication: the output holds exactly the distinct strings
/// of the input, in strictly ascending lexicographic order.
pub fn sort_dedup(input: &Vec<String>) -> (out: Vec<String>)
    ensures
        strict_sorted(out.deep_view()),
        distinct_strs(out.deep_view()),
        forall|s: Seq<char>| #[trigger]
            out.deep_view().contains(s) <==> input.deep_view().contains(s),
{
    let mut out: Vec<String> = Vec::new();
    let n = input.len();
    let mut i: usize = 0;
    while i < n
        invariant
            n == input@.len(),
            i <= n,
            strict_sorted(out.deep_view()),
            forall|s: Seq<char>| #[trigger]
                out.deep_view().contains(s) <==> (exists|k: int|
                    0 <= k < i && input.deep_view()[k] == s),
        decreases n - i,
    {
        let u = input[i].clone();
        proof {
            assert(u@ == input.deep_view()[i as int]);
        }
        insert_url(&mut out, u);
        i += 1;
    }
    proof {
        lemma_strict_sorted_distinct(out.deep_view());
    }
    out
}

/// Appends clones of every element of `src` to `dst`.
fn append_all(dst: &mut Vec<String>, src: &Vec<String>)
    ensures
        final(dst).deep_view() == old(dst).deep_view() + src.deep_view(),
{
    let ghost pre_dv = dst.deep_view();
    let n = src.len();
    let mut j: usize = 0;
    while j < n
        invariant
            n == src@.len(),
            j <= n,
            dst.deep_view() =~= pre_dv + src.deep_view().take(j as int),
        decreases n - j,
    {
        let ghost before = dst.deep_view();
        dst.push(src[j].clone());
        proof {
            assert(dst.deep_view() =~= before.push(src.deep_view()[j as int]));
            assert(src.deep_view().take(j + 1) =~= src.deep_view().take(j as int).push(
                src.deep_view()[j as int],
            ));
        }
        j += 1;
    }
    proof {
        assert(src.deep_view().take(n as int) =~= src.deep_view());
    }
}

/// Merges the literal URLs with every parsed file's URL list,
/// deduplicates by exact string equality, and sorts the result
/// ascending. An empty result means there is nothing to do; no network
/// work happens here.
pub fn normalize_urls(literals: &Vec<String>, file_lists: &Vec<Vec<String>>) -> (urls: Vec<
    String,
>)
    ensures
        strict_sorted(urls.deep_view()),
        distinct_strs(urls.deep_view()),
        forall|s: Seq<char>| #[trigger]
            urls.deep_view().contains(s) <==> literals.deep_view().contains(s) || (exists|k: int|
                0 <= k < file_lists.deep_view().len() && #[trigger] file_lists.deep_view()[k].contains(
                    s,
                )),
{
    let mut combined: Vec<String> = Vec::new();
    append_all(&mut combined, literals);
    let n = file_lists.len();
    let mut k: usize = 0;
    while k < n
        invariant
            n == file_lists@.len(),
            k <= n,
            forall|s: Seq<char>| #[trigger]
                combined.deep_view().contains(s) <==> literals.deep_view().contains(s) || (exists|
                    m: int,
                |
                    0 <= m < k && #[trigger] file_lists.deep_view()[m].contains(s)),
        decreases n - k,
    {
        let ghost before = combined.deep_view();
        append_all(&mut combined, &file_lists[k]);
        proof {
            let fl = file_lists.deep_view()[k as int];
            assert(file_lists[k as int].deep_view() == fl);
            assert forall|s: Seq<char>| #[trigger]
                combined.deep_view().contains(s) <==> (before.contains(s) || fl.contains(s)) by {
                lemma_contains_add(before, fl, s);
            }
        }
        k += 1;
    }
    sort_dedup(&combined)
}

} // verus!
