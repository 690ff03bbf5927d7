//! Plain-text format adapters: URLs separated by line breaks
//! (`parser_txt`) or by semicolons (`parse_txt`). Each segment is
//! trimmed of white space and blank segments contribute nothing.

use vstd::prelude::*;
use vstd::string::StrSliceExecFns;
use crate::text::{find_char, lemma_find_char, scan_to, trim_chars, trim_str};

verus! {

#[via_fn]
proof fn split_char_decreases(s: Seq<char>, sep: char) {
    lemma_find_char(s, sep);
}

/// The segments of `s` between occurrences of `sep`; separators at the
/// edges and adjacent separators produce empty segments, and the empty
/// string is one empty segment.
pub open spec fn split_char(s: Seq<char>, sep: char) -> Seq<Seq<char>>
    decreases s.len(),
    via split_char_decreases
{
    let n = find_char(s, sep);
    if n == s.len() {
        seq![s]
    } else {
        seq![s.take(n)] + split_char(s.skip(n + 1), sep)
    }
}

#[via_fn]
proof fn split_lines_decreases(s: Seq<char>) {
    lemma_find_char(s, '\n');
}

/// The lines of `s`, as `str::lines` yields them: split at `\n`, with a
/// carriage return immediately before the line feed removed, and no
/// final empty line after a trailing line terminator.
pub open spec fn split_lines(s: Seq<char>) -> Seq<Seq<char>>
    decreases s.len(),
    via split_lines_decreases
{
    if s.len() == 0 {
        seq![]
    } else {
        let n = find_char(s, '\n');
        if n == s.len() {
            seq![s]
        } else {
            let seg = s.take(n);
            let line = if seg.len() > 0 && seg.last() == '\r' {
                seg.drop_last()
            } else {
                seg
            };
            seq![line] + split_lines(s.skip(n + 1))
        }
    }
}

/// Trims every segment and keeps the non-blank ones, in order.
pub open spec fn url_items(segments: Seq<Seq<char>>) -> Seq<Seq<char>>
    decreases segments.len(),
{
    if segments.len() == 0 {
        seq![]
    } else {
        let t = trim_chars(segments[0]);
        let rest = url_items(segments.drop_first());
        if t.len() > 0 {
            seq![t] + rest
        } else {
            rest
        }
    }
}

/// Parses TXT content with one URL per line: each line is trimmed and
/// blank lines contribute nothing.
pub fn parser_txt(content: &str) -> (urls: Vec<String>)
    ensures
        urls.deep_view() == url_items(split_lines(content@)),
{
    let n = content.unicode_len();
    let mut out: Vec<String> = Vec::new();
    let mut pos: usize = 0;
    proof {
        assert(content@.skip(0) =~= content@);
        assert(out.deep_view() =~= Seq::<Seq<char>>::empty());
        assert(Seq::<Seq<char>>::empty() + url_items(split_lines(content@)) =~= url_items(
            split_lines(content@),
        ));
    }
    while pos < n
        invariant
            n == content@.len(),
            pos <= n,
            out.deep_view() + url_items(split_lines(content@.skip(pos as int))) == url_items(
                split_lines(content@),
            ),
        decreases n - pos,
    {
        let ghost ss = content@.skip(pos as int);
        let e = scan_to(content, n, pos, '\n');
        let line_end = if e < n && e > pos && content.get_char(e - 1) == '\r' {
            e - 1
        } else {
            e
        };
        proof {
            assert(forall|m: int| 0 <= m < ss.len() ==> ss[m] == content@[m + pos]);
            assert(find_char(ss, '\n') == e - pos);
            let seg = ss.take(e - pos);
            assert(seg =~= content@.subrange(pos as int, e as int));
            if e < n {
                if e > pos && content@[e - 1] == '\r' {
                    assert(seg.len() > 0 && seg.last() == '\r');
                    assert(seg.drop_last() =~= content@.subrange(pos as int, e - 1));
                } else {
                    assert(!(seg.len() > 0 && seg.last() == '\r'));
                }
            }
        }
        let sub = content.substring_char(pos, line_end);
        let t = trim_str(sub);
        let ghost before = out.deep_view();
        let ghost line = if e < n {
            split_lines(ss)[0]
        } else {
            ss
        };
        proof {
            if e == n {
                assert(split_lines(ss) =~= seq![ss]);
                assert(sub@ =~= ss);
            } else {
                assert(split_lines(ss) == seq![line] + split_lines(content@.skip(e + 1)) && sub@
                    == line) by {
                    assert(ss.skip(e - pos + 1) =~= content@.skip(e + 1));
                }
            }
            assert(t@ == trim_chars(line));
        }
        if t.as_str().unicode_len() > 0 {
            out.push(t);
            proof {
                assert(out.deep_view() =~= before + seq![trim_chars(line)]);
            }
        }
        let ghost rest = if e < n {
            split_lines(content@.skip(e + 1))
        } else {
            Seq::<Seq<char>>::empty()
        };
        proof {
            if e == n {
                assert(url_items(split_lines(ss)) == if trim_chars(line).len() > 0 {
                    seq![trim_chars(line)] + url_items(rest)
                } else {
                    url_items(rest)
                }) by {
                    assert(seq![ss].drop_first() =~= Seq::<Seq<char>>::empty());
                    assert(url_items(Seq::<Seq<char>>::empty()) =~= Seq::<Seq<char>>::empty());
                    assert(url_items(rest) =~= Seq::<Seq<char>>::empty());
                }
                assert(content@.skip(n as int).len() == 0);
                assert(split_lines(content@.skip(n as int)) =~= Seq::<Seq<char>>::empty());
            } else {
                assert((seq![line] + split_lines(content@.skip(e + 1))).drop_first()
                    =~= split_lines(content@.skip(e + 1)));
                assert(url_items(split_lines(ss)) == if trim_chars(line).len() > 0 {
                    seq![trim_chars(line)] + url_items(rest)
                } else {
                    url_items(rest)
                });
            }
            if trim_chars(line).len() > 0 {
                assert((before + seq![trim_chars(line)]) + url_items(rest) =~= before + (seq![
                    trim_chars(line),
                ] + url_items(rest)));
            }
        }
        pos = if e < n {
            e + 1
        } else {
            n
        };
    }
    proof {
        assert(content@.skip(n as int).len() == 0);
        assert(split_lines(content@.skip(n as int)) =~= Seq::<Seq<char>>::empty());
        assert(url_items(Seq::<Seq<char>>::empty()) =~= Seq::<Seq<char>>::empty());
        assert(out.deep_view() + Seq::<Seq<char>>::empty() =~= out.deep_view());
    }
    out
}

/// Parses TXT content with URLs separated by `;`: each segment is
/// trimmed and blank segments contribute nothing.
pub fn parse_txt(content: &str) -> (urls: Vec<String>)
    ensures
        urls.deep_view() == url_items(split_char(content@, ';')),
{
    let n = content.unicode_len();
    let mut out: Vec<String> = Vec::new();
    let mut pos: usize = 0;
    proof {
        assert(content@.skip(0) =~= content@);
        assert(out.deep_view() =~= Seq::<Seq<char>>::empty());
        assert(Seq::<Seq<char>>::empty() + url_items(split_char(content@, ';')) =~= url_items(
            split_char(content@, ';'),
        ));
    }
    while pos < n
        invariant
            n == content@.len(),
            pos <= n,
            out.deep_view() + url_items(split_char(content@.skip(pos as int), ';')) == url_items(
                split_char(content@, ';'),
            ),
        decreases n - pos,
    {
        let ghost ss = content@.skip(pos as int);
        let e = scan_to(content, n, pos, ';');
        proof {
            assert(forall|m: int| 0 <= m < ss.len() ==> ss[m] == content@[m + pos]);
            assert(find_char(ss, ';') == e - pos);
            assert(ss.take(e - pos) =~= content@.subrange(pos as int, e as int));
        }
        let sub = content.substring_char(pos, e);
        let t = trim_str(sub);
        let ghost before = out.deep_view();
        let ghost seg = ss.take(e - pos);
        let ghost rest = if e < n {
            split_char(content@.skip(e + 1), ';')
        } else {
            Seq::<Seq<char>>::empty()
        };
        proof {
            if e == n {
                assert(sub@ =~= ss);
                assert(split_char(ss, ';') =~= seq![ss]);
                assert(seq![ss].drop_first() =~= Seq::<Seq<char>>::empty());
                assert(url_items(Seq::<Seq<char>>::empty()) =~= Seq::<Seq<char>>::empty());
                assert(url_items(split_char(ss, ';')) == if trim_chars(ss).len() > 0 {
                    seq![trim_chars(ss)] + url_items(rest)
                } else {
                    url_items(rest)
                });
                assert(t@ == trim_chars(ss));
            } else {
                assert(split_char(ss, ';') == seq![seg] + rest) by {
                    assert(ss.skip(e - pos + 1) =~= content@.skip(e + 1));
                }
                assert((seq![seg] + split_char(content@.skip(e + 1), ';')).drop_first()
                    =~= split_char(content@.skip(e + 1), ';'));
                assert(url_items(split_char(ss, ';')) == if trim_chars(seg).len() > 0 {
                    seq![trim_chars(seg)] + url_items(rest)
                } else {
                    url_items(rest)
                });
                assert(t@ == trim_chars(seg));
            }
        }
        if t.as_str().unicode_len() > 0 {
            out.push(t);
            proof {
                assert(out.deep_view() =~= before + seq![t@]);
            }
        }
        proof {
            if t@.len() > 0 {
                assert((before + seq![t@]) + url_items(rest) =~= before + (seq![t@] + url_items(
                    rest,
                )));
            }
            if e == n {
                assert(content@.skip(n as int).len() == 0);
                assert(find_char(content@.skip(n as int), ';') == 0);
                assert(split_char(content@.skip(n as int), ';') =~= seq![content@.skip(n as int)]);
                assert(trim_chars(content@.skip(n as int)).len() == 0);
                assert(seq![content@.skip(n as int)].drop_first() =~= Seq::<Seq<char>>::empty());
                assert(url_items(Seq::<Seq<char>>::empty()) =~= Seq::<Seq<char>>::empty());
                assert(url_items(split_char(content@.skip(n as int), ';'))
                    =~= Seq::<Seq<char>>::empty());
            }
        }
        pos = if e < n {
            e + 1
        } else {
            n
        };
    }
    proof {
        if n == 0 {
            assert(content@.skip(0).len() == 0);
        }
        let tail = content@.skip(pos as int);
        assert(tail.len() == 0);
        assert(find_char(tail, ';') == 0);
        assert(split_char(tail, ';') =~= seq![tail]);
        assert(trim_chars(tail).len() == 0);
        assert(seq![tail].drop_first() =~= Seq::<Seq<char>>::empty());
        assert(url_items(Seq::<Seq<char>>::empty()) =~= Seq::<Seq<char>>::empty());
        assert(url_items(split_char(tail, ';')) =~= Seq::<Seq<char>>::empty());
        assert(out.deep_view() + Seq::<Seq<char>>::empty() =~= out.deep_view());
    }
    out
}

} // verus!
