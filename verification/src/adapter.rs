//! Format dispatch: picks the format adapter by the file path's
//! extension (`json`, `xml`, `csv` or `txt`, compared without regard to
//! ASCII case). Any other extension contributes no URLs.

use vstd::prelude::*;
use vstd::string::StrSliceExecFns;
use crate::parser_csv::{csv_rows, csv_urls, parser_csv};
use crate::parser_json::{json_string_items, json_urls, parser_json};
use crate::parser_txt::{split_lines, url_items, parser_txt};
use crate::parser_xml::{xml_events, urls_in_events, parser_xml};

verus! {

broadcast use vstd::string::group_string_axioms;

/// The index of the last occurrence of `c` in `s`, or `-1` when `c`
/// does not occur.
pub open spec fn last_index(s: Seq<char>, c: char) -> int
    decreases s.len(),
{
    if s.len() == 0 {
        -1
    } else if s[s.len() - 1] == c {
        s.len() - 1
    } else {
        last_index(s.drop_last(), c)
    }
}

proof fn lemma_last_index(s: Seq<char>, c: char)
    ensures
        -1 <= last_index(s, c) < s.len(),
        last_index(s, c) >= 0 ==> s[last_index(s, c)] == c,
        forall|j: int| last_index(s, c) < j < s.len() ==> s[j] != c,
    decreases s.len(),
{
    if s.len() > 0 && s[s.len() - 1] != c {
        lemma_last_index(s.drop_last(), c);
        let li = last_index(s, c);
        assert(forall|m: int| 0 <= m < s.len() - 1 ==> s.drop_last()[m] == s[m]);
        assert forall|j: int| li < j < s.len() implies s[j] != c by {
            if j < s.len() - 1 {
                assert(s.drop_last()[j] != c);
            }
        }
    }
}

/// Scans `s` backwards through `[from, n)` for the last occurrence of
/// `sep`; the returned index is one past that occurrence, or `from`
/// when the range is free of it.
fn scan_back(s: &str, n: usize, from: usize, sep: char) -> (j: usize)
    requires
        n == s@.len(),
        from <= n,
    ensures
        from <= j <= n,
        j > from ==> s@[j - 1] == sep,
        forall|k: int| j <= k < n ==> s@[k] != sep,
{
    let mut j: usize = n;
    while j > from && s.get_char(j - 1) != sep
        invariant
            from <= j <= n,
            n == s@.len(),
            forall|k: int| j <= k < n ==> s@[k] != sep,
        decreases j,
    {
        j -= 1;
    }
    j
}

/// ASCII lowercase folding of one character; everything outside `A`-`Z`
/// stays as it is.
pub open spec fn lower_char(c: char) -> char {
    if 'A' <= c && c <= 'Z' {
        (c as int + 32) as char
    } else {
        c
    }
}

/// ASCII lowercase folding of a character sequence.
pub open spec fn ascii_lower(s: Seq<char>) -> Seq<char> {
    s.map_values(|c: char| lower_char(c))
}

/// Folds one character to ASCII lowercase.
fn to_lower(c: char) -> (r: char)
    ensures
        r == lower_char(c),
{
    match c {
        'A' => 'a',
        'B' => 'b',
        'C' => 'c',
        'D' => 'd',
        'E' => 'e',
        'F' => 'f',
        'G' => 'g',
        'H' => 'h',
        'I' => 'i',
        'J' => 'j',
        'K' => 'k',
        'L' => 'l',
        'M' => 'm',
        'N' => 'n',
        'O' => 'o',
        'P' => 'p',
        'Q' => 'q',
        'R' => 'r',
        'S' => 's',
        'T' => 't',
        'U' => 'u',
        'V' => 'v',
        'W' => 'w',
        'X' => 'x',
        'Y' => 'y',
        'Z' => 'z',
        _ => c,
    }
}

/// Compares `s`, folded to ASCII lowercase, against `kind`.
fn eq_lower(s: &str, kind: &str) -> (r: bool)
    ensures
        r == (ascii_lower(s@) == kind@),
{
    let n = s.unicode_len();
    let m = kind.unicode_len();
    if n != m {
        proof {
            assert(ascii_lower(s@).len() == s@.len());
        }
        return false;
    }
    let mut i: usize = 0;
    while i < n
        invariant
            i <= n,
            n == s@.len(),
            n == kind@.len(),
            forall|j: int| 0 <= j < i ==> ascii_lower(s@)[j] == kind@[j],
        decreases n - i,
    {
        let c = to_lower(s.get_char(i));
        if c != kind.get_char(i) {
            proof {
                assert(ascii_lower(s@)[i as int] == lower_char(s@[i as int]));
            }
            return false;
        }
        i += 1;
    }
    proof {
        assert(ascii_lower(s@) =~= kind@);
    }
    true
}

/// The extension of a file path: what follows the last `.` of the part
/// after the last `/`; empty when there is no dot, or only a leading
/// one (a hidden file).
pub open spec fn extension_of(path: Seq<char>) -> Seq<char> {
    let name = path.skip(last_index(path, '/') + 1);
    let d = last_index(name, '.');
    if d <= 0 {
        Seq::<char>::empty()
    } else {
        name.skip(d + 1)
    }
}

/// Does the path's extension, folded to ASCII lowercase, read `kind`?
pub open spec fn ext_is(path: Seq<char>, kind: Seq<char>) -> bool {
    ascii_lower(extension_of(path)) == kind
}

/// Computes the path's extension as [`extension_of`] defines it; the
/// empty string stands for none.
fn extension_str(file_path: &str) -> (ext: String)
    ensures
        ext@ == extension_of(file_path@),
{
    let n = file_path.unicode_len();
    let j1 = scan_back(file_path, n, 0, '/');
    let d_abs = scan_back(file_path, n, j1, '.');
    let ghost name = file_path@.skip(last_index(file_path@, '/') + 1);
    proof {
        lemma_last_index(file_path@, '/');
        let li = last_index(file_path@, '/');
        if li > j1 - 1 {
            assert(file_path@[li] == '/');
            assert(false);
        }
        if li < j1 - 1 {
            assert(file_path@[j1 - 1] != '/');
            assert(false);
        }
        assert(name =~= file_path@.skip(j1 as int));
        assert(forall|m: int| 0 <= m < name.len() ==> name[m] == file_path@[m + j1]);
        lemma_last_index(name, '.');
        let d = last_index(name, '.');
        if d > d_abs - 1 - j1 {
            assert(name[d] == '.');
            assert(file_path@[d + j1] != '.');
            assert(false);
        }
        if d < d_abs - 1 - j1 {
            assert(d_abs > j1);
            assert(file_path@[d_abs - 1] == '.');
            assert(name[d_abs - 1 - j1] != '.');
            assert(false);
        }
    }
    if d_abs - j1 <= 1 {
        proof {
            assert(extension_of(file_path@) =~= Seq::<char>::empty());
        }
        String::new()
    } else {
        let ext = file_path.substring_char(d_abs, n);
        proof {
            assert(name.skip(d_abs - j1) =~= file_path@.subrange(d_abs as int, n as int));
        }
        ext.to_owned()
    }
}

/// Does the path name one of the recognized formats? The caller can
/// warn before [`parse_file_content`] returns an empty contribution
/// for an unrecognized extension.
pub fn recognized_format(file_path: &str) -> (r: bool)
    ensures
        r == (ext_is(file_path@, "json"@) || ext_is(file_path@, "xml"@) || ext_is(
            file_path@,
            "csv"@,
        ) || ext_is(file_path@, "txt"@)),
{
    let ext = extension_str(file_path);
    eq_lower(ext.as_str(), "json") || eq_lower(ext.as_str(), "xml") || eq_lower(
        ext.as_str(),
        "csv",
    ) || eq_lower(ext.as_str(), "txt")
}

/// Turns one input file's content into its URL contribution, picking
/// the format adapter by the path's extension. An unrecognized
/// extension contributes nothing (the caller may warn); so does
/// malformed content, as each adapter's own contract states.
pub fn parse_file_content(file_path: &str, content: &str) -> (urls: Vec<String>)
    ensures
        ext_is(file_path@, "json"@) ==> urls.deep_view() == json_urls(
            json_string_items(content@, "urls"@),
        ),
        ext_is(file_path@, "xml"@) ==> urls.deep_view() == urls_in_events(xml_events(content@)),
        ext_is(file_path@, "csv"@) ==> urls.deep_view() == csv_urls(csv_rows(content@)),
        ext_is(file_path@, "txt"@) ==> urls.deep_view() == url_items(split_lines(content@)),
        !ext_is(file_path@, "json"@) && !ext_is(file_path@, "xml"@) && !ext_is(file_path@, "csv"@)
            && !ext_is(file_path@, "txt"@) ==> urls.deep_view() == Seq::<Seq<char>>::empty(),
{
    proof {
        reveal_strlit("json");
        reveal_strlit("xml");
        reveal_strlit("csv");
        reveal_strlit("txt");
        assert("json"@.len() == 4);
        assert("xml"@.len() == 3);
        assert("csv"@.len() == 3);
        assert("txt"@.len() == 3);
        assert("xml"@[0] == 'x' && "csv"@[0] == 'c' && "txt"@[0] == 't');
        assert("json"@ != "xml"@ && "json"@ != "csv"@ && "json"@ != "txt"@);
        assert("xml"@ != "csv"@ && "xml"@ != "txt"@ && "csv"@ != "txt"@);
    }
    let ext = extension_str(file_path);
    if eq_lower(ext.as_str(), "json") {
        parser_json(content)
    } else if eq_lower(ext.as_str(), "xml") {
        parser_xml(content)
    } else if eq_lower(ext.as_str(), "csv") {
        parser_csv(content)
    } else if eq_lower(ext.as_str(), "txt") {
        parser_txt(content)
    } else {
        let out: Vec<String> = Vec::new();
        proof {
            assert(out.deep_view() =~= Seq::<Seq<char>>::empty());
        }
        out
    }
}

} // verus!
