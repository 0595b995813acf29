//! Statistics of a plain-text or markdown document.
use crate::paths::{extension, extension_of, file_name, file_name_of, lower_of, lowercase};
use vstd::prelude::*;
use vstd::std_specs::iter::IteratorSpec;

verus! {

broadcast use vstd::string::group_string_axioms;

/// What the reader shows of a text document.
pub struct TextInfo {
    pub filename: String,
    pub file_type: String,
    pub char_count: usize,
    pub line_count: usize,
}

/// The number of newline characters in `s`.
pub open spec fn newline_count(s: Seq<char>) -> nat
    decreases s.len(),
{
    if s.len() == 0 {
        0
    } else {
        newline_count(s.drop_last()) + if s.last() == '\n' { 1nat } else { 0nat }
    }
}

/// Lines end at a newline; a last line without one still counts, and an
/// empty text has no line.
pub open spec fn line_count_of(s: Seq<char>) -> nat {
    newline_count(s) + if s.len() > 0 && s.last() != '\n' { 1nat } else { 0nat }
}

proof fn lemma_newline_count_bound(s: Seq<char>)
    ensures
        newline_count(s) <= s.len(),
    decreases s.len(),
{
    if s.len() > 0 {
        lemma_newline_count_bound(s.drop_last());
    }
}

/// The number of lines of `content`.
pub fn count_lines(content: &str) -> (r: usize)
    ensures
        r == line_count_of(content@),
{
    let n = content.unicode_len();
    let ghost all = content@;
    let mut it = content.chars();
    let mut seen: usize = 0;
    let mut newlines: usize = 0;
    let mut last: char = '\n';
    loop
        invariant
            n == all.len(),
            all == content@,
            seen <= n,
            it.remaining() == all.subrange(seen as int, n as int),
            newlines == newline_count(all.subrange(0, seen as int)),
            seen > 0 ==> last == all[seen - 1],
            it.obeys_prophetic_iter_laws(),
        ensures
            seen == n,
            newlines == newline_count(all),
            n > 0 ==> last == all[n - 1],
        decreases n - seen,
    {
        let ghost before = all.subrange(0, seen as int);
        match it.next() {
            Some(c) => {
                proof {
                    lemma_newline_count_bound(before);
                    assert(all.subrange(0, seen + 1).drop_last() =~= before);
                }
                if c == '\n' {
                    newlines = newlines + 1;
                }
                last = c;
                seen = seen + 1;
            },
            None => {
                assert(before =~= all);
                break;
            },
        }
    }
    if n > 0 && last != '\n' {
        proof { lemma_newline_count_bound(all.drop_last()); }
        newlines + 1
    } else {
        newlines
    }
}

/// The type tag of a text document: its extension in lower case, `txt`
/// where it has none.
pub open spec fn text_type_of(path: Seq<char>) -> Seq<char> {
    match extension_of(path) {
        Some(e) => lower_of(e),
        None => "txt"@,
    }
}

/// Statistics of the document at `path` whose text is `content`.
pub fn get_text_info(path: &str, content: &str) -> (r: TextInfo)
    ensures
        r.filename@ == file_name_of(path@),
        r.file_type@ == text_type_of(path@),
        r.char_count == content@.len(),
        r.line_count == line_count_of(content@),
{
    let file_type = match extension(path) {
        Some(e) => lowercase(e.as_str()),
        None => String::from_str("txt"),
    };
    proof { reveal_strlit("txt"); }
    TextInfo {
        filename: file_name(path),
        file_type,
        char_count: content.unicode_len(),
        line_count: count_lines(content),
    }
}

} // verus!
