//! Which names are pages, which files are documents, and the mime type of a
//! page. Extensions match regardless of ASCII case.
use vstd::prelude::*;

verus! {

/// `c` equals `d` up to ASCII case, where `d` is lower case.
pub open spec fn char_eq_ci(c: char, d: char) -> bool {
    c == d || ('a' <= d <= 'z' && c as u32 + 32 == d as u32)
}

/// `s` ends with `suf` up to ASCII case (`suf` is lower case).
pub open spec fn ends_with_ci(s: Seq<char>, suf: Seq<char>) -> bool {
    &&& suf.len() <= s.len()
    &&& forall|i: int| 0 <= i < suf.len() ==> char_eq_ci(#[trigger] s[s.len() - suf.len() + i], suf[i])
}

/// `s` equals `t` up to ASCII case (`t` is lower case).
pub open spec fn eq_ci(s: Seq<char>, t: Seq<char>) -> bool {
    s.len() == t.len() && ends_with_ci(s, t)
}

pub open spec fn is_image_name(name: Seq<char>) -> bool {
    ||| ends_with_ci(name, ".jpg"@)
    ||| ends_with_ci(name, ".jpeg"@)
    ||| ends_with_ci(name, ".png"@)
    ||| ends_with_ci(name, ".gif"@)
    ||| ends_with_ci(name, ".bmp"@)
    ||| ends_with_ci(name, ".webp"@)
}

/// An archive entry whose name ends in a slash or a backslash is a directory.
pub open spec fn is_dir_name(name: Seq<char>) -> bool {
    name.len() > 0 && (name.last() == '/' || name.last() == '\\')
}

pub open spec fn mime_of(name: Seq<char>) -> Seq<char> {
    if ends_with_ci(name, ".png"@) {
        "image/png"@
    } else if ends_with_ci(name, ".gif"@) {
        "image/gif"@
    } else if ends_with_ci(name, ".bmp"@) {
        "image/bmp"@
    } else if ends_with_ci(name, ".webp"@) {
        "image/webp"@
    } else {
        "image/jpeg"@
    }
}

fn char_matches(c: char, d: char) -> (r: bool)
    ensures
        r == char_eq_ci(c, d),
{
    c == d || ('a' <= d && d <= 'z' && (c as u32) + 32 == d as u32)
}

/// Whether `s` ends with `suf`, ignoring ASCII case in `s`.
pub fn has_suffix_ci(s: &str, suf: &str) -> (r: bool)
    ensures
        r == ends_with_ci(s@, suf@),
{
    let n = s.unicode_len();
    let m = suf.unicode_len();
    if m > n {
        return false;
    }
    let mut i: usize = 0;
    while i < m
        invariant
            m <= n,
            n == s@.len(),
            m == suf@.len(),
            i <= m,
            forall|k: int| 0 <= k < i ==> char_eq_ci(#[trigger] s@[n - m + k], suf@[k]),
        decreases m - i,
    {
        if !char_matches(s.get_char(n - m + i), suf.get_char(i)) {
            return false;
        }
        i = i + 1;
    }
    true
}

/// Whether `s` equals `t`, ignoring ASCII case in `s`.
pub fn equals_ci(s: &str, t: &str) -> (r: bool)
    ensures
        r == eq_ci(s@, t@),
{
    s.unicode_len() == t.unicode_len() && has_suffix_ci(s, t)
}

/// Whether an archive entry name is a page: its extension is one of jpg,
/// jpeg, png, gif, bmp or webp.
pub fn is_image_file(name: &str) -> (r: bool)
    ensures
        r == is_image_name(name@),
{
    has_suffix_ci(name, ".jpg") || has_suffix_ci(name, ".jpeg") || has_suffix_ci(name, ".png")
        || has_suffix_ci(name, ".gif") || has_suffix_ci(name, ".bmp") || has_suffix_ci(name, ".webp")
}

/// Whether an archive entry name denotes a directory.
pub fn is_dir_entry(name: &str) -> (r: bool)
    ensures
        r == is_dir_name(name@),
{
    let n = name.unicode_len();
    if n == 0 {
        false
    } else {
        let c = name.get_char(n - 1);
        c == '/' || c == '\\'
    }
}

/// The mime type of a page, from the final extension of its name; JPEG
/// where none other fits.
pub fn mime_for_filename(name: &str) -> (r: &'static str)
    ensures
        r@ == mime_of(name@),
{
    if has_suffix_ci(name, ".png") {
        "image/png"
    } else if has_suffix_ci(name, ".gif") {
        "image/gif"
    } else if has_suffix_ci(name, ".bmp") {
        "image/bmp"
    } else if has_suffix_ci(name, ".webp") {
        "image/webp"
    } else {
        "image/jpeg"
    }
}

/// The kinds of document that a scan recognizes.
#[derive(Clone, Copy, Debug, PartialEq, Eq, Structural)]
pub enum ContainerType {
    Zip,
    Markdown,
    Text,
}

pub open spec fn container_of(ext: Seq<char>) -> Option<ContainerType> {
    if eq_ci(ext, "zip"@) {
        Some(ContainerType::Zip)
    } else if eq_ci(ext, "md"@) {
        Some(ContainerType::Markdown)
    } else if eq_ci(ext, "txt"@) {
        Some(ContainerType::Text)
    } else {
        None
    }
}

impl ContainerType {
    pub open spec fn tag_spec(self) -> Seq<char> {
        match self {
            ContainerType::Zip => "zip"@,
            ContainerType::Markdown => "md"@,
            ContainerType::Text => "txt"@,
        }
    }

    /// The type tag that a catalog entry carries.
    pub fn tag(&self) -> (r: &'static str)
        ensures
            r@ == self.tag_spec(),
    {
        match self {
            ContainerType::Zip => "zip",
            ContainerType::Markdown => "md",
            ContainerType::Text => "txt",
        }
    }
}

/// The kind of document that a file extension names, if any.
pub fn classify_extension(ext: &str) -> (r: Option<ContainerType>)
    ensures
        r == container_of(ext@),
{
    if equals_ci(ext, "zip") {
        Some(ContainerType::Zip)
    } else if equals_ci(ext, "md") {
        Some(ContainerType::Markdown)
    } else if equals_ci(ext, "txt") {
        Some(ContainerType::Text)
    } else {
        None
    }
}

/// The decimal digits of `n`, most significant first.
pub open spec fn decimal_of(n: nat) -> Seq<char>
    decreases n,
{
    if n < 10 {
        seq![digit_char(n)]
    } else {
        decimal_of(n / 10) + seq![digit_char(n % 10)]
    }
}

pub open spec fn digit_char(d: nat) -> char {
    if d == 0 { '0' } else if d == 1 { '1' } else if d == 2 { '2' } else if d == 3 { '3' }
    else if d == 4 { '4' } else if d == 5 { '5' } else if d == 6 { '6' } else if d == 7 { '7' }
    else if d == 8 { '8' } else { '9' }
}

fn digit_str(d: usize) -> (r: &'static str)
    requires
        d < 10,
    ensures
        r@ == seq![digit_char(d as nat)],
{
    proof {
        reveal_strlit("0");
        reveal_strlit("1");
        reveal_strlit("2");
        reveal_strlit("3");
        reveal_strlit("4");
        reveal_strlit("5");
        reveal_strlit("6");
        reveal_strlit("7");
        reveal_strlit("8");
        reveal_strlit("9");
    }
    let r = if d == 0 { "0" } else if d == 1 { "1" } else if d == 2 { "2" } else if d == 3 { "3" }
    else if d == 4 { "4" } else if d == 5 { "5" } else if d == 6 { "6" } else if d == 7 { "7" }
    else if d == 8 { "8" } else { "9" };
    assert(r@ =~= seq![digit_char(d as nat)]);
    r
}

/// `n` written in decimal.
pub fn decimal(n: usize) -> (r: String)
    ensures
        r@ == decimal_of(n as nat),
    decreases n,
{
    if n < 10 {
        String::from_str(digit_str(n))
    } else {
        let mut s = decimal(n / 10);
        s.append(digit_str(n % 10));
        s
    }
}

} // verus!
