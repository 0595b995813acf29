//! Pages of a zip container: which entries are pages, in what order, and
//! how one page is handed out as an inline `data:` URI.
use crate::formats::{
    decimal, decimal_of, is_dir_entry, is_dir_name, is_image_file, is_image_name,
    mime_for_filename, mime_of,
};
use crate::naming::{
    lemma_natural_sort, lemma_nat_order_antisym, lemma_nat_order_equal, lemma_sort_prefix_complete,
    nat_order, natural_order, natural_sort,
};
use std::cmp::Ordering;
use crate::paths::{file_name, file_name_of};
use crate::tts::base64_decoded;
use base64::engine::general_purpose::STANDARD as BASE64;
use base64::Engine;
use std::io::Cursor;
use std::io::Read;
use vstd::prelude::*;
use zip::ZipArchive;

verus! {

#[verifier::external_type_specification]
#[verifier::external_body]
#[verifier::reject_recursive_types(T)]
pub struct ExCursor<T>(Cursor<T>);

#[verifier::external_type_specification]
#[verifier::external_body]
#[verifier::reject_recursive_types(R)]
pub struct ExZipArchive<R>(ZipArchive<R>);

/// A zip container read from bytes held in memory.
pub type Archive = ZipArchive<Cursor<Vec<u8>>>;

/// The bytes an opened archive reads from.
pub uninterp spec fn archive_source(a: ZipArchive<Cursor<Vec<u8>>>) -> Seq<u8>;

/// The entry names of the zip container held in `data`, in the order of its
/// central directory; none where it is not a zip container.
pub uninterp spec fn zip_names(data: Seq<u8>) -> Option<Seq<Seq<char>>>;

/// The uncompressed bytes of entry `i` of the zip container held in `data`;
/// none where they cannot be read or decompressed.
pub uninterp spec fn zip_entry(data: Seq<u8>, i: int) -> Option<Seq<u8>>;

/// Standard base64, with padding, of a byte string.
pub uninterp spec fn base64_of(b: Seq<u8>) -> Seq<char>;

/// The entry names of an opened archive.
pub open spec fn entry_names(a: Archive) -> Seq<Seq<char>> {
    zip_names(archive_source(a))->0
}

/// The uncompressed bytes of entry `i` of an opened archive.
pub open spec fn entry_data(a: Archive, i: int) -> Seq<u8> {
    zip_entry(archive_source(a), i)->0
}

/// Entry `i` of the container in `data` reads, and is small enough to
/// encode.
pub open spec fn entry_loads(data: Seq<u8>, i: int) -> bool {
    zip_entry(data, i) is Some && zip_entry(data, i)->0.len() < usize::MAX / 2
}

/// The inline asset of entry `i` of the container in `data`, whose entry
/// names are `names`.
pub open spec fn entry_asset(data: Seq<u8>, names: Seq<Seq<char>>, i: int) -> Seq<char> {
    data_uri(mime_of(names[i]), base64_of(zip_entry(data, i)->0))
}

/// Relies on zip::ZipArchive::new, which reads the central directory of the
/// container from the bytes alone; its error is kept as its message.
#[verifier::external_body]
fn open_archive(data: Vec<u8>) -> (r: Result<Archive, String>)
    ensures
        r is Ok <==> zip_names(data@) is Some,
        r matches Ok(a) ==> archive_source(a) == data@,
{
    ZipArchive::new(Cursor::new(data)).map_err(|e| e.to_string())
}

/// Relies on zip::ZipArchive::len: the number of entries of the central
/// directory.
#[verifier::external_body]
fn entry_count(a: &Archive) -> (r: usize)
    ensures
        r == zip_names(archive_source(*a))->0.len(),
{
    a.len()
}

/// Relies on zip::ZipArchive::name_for_index: the name of entry `i`, and
/// nothing past the last entry. It reads no entry data.
#[verifier::external_body]
fn entry_name(a: &Archive, i: usize) -> (r: Option<String>)
    ensures
        i < entry_names(*a).len() ==> r is Some && r->0@ == entry_names(*a)[i as int],
        i >= entry_names(*a).len() ==> r is None,
{
    a.name_for_index(i).map(|n| n.to_string())
}

/// Relies on zip::ZipArchive::by_index and the `Read` impl of the entry it
/// returns: the whole uncompressed entry, or an error where the index is
/// past the last entry or the entry cannot be read or decompressed. The
/// archive reads the same bytes afterwards.
#[verifier::external_body]
fn read_entry(a: &mut Archive, i: usize) -> (r: Result<Vec<u8>, String>)
    ensures
        archive_source(*final(a)) == archive_source(*old(a)),
        i < entry_names(*old(a)).len() ==> (r is Ok <==> zip_entry(archive_source(*old(a)), i as int) is Some),
        r matches Ok(b) ==> b@ == zip_entry(archive_source(*old(a)), i as int)->0,
        i >= entry_names(*old(a)).len() ==> r is Err,
{
    let mut file = a.by_index(i).map_err(|e| e.to_string())?;
    let mut buf = Vec::new();
    file.read_to_end(&mut buf).map_err(|e| e.to_string())?;
    Ok(buf)
}

/// Relies on base64's STANDARD engine `encode`: padded standard base64, four
/// characters for each started group of three bytes, which the same
/// engine's `decode` turns back into the bytes. Its length computation
/// panics only on overflow, which the bound leaves out.
#[verifier::external_body]
fn encode_base64(b: &Vec<u8>) -> (r: String)
    requires
        b@.len() < usize::MAX / 2,
    ensures
        r@ == base64_of(b@),
        r@.len() == 4 * ((b@.len() + 2) / 3),
        base64_decoded(r@) == Some(b@),
{
    BASE64.encode(b)
}

/// An entry that is a page: not a directory, and named like an image.
pub open spec fn is_page_name(name: Seq<char>) -> bool {
    !is_dir_name(name) && is_image_name(name)
}

/// The positions, among the first `n` entries, of those that are pages.
pub open spec fn page_positions(names: Seq<Seq<char>>, n: nat) -> Seq<int>
    decreases n,
{
    if n == 0 {
        Seq::empty()
    } else {
        let p = page_positions(names, (n - 1) as nat);
        if is_page_name(names[n - 1]) {
            p.push(n - 1)
        } else {
            p
        }
    }
}

/// The pages of a container with these entry names: the entry positions of
/// the pages, in natural order of their names.
pub open spec fn page_list(names: Seq<Seq<char>>) -> Seq<int> {
    let f = page_positions(names, names.len());
    natural_sort(f.map_values(|i: int| names[i])).map_values(|k: int| f[k])
}

/// `data:<mime>;base64,<payload>`
pub open spec fn data_uri(mime: Seq<char>, payload: Seq<char>) -> Seq<char> {
    "data:"@ + mime + ";base64,"@ + payload
}

/// The message of a request for a page past the last one.
pub open spec fn out_of_range_message(index: nat, total: nat) -> Seq<char> {
    "Page index "@ + decimal_of(index) + " out of range (total: "@ + decimal_of(total) + ")"@
}

/// The page index of a container: the positions of its image entries,
/// ordered naturally by entry name. Only entry names are read.
pub fn sorted_image_indices(a: &Archive) -> (r: Vec<usize>)
    ensures
        r@.map_values(|i: usize| i as int) == page_list(entry_names(*a)),
{
    let ghost names = entry_names(*a);
    let n = entry_count(a);
    let mut pos: Vec<usize> = Vec::new();
    let mut keys: Vec<String> = Vec::new();
    let mut i: usize = 0;
    while i < n
        invariant
            n == names.len(),
            names == entry_names(*a),
            i <= n,
            pos@.map_values(|v: usize| v as int) == page_positions(names, i as nat),
            keys@.len() == pos@.len(),
            forall|k: int| 0 <= k < keys@.len() ==> #[trigger] keys@[k]@ == names[pos@[k] as int],
            forall|k: int| 0 <= k < pos@.len() ==> #[trigger] pos@[k] < i,
        decreases n - i,
    {
        let name = match entry_name(a, i) {
            Some(s) => s,
            None => String::new(),
        };
        if !is_dir_entry(name.as_str()) && is_image_file(name.as_str()) {
            pos.push(i);
            keys.push(name);
        }
        assert(pos@.map_values(|v: usize| v as int) =~= page_positions(names, (i + 1) as nat));
        i = i + 1;
    }
    let ghost f = page_positions(names, n as nat);
    assert(keys@.map_values(|s: String| s@) =~= f.map_values(|j: int| names[j]));
    let order = natural_order(&keys);
    let mut r: Vec<usize> = Vec::new();
    let mut k: usize = 0;
    while k < order.len()
        invariant
            k <= order@.len(),
            order@.len() == keys@.len(),
            keys@.len() == pos@.len(),
            crate::naming::is_permutation(order@.map_values(|v: usize| v as int), keys@.len() as int),
            r@.len() == k,
            forall|j: int| 0 <= j < k ==> #[trigger] r@[j] == pos@[order@[j] as int],
        decreases order@.len() - k,
    {
        assert(order@.map_values(|v: usize| v as int)[k as int] == order@[k as int] as int);
        r.push(pos[order[k]]);
        k = k + 1;
    }
    assert(r@.map_values(|i: usize| i as int) =~= page_list(names));
    r
}

/// `data:<mime>;base64,<payload>` built from its parts.
fn make_data_uri(mime: &str, payload: &str) -> (r: String)
    ensures
        r@ == data_uri(mime@, payload@),
{
    let mut s = String::from_str("data:");
    s.append(mime);
    s.append(";base64,");
    s.append(payload);
    proof {
        reveal_strlit("data:");
        reveal_strlit(";base64,");
    }
    s
}

/// Entry `index` as an inline asset, typed by the suffix of its name. It
/// fails exactly where there is no such entry or its bytes cannot be read.
pub fn read_entry_as_base64(a: &mut Archive, index: usize) -> (r: Result<String, String>)
    ensures
        archive_source(*final(a)) == archive_source(*old(a)),
        index >= entry_names(*old(a)).len() ==> r is Err,
        index < entry_names(*old(a)).len() ==> (r is Ok <==> entry_loads(
            archive_source(*old(a)),
            index as int,
        )),
        r matches Ok(s) ==> s@ == entry_asset(archive_source(*old(a)), entry_names(*old(a)), index as int),
        r is Ok ==> base64_decoded(base64_of(entry_data(*old(a), index as int))) == Some(
            entry_data(*old(a), index as int),
        ),
{
    let buf = read_entry(a, index)?;
    let name = match entry_name(a, index) {
        Some(s) => s,
        None => String::new(),
    };
    if buf.len() >= usize::MAX / 2 {
        return Err(String::from_str("entry too large to encode"));
    }
    let payload = encode_base64(&buf);
    Ok(make_data_uri(mime_for_filename(name.as_str()), payload.as_str()))
}

/// The cover of an opened container: its first page, or the empty string
/// where it has no page.
pub fn cover_of(a: &mut Archive) -> (r: Result<String, String>)
    ensures
        ({
            let data = archive_source(*old(a));
            let names = entry_names(*old(a));
            let pages = page_list(names);
            &&& pages.len() == 0 ==> (r matches Ok(s) && s@.len() == 0)
            &&& pages.len() > 0 ==> (r is Ok <==> entry_loads(data, pages[0]))
            &&& pages.len() > 0 ==> (r matches Ok(s) ==> s@ == entry_asset(data, names, pages[0]))
        }),
{
    let ghost names = entry_names(*a);
    let pages = sorted_image_indices(a);
    if pages.len() == 0 {
        Ok(String::new())
    } else {
        assert(pages@.map_values(|i: usize| i as int)[0] == pages@[0] as int);
        proof {
            lemma_pages_are_images(names);
        }
        read_entry_as_base64(a, pages[0])
    }
}

/// Page `index` of an opened container, counting from zero in the page
/// order; an error naming the index and the page count where there is no
/// such page.
pub fn page_of(a: &mut Archive, index: usize) -> (r: Result<String, String>)
    ensures
        ({
            let data = archive_source(*old(a));
            let names = entry_names(*old(a));
            let pages = page_list(names);
            &&& index >= pages.len() ==> (r matches Err(e) && e@ == out_of_range_message(
                index as nat,
                pages.len(),
            ))
            &&& index < pages.len() ==> (r is Ok <==> entry_loads(data, pages[index as int]))
            &&& index < pages.len() ==> (r matches Ok(s) ==> s@ == entry_asset(
                data,
                names,
                pages[index as int],
            ))
        }),
{
    let ghost names = entry_names(*a);
    let pages = sorted_image_indices(a);
    if index >= pages.len() {
        let mut msg = String::from_str("Page index ");
        msg.append(decimal(index).as_str());
        msg.append(" out of range (total: ");
        msg.append(decimal(pages.len()).as_str());
        msg.append(")");
        proof {
            reveal_strlit("Page index ");
            reveal_strlit(" out of range (total: ");
            reveal_strlit(")");
        }
        Err(msg)
    } else {
        assert(pages@.map_values(|i: usize| i as int)[index as int] == pages@[index as int] as int);
        proof {
            lemma_pages_are_images(names);
        }
        read_entry_as_base64(a, pages[index])
    }
}

/// What the reader shows of a container before opening a page.
pub struct ComicInfo {
    pub filename: String,
    pub total_pages: usize,
}

/// The name and page count of an opened container found at `path`.
pub fn comic_info_of(path: &str, a: &Archive) -> (r: ComicInfo)
    ensures
        r.filename@ == file_name_of(path@),
        r.total_pages == page_list(entry_names(*a)).len(),
{
    let pages = sorted_image_indices(a);
    ComicInfo { filename: file_name(path), total_pages: pages.len() }
}

/// The cover of the container held in `data`: its first page, the empty
/// string where it has no page, and an error where `data` is no zip
/// container or the first page cannot be read.
pub fn get_cover(data: Vec<u8>) -> (r: Result<String, String>)
    ensures
        zip_names(data@) is None ==> r is Err,
        zip_names(data@) matches Some(names) ==> {
            let pages = page_list(names);
            &&& pages.len() == 0 ==> (r matches Ok(s) && s@.len() == 0)
            &&& pages.len() > 0 ==> (r is Ok <==> entry_loads(data@, pages[0]))
            &&& pages.len() > 0 ==> (r matches Ok(s) ==> s@ == entry_asset(data@, names, pages[0]))
        },
        r matches Ok(s) ==> s@.len() == 0 || s@.subrange(0, 11) == "data:image/"@,
{
    let mut a = open_archive(data)?;
    let ghost a0 = a;
    let r = cover_of(&mut a);
    proof {
        let pages = page_list(entry_names(a0));
        if pages.len() > 0 {
            lemma_uri_prefix(entry_names(a0)[pages[0]], base64_of(entry_data(a0, pages[0])));
        }
    }
    r
}

/// The name and page count of the container held in `data`, found at
/// `path`; an error where `data` is no zip container.
pub fn get_comic_info(path: &str, data: Vec<u8>) -> (r: Result<ComicInfo, String>)
    ensures
        r is Ok <==> zip_names(data@) is Some,
        r matches Ok(info) ==> info.filename@ == file_name_of(path@) && info.total_pages
            == page_list(zip_names(data@)->0).len(),
{
    let a = open_archive(data)?;
    Ok(comic_info_of(path, &a))
}

/// Page `index` of the container held in `data`: the index-th image entry
/// in natural order of names, as an inline asset. It fails where `data` is
/// no zip container, with the out-of-range message exactly where there is
/// no such page, and where that entry cannot be read.
pub fn load_page(data: Vec<u8>, index: usize) -> (r: Result<String, String>)
    ensures
        zip_names(data@) is None ==> r is Err,
        zip_names(data@) matches Some(names) ==> {
            let pages = page_list(names);
            &&& index >= pages.len() ==> (r matches Err(e) && e@ == out_of_range_message(
                index as nat,
                pages.len(),
            ))
            &&& index < pages.len() ==> (r is Ok <==> entry_loads(data@, pages[index as int]))
            &&& index < pages.len() ==> (r matches Ok(s) ==> s@ == entry_asset(
                data@,
                names,
                pages[index as int],
            ))
        },
        r matches Ok(s) ==> s@.subrange(0, 11) == "data:image/"@,
{
    let mut a = open_archive(data)?;
    let ghost a0 = a;
    let r = page_of(&mut a, index);
    proof {
        let pages = page_list(entry_names(a0));
        if index < pages.len() {
            let i = pages[index as int];
            lemma_uri_prefix(entry_names(a0)[i], base64_of(entry_data(a0, i)));
        }
    }
    r
}

/// Every inline page asset starts with `data:image/`.
proof fn lemma_uri_prefix(name: Seq<char>, payload: Seq<char>)
    ensures
        data_uri(mime_of(name), payload).subrange(0, 11) == "data:image/"@,
{
    reveal_strlit("data:");
    reveal_strlit(";base64,");
    reveal_strlit("data:image/");
    reveal_strlit("image/png");
    reveal_strlit("image/gif");
    reveal_strlit("image/bmp");
    reveal_strlit("image/webp");
    reveal_strlit("image/jpeg");
    assert(data_uri(mime_of(name), payload).subrange(0, 11) =~= "data:image/"@);
}

proof fn lemma_page_positions(names: Seq<Seq<char>>, n: nat)
    requires
        n <= names.len(),
    ensures
        forall|k: int|
            0 <= k < page_positions(names, n).len() ==> {
                let i = #[trigger] page_positions(names, n)[k];
                0 <= i < n && is_page_name(names[i])
            },
    decreases n,
{
    if n > 0 {
        lemma_page_positions(names, (n - 1) as nat);
        let p = page_positions(names, (n - 1) as nat);
        assert forall|k: int| 0 <= k < page_positions(names, n).len() implies {
            let i = #[trigger] page_positions(names, n)[k];
            0 <= i < n && is_page_name(names[i])
        } by {
            if k < p.len() {
                assert(page_positions(names, n)[k] == p[k]);
            }
        }
    }
}

/// Only pages are listed: every entry of the page index is an image entry
/// of the container, and not a directory.
pub proof fn lemma_pages_are_images(names: Seq<Seq<char>>)
    ensures
        forall|k: int|
            0 <= k < page_list(names).len() ==> {
                let i = #[trigger] page_list(names)[k];
                0 <= i < names.len() && is_page_name(names[i])
            },
{
    let f = page_positions(names, names.len());
    let keys = f.map_values(|i: int| names[i]);
    lemma_page_positions(names, names.len());
    lemma_natural_sort(keys, keys.len());
    assert forall|k: int| 0 <= k < page_list(names).len() implies {
        let i = #[trigger] page_list(names)[k];
        0 <= i < names.len() && is_page_name(names[i])
    } by {
        let o = natural_sort(keys);
        assert(0 <= o[k] < f.len());
        assert(page_list(names)[k] == f[o[k]]);
    }
}

/// The page index is sorted: of two pages, the earlier one's entry name
/// does not come after the later one's in natural order.
pub proof fn lemma_pages_sorted(names: Seq<Seq<char>>)
    ensures
        forall|i: int, j: int|
            0 <= i < j < page_list(names).len() ==> nat_order(
                names[#[trigger] page_list(names)[i]],
                names[#[trigger] page_list(names)[j]],
            ) != Ordering::Greater,
{
    let f = page_positions(names, names.len());
    let keys = f.map_values(|i: int| names[i]);
    let o = natural_sort(keys);
    lemma_natural_sort(keys, keys.len());
    assert forall|i: int, j: int| 0 <= i < j < page_list(names).len() implies nat_order(
        names[#[trigger] page_list(names)[i]],
        names[#[trigger] page_list(names)[j]],
    ) != Ordering::Greater by {
        assert(nat_order(keys[o[i]], keys[o[j]]) != Ordering::Greater);
        assert(page_list(names)[i] == f[o[i]]);
        assert(page_list(names)[j] == f[o[j]]);
    }
}

proof fn lemma_page_positions_order(names: Seq<Seq<char>>, n: nat)
    requires
        n <= names.len(),
    ensures
        forall|k1: int, k2: int|
            0 <= k1 < k2 < page_positions(names, n).len() ==> #[trigger] page_positions(names, n)[k1]
                < #[trigger] page_positions(names, n)[k2],
        forall|i: int| 0 <= i < n && is_page_name(names[i]) ==> #[trigger] page_positions(names, n).contains(i),
    decreases n,
{
    if n > 0 {
        lemma_page_positions_order(names, (n - 1) as nat);
        lemma_page_positions(names, (n - 1) as nat);
        let p = page_positions(names, (n - 1) as nat);
        let q = page_positions(names, n);
        assert forall|i: int| 0 <= i < n && is_page_name(names[i]) implies #[trigger] q.contains(i) by {
            if i == n - 1 {
                assert(q[q.len() - 1] == i);
            } else {
                assert(p.contains(i));
                let k = choose|k: int| 0 <= k < p.len() && p[k] == i;
                assert(q[k] == i);
            }
        }
    }
}

/// Every image entry that is not a directory is a page, listed once; a
/// page whose name comes naturally before another's is listed before it;
/// and of two pages with the same name, the one stored first is listed
/// first.
pub proof fn lemma_page_index_order(names: Seq<Seq<char>>)
    ensures
        forall|i: int|
            0 <= i < names.len() && is_page_name(names[i]) ==> #[trigger] page_list(names).contains(i),
        page_list(names).no_duplicates(),
        forall|p: int, q: int|
            0 <= p < page_list(names).len() && 0 <= q < page_list(names).len() && nat_order(
                names[#[trigger] page_list(names)[p]],
                names[#[trigger] page_list(names)[q]],
            ) == Ordering::Less ==> p < q,
        forall|p: int, q: int|
            0 <= p < page_list(names).len() && 0 <= q < page_list(names).len() && names[#[trigger] page_list(
                names,
            )[p]] == names[#[trigger] page_list(names)[q]] && page_list(names)[p] < page_list(names)[q]
                ==> p < q,
{
    let f = page_positions(names, names.len());
    let keys = f.map_values(|i: int| names[i]);
    let o = natural_sort(keys);
    let pl = page_list(names);
    lemma_page_positions(names, names.len());
    lemma_page_positions_order(names, names.len());
    lemma_natural_sort(keys, keys.len());
    lemma_sort_prefix_complete(keys, keys.len());
    assert forall|k: int| 0 <= k < pl.len() implies #[trigger] pl[k] == f[o[k]] && 0 <= o[k] < f.len() by {}
    assert forall|i: int| 0 <= i < names.len() && is_page_name(names[i]) implies #[trigger] pl.contains(i) by {
        assert(f.contains(i));
        let k0 = choose|k: int| 0 <= k < f.len() && f[k] == i;
        assert(o.contains(k0));
        let m = choose|m: int| 0 <= m < o.len() && o[m] == k0;
        assert(pl[m] == i);
    }
    assert(pl.no_duplicates()) by {
        assert forall|p: int, q: int| 0 <= p < pl.len() && 0 <= q < pl.len() && p != q implies pl[p] != pl[q] by {
            assert(o[p] != o[q]);
            if o[p] < o[q] {
                assert(f[o[p]] < f[o[q]]);
            } else {
                assert(f[o[q]] < f[o[p]]);
            }
        }
    }
    assert forall|p: int, q: int|
        0 <= p < pl.len() && 0 <= q < pl.len() && nat_order(names[#[trigger] pl[p]], names[#[trigger] pl[q]])
            == Ordering::Less implies p < q by {
        assert(keys[o[p]] == names[pl[p]]);
        assert(keys[o[q]] == names[pl[q]]);
        lemma_nat_order_antisym(names[pl[p]], names[pl[q]]);
        lemma_nat_order_equal(names[pl[p]], names[pl[q]]);
        if q < p {
            assert(nat_order(keys[o[q]], keys[o[p]]) != Ordering::Greater);
        }
    }
    assert forall|p: int, q: int|
        0 <= p < pl.len() && 0 <= q < pl.len() && names[#[trigger] pl[p]] == names[#[trigger] pl[q]]
            && pl[p] < pl[q] implies p < q by {
        assert(keys[o[p]] == names[pl[p]]);
        assert(keys[o[q]] == names[pl[q]]);
        if q < p {
            assert(o[q] < o[p]);
            assert(f[o[q]] < f[o[p]]);
        }
    }
}

/// The page index is a function of the entry names alone: two containers
/// with the same entry names, such as one container read twice, list the
/// same pages in the same order.
pub proof fn lemma_page_index_stable(a: Archive, b: Archive)
    requires
        entry_names(a) == entry_names(b),
    ensures
        page_list(entry_names(a)) == page_list(entry_names(b)),
{
}

/// A page asset is never empty, and it is typed by the extension of its
/// entry: it starts with `data:`, the mime type of the entry name, and
/// `;base64,`.
pub proof fn lemma_page_asset(a: Archive, index: int)
    requires
        0 <= index < page_list(entry_names(a)).len(),
    ensures
        ({
            let i = page_list(entry_names(a))[index];
            let prefix = "data:"@ + mime_of(entry_names(a)[i]) + ";base64,"@;
            &&& entry_asset(archive_source(a), entry_names(a), i).len() > 0
            &&& entry_asset(archive_source(a), entry_names(a), i).subrange(0, prefix.len() as int)
                == prefix
        }),
{
    let i = page_list(entry_names(a))[index];
    let prefix = "data:"@ + mime_of(entry_names(a)[i]) + ";base64,"@;
    reveal_strlit("data:");
    assert(entry_asset(archive_source(a), entry_names(a), i).subrange(0, prefix.len() as int)
        =~= prefix);
}

/// The message for a page past the last one names the requested index and
/// the page count, each in decimal.
pub proof fn lemma_out_of_range_message(index: nat, total: nat)
    ensures
        ({
            let m = out_of_range_message(index, total);
            let di = decimal_of(index);
            let dt = decimal_of(total);
            let at = 11 + di.len() as int + 22;
            &&& m.subrange(11, 11 + di.len() as int) == di
            &&& m.subrange(at, at + dt.len()) == dt
        }),
{
    reveal_strlit("Page index ");
    reveal_strlit(" out of range (total: ");
    reveal_strlit(")");
    let m = out_of_range_message(index, total);
    let di = decimal_of(index);
    let dt = decimal_of(total);
    let at = 11 + di.len() as int + 22;
    assert(m.subrange(11, 11 + di.len() as int) =~= di);
    assert(m.subrange(at, at + dt.len()) =~= dt);
}

} // verus!
