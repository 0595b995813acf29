//! The catalog of a folder: the documents found below it, named relative to
//! it and in natural order of those names. No document is opened.
use crate::formats::{classify_extension, container_of, ContainerType};
use crate::naming::{natural_order, natural_sort};
use crate::paths::{extension, extension_of, relative_of, relative_path};
use vstd::prelude::*;

verus! {

/// One document of a catalog. `cover_base64` stays empty until the cover
/// is asked for.
pub struct ComicEntry {
    pub filename: String,
    pub path: String,
    pub cover_base64: String,
    pub file_type: String,
}

/// The kind of document that a path names, if any.
pub open spec fn document_kind(path: Seq<char>) -> Option<ContainerType> {
    match extension_of(path) {
        Some(e) => container_of(e),
        None => None,
    }
}

/// The positions, among the first `n` files, of those that are documents.
pub open spec fn document_positions(files: Seq<Seq<char>>, n: nat) -> Seq<int>
    decreases n,
{
    if n == 0 {
        Seq::empty()
    } else {
        let p = document_positions(files, (n - 1) as nat);
        if document_kind(files[n - 1]) is Some {
            p.push(n - 1)
        } else {
            p
        }
    }
}

/// The files of a catalog of `root`, as positions in `files`: the documents,
/// in natural order of their names relative to `root`.
pub open spec fn catalog_order(root: Seq<char>, files: Seq<Seq<char>>) -> Seq<int> {
    let d = document_positions(files, files.len());
    natural_sort(d.map_values(|i: int| relative_of(files[i], root))).map_values(|k: int| d[k])
}

/// `e` is the catalog entry of the document at `path` below `root`.
pub open spec fn describes(e: ComicEntry, root: Seq<char>, path: Seq<char>) -> bool {
    &&& e.filename@ == relative_of(path, root)
    &&& e.path@ == path
    &&& e.cover_base64@.len() == 0
    &&& document_kind(path) is Some
    &&& e.file_type@ == document_kind(path)->0.tag_spec()
}

/// The catalog of the folder `root`, given every file path found below it.
/// Fails when `root` is not a folder.
pub fn scan_folder(root: &str, root_is_dir: bool, files: &Vec<String>) -> (r: Result<
    Vec<ComicEntry>,
    String,
>)
    ensures
        !root_is_dir ==> (r matches Err(e) && e@ == "Not a directory: "@ + root@),
        root_is_dir ==> (r matches Ok(entries) && entries@.len() == catalog_order(
            root@,
            files@.map_values(|f: String| f@),
        ).len() && forall|k: int|
            0 <= k < entries@.len() ==> describes(
                #[trigger] entries@[k],
                root@,
                files@[catalog_order(root@, files@.map_values(|f: String| f@))[k]]@,
            )),
{
    if !root_is_dir {
        let mut msg = String::from_str("Not a directory: ");
        msg.append(root);
        proof { reveal_strlit("Not a directory: "); }
        return Err(msg);
    }
    let ghost fs = files@.map_values(|f: String| f@);
    let mut pos: Vec<usize> = Vec::new();
    let mut names: Vec<String> = Vec::new();
    let mut kinds: Vec<ContainerType> = Vec::new();
    let mut i: usize = 0;
    while i < files.len()
        invariant
            fs == files@.map_values(|f: String| f@),
            i <= files@.len(),
            pos@.map_values(|v: usize| v as int) == document_positions(fs, i as nat),
            names@.len() == pos@.len(),
            kinds@.len() == pos@.len(),
            forall|k: int| 0 <= k < pos@.len() ==> #[trigger] pos@[k] < i,
            forall|k: int|
                0 <= k < names@.len() ==> #[trigger] names@[k]@ == relative_of(fs[pos@[k] as int], root@),
            forall|k: int|
                0 <= k < kinds@.len() ==> document_kind(fs[pos@[k] as int]) == Some(#[trigger] kinds@[k]),
        decreases files@.len() - i,
    {
        let path = files[i].as_str();
        let kind = match extension(path) {
            Some(e) => classify_extension(e.as_str()),
            None => None,
        };
        match kind {
            Some(t) => {
                pos.push(i);
                names.push(relative_path(path, root));
                kinds.push(t);
            },
            None => {},
        }
        assert(pos@.map_values(|v: usize| v as int) =~= document_positions(fs, (i + 1) as nat));
        i = i + 1;
    }
    let ghost d = document_positions(fs, fs.len());
    assert(names@.map_values(|s: String| s@) =~= d.map_values(|j: int| relative_of(fs[j], root@)));
    let order = natural_order(&names);
    let mut entries: Vec<ComicEntry> = Vec::new();
    let mut k: usize = 0;
    while k < order.len()
        invariant
            fs == files@.map_values(|f: String| f@),
            k <= order@.len(),
            order@.len() == names@.len(),
            names@.len() == pos@.len(),
            kinds@.len() == pos@.len(),
            pos@.map_values(|v: usize| v as int) == d,
            d == document_positions(fs, fs.len()),
            forall|j: int| 0 <= j < pos@.len() ==> #[trigger] pos@[j] < files@.len(),
            forall|j: int|
                0 <= j < names@.len() ==> #[trigger] names@[j]@ == relative_of(fs[pos@[j] as int], root@),
            forall|j: int|
                0 <= j < kinds@.len() ==> document_kind(fs[pos@[j] as int]) == Some(#[trigger] kinds@[j]),
            crate::naming::is_permutation(order@.map_values(|v: usize| v as int), names@.len() as int),
            order@.map_values(|v: usize| v as int) == natural_sort(
                d.map_values(|j: int| relative_of(fs[j], root@)),
            ),
            entries@.len() == k,
            forall|j: int|
                0 <= j < k ==> describes(#[trigger] entries@[j], root@, fs[pos@[order@[j] as int] as int]),
        decreases order@.len() - k,
    {
        assert(order@.map_values(|v: usize| v as int)[k as int] == order@[k as int] as int);
        let o = order[k];
        let p = pos[o];
        let t = kinds[o];
        entries.push(
            ComicEntry {
                filename: names[o].clone(),
                path: files[p].clone(),
                cover_base64: String::new(),
                file_type: String::from_str(t.tag()),
            },
        );
        k = k + 1;
    }
    proof {
        let c = catalog_order(root@, fs);
        assert forall|j: int| 0 <= j < entries@.len() implies c[j] == pos@[order@[j] as int] as int by {
            assert(order@.map_values(|v: usize| v as int)[j] == order@[j] as int);
            assert(pos@.map_values(|v: usize| v as int)[order@[j] as int] == pos@[order@[j] as int] as int);
        }
        assert forall|j: int| 0 <= j < entries@.len() implies describes(
            #[trigger] entries@[j],
            root@,
            files@[c[j]]@,
        ) by {
            assert(order@.map_values(|v: usize| v as int)[j] == order@[j] as int);
            assert(pos@.map_values(|v: usize| v as int)[order@[j] as int] == pos@[order@[j] as int] as int);
            assert(fs[c[j]] == files@[c[j]]@);
        }
    }
    Ok(entries)
}

} // verus!
