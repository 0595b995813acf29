use base64::engine::general_purpose::STANDARD;
use base64::Engine;
use comic_reader::{
    classify_extension, count_lines, decimal, get_comic_info, get_cover, get_text_info,
    is_image_file, load_page, mime_for_filename, natural_compare, natural_order, scan_folder, sorts_after,
    ContainerType,
};
use std::cmp::Ordering;
use std::io::{Cursor, Write};
use zip::write::SimpleFileOptions;
use zip::ZipWriter;

fn make_zip(files: &[(&str, &[u8])]) -> Vec<u8> {
    let mut w = ZipWriter::new(Cursor::new(Vec::new()));
    for (name, data) in files {
        w.start_file(*name, SimpleFileOptions::default()).unwrap();
        w.write_all(data).unwrap();
    }
    w.finish().unwrap().into_inner()
}

fn comic_zip() -> Vec<u8> {
    make_zip(&[
        ("03.jpg", b"third page"),
        ("1.jpg", b"first page"),
        ("2.jpg", b"second page"),
        ("readme.txt", b"not a page"),
    ])
}

fn strings(v: &[&str]) -> Vec<String> {
    v.iter().map(|s| s.to_string()).collect()
}

#[test]
fn page2_sorts_before_page10() {
    assert_eq!(natural_compare("page2", "page10"), Ordering::Less);
    assert_eq!(natural_compare("page10", "page2"), Ordering::Greater);
    assert!(sorts_after("page10", "page2"));
    assert!(!sorts_after("page2", "page10"));
    assert_eq!(natural_order(&strings(&["page10", "page2"])), vec![1, 0]);
}

#[test]
fn equal_names_compare_equal() {
    assert_eq!(natural_compare("a", "a"), Ordering::Equal);
    assert_eq!(natural_compare("03", "3"), Ordering::Less);
    assert_eq!(natural_compare("3.jpg", "03.jpg"), Ordering::Greater);
    assert_eq!(natural_compare("007.jpg", "1.jpg"), Ordering::Greater);
    assert_eq!(natural_compare("a1", "ab"), Ordering::Less);
    assert_eq!(natural_compare("page", "page1"), Ordering::Less);
    assert_eq!(natural_compare("x99999999999999999999999", "x100000000000000000000000"), Ordering::Less);
    assert!(!sorts_after("a", "a"));
}

#[test]
fn natural_order_chains() {
    assert_eq!(natural_order(&strings(&["page10", "page1", "page2"])), vec![1, 2, 0]);
    assert!(sorts_after("page10", "page1"));
}

#[test]
fn natural_order_keeps_ties_in_place() {
    assert_eq!(natural_order(&strings(&["b", "a", "b"])), vec![1, 0, 2]);
    assert_eq!(natural_order(&Vec::new()), Vec::<usize>::new());
}

#[test]
fn image_names_match_regardless_of_case() {
    assert!(is_image_file("a.JPG"));
    assert!(is_image_file("dir/x.webp"));
    assert!(is_image_file("scan.Jpeg"));
    assert!(!is_image_file("notes.txt"));
    assert!(!is_image_file(""));
    assert!(!is_image_file("xjpg"));
    assert!(!is_image_file("a.xjpg"));
    assert!(!is_image_file("png"));
    assert!(is_image_file(".png"));
}

#[test]
fn mime_follows_final_extension() {
    assert_eq!(mime_for_filename("p.PNG"), "image/png");
    assert_eq!(mime_for_filename("p.gif"), "image/gif");
    assert_eq!(mime_for_filename("p.bmp"), "image/bmp");
    assert_eq!(mime_for_filename("p.webp"), "image/webp");
    assert_eq!(mime_for_filename("p.jpeg"), "image/jpeg");
    assert_eq!(mime_for_filename("a.png.jpg"), "image/jpeg");
}

#[test]
fn document_extensions_classified() {
    assert_eq!(classify_extension("ZIP"), Some(ContainerType::Zip));
    assert_eq!(classify_extension("Md"), Some(ContainerType::Markdown));
    assert_eq!(classify_extension("txt"), Some(ContainerType::Text));
    assert_eq!(classify_extension("pdf"), None);
    assert_eq!(classify_extension("zipx"), None);
}

#[test]
fn decimal_writes_digits() {
    assert_eq!(decimal(0), "0");
    assert_eq!(decimal(7), "7");
    assert_eq!(decimal(1234), "1234");
}

#[test]
fn lines_counted_like_text_lines() {
    assert_eq!(count_lines(""), 0);
    assert_eq!(count_lines("a\n"), 1);
    assert_eq!(count_lines("a\n\nb"), 3);
    assert_eq!(count_lines("\n"), 1);
}

#[test]
fn text_info_of_two_lines() {
    let info = get_text_info("/library/notes.MD", "hi\nworld");
    assert_eq!(info.line_count, 2);
    assert_eq!(info.char_count, 8);
    assert_eq!(info.filename, "notes.MD");
    assert_eq!(info.file_type, "md");
}

#[test]
fn text_info_counts_chars_not_bytes() {
    let info = get_text_info("/library/README", "h\u{e9}llo");
    assert_eq!(info.char_count, 5);
    assert_eq!(info.line_count, 1);
    assert_eq!(info.file_type, "txt");
    assert_eq!(info.filename, "README");
}

#[test]
fn non_image_entries_are_not_pages() {
    let data = make_zip(&[("notes.txt", b"x"), ("1.png", b"y")]);
    let info = get_comic_info("/library/a.zip", data).unwrap();
    assert_eq!(info.total_pages, 1);
    assert_eq!(info.filename, "a.zip");
}

#[test]
fn directory_entries_are_not_pages() {
    let mut w = ZipWriter::new(Cursor::new(Vec::new()));
    w.add_directory("folder.png/", SimpleFileOptions::default()).unwrap();
    w.start_file("folder.png/1.png", SimpleFileOptions::default()).unwrap();
    w.write_all(b"y").unwrap();
    let data = w.finish().unwrap().into_inner();
    assert_eq!(get_comic_info("c.zip", data).unwrap().total_pages, 1);
}

#[test]
fn comic_scenario() {
    let data = comic_zip();
    let info = get_comic_info("/library/comic.zip", data.clone()).unwrap();
    assert_eq!(info.total_pages, 3);
    assert_eq!(info.filename, "comic.zip");
    let first = load_page(data.clone(), 0).unwrap();
    assert_eq!(first, format!("data:image/jpeg;base64,{}", STANDARD.encode(b"first page")));
    let third = load_page(data, 2).unwrap();
    assert_eq!(third, format!("data:image/jpeg;base64,{}", STANDARD.encode(b"third page")));
}

#[test]
fn catalog_scenario() {
    let files = strings(&["/library/notes.md", "/library/comic.zip", "/library/cover.png"]);
    let entries = scan_folder("/library", true, &files).unwrap();
    assert_eq!(entries.len(), 2);
    assert_eq!(entries[0].filename, "comic.zip");
    assert_eq!(entries[0].path, "/library/comic.zip");
    assert_eq!(entries[0].file_type, "zip");
    assert_eq!(entries[0].cover_base64, "");
    assert_eq!(entries[1].filename, "notes.md");
    assert_eq!(entries[1].file_type, "md");
}

#[test]
fn catalog_orders_nested_names_naturally() {
    let files = strings(&["/r/vol10/a.TXT", "/r/vol2/b.txt", "/r/c.Zip"]);
    let entries = scan_folder("/r", true, &files).unwrap();
    let names: Vec<&str> = entries.iter().map(|e| e.filename.as_str()).collect();
    assert_eq!(names, vec!["c.Zip", "vol2/b.txt", "vol10/a.TXT"]);
    assert_eq!(entries[0].file_type, "zip");
    assert_eq!(entries[2].file_type, "txt");
}

#[test]
fn catalog_outside_root_keeps_full_path() {
    let files = strings(&["/elsewhere/x.md"]);
    let entries = scan_folder("/r", true, &files).unwrap();
    assert_eq!(entries[0].filename, "/elsewhere/x.md");
}

#[test]
fn scan_of_non_directory_fails() {
    let err = scan_folder("/x/file.txt", false, &Vec::new()).err().unwrap();
    assert_eq!(err, "Not a directory: /x/file.txt");
}

#[test]
fn every_page_in_range_loads() {
    let data = comic_zip();
    let total = get_comic_info("comic.zip", data.clone()).unwrap().total_pages;
    for i in 0..total {
        let page = load_page(data.clone(), i).unwrap();
        assert!(page.starts_with("data:image/jpeg;base64,"));
        assert!(page.len() > "data:image/jpeg;base64,".len());
    }
}

#[test]
fn page_past_the_end_is_out_of_range() {
    let err = load_page(comic_zip(), 3).err().unwrap();
    assert_eq!(err, "Page index 3 out of range (total: 3)");
    assert!(err.contains('3'));
    let err = load_page(comic_zip(), 12).err().unwrap();
    assert_eq!(err, "Page index 12 out of range (total: 3)");
}

#[test]
fn listing_twice_gives_the_same_pages() {
    let data = comic_zip();
    let a = get_comic_info("comic.zip", data.clone()).unwrap();
    let b = get_comic_info("comic.zip", data.clone()).unwrap();
    assert_eq!(a.total_pages, b.total_pages);
    assert_eq!(load_page(data.clone(), 1).unwrap(), load_page(data, 1).unwrap());
}

#[test]
fn cover_is_first_page() {
    let data = comic_zip();
    assert_eq!(
        get_cover(data.clone()).unwrap(),
        format!("data:image/jpeg;base64,{}", STANDARD.encode(b"first page"))
    );
    assert_eq!(get_cover(data.clone()).unwrap(), load_page(data, 0).unwrap());
}

#[test]
fn cover_of_archive_without_images_is_empty() {
    let data = make_zip(&[("readme.txt", b"no pages here")]);
    assert_eq!(get_cover(data).unwrap(), "");
}

#[test]
fn png_page_is_typed_png() {
    let data = make_zip(&[("a.PNG", b"\x89PNG")]);
    let page = load_page(data, 0).unwrap();
    assert_eq!(page, format!("data:image/png;base64,{}", STANDARD.encode(b"\x89PNG")));
}

#[test]
fn corrupt_archive_is_an_error() {
    assert!(get_cover(vec![1, 2, 3]).is_err());
    assert!(get_comic_info("x.zip", vec![0; 10]).is_err());
    assert!(load_page(Vec::new(), 0).is_err());
}

#[test]
fn zero_padded_names_keep_one_order() {
    let a = make_zip(&[("03.jpg", b"zero three"), ("3.jpg", b"three")]);
    let b = make_zip(&[("3.jpg", b"three"), ("03.jpg", b"zero three")]);
    assert_eq!(load_page(a.clone(), 0).unwrap(), load_page(b.clone(), 0).unwrap());
    assert_eq!(load_page(a, 1).unwrap(), load_page(b, 1).unwrap());
}

#[test]
fn dotless_suffix_is_not_a_page() {
    let data = make_zip(&[("xjpg", b"x"), ("1.jpg", b"y")]);
    assert_eq!(get_comic_info("c.zip", data).unwrap().total_pages, 1);
}

#[test]
fn payload_decodes_to_entry_bytes() {
    let page = load_page(comic_zip(), 1).unwrap();
    let payload = page.strip_prefix("data:image/jpeg;base64,").unwrap();
    assert_eq!(STANDARD.decode(payload).unwrap(), b"second page".to_vec());
}
