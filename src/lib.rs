//! A catalog and page server for a comic and text reader: it finds the
//! documents below a folder, orders the pages of zip containers naturally,
//! hands single pages out as inline `data:` URIs, and measures text
//! documents.
use vstd::prelude::*;

pub mod archive;
pub mod catalog;
pub mod formats;
pub mod naming;
pub mod paths;
pub mod text;
pub mod tts;

pub use archive::{
    comic_info_of, cover_of, get_comic_info, get_cover, load_page, page_of,
    read_entry_as_base64, sorted_image_indices, Archive, ComicInfo,
};
pub use catalog::{scan_folder, ComicEntry};
pub use formats::{classify_extension, decimal, is_image_file, mime_for_filename, ContainerType};
pub use naming::{natural_compare, natural_order, sorts_after};
pub use text::{count_lines, get_text_info, TextInfo};

verus! {

} // verus!
