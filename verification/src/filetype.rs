//! File types by extension: the content type and description that a file is served with.
use crate::text::{chars_of, same_chars, same_text};
use vstd::prelude::*;
use vstd::string::*;

verus! {

/// What is known of the files with one extension.
#[derive(Debug, Clone, PartialEq, Eq)]
pub struct FileType {
    pub extension: String,
    pub content_type: String,
    pub description: String,
}

/// Number of rows of the table of known file types.
pub const KNOWN_TYPES: usize = 20;

/// Row `index` of the table of known file types: extension, content type, description.
pub open spec fn known_type(index: int) -> (Seq<char>, Seq<char>, Seq<char>) {
    if index == 0 {
        ("html"@, "text/html"@, "HTML Document"@)
    } else if index == 1 {
        ("htm"@, "text/html"@, "HTML Document"@)
    } else if index == 2 {
        ("css"@, "text/css"@, "Cascading Style Sheet"@)
    } else if index == 3 {
        ("js"@, "text/javascript"@, "JavaScript File"@)
    } else if index == 4 {
        ("json"@, "application/json"@, "JSON Document"@)
    } else if index == 5 {
        ("txt"@, "text/plain"@, "Text File"@)
    } else if index == 6 {
        ("md"@, "text/markdown"@, "Markdown Document"@)
    } else if index == 7 {
        ("csv"@, "text/csv"@, "Comma-Separated Values"@)
    } else if index == 8 {
        ("xml"@, "application/xml"@, "XML Document"@)
    } else if index == 9 {
        ("svg"@, "image/svg+xml"@, "SVG Image"@)
    } else if index == 10 {
        ("png"@, "image/png"@, "PNG Image"@)
    } else if index == 11 {
        ("jpg"@, "image/jpeg"@, "JPEG Image"@)
    } else if index == 12 {
        ("jpeg"@, "image/jpeg"@, "JPEG Image"@)
    } else if index == 13 {
        ("gif"@, "image/gif"@, "GIF Image"@)
    } else if index == 14 {
        ("ico"@, "image/x-icon"@, "Icon"@)
    } else if index == 15 {
        ("pdf"@, "application/pdf"@, "PDF Document"@)
    } else if index == 16 {
        ("wasm"@, "application/wasm"@, "WebAssembly Module"@)
    } else if index == 17 {
        ("zip"@, "application/zip"@, "ZIP Archive"@)
    } else if index == 18 {
        ("gz"@, "application/gzip"@, "Gzip Archive"@)
    } else {
        ("bin"@, "application/octet-stream"@, "Binary File"@)
    }
}

/// The content type of files whose kind is not known.
pub open spec fn fallback_content_type() -> Seq<char> {
    "application/octet-stream"@
}

/// Whether row `index` is the first of the table that has extension `extension`.
pub open spec fn is_first_row_for(extension: Seq<char>, index: int) -> bool {
    &&& 0 <= index < KNOWN_TYPES
    &&& known_type(index).0 == extension
    &&& forall|earlier: int| 0 <= earlier < index ==> (#[trigger] known_type(earlier)).0 != extension
}

/// Whether the table has a row for `extension`.
pub open spec fn is_known(extension: Seq<char>) -> bool {
    exists|index: int| 0 <= index < KNOWN_TYPES && (#[trigger] known_type(index)).0 == extension
}

/// How a file of content type `content_type` is handed to the user: files of unknown kind
/// are offered for download, all others are shown in place.
pub open spec fn disposition_of(content_type: Seq<char>) -> Seq<char> {
    if content_type == fallback_content_type() {
        "attachment"@
    } else {
        "inline"@
    }
}

/// The content type that a file with extension `extension` is served with.
pub open spec fn content_type_of(extension: Seq<char>) -> Seq<char> {
    if is_known(extension) {
        known_type(choose|index: int| is_first_row_for(extension, index)).1
    } else {
        fallback_content_type()
    }
}

/// Row `index` of the table of known file types.
fn table_row(index: usize) -> (row: (&'static str, &'static str, &'static str))
    requires
        index < KNOWN_TYPES,
    ensures
        (row.0@, row.1@, row.2@) == known_type(index as int),
{
    match index {
        0 => ("html", "text/html", "HTML Document"),
        1 => ("htm", "text/html", "HTML Document"),
        2 => ("css", "text/css", "Cascading Style Sheet"),
        3 => ("js", "text/javascript", "JavaScript File"),
        4 => ("json", "application/json", "JSON Document"),
        5 => ("txt", "text/plain", "Text File"),
        6 => ("md", "text/markdown", "Markdown Document"),
        7 => ("csv", "text/csv", "Comma-Separated Values"),
        8 => ("xml", "application/xml", "XML Document"),
        9 => ("svg", "image/svg+xml", "SVG Image"),
        10 => ("png", "image/png", "PNG Image"),
        11 => ("jpg", "image/jpeg", "JPEG Image"),
        12 => ("jpeg", "image/jpeg", "JPEG Image"),
        13 => ("gif", "image/gif", "GIF Image"),
        14 => ("ico", "image/x-icon", "Icon"),
        15 => ("pdf", "application/pdf", "PDF Document"),
        16 => ("wasm", "application/wasm", "WebAssembly Module"),
        17 => ("zip", "application/zip", "ZIP Archive"),
        18 => ("gz", "application/gzip", "Gzip Archive"),
        _ => ("bin", "application/octet-stream", "Binary File"),
    }
}

impl FileType {
    /// The three texts of the descriptor.
    pub open spec fn view(&self) -> (Seq<char>, Seq<char>, Seq<char>) {
        (self.extension@, self.content_type@, self.description@)
    }

    /// A descriptor with these three texts.
    pub fn new(extension: &str, content_type: &str, description: &str) -> (file_type: FileType)
        ensures
            file_type.view() == (extension@, content_type@, description@),
    {
        FileType {
            extension: String::from_str(extension),
            content_type: String::from_str(content_type),
            description: String::from_str(description),
        }
    }

    /// The descriptor of files whose kind is not known.
    pub fn fallback() -> (file_type: FileType)
        ensures
            file_type.view() == ("bin"@, fallback_content_type(), "Binary File"@),
    {
        FileType::new("bin", "application/octet-stream", "Binary File")
    }

    /// Looks `extension` up in the table of known file types: the first row that has it,
    /// or nothing. Extensions are matched as written, in lower case.
    pub fn from_extension(extension: &str) -> (found: Option<FileType>)
        ensures
            found is Some <==> is_known(extension@),
            found matches Some(file_type) ==> exists|index: int|
                is_first_row_for(extension@, index) && file_type.view() == known_type(index),
            found matches Some(file_type) ==> file_type.content_type@ == content_type_of(
                extension@,
            ),
    {
        let wanted = chars_of(extension);
        let mut index: usize = 0;
        while index < KNOWN_TYPES
            invariant
                index <= KNOWN_TYPES,
                wanted@ == extension@,
                forall|earlier: int|
                    0 <= earlier < index ==> (#[trigger] known_type(earlier)).0 != extension@,
            decreases KNOWN_TYPES - index,
        {
            let row = table_row(index);
            if same_chars(&chars_of(row.0), &wanted) {
                let file_type = FileType::new(row.0, row.1, row.2);
                proof {
                    assert(is_first_row_for(extension@, index as int));
                    let chosen = choose|i: int| is_first_row_for(extension@, i);
                    assert(chosen == index);
                }
                return Some(file_type);
            }
            index += 1;
        }
        None
    }

    /// The descriptor that a file with extension `extension` is served with: that of the
    /// table, or the fallback.
    pub fn resolve(extension: &str) -> (file_type: FileType)
        ensures
            file_type.content_type@ == content_type_of(extension@),
    {
        match FileType::from_extension(extension) {
            Some(file_type) => file_type,
            None => FileType::fallback(),
        }
    }

    /// The value of the `Content-Disposition` header for files of this type.
    pub fn content_disposition(&self) -> (disposition: &'static str)
        ensures
            disposition@ == disposition_of(self.content_type@),
    {
        if same_text(self.content_type.as_str(), "application/octet-stream") {
            "attachment"
        } else {
            "inline"
        }
    }
}

} // verus!
