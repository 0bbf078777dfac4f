//! Categories and automatic classification: extension → category →
//! subfolder below the download folder (such as `Downloads\Compressed`).

use vstd::prelude::*;
use crate::text::{
    after_last2, after_last2_start, chars_of, ends_with_ext, lemma_after_last_dot,
    lemma_lower_after_last_dot, lower_seq, lower_vec, slice_vec,
};

verus! {

#[derive(Debug, Clone, Copy, PartialEq, Eq, Structural)]
pub enum Category {
    Compressed,
    Documents,
    Music,
    Programs,
    Video,
    General,
}

/// Whether the characters of `v` spell `lit`.
pub fn eq_lit(v: &Vec<char>, lit: &str) -> (r: bool)
    ensures
        r == (v@ == lit@),
{
    let w = chars_of(lit);
    crate::text::vec_eq(v, &w)
}

/// The extension of a file name: the text after its last `.`, lower-cased;
/// empty when the name has no `.` (no known category has an empty
/// extension, so such a file is General).
pub open spec fn extension(name: Seq<char>) -> Seq<char> {
    if name.contains('.') {
        lower_seq(after_last2(name, '.', '.'))
    } else {
        Seq::<char>::empty()
    }
}

/// The category that a (lower-case) extension belongs to.
pub open spec fn category_of_ext(ext: Seq<char>) -> Category {
    if ext == "zip"@ || ext == "7z"@ || ext == "rar"@ || ext == "gz"@ || ext == "bz2"@ || ext
        == "xz"@ || ext == "tar"@ || ext == "tgz"@ {
        Category::Compressed
    } else if ext == "pdf"@ || ext == "doc"@ || ext == "docx"@ || ext == "xls"@ || ext == "xlsx"@
        || ext == "ppt"@ || ext == "pptx"@ || ext == "txt"@ || ext == "epub"@ {
        Category::Documents
    } else if ext == "mp3"@ || ext == "wav"@ || ext == "flac"@ || ext == "aac"@ || ext == "ogg"@
        || ext == "m4a"@ {
        Category::Music
    } else if ext == "exe"@ || ext == "msi"@ || ext == "msix"@ || ext == "bat"@ || ext == "cmd"@ {
        Category::Programs
    } else if ext == "mp4"@ || ext == "mkv"@ || ext == "avi"@ || ext == "mov"@ || ext == "webm"@
        || ext == "flv"@ || ext == "m4v"@ {
        Category::Video
    } else {
        Category::General
    }
}

/// Subfolder of a category; `None` means the download folder itself.
pub open spec fn folder_of(c: Category) -> Option<Seq<char>> {
    match c {
        Category::Compressed => Some("Compressed"@),
        Category::Documents => Some("Documents"@),
        Category::Music => Some("Music"@),
        Category::Programs => Some("Programs"@),
        Category::Video => Some("Video"@),
        Category::General => None,
    }
}

pub open spec fn label_of(c: Category) -> Seq<char> {
    match c {
        Category::Compressed => "Compressed"@,
        Category::Documents => "Documents"@,
        Category::Music => "Music"@,
        Category::Programs => "Programs"@,
        Category::Video => "Video"@,
        Category::General => "General"@,
    }
}

fn category_of_ext_exec(ext: &Vec<char>) -> (r: Category)
    ensures
        r == category_of_ext(ext@),
{
    if eq_lit(ext, "zip") || eq_lit(ext, "7z") || eq_lit(ext, "rar") || eq_lit(ext, "gz")
        || eq_lit(ext, "bz2") || eq_lit(ext, "xz") || eq_lit(ext, "tar") || eq_lit(ext, "tgz") {
        Category::Compressed
    } else if eq_lit(ext, "pdf") || eq_lit(ext, "doc") || eq_lit(ext, "docx") || eq_lit(ext, "xls")
        || eq_lit(ext, "xlsx") || eq_lit(ext, "ppt") || eq_lit(ext, "pptx") || eq_lit(ext, "txt")
        || eq_lit(ext, "epub") {
        Category::Documents
    } else if eq_lit(ext, "mp3") || eq_lit(ext, "wav") || eq_lit(ext, "flac") || eq_lit(ext, "aac")
        || eq_lit(ext, "ogg") || eq_lit(ext, "m4a") {
        Category::Music
    } else if eq_lit(ext, "exe") || eq_lit(ext, "msi") || eq_lit(ext, "msix") || eq_lit(ext, "bat")
        || eq_lit(ext, "cmd") {
        Category::Programs
    } else if eq_lit(ext, "mp4") || eq_lit(ext, "mkv") || eq_lit(ext, "avi") || eq_lit(ext, "mov")
        || eq_lit(ext, "webm") || eq_lit(ext, "flv") || eq_lit(ext, "m4v") {
        Category::Video
    } else {
        Category::General
    }
}

/// Lower-cased extension of the name held in `v`.
pub fn extension_vec(v: &Vec<char>) -> (r: Vec<char>)
    ensures
        r@ == extension(v@),
{
    if !crate::text::contains_char(v, '.') {
        return Vec::new();
    }
    let k = after_last2_start(v, 0, v.len(), '.', '.');
    assert(v@.subrange(0, v@.len() as int) =~= v@);
    let e = slice_vec(v, k, v.len());
    assert(e@ =~= after_last2(v@, '.', '.'));
    lower_vec(&e)
}

/// A name without an extension is General.
proof fn lemma_no_extension_is_general()
    ensures
        category_of_ext(Seq::<char>::empty()) == Category::General,
{
    let e = Seq::<char>::empty();
    assert(e != "7z"@) by {
        reveal_strlit("7z");
        assert(e.len() == 0 && "7z"@.len() > 0);
    }
    assert(e != "aac"@) by {
        reveal_strlit("aac");
        assert(e.len() == 0 && "aac"@.len() > 0);
    }
    assert(e != "avi"@) by {
        reveal_strlit("avi");
        assert(e.len() == 0 && "avi"@.len() > 0);
    }
    assert(e != "bat"@) by {
        reveal_strlit("bat");
        assert(e.len() == 0 && "bat"@.len() > 0);
    }
    assert(e != "bz2"@) by {
        reveal_strlit("bz2");
        assert(e.len() == 0 && "bz2"@.len() > 0);
    }
    assert(e != "cmd"@) by {
        reveal_strlit("cmd");
        assert(e.len() == 0 && "cmd"@.len() > 0);
    }
    assert(e != "doc"@) by {
        reveal_strlit("doc");
        assert(e.len() == 0 && "doc"@.len() > 0);
    }
    assert(e != "docx"@) by {
        reveal_strlit("docx");
        assert(e.len() == 0 && "docx"@.len() > 0);
    }
    assert(e != "epub"@) by {
        reveal_strlit("epub");
        assert(e.len() == 0 && "epub"@.len() > 0);
    }
    assert(e != "exe"@) by {
        reveal_strlit("exe");
        assert(e.len() == 0 && "exe"@.len() > 0);
    }
    assert(e != "flac"@) by {
        reveal_strlit("flac");
        assert(e.len() == 0 && "flac"@.len() > 0);
    }
    assert(e != "flv"@) by {
        reveal_strlit("flv");
        assert(e.len() == 0 && "flv"@.len() > 0);
    }
    assert(e != "gz"@) by {
        reveal_strlit("gz");
        assert(e.len() == 0 && "gz"@.len() > 0);
    }
    assert(e != "m4a"@) by {
        reveal_strlit("m4a");
        assert(e.len() == 0 && "m4a"@.len() > 0);
    }
    assert(e != "m4v"@) by {
        reveal_strlit("m4v");
        assert(e.len() == 0 && "m4v"@.len() > 0);
    }
    assert(e != "mkv"@) by {
        reveal_strlit("mkv");
        assert(e.len() == 0 && "mkv"@.len() > 0);
    }
    assert(e != "mov"@) by {
        reveal_strlit("mov");
        assert(e.len() == 0 && "mov"@.len() > 0);
    }
    assert(e != "mp3"@) by {
        reveal_strlit("mp3");
        assert(e.len() == 0 && "mp3"@.len() > 0);
    }
    assert(e != "mp4"@) by {
        reveal_strlit("mp4");
        assert(e.len() == 0 && "mp4"@.len() > 0);
    }
    assert(e != "msi"@) by {
        reveal_strlit("msi");
        assert(e.len() == 0 && "msi"@.len() > 0);
    }
    assert(e != "msix"@) by {
        reveal_strlit("msix");
        assert(e.len() == 0 && "msix"@.len() > 0);
    }
    assert(e != "ogg"@) by {
        reveal_strlit("ogg");
        assert(e.len() == 0 && "ogg"@.len() > 0);
    }
    assert(e != "pdf"@) by {
        reveal_strlit("pdf");
        assert(e.len() == 0 && "pdf"@.len() > 0);
    }
    assert(e != "ppt"@) by {
        reveal_strlit("ppt");
        assert(e.len() == 0 && "ppt"@.len() > 0);
    }
    assert(e != "pptx"@) by {
        reveal_strlit("pptx");
        assert(e.len() == 0 && "pptx"@.len() > 0);
    }
    assert(e != "rar"@) by {
        reveal_strlit("rar");
        assert(e.len() == 0 && "rar"@.len() > 0);
    }
    assert(e != "tar"@) by {
        reveal_strlit("tar");
        assert(e.len() == 0 && "tar"@.len() > 0);
    }
    assert(e != "tgz"@) by {
        reveal_strlit("tgz");
        assert(e.len() == 0 && "tgz"@.len() > 0);
    }
    assert(e != "txt"@) by {
        reveal_strlit("txt");
        assert(e.len() == 0 && "txt"@.len() > 0);
    }
    assert(e != "wav"@) by {
        reveal_strlit("wav");
        assert(e.len() == 0 && "wav"@.len() > 0);
    }
    assert(e != "webm"@) by {
        reveal_strlit("webm");
        assert(e.len() == 0 && "webm"@.len() > 0);
    }
    assert(e != "xls"@) by {
        reveal_strlit("xls");
        assert(e.len() == 0 && "xls"@.len() > 0);
    }
    assert(e != "xlsx"@) by {
        reveal_strlit("xlsx");
        assert(e.len() == 0 && "xlsx"@.len() > 0);
    }
    assert(e != "zip"@) by {
        reveal_strlit("zip");
        assert(e.len() == 0 && "zip"@.len() > 0);
    }
    assert(e != "xz"@) by {
        reveal_strlit("xz");
        assert(e.len() == 0 && "xz"@.len() > 0);
    }
}

impl Category {
    /// The category of a file, by the extension of its name; a name without
    /// a `.` has no extension and is General.
    pub fn from_filename(name: &str) -> (r: Category)
        ensures
            r == category_of_ext(extension(name@)),
            !name@.contains('.') ==> r == Category::General,
    {
        proof {
            lemma_no_extension_is_general();
        }
        let v = chars_of(name);
        let ext = extension_vec(&v);
        category_of_ext_exec(&ext)
    }

    /// Default subfolder; `None` puts the file in the download folder itself.
    pub fn folder(self) -> (r: Option<&'static str>)
        ensures
            r matches Some(s) ==> folder_of(self) == Some(s@),
            r is None <==> folder_of(self) is None,
    {
        match self {
            Category::Compressed => Some("Compressed"),
            Category::Documents => Some("Documents"),
            Category::Music => Some("Music"),
            Category::Programs => Some("Programs"),
            Category::Video => Some("Video"),
            Category::General => None,
        }
    }

    pub fn label(self) -> (r: &'static str)
        ensures
            r@ == label_of(self),
    {
        match self {
            Category::Compressed => "Compressed",
            Category::Documents => "Documents",
            Category::Music => "Music",
            Category::Programs => "Programs",
            Category::Video => "Video",
            Category::General => "General",
        }
    }
}

// ------------------------------------------------------------------
// The extension table
// ------------------------------------------------------------------

pub open spec fn compressed_ext(e: Seq<char>) -> bool {
    ||| e == "zip"@
    ||| e == "7z"@
    ||| e == "rar"@
    ||| e == "gz"@
    ||| e == "bz2"@
    ||| e == "xz"@
    ||| e == "tar"@
    ||| e == "tgz"@
}

pub open spec fn document_ext(e: Seq<char>) -> bool {
    ||| e == "pdf"@
    ||| e == "doc"@
    ||| e == "docx"@
    ||| e == "xls"@
    ||| e == "xlsx"@
    ||| e == "ppt"@
    ||| e == "pptx"@
    ||| e == "txt"@
    ||| e == "epub"@
}

pub open spec fn music_ext(e: Seq<char>) -> bool {
    ||| e == "mp3"@
    ||| e == "wav"@
    ||| e == "flac"@
    ||| e == "aac"@
    ||| e == "ogg"@
    ||| e == "m4a"@
}

pub open spec fn program_ext(e: Seq<char>) -> bool {
    ||| e == "exe"@
    ||| e == "msi"@
    ||| e == "msix"@
    ||| e == "bat"@
    ||| e == "cmd"@
}

pub open spec fn video_ext(e: Seq<char>) -> bool {
    ||| e == "mp4"@
    ||| e == "mkv"@
    ||| e == "avi"@
    ||| e == "mov"@
    ||| e == "webm"@
    ||| e == "flv"@
    ||| e == "m4v"@
}

proof fn lemma_table_literals()
    ensures
        !"zip"@.contains('.'),
        !"7z"@.contains('.'),
        !"rar"@.contains('.'),
        !"gz"@.contains('.'),
        !"bz2"@.contains('.'),
        !"xz"@.contains('.'),
        !"tar"@.contains('.'),
        !"tgz"@.contains('.'),
        !"pdf"@.contains('.'),
        !"doc"@.contains('.'),
        !"docx"@.contains('.'),
        !"xls"@.contains('.'),
        !"xlsx"@.contains('.'),
        !"ppt"@.contains('.'),
        !"pptx"@.contains('.'),
        !"txt"@.contains('.'),
        !"epub"@.contains('.'),
        !"mp3"@.contains('.'),
        !"wav"@.contains('.'),
        !"flac"@.contains('.'),
        !"aac"@.contains('.'),
        !"ogg"@.contains('.'),
        !"m4a"@.contains('.'),
        !"exe"@.contains('.'),
        !"msi"@.contains('.'),
        !"msix"@.contains('.'),
        !"bat"@.contains('.'),
        !"cmd"@.contains('.'),
        !"mp4"@.contains('.'),
        !"mkv"@.contains('.'),
        !"avi"@.contains('.'),
        !"mov"@.contains('.'),
        !"webm"@.contains('.'),
        !"flv"@.contains('.'),
        !"m4v"@.contains('.'),
        "zip"@ == seq!['z', 'i', 'p'],
        "7z"@ == seq!['7', 'z'],
        "rar"@ == seq!['r', 'a', 'r'],
        "gz"@ == seq!['g', 'z'],
        "bz2"@ == seq!['b', 'z', '2'],
        "xz"@ == seq!['x', 'z'],
        "tar"@ == seq!['t', 'a', 'r'],
        "tgz"@ == seq!['t', 'g', 'z'],
        "pdf"@ == seq!['p', 'd', 'f'],
        "doc"@ == seq!['d', 'o', 'c'],
        "docx"@ == seq!['d', 'o', 'c', 'x'],
        "xls"@ == seq!['x', 'l', 's'],
        "xlsx"@ == seq!['x', 'l', 's', 'x'],
        "ppt"@ == seq!['p', 'p', 't'],
        "pptx"@ == seq!['p', 'p', 't', 'x'],
        "txt"@ == seq!['t', 'x', 't'],
        "epub"@ == seq!['e', 'p', 'u', 'b'],
        "mp3"@ == seq!['m', 'p', '3'],
        "wav"@ == seq!['w', 'a', 'v'],
        "flac"@ == seq!['f', 'l', 'a', 'c'],
        "aac"@ == seq!['a', 'a', 'c'],
        "ogg"@ == seq!['o', 'g', 'g'],
        "m4a"@ == seq!['m', '4', 'a'],
        "exe"@ == seq!['e', 'x', 'e'],
        "msi"@ == seq!['m', 's', 'i'],
        "msix"@ == seq!['m', 's', 'i', 'x'],
        "bat"@ == seq!['b', 'a', 't'],
        "cmd"@ == seq!['c', 'm', 'd'],
        "mp4"@ == seq!['m', 'p', '4'],
        "mkv"@ == seq!['m', 'k', 'v'],
        "avi"@ == seq!['a', 'v', 'i'],
        "mov"@ == seq!['m', 'o', 'v'],
        "webm"@ == seq!['w', 'e', 'b', 'm'],
        "flv"@ == seq!['f', 'l', 'v'],
        "m4v"@ == seq!['m', '4', 'v'],
{
    reveal_strlit("zip");
    reveal_strlit("7z");
    reveal_strlit("rar");
    reveal_strlit("gz");
    reveal_strlit("bz2");
    reveal_strlit("xz");
    reveal_strlit("tar");
    reveal_strlit("tgz");
    reveal_strlit("pdf");
    reveal_strlit("doc");
    reveal_strlit("docx");
    reveal_strlit("xls");
    reveal_strlit("xlsx");
    reveal_strlit("ppt");
    reveal_strlit("pptx");
    reveal_strlit("txt");
    reveal_strlit("epub");
    reveal_strlit("mp3");
    reveal_strlit("wav");
    reveal_strlit("flac");
    reveal_strlit("aac");
    reveal_strlit("ogg");
    reveal_strlit("m4a");
    reveal_strlit("exe");
    reveal_strlit("msi");
    reveal_strlit("msix");
    reveal_strlit("bat");
    reveal_strlit("cmd");
    reveal_strlit("mp4");
    reveal_strlit("mkv");
    reveal_strlit("avi");
    reveal_strlit("mov");
    reveal_strlit("webm");
    reveal_strlit("flv");
    reveal_strlit("m4v");
}

/// Every name that ends (in any letter case) in `.` and an extension of the
/// table is sorted into that extension's category: archives into
/// Compressed, documents into Documents, audio into Music, installers and
/// scripts into Programs, video into Video.
pub proof fn law_extension_table(name: Seq<char>, e: Seq<char>)
    requires
        ends_with_ext(name, e),
    ensures
        compressed_ext(e) ==> category_of_ext(extension(name)) == Category::Compressed,
        document_ext(e) ==> category_of_ext(extension(name)) == Category::Documents,
        music_ext(e) ==> category_of_ext(extension(name)) == Category::Music,
        program_ext(e) ==> category_of_ext(extension(name)) == Category::Programs,
        video_ext(e) ==> category_of_ext(extension(name)) == Category::Video,
{
    lemma_table_literals();
    if compressed_ext(e) || document_ext(e) || music_ext(e) || program_ext(e) || video_ext(e) {
        lemma_after_last_dot(lower_seq(name), e);
        lemma_lower_after_last_dot(name);
        assert(extension(name) == e);
    }
}

} // verus!
