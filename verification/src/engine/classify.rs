//! File classification: each download goes to a sub-folder chosen by its extension.
use vstd::prelude::*;
use crate::text::{is_suffix_of, lowercase, str_ends_with, to_lowercase};

verus! {

/// The category of a file, by extension.
#[derive(Debug, Clone, Copy, PartialEq, Eq, Structural)]
pub enum FileCategory {
    Video,
    Audio,
    Documents,
    Archives,
    Images,
    Programs,
    Other,
}

/// The localized sub-folder name of each category.
pub open spec fn dir_name_text(c: FileCategory) -> Seq<char> {
    match c {
        FileCategory::Video => "视频"@,
        FileCategory::Audio => "音频"@,
        FileCategory::Documents => "文档"@,
        FileCategory::Archives => "压缩包"@,
        FileCategory::Images => "图片"@,
        FileCategory::Programs => "程序"@,
        FileCategory::Other => "其他"@,
    }
}

/// The English sub-folder name of each category.
pub open spec fn dir_name_en_text(c: FileCategory) -> Seq<char> {
    match c {
        FileCategory::Video => "video"@,
        FileCategory::Audio => "music"@,
        FileCategory::Documents => "documents"@,
        FileCategory::Archives => "archives"@,
        FileCategory::Images => "images"@,
        FileCategory::Programs => "programs"@,
        FileCategory::Other => "other"@,
    }
}

impl FileCategory {
    /// The localized sub-folder name.
    pub fn dir_name(&self) -> (r: &'static str)
        ensures
            r@ == dir_name_text(*self),
    {
        match self {
            FileCategory::Video => "视频",
            FileCategory::Audio => "音频",
            FileCategory::Documents => "文档",
            FileCategory::Archives => "压缩包",
            FileCategory::Images => "图片",
            FileCategory::Programs => "程序",
            FileCategory::Other => "其他",
        }
    }

    /// The English sub-folder name, used in paths.
    pub fn dir_name_en(&self) -> (r: &'static str)
        ensures
            r@ == dir_name_en_text(*self),
    {
        match self {
            FileCategory::Video => "video",
            FileCategory::Audio => "music",
            FileCategory::Documents => "documents",
            FileCategory::Archives => "archives",
            FileCategory::Images => "images",
            FileCategory::Programs => "programs",
            FileCategory::Other => "other",
        }
    }
}

/// Extensions of video files.
pub open spec fn video_exts() -> Seq<&'static str> {
    seq![".mp4", ".mkv", ".avi", ".mov", ".wmv", ".flv", ".webm",
        ".m4v", ".mpg", ".mpeg", ".3gp", ".ogv", ".ts", ".m2ts"]
}

/// Extensions of audio files.
pub open spec fn audio_exts() -> Seq<&'static str> {
    seq![".mp3", ".wav", ".flac", ".aac", ".ogg", ".wma", ".m4a",
        ".opus", ".ape", ".alac", ".aiff", ".mid", ".midi"]
}

/// Extensions of documents.
pub open spec fn document_exts() -> Seq<&'static str> {
    seq![".pdf", ".doc", ".docx", ".xls", ".xlsx", ".ppt", ".pptx",
        ".txt", ".md", ".csv", ".rtf", ".odt", ".ods", ".odp",
        ".epub", ".mobi", ".html", ".htm", ".json", ".xml", ".yaml", ".yml",
        ".log", ".cfg", ".ini", ".conf"]
}

/// Extensions of archives and disk images.
pub open spec fn archive_exts() -> Seq<&'static str> {
    seq![".zip", ".rar", ".7z", ".tar", ".gz", ".xz", ".bz2", ".zst",
        ".iso", ".dmg", ".tgz", ".tbz2", ".txz", ".lz", ".lz4", ".arj",
        ".cab", ".deb", ".rpm"]
}

/// Extensions of images.
pub open spec fn image_exts() -> Seq<&'static str> {
    seq![".jpg", ".jpeg", ".png", ".gif", ".bmp", ".svg", ".webp",
        ".ico", ".tiff", ".tif", ".psd", ".ai", ".eps", ".raw",
        ".heic", ".heif", ".avif"]
}

/// Extensions of programs and installers.
pub open spec fn program_exts() -> Seq<&'static str> {
    seq![".exe", ".msi", ".dmg", ".apk", ".appx", ".bat", ".cmd",
        ".ps1", ".sh", ".app", ".run", ".bin"]
}

/// `lower` ends with one of `exts`.
pub open spec fn ends_with_any(lower: Seq<char>, exts: Seq<&str>) -> bool {
    exists|i: int| 0 <= i < exts.len() && is_suffix_of(#[trigger] exts[i]@, lower)
}

/// The category of an already lowercased file name: the first list, in the
/// order video, audio, documents, archives, images, programs, that holds an
/// extension the name ends with; otherwise `Other`.
pub open spec fn category_of_lower(lower: Seq<char>) -> FileCategory {
    if ends_with_any(lower, video_exts()) {
        FileCategory::Video
    } else if ends_with_any(lower, audio_exts()) {
        FileCategory::Audio
    } else if ends_with_any(lower, document_exts()) {
        FileCategory::Documents
    } else if ends_with_any(lower, archive_exts()) {
        FileCategory::Archives
    } else if ends_with_any(lower, image_exts()) {
        FileCategory::Images
    } else if ends_with_any(lower, program_exts()) {
        FileCategory::Programs
    } else {
        FileCategory::Other
    }
}

/// The category of a file name: that of its lowercase form.
pub open spec fn category_of(filename: Seq<char>) -> FileCategory {
    category_of_lower(lowercase(filename))
}

/// Whether `lower` ends with one of `exts`.
pub fn matches_any(lower: &str, exts: &[&str]) -> (r: bool)
    ensures
        r == ends_with_any(lower@, exts@),
{
    let mut i: usize = 0;
    while i < exts.len()
        invariant
            i <= exts@.len(),
            forall|j: int| 0 <= j < i ==> !is_suffix_of(#[trigger] exts@[j]@, lower@),
        decreases exts@.len() - i,
    {
        if str_ends_with(lower, exts[i]) {
            return true;
        }
        i += 1;
    }
    false
}

/// The category of a file name that is already lowercase.
pub fn classify_lowercase(lower: &str) -> (r: FileCategory)
    ensures
        r == category_of_lower(lower@),
{
    let video: &[&str] = &[".mp4", ".mkv", ".avi", ".mov", ".wmv", ".flv", ".webm",
        ".m4v", ".mpg", ".mpeg", ".3gp", ".ogv", ".ts", ".m2ts"];
    assert(video@ == video_exts());
    if matches_any(lower, video) {
        return FileCategory::Video;
    }
    let audio: &[&str] = &[".mp3", ".wav", ".flac", ".aac", ".ogg", ".wma", ".m4a",
        ".opus", ".ape", ".alac", ".aiff", ".mid", ".midi"];
    assert(audio@ == audio_exts());
    if matches_any(lower, audio) {
        return FileCategory::Audio;
    }
    let documents: &[&str] = &[".pdf", ".doc", ".docx", ".xls", ".xlsx", ".ppt", ".pptx",
        ".txt", ".md", ".csv", ".rtf", ".odt", ".ods", ".odp",
        ".epub", ".mobi", ".html", ".htm", ".json", ".xml", ".yaml", ".yml",
        ".log", ".cfg", ".ini", ".conf"];
    assert(documents@ == document_exts());
    if matches_any(lower, documents) {
        return FileCategory::Documents;
    }
    let archives: &[&str] = &[".zip", ".rar", ".7z", ".tar", ".gz", ".xz", ".bz2", ".zst",
        ".iso", ".dmg", ".tgz", ".tbz2", ".txz", ".lz", ".lz4", ".arj",
        ".cab", ".deb", ".rpm"];
    assert(archives@ == archive_exts());
    if matches_any(lower, archives) {
        return FileCategory::Archives;
    }
    let images: &[&str] = &[".jpg", ".jpeg", ".png", ".gif", ".bmp", ".svg", ".webp",
        ".ico", ".tiff", ".tif", ".psd", ".ai", ".eps", ".raw",
        ".heic", ".heif", ".avif"];
    assert(images@ == image_exts());
    if matches_any(lower, images) {
        return FileCategory::Images;
    }
    let programs: &[&str] = &[".exe", ".msi", ".dmg", ".apk", ".appx", ".bat", ".cmd",
        ".ps1", ".sh", ".app", ".run", ".bin"];
    assert(programs@ == program_exts());
    if matches_any(lower, programs) {
        return FileCategory::Programs;
    }
    FileCategory::Other
}

/// The category of a file name, by its extension, case-insensitively.
pub fn classify_filename(filename: &str) -> (r: FileCategory)
    ensures
        r == category_of(filename@),
{
    let lower = to_lowercase(filename);
    classify_lowercase(lower.as_str())
}

/// Where each extension goes: given the extension lists written out (video
/// `v`, audio `a`, documents `d`, archives `ar`, images `im`, programs `pr`),
/// a lowercase name ending with a video extension is a video; otherwise one
/// ending with an audio extension is audio; and so on through documents,
/// archives, images and programs, in that order; a name ending with none of
/// them is Other.
pub proof fn lemma_extension_categories(
    lower: Seq<char>,
    v: Seq<&str>,
    a: Seq<&str>,
    d: Seq<&str>,
    ar: Seq<&str>,
    im: Seq<&str>,
    pr: Seq<&str>,
)
    requires
        v == seq![".mp4", ".mkv", ".avi", ".mov", ".wmv", ".flv", ".webm",
            ".m4v", ".mpg", ".mpeg", ".3gp", ".ogv", ".ts", ".m2ts"],
        a == seq![".mp3", ".wav", ".flac", ".aac", ".ogg", ".wma", ".m4a",
            ".opus", ".ape", ".alac", ".aiff", ".mid", ".midi"],
        d == seq![".pdf", ".doc", ".docx", ".xls", ".xlsx", ".ppt", ".pptx",
            ".txt", ".md", ".csv", ".rtf", ".odt", ".ods", ".odp",
            ".epub", ".mobi", ".html", ".htm", ".json", ".xml", ".yaml", ".yml",
            ".log", ".cfg", ".ini", ".conf"],
        ar == seq![".zip", ".rar", ".7z", ".tar", ".gz", ".xz", ".bz2", ".zst",
            ".iso", ".dmg", ".tgz", ".tbz2", ".txz", ".lz", ".lz4", ".arj",
            ".cab", ".deb", ".rpm"],
        im == seq![".jpg", ".jpeg", ".png", ".gif", ".bmp", ".svg", ".webp",
            ".ico", ".tiff", ".tif", ".psd", ".ai", ".eps", ".raw",
            ".heic", ".heif", ".avif"],
        pr == seq![".exe", ".msi", ".dmg", ".apk", ".appx", ".bat", ".cmd",
            ".ps1", ".sh", ".app", ".run", ".bin"],
    ensures
        (exists|i: int| 0 <= i < v.len() && is_suffix_of(#[trigger] v[i]@, lower))
            ==> category_of_lower(lower) == FileCategory::Video,
        !(exists|i: int| 0 <= i < v.len() && is_suffix_of(#[trigger] v[i]@, lower))
            && (exists|i: int| 0 <= i < a.len() && is_suffix_of(#[trigger] a[i]@, lower))
            ==> category_of_lower(lower) == FileCategory::Audio,
        !(exists|i: int| 0 <= i < v.len() && is_suffix_of(#[trigger] v[i]@, lower))
            && !(exists|i: int| 0 <= i < a.len() && is_suffix_of(#[trigger] a[i]@, lower))
            && (exists|i: int| 0 <= i < d.len() && is_suffix_of(#[trigger] d[i]@, lower))
            ==> category_of_lower(lower) == FileCategory::Documents,
        !(exists|i: int| 0 <= i < v.len() && is_suffix_of(#[trigger] v[i]@, lower))
            && !(exists|i: int| 0 <= i < a.len() && is_suffix_of(#[trigger] a[i]@, lower))
            && !(exists|i: int| 0 <= i < d.len() && is_suffix_of(#[trigger] d[i]@, lower))
            && (exists|i: int| 0 <= i < ar.len() && is_suffix_of(#[trigger] ar[i]@, lower))
            ==> category_of_lower(lower) == FileCategory::Archives,
        !(exists|i: int| 0 <= i < v.len() && is_suffix_of(#[trigger] v[i]@, lower))
            && !(exists|i: int| 0 <= i < a.len() && is_suffix_of(#[trigger] a[i]@, lower))
            && !(exists|i: int| 0 <= i < d.len() && is_suffix_of(#[trigger] d[i]@, lower))
            && !(exists|i: int| 0 <= i < ar.len() && is_suffix_of(#[trigger] ar[i]@, lower))
            && (exists|i: int| 0 <= i < im.len() && is_suffix_of(#[trigger] im[i]@, lower))
            ==> category_of_lower(lower) == FileCategory::Images,
        !(exists|i: int| 0 <= i < v.len() && is_suffix_of(#[trigger] v[i]@, lower))
            && !(exists|i: int| 0 <= i < a.len() && is_suffix_of(#[trigger] a[i]@, lower))
            && !(exists|i: int| 0 <= i < d.len() && is_suffix_of(#[trigger] d[i]@, lower))
            && !(exists|i: int| 0 <= i < ar.len() && is_suffix_of(#[trigger] ar[i]@, lower))
            && !(exists|i: int| 0 <= i < im.len() && is_suffix_of(#[trigger] im[i]@, lower))
            && (exists|i: int| 0 <= i < pr.len() && is_suffix_of(#[trigger] pr[i]@, lower))
            ==> category_of_lower(lower) == FileCategory::Programs,
        !(exists|i: int| 0 <= i < v.len() && is_suffix_of(#[trigger] v[i]@, lower))
            && !(exists|i: int| 0 <= i < a.len() && is_suffix_of(#[trigger] a[i]@, lower))
            && !(exists|i: int| 0 <= i < d.len() && is_suffix_of(#[trigger] d[i]@, lower))
            && !(exists|i: int| 0 <= i < ar.len() && is_suffix_of(#[trigger] ar[i]@, lower))
            && !(exists|i: int| 0 <= i < im.len() && is_suffix_of(#[trigger] im[i]@, lower))
            && !(exists|i: int| 0 <= i < pr.len() && is_suffix_of(#[trigger] pr[i]@, lower))
            ==> category_of_lower(lower) == FileCategory::Other,
{
}

/// Classification ignores case: names with the same lowercase form fall in
/// the same category.
pub proof fn lemma_classification_ignores_case(a: Seq<char>, b: Seq<char>)
    requires
        lowercase(a) == lowercase(b),
    ensures
        category_of(a) == category_of(b),
{
}

/// Each category has a sub-folder of its own: distinct categories never share
/// an English or a localized folder name.
pub proof fn lemma_dir_names_distinct(a: FileCategory, b: FileCategory)
    requires
        a != b,
    ensures
        dir_name_en_text(a) != dir_name_en_text(b),
        dir_name_text(a) != dir_name_text(b),
{
    reveal_strlit("video");
    reveal_strlit("music");
    reveal_strlit("documents");
    reveal_strlit("archives");
    reveal_strlit("images");
    reveal_strlit("programs");
    reveal_strlit("other");
    reveal_strlit("视频");
    reveal_strlit("音频");
    reveal_strlit("文档");
    reveal_strlit("压缩包");
    reveal_strlit("图片");
    reveal_strlit("程序");
    reveal_strlit("其他");
    assert(dir_name_en_text(a).len() != dir_name_en_text(b).len()
        || dir_name_en_text(a)[0] != dir_name_en_text(b)[0]
        || dir_name_en_text(a)[1] != dir_name_en_text(b)[1]);
    assert(dir_name_text(a).len() != dir_name_text(b).len()
        || dir_name_text(a)[0] != dir_name_text(b)[0]);
}

} // verus!
