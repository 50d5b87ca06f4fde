use idm_engine::engine::classify::{classify_filename, classify_lowercase, matches_any, FileCategory};

#[test]
fn test_classify_video() {
    assert_eq!(classify_filename("movie.mp4"), FileCategory::Video);
    assert_eq!(classify_filename("video.MKV"), FileCategory::Video);
    assert_eq!(classify_filename("clip.webm"), FileCategory::Video);
}

#[test]
fn test_classify_audio() {
    assert_eq!(classify_filename("song.mp3"), FileCategory::Audio);
    assert_eq!(classify_filename("podcast.FLAC"), FileCategory::Audio);
}

#[test]
fn test_classify_documents() {
    assert_eq!(classify_filename("report.pdf"), FileCategory::Documents);
    assert_eq!(classify_filename("data.csv"), FileCategory::Documents);
    assert_eq!(classify_filename("readme.md"), FileCategory::Documents);
}

#[test]
fn test_classify_archives() {
    assert_eq!(classify_filename("backup.zip"), FileCategory::Archives);
    assert_eq!(classify_filename("source.tar.gz"), FileCategory::Archives);
}

#[test]
fn test_classify_programs() {
    assert_eq!(classify_filename("setup.exe"), FileCategory::Programs);
    assert_eq!(classify_filename("app.msi"), FileCategory::Programs);
}

#[test]
fn test_classify_images() {
    assert_eq!(classify_filename("photo.jpg"), FileCategory::Images);
    assert_eq!(classify_filename("icon.PNG"), FileCategory::Images);
}

#[test]
fn test_classify_other() {
    assert_eq!(classify_filename("unknown.xyz"), FileCategory::Other);
    assert_eq!(classify_filename("no_extension"), FileCategory::Other);
}

#[test]
fn test_dir_names() {
    assert_eq!(FileCategory::Video.dir_name_en(), "video");
    assert_eq!(FileCategory::Audio.dir_name_en(), "music");
    assert_eq!(FileCategory::Documents.dir_name_en(), "documents");
}

#[test]
fn dmg_counts_as_archive_before_program() {
    assert_eq!(classify_filename("installer.dmg"), FileCategory::Archives);
}

#[test]
fn classification_ignores_case() {
    assert_eq!(classify_filename("CLIP.WeBm"), classify_filename("clip.webm"));
    assert_eq!(classify_filename("Setup.EXE"), FileCategory::Programs);
}

#[test]
fn lowercase_form_is_not_lowercased_again() {
    assert_eq!(classify_lowercase("movie.MP4"), FileCategory::Other);
    assert_eq!(classify_lowercase("movie.mp4"), FileCategory::Video);
}

#[test]
fn extension_must_be_a_suffix() {
    assert_eq!(classify_filename("mp4"), FileCategory::Other);
    assert_eq!(classify_filename(".mp4.part"), FileCategory::Other);
    assert_eq!(classify_filename(".ts"), FileCategory::Video);
    assert_eq!(classify_filename(""), FileCategory::Other);
}

#[test]
fn matches_any_checks_each_extension() {
    assert!(matches_any("a.tar.gz", &[".zip", ".gz"]));
    assert!(!matches_any("a.tar.gz", &[".zip", ".tar"]));
    assert!(!matches_any("a.zip", &[]));
}

#[test]
fn every_category_has_its_own_folder() {
    let all = [
        FileCategory::Video,
        FileCategory::Audio,
        FileCategory::Documents,
        FileCategory::Archives,
        FileCategory::Images,
        FileCategory::Programs,
        FileCategory::Other,
    ];
    for (i, a) in all.iter().enumerate() {
        for b in all.iter().skip(i + 1) {
            assert_ne!(a.dir_name_en(), b.dir_name_en());
            assert_ne!(a.dir_name(), b.dir_name());
        }
    }
    assert_eq!(FileCategory::Video.dir_name(), "视频");
    assert_eq!(FileCategory::Other.dir_name(), "其他");
    assert_eq!(FileCategory::Programs.dir_name_en(), "programs");
}
