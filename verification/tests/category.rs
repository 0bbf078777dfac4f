use adm::category::Category;

#[test]
fn classify() {
    assert_eq!(Category::from_filename("a.ZIP"), Category::Compressed);
    assert_eq!(Category::from_filename("doc.pdf"), Category::Documents);
    assert_eq!(Category::from_filename("song.mp3"), Category::Music);
    assert_eq!(Category::from_filename("setup.exe"), Category::Programs);
    assert_eq!(Category::from_filename("movie.mkv"), Category::Video);
    assert_eq!(Category::from_filename("noext"), Category::General);
    assert_eq!(Category::from_filename("data.bin"), Category::General);
}

#[test]
fn folders() {
    assert_eq!(Category::Compressed.folder(), Some("Compressed"));
    assert_eq!(Category::General.folder(), None);
}

#[test]
fn labels_and_remaining_folders() {
    assert_eq!(Category::Documents.folder(), Some("Documents"));
    assert_eq!(Category::Music.folder(), Some("Music"));
    assert_eq!(Category::Programs.folder(), Some("Programs"));
    assert_eq!(Category::Video.folder(), Some("Video"));
    assert_eq!(Category::General.label(), "General");
    assert_eq!(Category::Video.label(), "Video");
}

#[test]
fn extension_is_after_last_dot() {
    assert_eq!(Category::from_filename("archive.tar.GZ"), Category::Compressed);
    assert_eq!(Category::from_filename("zip"), Category::General);
    assert_eq!(Category::from_filename("clip.M4V"), Category::Video);
    assert_eq!(Category::from_filename("file."), Category::General);
}
