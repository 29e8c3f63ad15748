use cordiale::upload::{attachment_message, mime_for_filename, UploadCategory};

#[test]
fn maps_extensions_to_the_server_allowlist() {
    assert_eq!(
        mime_for_filename("Photo.JPG"),
        Some(("image/jpeg", UploadCategory::Image))
    );
    assert_eq!(
        mime_for_filename("clip.mov"),
        Some(("video/quicktime", UploadCategory::Video))
    );
    assert_eq!(
        mime_for_filename("notes.md"),
        Some(("text/markdown", UploadCategory::Document))
    );
    assert_eq!(
        mime_for_filename("song.m4a"),
        Some(("audio/mp4", UploadCategory::Audio))
    );
    assert_eq!(mime_for_filename("setup.exe"), None);
    assert_eq!(mime_for_filename("README"), None);
}

#[test]
fn announces_uploads_with_the_category_emoji() {
    assert_eq!(
        attachment_message(UploadCategory::Image, "https://irc.example/uploads/abc.png"),
        "📸 https://irc.example/uploads/abc.png"
    );
    assert_eq!(UploadCategory::Audio.emoji(), "🎵");
}
