//! File attachments for Grappa's `POST /api/uploads`: the closed set of file
//! types the server accepts, their cap category, and how the resulting link
//! is announced in chat.

use vstd::prelude::*;

use crate::split::{end_of, is_text};
use crate::text::{chars_of, end_where, lemma_end_where_is, lowercase, lowered, tail};

verus! {

/// The size-cap category Grappa assigns to an accepted file type.
#[derive(Clone, Copy, Debug, PartialEq, Eq, Structural)]
pub enum UploadCategory {
    Image,
    Video,
    Document,
    Audio,
}

pub open spec fn category_emoji(category: UploadCategory) -> Seq<char> {
    match category {
        UploadCategory::Image => "📸"@,
        UploadCategory::Video => "🎬"@,
        UploadCategory::Document => "📄"@,
        UploadCategory::Audio => "🎵"@,
    }
}

impl UploadCategory {
    /// What is put before an uploaded file's link in the message that posts
    /// it; attachments stay ordinary text messages on IRC.
    pub fn emoji(self) -> (emoji: &'static str)
        ensures
            emoji@ == category_emoji(self),
    {
        match self {
            UploadCategory::Image => "📸",
            UploadCategory::Video => "🎬",
            UploadCategory::Document => "📄",
            UploadCategory::Audio => "🎵",
        }
    }
}

/// The type and category of an extension in small letters.
pub open spec fn type_of_extension(extension: Seq<char>) -> Option<(Seq<char>, UploadCategory)> {
    if extension == "png"@ {
        Some(("image/png"@, UploadCategory::Image))
    } else if extension == "jpg"@ || extension == "jpeg"@ {
        Some(("image/jpeg"@, UploadCategory::Image))
    } else if extension == "gif"@ {
        Some(("image/gif"@, UploadCategory::Image))
    } else if extension == "webp"@ {
        Some(("image/webp"@, UploadCategory::Image))
    } else if extension == "apng"@ {
        Some(("image/apng"@, UploadCategory::Image))
    } else if extension == "mp4"@ {
        Some(("video/mp4"@, UploadCategory::Video))
    } else if extension == "mov"@ {
        Some(("video/quicktime"@, UploadCategory::Video))
    } else if extension == "webm"@ {
        Some(("video/webm"@, UploadCategory::Video))
    } else if extension == "pdf"@ {
        Some(("application/pdf"@, UploadCategory::Document))
    } else if extension == "txt"@ {
        Some(("text/plain"@, UploadCategory::Document))
    } else if extension == "md"@ || extension == "markdown"@ {
        Some(("text/markdown"@, UploadCategory::Document))
    } else if extension == "odt"@ {
        Some(("application/vnd.oasis.opendocument.text"@, UploadCategory::Document))
    } else if extension == "ods"@ {
        Some(("application/vnd.oasis.opendocument.spreadsheet"@, UploadCategory::Document))
    } else if extension == "docx"@ {
        Some((
            "application/vnd.openxmlformats-officedocument.wordprocessingml.document"@,
            UploadCategory::Document,
        ))
    } else if extension == "xlsx"@ {
        Some((
            "application/vnd.openxmlformats-officedocument.spreadsheetml.sheet"@,
            UploadCategory::Document,
        ))
    } else if extension == "mp3"@ {
        Some(("audio/mpeg"@, UploadCategory::Audio))
    } else if extension == "m4a"@ || extension == "m4r"@ {
        Some(("audio/mp4"@, UploadCategory::Audio))
    } else if extension == "aac"@ {
        Some(("audio/aac"@, UploadCategory::Audio))
    } else if extension == "wav"@ {
        Some(("audio/wav"@, UploadCategory::Audio))
    } else if extension == "flac"@ {
        Some(("audio/flac"@, UploadCategory::Audio))
    } else {
        None
    }
}

/// What follows the last dot of a file name, in small letters; `None` without
/// a dot.
pub open spec fn file_extension(filename: Seq<char>) -> Option<Seq<char>> {
    let k = end_where(filename, |c: char| c == '.');
    if k > 0 {
        Some(lowered(filename.skip(k)))
    } else {
        None
    }
}

/// The MIME type Grappa's allowlist expects for a file name, by extension,
/// with its cap category. `None` means the server would refuse the file
/// (415), so it is not sent.
pub fn mime_for_filename(filename: &str) -> (found: Option<(&'static str, UploadCategory)>)
    ensures
        match found {
            Some((mime, category)) => file_extension(filename@) is Some && type_of_extension(
                file_extension(filename@)->0,
            ) == Some((mime@, category)),
            None => file_extension(filename@) is None || type_of_extension(
                file_extension(filename@)->0,
            ) is None,
        },
{
    let chars = chars_of(filename);
    let k = end_of(&chars, '.');
    if k == 0 {
        return None;
    }
    let extension = lowercase(tail(&chars, k));
    if is_text(&extension, "png") {
        Some(("image/png", UploadCategory::Image))
    } else if is_text(&extension, "jpg") || is_text(&extension, "jpeg") {
        Some(("image/jpeg", UploadCategory::Image))
    } else if is_text(&extension, "gif") {
        Some(("image/gif", UploadCategory::Image))
    } else if is_text(&extension, "webp") {
        Some(("image/webp", UploadCategory::Image))
    } else if is_text(&extension, "apng") {
        Some(("image/apng", UploadCategory::Image))
    } else if is_text(&extension, "mp4") {
        Some(("video/mp4", UploadCategory::Video))
    } else if is_text(&extension, "mov") {
        Some(("video/quicktime", UploadCategory::Video))
    } else if is_text(&extension, "webm") {
        Some(("video/webm", UploadCategory::Video))
    } else if is_text(&extension, "pdf") {
        Some(("application/pdf", UploadCategory::Document))
    } else if is_text(&extension, "txt") {
        Some(("text/plain", UploadCategory::Document))
    } else if is_text(&extension, "md") || is_text(&extension, "markdown") {
        Some(("text/markdown", UploadCategory::Document))
    } else if is_text(&extension, "odt") {
        Some(("application/vnd.oasis.opendocument.text", UploadCategory::Document))
    } else if is_text(&extension, "ods") {
        Some(("application/vnd.oasis.opendocument.spreadsheet", UploadCategory::Document))
    } else if is_text(&extension, "docx") {
        Some((
            "application/vnd.openxmlformats-officedocument.wordprocessingml.document",
            UploadCategory::Document,
        ))
    } else if is_text(&extension, "xlsx") {
        Some((
            "application/vnd.openxmlformats-officedocument.spreadsheetml.sheet",
            UploadCategory::Document,
        ))
    } else if is_text(&extension, "mp3") {
        Some(("audio/mpeg", UploadCategory::Audio))
    } else if is_text(&extension, "m4a") || is_text(&extension, "m4r") {
        Some(("audio/mp4", UploadCategory::Audio))
    } else if is_text(&extension, "aac") {
        Some(("audio/aac", UploadCategory::Audio))
    } else if is_text(&extension, "wav") {
        Some(("audio/wav", UploadCategory::Audio))
    } else if is_text(&extension, "flac") {
        Some(("audio/flac", UploadCategory::Audio))
    } else {
        None
    }
}

/// The chat message announcing an uploaded file.
pub fn attachment_message(category: UploadCategory, url: &str) -> (message: String)
    ensures
        message@ == category_emoji(category) + seq![' '] + url@,
{
    let mut message = String::new();
    message.append(category.emoji());
    message.push(' ');
    message.append(url);
    assert(message@ =~= category_emoji(category) + seq![' '] + url@);
    message
}

/// The extensions that the server accepts, each with its type and category.
pub open spec fn accepted() -> Seq<(Seq<char>, Seq<char>, UploadCategory)> {
    seq![
        ("png"@, "image/png"@, UploadCategory::Image),
        ("jpg"@, "image/jpeg"@, UploadCategory::Image),
        ("jpeg"@, "image/jpeg"@, UploadCategory::Image),
        ("gif"@, "image/gif"@, UploadCategory::Image),
        ("webp"@, "image/webp"@, UploadCategory::Image),
        ("apng"@, "image/apng"@, UploadCategory::Image),
        ("mp4"@, "video/mp4"@, UploadCategory::Video),
        ("mov"@, "video/quicktime"@, UploadCategory::Video),
        ("webm"@, "video/webm"@, UploadCategory::Video),
        ("pdf"@, "application/pdf"@, UploadCategory::Document),
        ("txt"@, "text/plain"@, UploadCategory::Document),
        ("md"@, "text/markdown"@, UploadCategory::Document),
        ("markdown"@, "text/markdown"@, UploadCategory::Document),
        ("odt"@, "application/vnd.oasis.opendocument.text"@, UploadCategory::Document),
        ("ods"@, "application/vnd.oasis.opendocument.spreadsheet"@, UploadCategory::Document),
        (
            "docx"@,
            "application/vnd.openxmlformats-officedocument.wordprocessingml.document"@,
            UploadCategory::Document,
        ),
        (
            "xlsx"@,
            "application/vnd.openxmlformats-officedocument.spreadsheetml.sheet"@,
            UploadCategory::Document,
        ),
        ("mp3"@, "audio/mpeg"@, UploadCategory::Audio),
        ("m4a"@, "audio/mp4"@, UploadCategory::Audio),
        ("m4r"@, "audio/mp4"@, UploadCategory::Audio),
        ("aac"@, "audio/aac"@, UploadCategory::Audio),
        ("wav"@, "audio/wav"@, UploadCategory::Audio),
        ("flac"@, "audio/flac"@, UploadCategory::Audio),
    ]
}

/// An extension is accepted, with the type and category of the list, exactly
/// where it is in the list.
#[verifier::rlimit(60)]
#[verifier::spinoff_prover]
pub proof fn the_list_of_extensions_is_closed(extension: Seq<char>, i: int)
    ensures
        0 <= i < accepted().len() ==> type_of_extension(accepted()[i].0) == Some(
            (accepted()[i].1, accepted()[i].2),
        ),
        type_of_extension(extension) is Some ==> exists|j: int|
            0 <= j < accepted().len() && (#[trigger] accepted()[j]).0 == extension,
{
    let list = accepted();
    reveal_strlit("png");
    assert("png"@[0] == 'p' && "png"@[1] == 'n' && "png"@[2] == 'g');
    reveal_strlit("jpg");
    assert("jpg"@[0] == 'j' && "jpg"@[1] == 'p' && "jpg"@[2] == 'g');
    reveal_strlit("jpeg");
    assert("jpeg"@[0] == 'j' && "jpeg"@[1] == 'p' && "jpeg"@[2] == 'e' && "jpeg"@[3] == 'g');
    reveal_strlit("gif");
    assert("gif"@[0] == 'g' && "gif"@[1] == 'i' && "gif"@[2] == 'f');
    reveal_strlit("webp");
    assert("webp"@[0] == 'w' && "webp"@[1] == 'e' && "webp"@[2] == 'b' && "webp"@[3] == 'p');
    reveal_strlit("apng");
    assert("apng"@[0] == 'a' && "apng"@[1] == 'p' && "apng"@[2] == 'n' && "apng"@[3] == 'g');
    reveal_strlit("mp4");
    assert("mp4"@[0] == 'm' && "mp4"@[1] == 'p' && "mp4"@[2] == '4');
    reveal_strlit("mov");
    assert("mov"@[0] == 'm' && "mov"@[1] == 'o' && "mov"@[2] == 'v');
    reveal_strlit("webm");
    assert("webm"@[0] == 'w' && "webm"@[1] == 'e' && "webm"@[2] == 'b' && "webm"@[3] == 'm');
    reveal_strlit("pdf");
    assert("pdf"@[0] == 'p' && "pdf"@[1] == 'd' && "pdf"@[2] == 'f');
    reveal_strlit("txt");
    assert("txt"@[0] == 't' && "txt"@[1] == 'x' && "txt"@[2] == 't');
    reveal_strlit("md");
    assert("md"@[0] == 'm' && "md"@[1] == 'd');
    reveal_strlit("markdown");
    assert("markdown"@[0] == 'm' && "markdown"@[1] == 'a' && "markdown"@[2] == 'r'
        && "markdown"@[3] == 'k' && "markdown"@[4] == 'd' && "markdown"@[5] == 'o'
        && "markdown"@[6] == 'w' && "markdown"@[7] == 'n');
    reveal_strlit("odt");
    assert("odt"@[0] == 'o' && "odt"@[1] == 'd' && "odt"@[2] == 't');
    reveal_strlit("ods");
    assert("ods"@[0] == 'o' && "ods"@[1] == 'd' && "ods"@[2] == 's');
    reveal_strlit("docx");
    assert("docx"@[0] == 'd' && "docx"@[1] == 'o' && "docx"@[2] == 'c' && "docx"@[3] == 'x');
    reveal_strlit("xlsx");
    assert("xlsx"@[0] == 'x' && "xlsx"@[1] == 'l' && "xlsx"@[2] == 's' && "xlsx"@[3] == 'x');
    reveal_strlit("mp3");
    assert("mp3"@[0] == 'm' && "mp3"@[1] == 'p' && "mp3"@[2] == '3');
    reveal_strlit("m4a");
    assert("m4a"@[0] == 'm' && "m4a"@[1] == '4' && "m4a"@[2] == 'a');
    reveal_strlit("m4r");
    assert("m4r"@[0] == 'm' && "m4r"@[1] == '4' && "m4r"@[2] == 'r');
    reveal_strlit("aac");
    assert("aac"@[0] == 'a' && "aac"@[1] == 'a' && "aac"@[2] == 'c');
    reveal_strlit("wav");
    assert("wav"@[0] == 'w' && "wav"@[1] == 'a' && "wav"@[2] == 'v');
    reveal_strlit("flac");
    assert("flac"@[0] == 'f' && "flac"@[1] == 'l' && "flac"@[2] == 'a' && "flac"@[3] == 'c');
    assert(list[0].0 == "png"@ && list[0].1 == "image/png"@);
    assert(list[1].0 == "jpg"@ && list[1].1 == "image/jpeg"@);
    assert(list[2].0 == "jpeg"@ && list[2].1 == "image/jpeg"@);
    assert(list[3].0 == "gif"@ && list[3].1 == "image/gif"@);
    assert(list[4].0 == "webp"@ && list[4].1 == "image/webp"@);
    assert(list[5].0 == "apng"@ && list[5].1 == "image/apng"@);
    assert(list[6].0 == "mp4"@ && list[6].1 == "video/mp4"@);
    assert(list[7].0 == "mov"@ && list[7].1 == "video/quicktime"@);
    assert(list[8].0 == "webm"@ && list[8].1 == "video/webm"@);
    assert(list[9].0 == "pdf"@ && list[9].1 == "application/pdf"@);
    assert(list[10].0 == "txt"@ && list[10].1 == "text/plain"@);
    assert(list[11].0 == "md"@ && list[11].1 == "text/markdown"@);
    assert(list[12].0 == "markdown"@ && list[12].1 == "text/markdown"@);
    assert(list[13].0 == "odt"@ && list[13].1 == "application/vnd.oasis.opendocument.text"@);
    assert(list[14].0 == "ods"@ && list[14].1 == "application/vnd.oasis.opendocument.spreadsheet"@);
    assert(list[15].0 == "docx"@);
    assert(list[15].1
        == "application/vnd.openxmlformats-officedocument.wordprocessingml.document"@);
    assert(list[16].0 == "xlsx"@);
    assert(list[16].1 == "application/vnd.openxmlformats-officedocument.spreadsheetml.sheet"@);
    assert(list[17].0 == "mp3"@ && list[17].1 == "audio/mpeg"@);
    assert(list[18].0 == "m4a"@ && list[18].1 == "audio/mp4"@);
    assert(list[19].0 == "m4r"@ && list[19].1 == "audio/mp4"@);
    assert(list[20].0 == "aac"@ && list[20].1 == "audio/aac"@);
    assert(list[21].0 == "wav"@ && list[21].1 == "audio/wav"@);
    assert(list[22].0 == "flac"@ && list[22].1 == "audio/flac"@);
}

/// The extension of a file name is what follows its last dot, in any letter
/// case.
pub proof fn the_extension_follows_the_last_dot(stem: Seq<char>, extension: Seq<char>)
    requires
        forall|i: int| 0 <= i < extension.len() ==> #[trigger] extension[i] != '.',
    ensures
        file_extension(stem + seq!['.'] + extension) == Some(lowered(extension)),
        file_extension(extension) is None,
{
    let name = stem + seq!['.'] + extension;
    let dot = |c: char| c == '.';
    let k = stem.len() + 1;
    assert(name[k - 1] == '.');
    assert forall|i: int| k <= i < name.len() implies !dot(#[trigger] name[i]) by {
        assert(name[i] == extension[i - k]);
    }
    lemma_end_where_is(name, dot, k as int);
    assert(name.skip(k as int) =~= extension);
    lemma_end_where_is(extension, dot, 0);
}

/// Each category has a sign of its own before the link.
pub proof fn categories_are_told_apart(a: UploadCategory, b: UploadCategory)
    ensures
        category_emoji(UploadCategory::Image) == seq!['📸'],
        category_emoji(UploadCategory::Video) == seq!['🎬'],
        category_emoji(UploadCategory::Document) == seq!['📄'],
        category_emoji(UploadCategory::Audio) == seq!['🎵'],
        a != b ==> category_emoji(a) != category_emoji(b),
{
    reveal_strlit("📸");
    reveal_strlit("🎬");
    reveal_strlit("📄");
    reveal_strlit("🎵");
    assert("📸"@ =~= seq!['📸']);
    assert("🎬"@ =~= seq!['🎬']);
    assert("📄"@ =~= seq!['📄']);
    assert("🎵"@ =~= seq!['🎵']);
    assert(category_emoji(a)[0] != category_emoji(b)[0] || a == b);
}

} // verus!
