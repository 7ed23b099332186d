//! The system clipboard: what counts as an image on it, and what is said when it fails.

use vstd::prelude::*;
use crate::decode;
use crate::decode::is_supported;
use crate::raster;
use crate::raster::Raster;
use crate::text;
use crate::text::Trim;

verus! {

/// What came off the clipboard.
#[derive(Debug)]
pub enum Pasted {
    /// Pixels, from a screenshot tool or another image app.
    Image(Raster),
    /// A file, named by a path somebody copied as text.
    Path(String),
}

/// Pixels as a clipboard hands them out.
#[derive(Debug)]
pub struct Pixels {
    pub width: usize,
    pub height: usize,
    pub bytes: Vec<u8>,
}

/// A text without the white space and then the quotes around it.
pub open spec fn unwrapped(text: Seq<char>) -> Seq<char> {
    text::trimmed(text::trimmed(text, Trim::Space), Trim::Quotes)
}

/// The path that a text may be: it has to be asked whether there is such a file.
pub open spec fn path_in(text: Seq<char>) -> Option<Seq<char>> {
    if unwrapped(text).len() > 0 && decode::openable(unwrapped(text)) {
        Some(unwrapped(text))
    } else {
        None
    }
}

/// The path that a clipboard text may be, without the quotes that a path is often handed
/// out in.
pub fn path_candidate(text: &str) -> (path: Option<String>)
    ensures
        path is Some == (path_in(text@) is Some),
        path matches Some(path) ==> Some(path@) == path_in(text@),
{
    let inner = text::trim_text(text, Trim::Space);
    let path = text::trim_text(inner.as_str(), Trim::Quotes);
    if path.as_str().is_empty() {
        return None;
    }
    if is_supported(path.as_str()) {
        Some(path)
    } else {
        None
    }
}

/// Reads a clipboard text as a path to an image. `is_file` says whether the path that
/// [`path_candidate`] finds in it is a file on disk.
pub fn path_from_text(text: &str, is_file: bool) -> (path: Option<String>)
    ensures
        path is Some == (is_file && path_in(text@) is Some),
        path matches Some(path) ==> Some(path@) == path_in(text@),
{
    if is_file {
        path_candidate(text)
    } else {
        None
    }
}

/// Whether a clipboard's pixels are as many as their size claims.
pub open spec fn is_whole(pixels: Pixels) -> bool {
    &&& pixels.width as u32 * pixels.height as u32 * 4 <= pixels.bytes@.len()
    &&& raster::addressable(pixels.width as u32 as int, pixels.height as u32 as int)
}

pub open spec fn pasted(
    pixels: Option<Pixels>,
    text: Option<&str>,
    is_file: bool,
    result: Result<Pasted, String>,
) -> bool {
    match pixels {
        Some(pixels) => if is_whole(pixels) {
            &&& result matches Ok(Pasted::Image(image))
            &&& image.wf()
            &&& image.width == pixels.width as u32
            &&& image.height == pixels.height as u32
            &&& image.pixels@ == pixels.bytes@.take(image.width * image.height * 4)
        } else {
            &&& result matches Err(message)
            &&& message@ == "The clipboard image did not hold as many pixels as it claimed"@
        },
        None => {
            let path = match text {
                Some(text) => if is_file {
                    path_in(text@)
                } else {
                    None
                },
                None => None,
            };
            match path {
                Some(path) => {
                    &&& result matches Ok(Pasted::Path(file))
                    &&& file@ == path
                },
                None => {
                    &&& result matches Err(message)
                    &&& message@ == "There is no image on the clipboard"@
                },
            }
        },
    }
}

/// What the clipboard holds that can be shown. Pixels first, which are unambiguous; then a
/// text, if it is the path of an image.
pub fn paste(pixels: Option<Pixels>, text: Option<&str>, is_file: bool) -> (result: Result<
    Pasted,
    String,
>)
    ensures
        pasted(pixels, text, is_file, result),
{
    if let Some(pixels) = pixels {
        let width = #[verifier::truncate] (pixels.width as u32);
        let height = #[verifier::truncate] (pixels.height as u32);
        return match Raster::from_raw(width, height, pixels.bytes) {
            Some(image) => Ok(Pasted::Image(image)),
            None => Err(
                "The clipboard image did not hold as many pixels as it claimed".to_owned(),
            ),
        };
    }
    let path = match text {
        Some(text) => path_from_text(text, is_file),
        None => None,
    };
    match path {
        Some(path) => Ok(Pasted::Path(path)),
        None => Err("There is no image on the clipboard".to_owned()),
    }
}

fn complaint(words: &str, reason: &String) -> (message: String)
    ensures
        message@ == words@ + reason@,
{
    let mut message = words.to_owned();
    message.append(reason.as_str());
    message
}

/// What is said of a text put on the clipboard: how reaching the clipboard went, and how
/// putting the text there did.
pub fn copy_text(reached: Result<(), String>, put: Result<(), String>) -> (result: Result<
    (),
    String,
>)
    ensures
        result is Ok <==> reached is Ok && put is Ok,
        reached matches Err(reason) ==> (result matches Err(message) && message@
            == "Could not reach the clipboard: "@ + reason@),
        reached is Ok ==> (put matches Err(reason) ==> (result matches Err(message) && message@
            == "Could not copy the path: "@ + reason@)),
{
    match (reached, put) {
        (Err(reason), _) => Err(complaint("Could not reach the clipboard: ", &reason)),
        (Ok(_), Err(reason)) => Err(complaint("Could not copy the path: ", &reason)),
        (Ok(_), Ok(_)) => Ok(()),
    }
}

/// The same for pixels.
pub fn copy_image(reached: Result<(), String>, put: Result<(), String>) -> (result: Result<
    (),
    String,
>)
    ensures
        result is Ok <==> reached is Ok && put is Ok,
        reached matches Err(reason) ==> (result matches Err(message) && message@
            == "Could not reach the clipboard: "@ + reason@),
        reached is Ok ==> (put matches Err(reason) ==> (result matches Err(message) && message@
            == "Could not copy the image: "@ + reason@)),
{
    match (reached, put) {
        (Err(reason), _) => Err(complaint("Could not reach the clipboard: ", &reason)),
        (Ok(_), Err(reason)) => Err(complaint("Could not copy the image: ", &reason)),
        (Ok(_), Ok(_)) => Ok(()),
    }
}

/// Text is taken for a path only where there is a file of that name that can be opened.
pub proof fn law_only_an_image_file_is_pasted(text: Seq<char>)
    ensures
        path_in(text) matches Some(path) ==> path.len() > 0 && decode::openable(path),
        unwrapped(text).len() == 0 ==> path_in(text) is None,
{
}

/// A path that was copied in quotes, with blanks round it, is the path between the quotes.
pub proof fn law_quotes_and_blanks_are_no_part_of_a_path(
    front: Seq<char>,
    quotes: nat,
    path: Seq<char>,
    back: Seq<char>,
)
    requires
        forall|i: int| 0 <= i < front.len() ==> text::is_white(#[trigger] front[i]),
        forall|i: int| 0 <= i < back.len() ==> text::is_white(#[trigger] back[i]),
        path.len() > 0,
        path[0] != '"' && path[path.len() - 1] != '"',
        !text::is_white(path[0]) && !text::is_white(path[path.len() - 1]),
    ensures
        ({
            let marks = Seq::new(quotes, |i: int| '"');
            path_in(front + (marks + path + marks) + back) == (if decode::openable(path) {
                Some(path)
            } else {
                None
            })
        }),
{
    let marks = Seq::new(quotes, |i: int| '"');
    let core = marks + path + marks;
    assert(!text::is_white('"'));
    assert(core[0] == '"' || core[0] == path[0]);
    assert(core[core.len() - 1] == '"' || core[core.len() - 1] == path[path.len() - 1]) by {
        if quotes > 0 {
            assert(core[core.len() - 1] == marks[quotes - 1]);
        }
    }
    text::law_trimming_takes_only_the_ends(front, core, back, Trim::Space);
    text::law_trimming_takes_only_the_ends(marks, path, marks, Trim::Quotes);
}

/// Pixels on the clipboard are pasted as they are, byte for byte, whatever text is there too. A
/// text is only taken for a path where there are no pixels and where the file exists.
pub proof fn law_pixels_are_pasted_as_they_are(
    pixels: Option<Pixels>,
    text: Option<&str>,
    is_file: bool,
    result: Result<Pasted, String>,
)
    requires
        pasted(pixels, text, is_file, result),
    ensures
        result matches Ok(Pasted::Image(image)) ==> pixels is Some && {
            &&& image.width == pixels->0.width as u32 && image.height == pixels->0.height as u32
            &&& image.pixels@.len() == image.width * image.height * 4
            &&& forall|i: int|
                0 <= i < image.pixels@.len() ==> #[trigger] image.pixels@[i]
                    == pixels->0.bytes@[i]
        },
        result matches Ok(Pasted::Path(path)) ==> pixels is None && text is Some && is_file
            && decode::openable(path@),
        pixels matches Some(pixels) ==> (pixels.width * pixels.height * 4 == pixels.bytes@.len()
            && pixels.width <= u32::MAX && pixels.height <= u32::MAX && raster::addressable(
            pixels.width as int,
            pixels.height as int,
        ) ==> result is Ok),
        pixels is None && text is None ==> result is Err,
        pixels is None && !is_file ==> result is Err,
{
    if let Ok(Pasted::Image(image)) = result {
        assert forall|i: int| 0 <= i < image.pixels@.len() implies #[trigger] image.pixels@[i]
            == pixels->0.bytes@[i] by {}
    }
}

} // verus!
