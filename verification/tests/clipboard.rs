//! What is taken off the clipboard, and what is said of putting something on it.

use imaginer::clipboard::{
    copy_image, copy_text, paste, path_candidate, path_from_text, Pasted, Pixels,
};

#[test]
fn a_quoted_windows_path_is_unwrapped() {
    let quoted = "  \"C:\\temp\\quoted.png\"  ";
    assert_eq!(path_from_text(quoted, true), Some(r"C:\temp\quoted.png".to_owned()));
}

#[test]
fn text_that_is_not_a_file_is_not_a_path() {
    assert_eq!(path_from_text("hello, world", false), None);
    assert_eq!(path_from_text("", false), None);
    assert_eq!(path_from_text("   ", false), None);
    assert_eq!(path_from_text(r"C:\definitely\not\here.png", false), None);
    // Nor are the first three whatever the disk holds.
    assert_eq!(path_candidate("hello, world"), None);
    assert_eq!(path_candidate(""), None);
    assert_eq!(path_candidate("   "), None);
    assert_eq!(
        path_candidate(r"C:\definitely\not\here.png"),
        Some(r"C:\definitely\not\here.png".to_owned())
    );
}

#[test]
fn a_real_file_this_build_cannot_open_is_refused() {
    assert_eq!(path_from_text(r"C:\temp\notes.txt", true), None);
}

#[test]
fn pixels_are_taken_before_text() {
    let pixels = Pixels { width: 2, height: 1, bytes: vec![1, 2, 3, 4, 5, 6, 7, 8] };
    match paste(Some(pixels), Some("a.png"), true) {
        Ok(Pasted::Image(image)) => {
            assert_eq!(image.dimensions(), (2, 1));
            assert_eq!(image.get_pixel(1, 0), [5, 6, 7, 8]);
        }
        other => panic!("expected pixels, got {other:?}"),
    }
}

#[test]
fn pixels_that_are_not_all_there_are_refused() {
    let pixels = Pixels { width: 2, height: 2, bytes: vec![0; 15] };
    assert_eq!(
        paste(Some(pixels), None, false).unwrap_err(),
        "The clipboard image did not hold as many pixels as it claimed"
    );
}

#[test]
fn a_path_is_pasted_only_if_there_is_a_file() {
    assert!(matches!(paste(None, Some("a.png"), true), Ok(Pasted::Path(path)) if path == "a.png"));
    for nothing in [paste(None, Some("a.png"), false), paste(None, None, true)] {
        assert_eq!(nothing.unwrap_err(), "There is no image on the clipboard");
    }
}

#[test]
fn copying_says_what_went_wrong() {
    let failed = || Err("busy".to_owned());
    assert_eq!(copy_text(Ok(()), Ok(())), Ok(()));
    assert_eq!(
        copy_text(failed(), Ok(())),
        Err("Could not reach the clipboard: busy".to_owned())
    );
    assert_eq!(copy_text(Ok(()), failed()), Err("Could not copy the path: busy".to_owned()));
    assert_eq!(copy_image(Ok(()), failed()), Err("Could not copy the image: busy".to_owned()));
    assert_eq!(
        copy_image(failed(), failed()),
        Err("Could not reach the clipboard: busy".to_owned())
    );
    assert_eq!(copy_image(Ok(()), Ok(())), Ok(()));
}
