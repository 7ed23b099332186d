//! The status bar: filename, place in the folder, dimensions, zoom and file size.

use vstd::prelude::*;
use crate::decode::Stage;
use crate::order::{Order, SortKey};
use crate::path;
use crate::sizes;
use crate::text;
use crate::texture::Uploaded;
use crate::views::info;

verus! {

/// What the bar describes.
#[derive(Debug)]
pub struct Status<'a> {
    pub path: Option<&'a str>,
    pub texture: Option<Uploaded>,
    pub stage: Option<Stage>,
    /// The zoom in use, in words.
    pub zoom: &'a str,
    pub file_size: Option<u64>,
    /// Where this image sits in its folder, counted from one, and how many there are.
    pub position: Option<(usize, usize)>,
    pub order: Order,
    pub error: Option<&'a str>,
}

/// How a label stands out.
#[derive(Debug, Clone, Copy, PartialEq, Eq, Structural)]
pub enum Tone {
    Plain,
    Muted,
    Accent,
    Alarm,
}

/// One label of the bar.
#[derive(Debug)]
pub struct Label {
    pub words: String,
    pub tone: Tone,
}

pub open spec fn order_words(order: Order) -> Seq<char> {
    match (order.key, order.descending) {
        (SortKey::Name, false) => "by name"@,
        (SortKey::Name, true) => "by name, Z first"@,
        (SortKey::Modified, false) => "by date, oldest first"@,
        (SortKey::Modified, true) => "by date, newest first"@,
        (SortKey::Size, false) => "by size, smallest first"@,
        (SortKey::Size, true) => "by size, largest first"@,
    }
}

/// The order in words.
pub fn order_summary(order: Order) -> (words: &'static str)
    ensures
        words@ == order_words(order),
{
    match (order.key, order.descending) {
        (SortKey::Name, false) => "by name",
        (SortKey::Name, true) => "by name, Z first",
        (SortKey::Modified, false) => "by date, oldest first",
        (SortKey::Modified, true) => "by date, newest first",
        (SortKey::Size, false) => "by size, smallest first",
        (SortKey::Size, true) => "by size, largest first",
    }
}

/// A label as mathematics.
pub type Said = (Seq<char>, Tone);

pub open spec fn said(labels: Seq<Label>) -> Seq<Said> {
    Seq::new(labels.len(), |i: int| (labels[i].words@, labels[i].tone))
}

pub open spec fn one(words: Seq<char>, tone: Tone) -> Seq<Said> {
    seq![(words, tone)]
}

/// A label behind a separator.
pub open spec fn behind_dot(words: Seq<char>, tone: Tone) -> Seq<Said> {
    one("\u{b7}"@, Tone::Muted) + one(words, tone)
}

/// What the image is called.
pub open spec fn title(path: Option<Seq<char>>, has_texture: bool) -> Seq<char> {
    let name = match path {
        Some(path) => path::name_of(path),
        None => None,
    };
    match name {
        Some(name) => name,
        None => if has_texture {
            "Unsaved image"@
        } else {
            "No image"@
        },
    }
}

/// Where the image sits, and under which order if that is not the usual one.
pub open spec fn place_labels(position: Option<(usize, usize)>, order: Order) -> Seq<Said> {
    match position {
        Some((at, total)) => one(
            text::decimal(at as nat) + " / "@ + text::decimal(total as nat),
            Tone::Muted,
        ) + (if order.is_usual() {
            Seq::empty()
        } else {
            one(order_words(order), Tone::Muted)
        }),
        None => Seq::empty(),
    }
}

pub open spec fn image_labels(status: Status) -> Seq<Said> {
    match status.texture {
        Some(texture) => behind_dot(info::area_words(texture.source_size), Tone::Plain)
            + behind_dot(status.zoom@, Tone::Plain) + (match status.file_size {
            Some(bytes) => behind_dot(sizes::size_in_words(bytes), Tone::Plain),
            None => Seq::empty(),
        }) + (if status.stage == Some(Stage::Preview) {
            behind_dot("preview\u{2026}"@, Tone::Accent)
        } else {
            Seq::empty()
        }) + (if texture.downscaled {
            behind_dot("downscaled to fit GPU limit"@, Tone::Muted)
        } else {
            Seq::empty()
        }),
        None => Seq::empty(),
    }
}

/// The labels of the bar, from left to right. An error is all there is to say.
pub open spec fn labels_of(status: Status) -> Seq<Said> {
    match status.error {
        Some(error) => one(error@, Tone::Alarm),
        None => one(
            title(
                match status.path {
                    Some(path) => Some(path@),
                    None => None,
                },
                status.texture is Some,
            ),
            Tone::Plain,
        ) + place_labels(status.position, status.order) + image_labels(status),
    }
}

fn say(labels: &mut Vec<Label>, words: String, tone: Tone)
    ensures
        said(final(labels)@) == said(old(labels)@) + one(words@, tone),
{
    let ghost before = labels@;
    labels.push(Label { words, tone });
    assert(said(labels@) =~= said(before) + one(words@, tone));
}

fn say_behind_dot(labels: &mut Vec<Label>, words: String, tone: Tone)
    ensures
        said(final(labels)@) == said(old(labels)@) + behind_dot(words@, tone),
{
    let ghost before = labels@;
    say(labels, "\u{b7}".to_owned(), Tone::Muted);
    say(labels, words, tone);
    assert(said(labels@) =~= said(before) + behind_dot(words@, tone));
}

/// What the bar says.
pub fn facts(status: &Status) -> (labels: Vec<Label>)
    ensures
        said(labels@) == labels_of(*status),
{
    let mut labels: Vec<Label> = Vec::new();
    assert(said(labels@) =~= Seq::empty());
    if let Some(error) = status.error {
        say(&mut labels, error.to_owned(), Tone::Alarm);
        assert(said(labels@) =~= one(error@, Tone::Alarm));
        return labels;
    }
    let name = match status.path {
        Some(path) => path::file_name(path),
        None => None,
    };
    let name = match name {
        Some(name) => name,
        None => if status.texture.is_some() {
            "Unsaved image".to_owned()
        } else {
            "No image".to_owned()
        },
    };
    let ghost named = one(name@, Tone::Plain);
    say(&mut labels, name, Tone::Plain);
    assert(said(labels@) =~= named);
    if let Some((at, total)) = status.position {
        let mut place = text::to_decimal(at as u64);
        place.append(" / ");
        place.append(text::to_decimal(total as u64).as_str());
        say(&mut labels, place, Tone::Muted);
        if !status.order.is_default() {
            say(&mut labels, order_summary(status.order).to_owned(), Tone::Muted);
        }
    }
    let ghost placed = named + place_labels(status.position, status.order);
    assert(said(labels@) =~= placed);
    let texture = match status.texture {
        Some(texture) => texture,
        None => {
            assert(said(labels@) =~= labels_of(*status));
            return labels;
        },
    };
    say_behind_dot(&mut labels, info::area(texture.source_size), Tone::Plain);
    say_behind_dot(&mut labels, status.zoom.to_owned(), Tone::Plain);
    if let Some(bytes) = status.file_size {
        say_behind_dot(&mut labels, sizes::human_size(bytes), Tone::Plain);
    }
    if let Some(Stage::Preview) = status.stage {
        say_behind_dot(&mut labels, "preview\u{2026}".to_owned(), Tone::Accent);
    }
    if texture.downscaled {
        say_behind_dot(&mut labels, "downscaled to fit GPU limit".to_owned(), Tone::Muted);
    }
    assert(said(labels@) =~= placed + image_labels(*status));
    labels
}

/// What is said of an image that the graphics card could not take whole.
pub fn downscaled_hint(texture: Uploaded) -> (words: String)
    ensures
        words@
            == "Image is larger than this GPU's maximum texture size; displaying at "@
            + info::area_words(texture.uploaded_size),
{
    let mut words =
        "Image is larger than this GPU's maximum texture size; displaying at ".to_owned();
    words.append(info::area(texture.uploaded_size).as_str());
    words
}

/// Words for an order say what it sorts by and which end comes first.
pub proof fn law_an_order_has_its_own_words(order: Order)
    ensures
        order.key is Name && !order.descending ==> order_words(order) == "by name"@,
        order.key is Name && order.descending ==> order_words(order) == "by name, Z first"@,
        order.key is Modified && !order.descending ==> order_words(order)
            == "by date, oldest first"@,
        order.key is Modified && order.descending ==> order_words(order)
            == "by date, newest first"@,
        order.key is Size && !order.descending ==> order_words(order)
            == "by size, smallest first"@,
        order.key is Size && order.descending ==> order_words(order) == "by size, largest first"@,
{
}

/// An error is all that is said while there is one. Otherwise the name of the file comes first,
/// then its place in the folder, counted from one.
pub proof fn law_an_error_takes_the_whole_bar(status: Status)
    ensures
        status.error matches Some(error) ==> labels_of(status) == seq![(error@, Tone::Alarm)],
        status.error is None ==> labels_of(status).len() >= 1 && labels_of(status)[0].1
            == Tone::Plain,
        status.error is None ==> (status.path matches Some(path) ==> (path::name_of(
            path@,
        ) matches Some(name) ==> labels_of(status)[0].0 == name)),
        status.error is None && status.path is None ==> labels_of(status)[0].0 == (
        if status.texture is Some {
            "Unsaved image"@
        } else {
            "No image"@
        }),
        status.error is None ==> (status.position matches Some((at, total)) ==> labels_of(
            status,
        ).len() >= 2 && labels_of(status)[1] == (
            text::decimal(at as nat) + seq![' ', '/', ' '] + text::decimal(total as nat),
            Tone::Muted,
        )),
{
    reveal_strlit(" / ");
    if let Some((at, total)) = status.position {
        assert(text::decimal(at as nat) + " / "@ + text::decimal(total as nat) =~= text::decimal(
            at as nat,
        ) + seq![' ', '/', ' '] + text::decimal(total as nat));
    }
}

/// Of an image the bar says the size of the source, the zoom and the size of the file, in this
/// order, each behind a dot, then what is not as it should be: that it stands in for the image,
/// or that it had to be made smaller.
pub proof fn law_an_image_is_told_in_order(status: Status, texture: Uploaded)
    requires
        status.texture == Some(texture),
    ensures
        ({
            let said = image_labels(status);
            &&& said.len() >= 4
            &&& said[0] == ("\u{b7}"@, Tone::Muted)
            &&& said[1] == (info::area_words(texture.source_size), Tone::Plain)
            &&& said[2] == ("\u{b7}"@, Tone::Muted)
            &&& said[3] == (status.zoom@, Tone::Plain)
            &&& status.file_size matches Some(bytes) ==> said.len() >= 6 && said[5] == (
                sizes::size_in_words(bytes),
                Tone::Plain,
            )
            &&& said.contains(("preview\u{2026}"@, Tone::Accent)) <==> status.stage == Some(
                Stage::Preview,
            )
            &&& texture.downscaled ==> said.last() == (
                "downscaled to fit GPU limit"@,
                Tone::Muted,
            )
        }),
{
    let said = image_labels(status);
    let most = behind_dot(info::area_words(texture.source_size), Tone::Plain) + behind_dot(
        status.zoom@,
        Tone::Plain,
    ) + (match status.file_size {
        Some(bytes) => behind_dot(sizes::size_in_words(bytes), Tone::Plain),
        None => Seq::empty(),
    });
    assert forall|i: int| 0 <= i < most.len() implies said[i] == most[i] by {}
    if status.stage == Some(Stage::Preview) {
        assert(said[most.len() as int + 1] == ("preview\u{2026}"@, Tone::Accent));
    } else {
        assert forall|i: int| 0 <= i < said.len() implies (#[trigger] said[i]).1 != Tone::Accent by {
            if i < most.len() {
                assert(said[i] == most[i]);
            }
        }
    }
}

} // verus!
