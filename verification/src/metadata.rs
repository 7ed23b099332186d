//! What a file says about itself: its orientation, and the rest of its EXIF block.

use vstd::prelude::*;
use crate::coordinates;
use crate::coordinates::Fraction;
use crate::imageops;
use crate::raster;
use crate::raster::Picture;
use crate::raster::Raster;
use crate::tags;
use crate::tags::Table;
use crate::tags::Tag;
use crate::tags::Value;
use crate::text;
use crate::text::Trim;
use crate::text::trim_text;

verus! {

/// The eight EXIF orientation states, as flips and turns to apply to the decoded pixels
/// before display.
#[derive(Debug, Clone, Copy, PartialEq, Eq, Structural)]
pub enum Orientation {
    Normal,
    FlipH,
    Rotate180,
    FlipV,
    /// Mirrored across the top-left to bottom-right diagonal.
    Transpose,
    Rotate90,
    /// Mirrored across the top-right to bottom-left diagonal.
    Transverse,
    Rotate270,
}

impl Default for Orientation {
    fn default() -> (orientation: Self)
        ensures
            orientation is Normal,
    {
        Orientation::Normal
    }
}

impl Orientation {
    /// The state a number stands for. Anything out of range means "as stored".
    pub open spec fn numbered(value: u32) -> Orientation {
        if value == 2 {
            Orientation::FlipH
        } else if value == 3 {
            Orientation::Rotate180
        } else if value == 4 {
            Orientation::FlipV
        } else if value == 5 {
            Orientation::Transpose
        } else if value == 6 {
            Orientation::Rotate90
        } else if value == 7 {
            Orientation::Transverse
        } else if value == 8 {
            Orientation::Rotate270
        } else {
            Orientation::Normal
        }
    }

    /// Whether width and height change places.
    pub open spec fn turns(self) -> bool {
        self is Transpose || self is Rotate90 || self is Transverse || self is Rotate270
    }

    /// The size of an image of the given size once it is upright.
    pub open spec fn upright(self, size: (u32, u32)) -> (u32, u32) {
        if self.turns() {
            (size.1, size.0)
        } else {
            size
        }
    }

    /// What this orientation makes of a picture.
    pub open spec fn of(self, p: Picture) -> Picture {
        match self {
            Orientation::Normal => p,
            Orientation::FlipH => p.flipped_horizontally(),
            Orientation::Rotate180 => p.flipped_horizontally().flipped_vertically(),
            Orientation::FlipV => p.flipped_vertically(),
            Orientation::Transpose => Picture::drawn(
                p.height,
                p.width,
                |x: int, y: int| p.at(y, x),
            ),
            Orientation::Rotate90 => p.turned_clockwise(),
            Orientation::Transverse => Picture::drawn(
                p.height,
                p.width,
                |x: int, y: int| p.at(p.width - 1 - y, p.height - 1 - x),
            ),
            Orientation::Rotate270 => p.turned_anticlockwise(),
        }
    }

    pub fn from_exif_value(value: u32) -> (orientation: Self)
        ensures
            orientation == Orientation::numbered(value),
    {
        match value {
            2 => Orientation::FlipH,
            3 => Orientation::Rotate180,
            4 => Orientation::FlipV,
            5 => Orientation::Transpose,
            6 => Orientation::Rotate90,
            7 => Orientation::Transverse,
            8 => Orientation::Rotate270,
            _ => Orientation::Normal,
        }
    }

    /// Whether applying this orientation swaps width and height.
    pub fn swaps_axes(self) -> (swaps: bool)
        ensures
            swaps == self.turns(),
    {
        match self {
            Orientation::Transpose
            | Orientation::Rotate90
            | Orientation::Transverse
            | Orientation::Rotate270 => true,
            _ => false,
        }
    }

    /// Applies the orientation to a decoded image. The normal one returns it untouched.
    pub fn apply(self, pixels: Raster) -> (upright: Raster)
        requires
            pixels.wf(),
        ensures
            upright.wf(),
            upright@ == self.of(pixels@),
            (upright.width, upright.height) == self.upright((pixels.width, pixels.height)),
            self is Normal ==> upright == pixels,
    {
        match self {
            Orientation::Normal => pixels,
            Orientation::FlipH => imageops::flip_horizontal(&pixels),
            Orientation::Rotate180 => imageops::rotate180(&pixels),
            Orientation::FlipV => imageops::flip_vertical(&pixels),
            Orientation::Transpose => {
                let turned = imageops::rotate270(&imageops::flip_horizontal(&pixels));
                proof {
                    raster::lemma_same(turned@, self.of(pixels@));
                }
                turned
            },
            Orientation::Rotate90 => imageops::rotate90(&pixels),
            Orientation::Transverse => {
                let turned = imageops::rotate90(&imageops::flip_horizontal(&pixels));
                proof {
                    raster::lemma_same(turned@, self.of(pixels@));
                }
                turned
            },
            Orientation::Rotate270 => imageops::rotate270(&pixels),
        }
    }
}

/// Width and height change places exactly where the orientation says so, and the pixels
/// of the upright picture are those of the stored one.
pub proof fn law_orientation_only_moves_pixels(orientation: Orientation, p: Picture)
    requires
        p.wf(),
    ensures
        orientation.of(p).wf(),
        orientation.turns() ==> orientation.of(p).width == p.height && orientation.of(p).height
            == p.width,
        !orientation.turns() ==> orientation.of(p).width == p.width && orientation.of(p).height
            == p.height,
        orientation.of(p).sees_through() == p.sees_through(),
{
    let q = orientation.of(p);
    if p.sees_through() {
        let (x, y) = choose|x: int, y: int| p.holds(x, y) && (#[trigger] p.at(x, y)).a != 255;
        let (u, v) = match orientation {
            Orientation::Normal => (x, y),
            Orientation::FlipH => (p.width - 1 - x, y),
            Orientation::Rotate180 => (p.width - 1 - x, p.height - 1 - y),
            Orientation::FlipV => (x, p.height - 1 - y),
            Orientation::Transpose => (y, x),
            Orientation::Rotate90 => (p.height - 1 - y, x),
            Orientation::Transverse => (p.height - 1 - y, p.width - 1 - x),
            Orientation::Rotate270 => (y, p.width - 1 - x),
        };
        assert(q.holds(u, v) && q.at(u, v) == p.at(x, y));
    }
    if q.sees_through() {
        let (u, v) = choose|u: int, v: int| q.holds(u, v) && (#[trigger] q.at(u, v)).a != 255;
        let (x, y) = match orientation {
            Orientation::Normal => (u, v),
            Orientation::FlipH => (p.width - 1 - u, v),
            Orientation::Rotate180 => (p.width - 1 - u, p.height - 1 - v),
            Orientation::FlipV => (u, p.height - 1 - v),
            Orientation::Transpose => (v, u),
            Orientation::Rotate90 => (v, p.height - 1 - u),
            Orientation::Transverse => (p.width - 1 - v, p.height - 1 - u),
            Orientation::Rotate270 => (p.width - 1 - v, u),
        };
        assert(p.holds(x, y) && p.at(x, y) == q.at(u, v));
    }
}

/// The orientation tag.
pub open spec fn orientation_tag() -> Tag {
    Tag { table: Table::Tiff, number: 0x112 }
}

/// The orientation that an EXIF block, by its TIFF bytes, asks for.
pub open spec fn orientation_in(tiff: Seq<u8>) -> Orientation {
    match tags::number_of(tiff, orientation_tag(), false) {
        Some(value) => Orientation::numbered(value),
        None => Orientation::Normal,
    }
}

/// The orientation that a file asks for. A missing or malformed EXIF block asks for none.
pub open spec fn orientation_of(file: Seq<u8>) -> Orientation {
    match tags::block_of(file) {
        Some(tiff) => orientation_in(tiff),
        None => Orientation::Normal,
    }
}

/// Pulls the orientation out of an already-parsed EXIF block.
pub fn orientation_from_exif(exif: &exif::Exif) -> (orientation: Orientation)
    ensures
        orientation == orientation_in(tags::tiff_of(*exif)),
{
    match tags::field_number(exif, Tag { table: Table::Tiff, number: 0x112 }, false) {
        Some(value) => Orientation::from_exif_value(value),
        None => Orientation::Normal,
    }
}

/// Reads the EXIF orientation tag of a file.
pub fn read_orientation(file: &[u8]) -> (orientation: Orientation)
    ensures
        orientation == orientation_of(file@),
{
    match tags::read_exif(file) {
        Some(exif) => orientation_from_exif(&exif),
        None => Orientation::Normal,
    }
}

/// A group of related facts, in the order they should be listed.
#[derive(Debug, PartialEq, Eq)]
pub struct Section {
    pub title: &'static str,
    /// Label and value, already formatted. Only tags the file actually carries.
    pub rows: Vec<(&'static str, String)>,
}

/// Everything worth showing from a file's EXIF block, as formatted text. Absent tags are
/// simply left out.
#[derive(Debug, PartialEq, Eq)]
pub struct Info {
    pub sections: Vec<Section>,
}

/// A row as mathematics: a label and a value.
pub type Row = (Seq<char>, Seq<char>);

/// A section as mathematics.
#[verifier::ext_equal]
pub struct Group {
    pub title: Seq<char>,
    pub rows: Seq<Row>,
}

/// The rows of a list as mathematics.
pub open spec fn rows_of(rows: Seq<(&'static str, String)>) -> Seq<Row> {
    Seq::new(rows.len(), |i: int| (rows[i].0@, rows[i].1@))
}

impl View for Section {
    type V = Group;

    open spec fn view(&self) -> Group {
        Group { title: self.title@, rows: rows_of(self.rows@) }
    }
}

impl View for Info {
    type V = Seq<Group>;

    open spec fn view(&self) -> Seq<Group> {
        Seq::new(self.sections@.len(), |i: int| self.sections@[i]@)
    }
}

impl Default for Info {
    fn default() -> (info: Self)
        ensures
            info@ == Seq::<Group>::empty(),
    {
        let info = Info { sections: Vec::new() };
        assert(info@ =~= Seq::<Group>::empty());
        info
    }
}

/// A tag and the label it is shown under.
pub type Listed = (Tag, &'static str);

pub open spec fn tiff_tag(number: u16) -> Tag {
    Tag { table: Table::Tiff, number }
}

pub open spec fn exif_tag(number: u16) -> Tag {
    Tag { table: Table::Exif, number }
}

pub open spec fn gps_tag(number: u16) -> Tag {
    Tag { table: Table::Gps, number }
}

/// A table of tags as mathematics.
pub open spec fn listing(table: Seq<Listed>) -> Seq<(Tag, Seq<char>)> {
    Seq::new(table.len(), |i: int| (table[i].0, table[i].1@))
}

/// Tags that describe the equipment.
pub open spec fn camera_listing() -> Seq<(Tag, Seq<char>)> {
    seq![
        (tiff_tag(0x10f), "Make"@),
        (tiff_tag(0x110), "Model"@),
        (exif_tag(0xa434), "Lens"@),
    ]
}

/// Tags that describe how the exposure was made.
pub open spec fn exposure_listing() -> Seq<(Tag, Seq<char>)> {
    seq![
        (exif_tag(0x829a), "Shutter"@),
        (exif_tag(0x829d), "Aperture"@),
        (exif_tag(0x8827), "ISO"@),
        (exif_tag(0x9204), "Exposure bias"@),
        (exif_tag(0x920a), "Focal length"@),
        (exif_tag(0xa405), "35mm equivalent"@),
        (exif_tag(0x8822), "Program"@),
        (exif_tag(0x9207), "Metering"@),
        (exif_tag(0xa403), "White balance"@),
        (exif_tag(0x9209), "Flash"@),
    ]
}

/// Tags about the picture itself, and about who made it.
pub open spec fn image_listing() -> Seq<(Tag, Seq<char>)> {
    seq![
        (exif_tag(0x9003), "Taken"@),
        (tiff_tag(0x132), "Modified"@),
        (exif_tag(0xa001), "Colour space"@),
        (tiff_tag(0x10e), "Description"@),
        (tiff_tag(0x13b), "Artist"@),
        (tiff_tag(0x8298), "Copyright"@),
        (tiff_tag(0x131), "Software"@),
    ]
}

fn in_tiff(number: u16) -> (tag: Tag)
    ensures
        tag == tiff_tag(number),
{
    Tag { table: Table::Tiff, number }
}

fn in_exif(number: u16) -> (tag: Tag)
    ensures
        tag == exif_tag(number),
{
    Tag { table: Table::Exif, number }
}

fn in_gps(number: u16) -> (tag: Tag)
    ensures
        tag == gps_tag(number),
{
    Tag { table: Table::Gps, number }
}

fn camera_tags() -> (table: Vec<Listed>)
    ensures
        listing(table@) == camera_listing(),
{
    let table: Vec<Listed> = vec![
        (in_tiff(0x10f), "Make"),
        (in_tiff(0x110), "Model"),
        (in_exif(0xa434), "Lens"),
    ];
    assert(listing(table@) =~= camera_listing());
    table
}

fn exposure_tags() -> (table: Vec<Listed>)
    ensures
        listing(table@) == exposure_listing(),
{
    let table: Vec<Listed> = vec![
        (in_exif(0x829a), "Shutter"),
        (in_exif(0x829d), "Aperture"),
        (in_exif(0x8827), "ISO"),
        (in_exif(0x9204), "Exposure bias"),
        (in_exif(0x920a), "Focal length"),
        (in_exif(0xa405), "35mm equivalent"),
        (in_exif(0x8822), "Program"),
        (in_exif(0x9207), "Metering"),
        (in_exif(0xa403), "White balance"),
        (in_exif(0x9209), "Flash"),
    ];
    assert(listing(table@) =~= exposure_listing());
    table
}

fn image_tags() -> (table: Vec<Listed>)
    ensures
        listing(table@) == image_listing(),
{
    let table: Vec<Listed> = vec![
        (in_exif(0x9003), "Taken"),
        (in_tiff(0x132), "Modified"),
        (in_exif(0xa001), "Colour space"),
        (in_tiff(0x10e), "Description"),
        (in_tiff(0x13b), "Artist"),
        (in_tiff(0x8298), "Copyright"),
        (in_tiff(0x131), "Software"),
    ];
    assert(listing(table@) =~= image_listing());
    table
}

/// The first `n` texts of a field, one space between them.
pub open spec fn texts_joined(parts: Seq<Seq<u8>>, n: int) -> Seq<char>
    decreases n,
{
    if n <= 0 {
        Seq::empty()
    } else if n == 1 {
        tags::lossy_text(parts[0])
    } else {
        texts_joined(parts, n - 1) + " "@ + tags::lossy_text(parts[n - 1])
    }
}

/// One tag of an EXIF block, formatted for reading, without the padding that cameras
/// write. A tag that holds nothing but padding holds nothing.
pub open spec fn value_in(tiff: Seq<u8>, tag: Tag) -> Option<Seq<char>> {
    match tags::held_by(tiff, tag) {
        None => None,
        Some(held) => {
            let shown = match held {
                tags::Held::Ascii(parts) => texts_joined(parts, parts.len() as int),
                _ => tags::shown_by(tiff, tag)->0,
            };
            let kept = text::trimmed(shown, Trim::SpaceOrNul);
            if kept.len() == 0 {
                None
            } else {
                Some(kept)
            }
        },
    }
}

/// The rows that the first `n` tags of a table give.
pub open spec fn rows_in(tiff: Seq<u8>, table: Seq<(Tag, Seq<char>)>, n: int) -> Seq<Row>
    decreases n,
{
    if n <= 0 {
        Seq::empty()
    } else {
        let before = rows_in(tiff, table, n - 1);
        match value_in(tiff, table[n - 1].0) {
            Some(value) => before.push((table[n - 1].1, value)),
            None => before,
        }
    }
}

/// One section, unless the file carries none of its tags.
pub open spec fn section_in(
    tiff: Seq<u8>,
    title: Seq<char>,
    table: Seq<(Tag, Seq<char>)>,
) -> Seq<Group> {
    let rows = rows_in(tiff, table, table.len() as int);
    if rows.len() == 0 {
        Seq::empty()
    } else {
        seq![Group { title, rows }]
    }
}

/// Whether a hemisphere is one of the negative halves: south or west.
pub open spec fn is_negative(hemisphere: Seq<char>) -> bool {
    hemisphere.len() > 0 && (hemisphere[0] == 'S' || hemisphere[0] == 's' || hemisphere[0] == 'W'
        || hemisphere[0] == 'w')
}

/// One GPS coordinate in signed decimal degrees: three fractions with denominators, and a
/// hemisphere, without which it is only half a coordinate.
pub open spec fn coordinate_in(tiff: Seq<u8>, value: Tag, reference: Tag) -> Option<Seq<char>> {
    match tags::held_by(tiff, value) {
        Some(tags::Held::Rational(parts)) => if parts.len() < 3 || parts[0].1 == 0 || parts[1].1
            == 0 || parts[2].1 == 0 {
            None
        } else {
            match value_in(tiff, reference) {
                None => None,
                Some(hemisphere) => Some(
                    coordinates::degrees_text(
                        parts[0],
                        parts[1],
                        parts[2],
                        is_negative(hemisphere),
                    ),
                ),
            }
        },
        _ => None,
    }
}

/// Where the photograph was taken, as a decimal pair that can be pasted into a map, and
/// how high up.
pub open spec fn location_in(tiff: Seq<u8>) -> Seq<Group> {
    let pair = match (
        coordinate_in(tiff, gps_tag(2), gps_tag(1)),
        coordinate_in(tiff, gps_tag(4), gps_tag(3)),
    ) {
        (Some(latitude), Some(longitude)) => seq![
            ("Coordinates"@, latitude + ", "@ + longitude),
        ],
        _ => Seq::<Row>::empty(),
    };
    let height = match value_in(tiff, gps_tag(6)) {
        Some(altitude) => seq![("Altitude"@, altitude)],
        None => Seq::<Row>::empty(),
    };
    if (pair + height).len() == 0 {
        Seq::empty()
    } else {
        seq![Group { title: "Location"@, rows: pair + height }]
    }
}

/// What is worth showing of an EXIF block, in a fixed order whatever the file holds.
pub open spec fn info_in(tiff: Seq<u8>) -> Seq<Group> {
    section_in(tiff, "Camera"@, camera_listing()) + section_in(
        tiff,
        "Exposure"@,
        exposure_listing(),
    ) + section_in(tiff, "Image"@, image_listing()) + location_in(tiff)
}

/// One tag, formatted for reading.
///
/// Everything except text goes through the display of the crate that reads the block,
/// which knows that an exposure time is `1/250 s`. Text is the exception: that display
/// quotes it, and it arrives padded.
fn value_of(exif: &exif::Exif, tag: Tag) -> (value: Option<String>)
    ensures
        value is Some == (value_in(tags::tiff_of(*exif), tag) is Some),
        value matches Some(value) ==> value_in(tags::tiff_of(*exif), tag) == Some(value@),
{
    let ghost tiff = tags::tiff_of(*exif);
    let shown = match tags::field_value(exif, tag) {
        None => return None,
        Some(Value::Ascii(parts)) => {
            let ghost held = Seq::new(parts@.len(), |i: int| parts@[i]@);
            assert(tags::held_by(tiff, tag) == Some(tags::Held::Ascii(held)));
            let mut shown = String::new();
            let mut n: usize = 0;
            while n < parts.len()
                invariant
                    n <= parts@.len(),
                    held == Seq::new(parts@.len(), |i: int| parts@[i]@),
                    shown@ == texts_joined(held, n as int),
                decreases parts@.len() - n,
            {
                if n > 0 {
                    shown.append(" ");
                }
                shown.append(tags::text_of(&parts[n]).as_str());
                n += 1;
                assert(shown@ =~= texts_joined(held, n as int));
            }
            shown
        },
        Some(_) => match tags::field_text(exif, tag) {
            Some(shown) => shown,
            None => return None,
        },
    };
    let kept = trim_text(shown.as_str(), Trim::SpaceOrNul);
    if kept.as_str().is_empty() {
        None
    } else {
        Some(kept)
    }
}

/// One section, or nothing if the file carries none of its tags.
fn section(exif: &exif::Exif, title: &'static str, table: Vec<Listed>) -> (section: Option<
    Section,
>)
    ensures
        section_in(tags::tiff_of(*exif), title@, listing(table@)) == (match section {
            Some(section) => seq![section@],
            None => Seq::empty(),
        }),
{
    let ghost tiff = tags::tiff_of(*exif);
    let mut rows: Vec<(&'static str, String)> = Vec::new();
    let mut n: usize = 0;
    assert(rows_of(rows@) =~= Seq::<Row>::empty());
    while n < table.len()
        invariant
            n <= table@.len(),
            tiff == tags::tiff_of(*exif),
            rows_of(rows@) == rows_in(tiff, listing(table@), n as int),
        decreases table@.len() - n,
    {
        let ghost before = rows_of(rows@);
        let (tag, label) = table[n];
        if let Some(value) = value_of(exif, tag) {
            rows.push((label, value));
            assert(rows_of(rows@) =~= before.push((label@, value@)));
        }
        n += 1;
    }
    if rows.len() == 0 {
        None
    } else {
        Some(Section { title, rows })
    }
}

/// One GPS coordinate.
fn coordinate(exif: &exif::Exif, value: Tag, reference: Tag) -> (shown: Option<String>)
    ensures
        shown is Some == (coordinate_in(tags::tiff_of(*exif), value, reference) is Some),
        shown matches Some(shown) ==> coordinate_in(tags::tiff_of(*exif), value, reference)
            == Some(shown@),
{
    let parts: Vec<Fraction> = match tags::field_value(exif, value) {
        Some(Value::Rational(parts)) => parts,
        _ => return None,
    };
    if parts.len() < 3 || parts[0].1 == 0 || parts[1].1 == 0 || parts[2].1 == 0 {
        return None;
    }
    let hemisphere = match value_of(exif, reference) {
        Some(hemisphere) => text::chars_of(hemisphere.as_str()),
        None => return None,
    };
    let negative = hemisphere.len() > 0 && (hemisphere[0] == 'S' || hemisphere[0] == 's'
        || hemisphere[0] == 'W' || hemisphere[0] == 'w');
    Some(coordinates::decimal_degrees(parts[0], parts[1], parts[2], negative))
}

/// Where the photograph was taken.
fn location(exif: &exif::Exif) -> (section: Option<Section>)
    ensures
        location_in(tags::tiff_of(*exif)) == (match section {
            Some(section) => seq![section@],
            None => Seq::empty(),
        }),
{
    let mut rows: Vec<(&'static str, String)> = Vec::new();
    let latitude = coordinate(exif, in_gps(2), in_gps(1));
    let longitude = coordinate(exif, in_gps(4), in_gps(3));
    if let (Some(latitude), Some(longitude)) = (latitude, longitude) {
        let mut pair = latitude;
        pair.append(", ");
        pair.append(longitude.as_str());
        rows.push(("Coordinates", pair));
    }
    if let Some(altitude) = value_of(exif, in_gps(6)) {
        rows.push(("Altitude", altitude));
    }
    proof {
        let tiff = tags::tiff_of(*exif);
        let groups = location_in(tiff);
        if groups.len() > 0 {
            assert(rows_of(rows@) =~= groups[0].rows);
        }
    }
    if rows.len() == 0 {
        None
    } else {
        Some(Section { title: "Location", rows })
    }
}

impl Info {
    /// Reads the EXIF block of a file. A file with none is not an error.
    pub fn read(file: &[u8]) -> (info: Self)
        ensures
            info@ == (match tags::block_of(file@) {
                Some(tiff) => info_in(tiff),
                None => Seq::empty(),
            }),
    {
        match tags::read_exif(file) {
            Some(exif) => Info::from_exif(&exif),
            None => Info::default(),
        }
    }

    /// Pulls the fields out of an already-parsed EXIF block.
    pub fn from_exif(exif: &exif::Exif) -> (info: Self)
        ensures
            info@ == info_in(tags::tiff_of(*exif)),
    {
        let mut info = Info { sections: Vec::new() };
        assert(info@ =~= Seq::<Group>::empty());
        info.add(section(exif, "Camera", camera_tags()));
        info.add(section(exif, "Exposure", exposure_tags()));
        info.add(section(exif, "Image", image_tags()));
        info.add(location(exif));
        assert(info@ =~= info_in(tags::tiff_of(*exif)));
        info
    }

    fn add(&mut self, section: Option<Section>)
        ensures
            final(self)@ == old(self)@ + (match section {
                Some(section) => seq![section@],
                None => Seq::empty(),
            }),
    {
        let ghost before = self@;
        if let Some(section) = section {
            self.sections.push(section);
            assert(self@ =~= before.push(section@));
        }
        assert(self@ =~= before + (match section {
            Some(section) => seq![section@],
            None => Seq::empty(),
        }));
    }

    pub fn is_empty(&self) -> (empty: bool)
        ensures
            empty == (self@.len() == 0),
    {
        self.sections.len() == 0
    }
}

/// What the `Camera` section says of a photo, row by row: each label names the value of the
/// EXIF tag that means it, a tag that is not there leaves no row, and the rows keep this order.
pub proof fn law_camera_rows_show_their_tags(tiff: Seq<u8>)
    ensures
        ({
            let row = |label: Seq<char>, tag: Tag| match value_in(tiff, tag) {
                Some(value) => seq![(label, value)],
                None => Seq::<Row>::empty(),
            };
            let rows = row("Make"@, Tag { table: Table::Tiff, number: 0x10f })
                + row("Model"@, Tag { table: Table::Tiff, number: 0x110 })
                + row("Lens"@, Tag { table: Table::Exif, number: 0xa434 });
            section_in(tiff, "Camera"@, camera_listing()) == (if rows.len() == 0 {
                Seq::<Group>::empty()
            } else {
                seq![Group { title: "Camera"@, rows }]
            })
        }),
{
    let table = camera_listing();
    let row = |label: Seq<char>, tag: Tag| match value_in(tiff, tag) {
        Some(value) => seq![(label, value)],
        None => Seq::<Row>::empty(),
    };
    let rows0 = Seq::<Row>::empty();
    assert(rows_in(tiff, table, 0) =~= rows0);
    let rows1 = row("Make"@, Tag { table: Table::Tiff, number: 0x10f });
    assert(rows_in(tiff, table, 1) =~= rows1);
    let rows2 = rows1 + row("Model"@, Tag { table: Table::Tiff, number: 0x110 });
    assert(rows_in(tiff, table, 2) =~= rows2);
    let rows3 = rows2 + row("Lens"@, Tag { table: Table::Exif, number: 0xa434 });
    assert(rows_in(tiff, table, 3) =~= rows3);
}

/// What the `Exposure` section says of a photo, row by row: each label names the value of the
/// EXIF tag that means it, a tag that is not there leaves no row, and the rows keep this order.
pub proof fn law_exposure_rows_show_their_tags(tiff: Seq<u8>)
    ensures
        ({
            let row = |label: Seq<char>, tag: Tag| match value_in(tiff, tag) {
                Some(value) => seq![(label, value)],
                None => Seq::<Row>::empty(),
            };
            let rows = row("Shutter"@, Tag { table: Table::Exif, number: 0x829a })
                + row("Aperture"@, Tag { table: Table::Exif, number: 0x829d })
                + row("ISO"@, Tag { table: Table::Exif, number: 0x8827 })
                + row("Exposure bias"@, Tag { table: Table::Exif, number: 0x9204 })
                + row("Focal length"@, Tag { table: Table::Exif, number: 0x920a })
                + row("35mm equivalent"@, Tag { table: Table::Exif, number: 0xa405 })
                + row("Program"@, Tag { table: Table::Exif, number: 0x8822 })
                + row("Metering"@, Tag { table: Table::Exif, number: 0x9207 })
                + row("White balance"@, Tag { table: Table::Exif, number: 0xa403 })
                + row("Flash"@, Tag { table: Table::Exif, number: 0x9209 });
            section_in(tiff, "Exposure"@, exposure_listing()) == (if rows.len() == 0 {
                Seq::<Group>::empty()
            } else {
                seq![Group { title: "Exposure"@, rows }]
            })
        }),
{
    let table = exposure_listing();
    let row = |label: Seq<char>, tag: Tag| match value_in(tiff, tag) {
        Some(value) => seq![(label, value)],
        None => Seq::<Row>::empty(),
    };
    let rows0 = Seq::<Row>::empty();
    assert(rows_in(tiff, table, 0) =~= rows0);
    let rows1 = row("Shutter"@, Tag { table: Table::Exif, number: 0x829a });
    assert(rows_in(tiff, table, 1) =~= rows1);
    let rows2 = rows1 + row("Aperture"@, Tag { table: Table::Exif, number: 0x829d });
    assert(rows_in(tiff, table, 2) =~= rows2);
    let rows3 = rows2 + row("ISO"@, Tag { table: Table::Exif, number: 0x8827 });
    assert(rows_in(tiff, table, 3) =~= rows3);
    let rows4 = rows3 + row("Exposure bias"@, Tag { table: Table::Exif, number: 0x9204 });
    assert(rows_in(tiff, table, 4) =~= rows4);
    let rows5 = rows4 + row("Focal length"@, Tag { table: Table::Exif, number: 0x920a });
    assert(rows_in(tiff, table, 5) =~= rows5);
    let rows6 = rows5 + row("35mm equivalent"@, Tag { table: Table::Exif, number: 0xa405 });
    assert(rows_in(tiff, table, 6) =~= rows6);
    let rows7 = rows6 + row("Program"@, Tag { table: Table::Exif, number: 0x8822 });
    assert(rows_in(tiff, table, 7) =~= rows7);
    let rows8 = rows7 + row("Metering"@, Tag { table: Table::Exif, number: 0x9207 });
    assert(rows_in(tiff, table, 8) =~= rows8);
    let rows9 = rows8 + row("White balance"@, Tag { table: Table::Exif, number: 0xa403 });
    assert(rows_in(tiff, table, 9) =~= rows9);
    let rows10 = rows9 + row("Flash"@, Tag { table: Table::Exif, number: 0x9209 });
    assert(rows_in(tiff, table, 10) =~= rows10);
}

/// What the `Image` section says of a photo, row by row: each label names the value of the
/// EXIF tag that means it, a tag that is not there leaves no row, and the rows keep this order.
pub proof fn law_image_rows_show_their_tags(tiff: Seq<u8>)
    ensures
        ({
            let row = |label: Seq<char>, tag: Tag| match value_in(tiff, tag) {
                Some(value) => seq![(label, value)],
                None => Seq::<Row>::empty(),
            };
            let rows = row("Taken"@, Tag { table: Table::Exif, number: 0x9003 })
                + row("Modified"@, Tag { table: Table::Tiff, number: 0x132 })
                + row("Colour space"@, Tag { table: Table::Exif, number: 0xa001 })
                + row("Description"@, Tag { table: Table::Tiff, number: 0x10e })
                + row("Artist"@, Tag { table: Table::Tiff, number: 0x13b })
                + row("Copyright"@, Tag { table: Table::Tiff, number: 0x8298 })
                + row("Software"@, Tag { table: Table::Tiff, number: 0x131 });
            section_in(tiff, "Image"@, image_listing()) == (if rows.len() == 0 {
                Seq::<Group>::empty()
            } else {
                seq![Group { title: "Image"@, rows }]
            })
        }),
{
    let table = image_listing();
    let row = |label: Seq<char>, tag: Tag| match value_in(tiff, tag) {
        Some(value) => seq![(label, value)],
        None => Seq::<Row>::empty(),
    };
    let rows0 = Seq::<Row>::empty();
    assert(rows_in(tiff, table, 0) =~= rows0);
    let rows1 = row("Taken"@, Tag { table: Table::Exif, number: 0x9003 });
    assert(rows_in(tiff, table, 1) =~= rows1);
    let rows2 = rows1 + row("Modified"@, Tag { table: Table::Tiff, number: 0x132 });
    assert(rows_in(tiff, table, 2) =~= rows2);
    let rows3 = rows2 + row("Colour space"@, Tag { table: Table::Exif, number: 0xa001 });
    assert(rows_in(tiff, table, 3) =~= rows3);
    let rows4 = rows3 + row("Description"@, Tag { table: Table::Tiff, number: 0x10e });
    assert(rows_in(tiff, table, 4) =~= rows4);
    let rows5 = rows4 + row("Artist"@, Tag { table: Table::Tiff, number: 0x13b });
    assert(rows_in(tiff, table, 5) =~= rows5);
    let rows6 = rows5 + row("Copyright"@, Tag { table: Table::Tiff, number: 0x8298 });
    assert(rows_in(tiff, table, 6) =~= rows6);
    let rows7 = rows6 + row("Software"@, Tag { table: Table::Tiff, number: 0x131 });
    assert(rows_in(tiff, table, 7) =~= rows7);
}

/// The panel shows its sections in one order: the camera, the exposure, the image, and where
/// it was taken, each only if there is something in it. The place is a latitude and a longitude,
/// which take both, and how high up it was.
pub proof fn law_sections_keep_their_order(tiff: Seq<u8>)
    ensures
        ({
            let latitude = coordinate_in(
                tiff,
                Tag { table: Table::Gps, number: 2 },
                Tag { table: Table::Gps, number: 1 },
            );
            let longitude = coordinate_in(
                tiff,
                Tag { table: Table::Gps, number: 4 },
                Tag { table: Table::Gps, number: 3 },
            );
            let place = if latitude is Some && longitude is Some {
                seq![("Coordinates"@, latitude->0 + ", "@ + longitude->0)]
            } else {
                Seq::<Row>::empty()
            };
            let height = match value_in(tiff, Tag { table: Table::Gps, number: 6 }) {
                Some(value) => seq![("Altitude"@, value)],
                None => Seq::<Row>::empty(),
            };
            let location = if (place + height).len() == 0 {
                Seq::<Group>::empty()
            } else {
                seq![Group { title: "Location"@, rows: place + height }]
            };
            info_in(tiff) == section_in(tiff, "Camera"@, camera_listing()) + section_in(
                tiff,
                "Exposure"@,
                exposure_listing(),
            ) + section_in(tiff, "Image"@, image_listing()) + location
        }),
{
}

/// Every row of the panel holds the value of the one EXIF tag that its label means, and stands
/// in the section of that tag.
pub proof fn law_a_label_means_its_tag(tiff: Seq<u8>, section: int, place: int)
    requires
        0 <= section < info_in(tiff).len(),
        0 <= place < info_in(tiff)[section].rows.len(),
    ensures
        ({
            let title = info_in(tiff)[section].title;
            let (label, value) = info_in(tiff)[section].rows[place];
            &&& label == "Make"@ ==> title == "Camera"@ && value_in(
                tiff,
                Tag { table: Table::Tiff, number: 0x10f },
            ) == Some(value)
            &&& label == "Model"@ ==> title == "Camera"@ && value_in(
                tiff,
                Tag { table: Table::Tiff, number: 0x110 },
            ) == Some(value)
            &&& label == "Lens"@ ==> title == "Camera"@ && value_in(
                tiff,
                Tag { table: Table::Exif, number: 0xa434 },
            ) == Some(value)
            &&& label == "Shutter"@ ==> title == "Exposure"@ && value_in(
                tiff,
                Tag { table: Table::Exif, number: 0x829a },
            ) == Some(value)
            &&& label == "Aperture"@ ==> title == "Exposure"@ && value_in(
                tiff,
                Tag { table: Table::Exif, number: 0x829d },
            ) == Some(value)
            &&& label == "ISO"@ ==> title == "Exposure"@ && value_in(
                tiff,
                Tag { table: Table::Exif, number: 0x8827 },
            ) == Some(value)
            &&& label == "Exposure bias"@ ==> title == "Exposure"@ && value_in(
                tiff,
                Tag { table: Table::Exif, number: 0x9204 },
            ) == Some(value)
            &&& label == "Focal length"@ ==> title == "Exposure"@ && value_in(
                tiff,
                Tag { table: Table::Exif, number: 0x920a },
            ) == Some(value)
            &&& label == "35mm equivalent"@ ==> title == "Exposure"@ && value_in(
                tiff,
                Tag { table: Table::Exif, number: 0xa405 },
            ) == Some(value)
            &&& label == "Program"@ ==> title == "Exposure"@ && value_in(
                tiff,
                Tag { table: Table::Exif, number: 0x8822 },
            ) == Some(value)
            &&& label == "Metering"@ ==> title == "Exposure"@ && value_in(
                tiff,
                Tag { table: Table::Exif, number: 0x9207 },
            ) == Some(value)
            &&& label == "White balance"@ ==> title == "Exposure"@ && value_in(
                tiff,
                Tag { table: Table::Exif, number: 0xa403 },
            ) == Some(value)
            &&& label == "Flash"@ ==> title == "Exposure"@ && value_in(
                tiff,
                Tag { table: Table::Exif, number: 0x9209 },
            ) == Some(value)
            &&& label == "Taken"@ ==> title == "Image"@ && value_in(
                tiff,
                Tag { table: Table::Exif, number: 0x9003 },
            ) == Some(value)
            &&& label == "Modified"@ ==> title == "Image"@ && value_in(
                tiff,
                Tag { table: Table::Tiff, number: 0x132 },
            ) == Some(value)
            &&& label == "Colour space"@ ==> title == "Image"@ && value_in(
                tiff,
                Tag { table: Table::Exif, number: 0xa001 },
            ) == Some(value)
            &&& label == "Description"@ ==> title == "Image"@ && value_in(
                tiff,
                Tag { table: Table::Tiff, number: 0x10e },
            ) == Some(value)
            &&& label == "Artist"@ ==> title == "Image"@ && value_in(
                tiff,
                Tag { table: Table::Tiff, number: 0x13b },
            ) == Some(value)
            &&& label == "Copyright"@ ==> title == "Image"@ && value_in(
                tiff,
                Tag { table: Table::Tiff, number: 0x8298 },
            ) == Some(value)
            &&& label == "Software"@ ==> title == "Image"@ && value_in(
                tiff,
                Tag { table: Table::Tiff, number: 0x131 },
            ) == Some(value)
            &&& label == "Altitude"@ ==> title == "Location"@ && value_in(
                tiff,
                Tag { table: Table::Gps, number: 6 },
            ) == Some(value)
        }),
{
    reveal_strlit("Make");
    reveal_strlit("Model");
    reveal_strlit("Lens");
    reveal_strlit("Shutter");
    reveal_strlit("Aperture");
    reveal_strlit("ISO");
    reveal_strlit("Exposure bias");
    reveal_strlit("Focal length");
    reveal_strlit("35mm equivalent");
    reveal_strlit("Program");
    reveal_strlit("Metering");
    reveal_strlit("White balance");
    reveal_strlit("Flash");
    reveal_strlit("Taken");
    reveal_strlit("Modified");
    reveal_strlit("Colour space");
    reveal_strlit("Description");
    reveal_strlit("Artist");
    reveal_strlit("Copyright");
    reveal_strlit("Software");
    reveal_strlit("Altitude");
    reveal_strlit("Coordinates");
    let title = info_in(tiff)[section].title;
    let (label, value) = info_in(tiff)[section].rows[place];
    let one = section_in(tiff, "Camera"@, camera_listing());
    let two = section_in(tiff, "Exposure"@, exposure_listing());
    let three = section_in(tiff, "Image"@, image_listing());
    let four = location_in(tiff);
    assert(info_in(tiff) == one + two + three + four);
    if section < one.len() {
        let table = camera_listing();
        let n = lemma_row_source(tiff, table, table.len() as int, place);
        lemma_labels_differ(table[n].1);
    } else if section < one.len() + two.len() {
        let table = exposure_listing();
        let n = lemma_row_source(tiff, table, table.len() as int, place);
        lemma_labels_differ(table[n].1);
    } else if section < one.len() + two.len() + three.len() {
        let table = image_listing();
        let n = lemma_row_source(tiff, table, table.len() as int, place);
        lemma_labels_differ(table[n].1);
    } else {
        assert(info_in(tiff)[section] == four[0]);
        lemma_labels_differ(label);
    }
}

/// A row comes from one of the tags of its table.
proof fn lemma_row_source(
    tiff: Seq<u8>,
    table: Seq<(Tag, Seq<char>)>,
    n: int,
    place: int,
) -> (source: int)
    requires
        0 <= n <= table.len(),
        0 <= place < rows_in(tiff, table, n).len(),
    ensures
        0 <= source < n,
        rows_in(tiff, table, n)[place].0 == table[source].1,
        value_in(tiff, table[source].0) == Some(rows_in(tiff, table, n)[place].1),
    decreases n,
{
    let before = rows_in(tiff, table, n - 1);
    if place < before.len() {
        lemma_row_source(tiff, table, n - 1, place)
    } else {
        n - 1
    }
}

/// No two labels are alike: they differ in length or in their first two letters.
proof fn lemma_labels_differ(label: Seq<char>)
    ensures
        label == "Make"@ ==> label.len() == 4 && label[0] == 'M' && label[1] == 'a',
        label == "Model"@ ==> label.len() == 5 && label[0] == 'M' && label[1] == 'o',
        label == "Lens"@ ==> label.len() == 4 && label[0] == 'L' && label[1] == 'e',
        label == "Shutter"@ ==> label.len() == 7 && label[0] == 'S' && label[1] == 'h',
        label == "Aperture"@ ==> label.len() == 8 && label[0] == 'A' && label[1] == 'p',
        label == "ISO"@ ==> label.len() == 3 && label[0] == 'I' && label[1] == 'S',
        label == "Exposure bias"@ ==> label.len() == 13 && label[0] == 'E' && label[1] == 'x',
        label == "Focal length"@ ==> label.len() == 12 && label[0] == 'F' && label[1] == 'o',
        label == "35mm equivalent"@ ==> label.len() == 15 && label[0] == '3' && label[1] == '5',
        label == "Program"@ ==> label.len() == 7 && label[0] == 'P' && label[1] == 'r',
        label == "Metering"@ ==> label.len() == 8 && label[0] == 'M' && label[1] == 'e',
        label == "White balance"@ ==> label.len() == 13 && label[0] == 'W' && label[1] == 'h',
        label == "Flash"@ ==> label.len() == 5 && label[0] == 'F' && label[1] == 'l',
        label == "Taken"@ ==> label.len() == 5 && label[0] == 'T' && label[1] == 'a',
        label == "Modified"@ ==> label.len() == 8 && label[0] == 'M' && label[1] == 'o',
        label == "Colour space"@ ==> label.len() == 12 && label[0] == 'C' && label[1] == 'o',
        label == "Description"@ ==> label.len() == 11 && label[0] == 'D' && label[1] == 'e',
        label == "Artist"@ ==> label.len() == 6 && label[0] == 'A' && label[1] == 'r',
        label == "Copyright"@ ==> label.len() == 9 && label[0] == 'C' && label[1] == 'o',
        label == "Software"@ ==> label.len() == 8 && label[0] == 'S' && label[1] == 'o',
        label == "Altitude"@ ==> label.len() == 8 && label[0] == 'A' && label[1] == 'l',
        label == "Coordinates"@ ==> label.len() == 11 && label[0] == 'C' && label[1] == 'o',
{
    reveal_strlit("Make");
    reveal_strlit("Model");
    reveal_strlit("Lens");
    reveal_strlit("Shutter");
    reveal_strlit("Aperture");
    reveal_strlit("ISO");
    reveal_strlit("Exposure bias");
    reveal_strlit("Focal length");
    reveal_strlit("35mm equivalent");
    reveal_strlit("Program");
    reveal_strlit("Metering");
    reveal_strlit("White balance");
    reveal_strlit("Flash");
    reveal_strlit("Taken");
    reveal_strlit("Modified");
    reveal_strlit("Colour space");
    reveal_strlit("Description");
    reveal_strlit("Artist");
    reveal_strlit("Copyright");
    reveal_strlit("Software");
    reveal_strlit("Altitude");
    reveal_strlit("Coordinates");
}

/// What each of the eight EXIF numbers means: where the first stored row and column are to be
/// seen, so where every stored pixel goes. Any other number leaves the picture as it is stored.
pub proof fn law_orientation_numbers_mean_what_exif_says(value: u32, p: Picture, x: int, y: int)
    requires
        p.wf(),
        p.holds(x, y),
    ensures
        ({
            let shown = Orientation::numbered(value).of(p);
            let (right, bottom) = (p.width - 1 - x, p.height - 1 - y);
            &&& value == 2 ==> shown.at(right, y) == p.at(x, y)
            &&& value == 3 ==> shown.at(right, bottom) == p.at(x, y)
            &&& value == 4 ==> shown.at(x, bottom) == p.at(x, y)
            &&& value == 5 ==> shown.at(y, x) == p.at(x, y)
            &&& value == 6 ==> shown.at(bottom, x) == p.at(x, y)
            &&& value == 7 ==> shown.at(bottom, right) == p.at(x, y)
            &&& value == 8 ==> shown.at(y, right) == p.at(x, y)
            &&& value < 2 || value > 8 ==> shown == p
            &&& 5 <= value <= 8 ==> shown.width == p.height && shown.height == p.width
            &&& value < 5 ==> shown.width == p.width && shown.height == p.height
        }),
{
}

/// The size that a picture is said to have upright is the size it has.
pub proof fn law_an_upright_size_is_the_size_shown(orientation: Orientation, p: Picture)
    requires
        p.wf(),
        p.width <= u32::MAX,
        p.height <= u32::MAX,
    ensures
        orientation.upright((p.width as u32, p.height as u32)) == (
            orientation.of(p).width as u32,
            orientation.of(p).height as u32,
        ),
        orientation.turns() == (orientation.upright((1, 2)) == (2u32, 1u32)),
{
}

/// A photo is turned by tag 0x112 of its EXIF block and by nothing else, and one without a
/// block or without the tag is not turned.
pub proof fn law_only_the_orientation_tag_turns_a_photo(file: Seq<u8>)
    ensures
        tags::block_of(file) is None ==> orientation_of(file) is Normal,
        tags::block_of(file) matches Some(tiff) ==> {
            let tag = Tag { table: Table::Tiff, number: 0x112 };
            &&& tags::number_of(tiff, tag, false) is None ==> orientation_of(file) is Normal
            &&& tags::number_of(tiff, tag, false) matches Some(value) ==> orientation_of(file)
                == Orientation::numbered(value)
        },
{
}

/// Text is shown without the spaces and zero characters that cameras pad it with, and several
/// texts under one tag with a space between them. A tag with nothing but padding, or none, is
/// not shown.
pub proof fn law_padding_is_not_shown(
    tiff: Seq<u8>,
    tag: Tag,
    front: Seq<char>,
    core: Seq<char>,
    back: Seq<char>,
)
    requires
        forall|i: int| 0 <= i < front.len() ==> #[trigger] front[i] == ' ' || front[i] == '\0',
        forall|i: int| 0 <= i < back.len() ==> #[trigger] back[i] == ' ' || back[i] == '\0',
        core.len() > 0 ==> '!' <= core[0] <= '~' && '!' <= core[core.len() - 1] <= '~',
    ensures
        ({
            let padded = front + core + back;
            let shown = if core.len() == 0 {
                None
            } else {
                Some(core)
            };
            &&& tags::held_by(tiff, tag) is None ==> value_in(tiff, tag) is None
            &&& forall|part: Seq<u8>|
                tags::held_by(tiff, tag) == Some(tags::Held::Ascii(seq![part]))
                    && #[trigger] tags::lossy_text(part) == padded ==> value_in(tiff, tag) == shown
            &&& forall|one: Seq<u8>, other: Seq<u8>|
                tags::held_by(tiff, tag) == Some(tags::Held::Ascii(seq![one, other]))
                    && #[trigger] tags::lossy_text(one) + seq![' '] + #[trigger] tags::lossy_text(
                    other,
                ) == padded ==> value_in(tiff, tag) == shown
            &&& tags::held_by(tiff, tag) is Some && !(tags::held_by(tiff, tag)->0 is Ascii)
                && tags::shown_by(tiff, tag) == Some(padded) ==> value_in(tiff, tag) == shown
        }),
{
    let padded = front + core + back;
    text::law_trimming_takes_only_the_ends(front, core, back, Trim::SpaceOrNul);
    reveal_strlit(" ");
    reveal_with_fuel(texts_joined, 3);
    assert(" "@ =~= seq![' ']);
}

/// Which half of the world a coordinate is in is said by the first letter of its hemisphere:
/// south and west are behind a minus sign, in either case, and all else is not. It takes three
/// fractions, none of them over nothing, and a hemisphere.
pub proof fn law_south_and_west_are_negative(tiff: Seq<u8>, value: Tag, reference: Tag)
    ensures
        ({
            let shown = coordinate_in(tiff, value, reference);
            let half = value_in(tiff, reference);
            match tags::held_by(tiff, value) {
                Some(tags::Held::Rational(parts)) => {
                    let whole = parts.len() >= 3 && parts[0].1 != 0 && parts[1].1 != 0
                        && parts[2].1 != 0;
                    let first = half->0[0];
                    let below = half->0.len() > 0 && (first == 'S' || first == 's' || first == 'W'
                        || first == 'w');
                    &&& shown is Some == (whole && half is Some)
                    &&& shown is Some && !below ==> shown == Some(
                        coordinates::degrees_text(parts[0], parts[1], parts[2], false),
                    )
                    &&& shown is Some && below ==> shown == Some(
                        seq!['-'] + coordinates::degrees_text(parts[0], parts[1], parts[2], false),
                    )
                },
                _ => shown is None,
            }
        }),
{
}

/// A coordinate takes three fractions, degrees, minutes and seconds in this order, each with a
/// denominator, and a hemisphere. With any of them missing there is none.
pub proof fn law_a_coordinate_takes_all_its_parts(
    tiff: Seq<u8>,
    value: Tag,
    reference: Tag,
    parts: Seq<(u32, u32)>,
)
    requires
        tags::held_by(tiff, value) == Some(tags::Held::Rational(parts)),
    ensures
        ({
            let whole = parts.len() >= 3 && parts[0].1 != 0 && parts[1].1 != 0 && parts[2].1 != 0;
            let hemisphere = value_in(tiff, reference);
            &&& coordinate_in(tiff, value, reference) is Some <==> whole && hemisphere is Some
            &&& whole && hemisphere is Some ==> coordinate_in(tiff, value, reference) == Some(
                coordinates::degrees_text(
                    parts[0],
                    parts[1],
                    parts[2],
                    hemisphere->0.len() > 0 && (hemisphere->0[0] == 'S' || hemisphere->0[0] == 's'
                        || hemisphere->0[0] == 'W' || hemisphere->0[0] == 'w'),
                ),
            )
        }),
{
}

} // verus!
