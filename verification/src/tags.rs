//! The EXIF block of a file, as the `exif` crate reads it.
//!
//! A block is known by its TIFF bytes: whatever the crate says of a tag is a function of
//! those. The contracts here are taken from that crate and not proved.

use vstd::prelude::*;

verus! {

/// A parsed EXIF block.
#[verifier::external_type_specification]
#[verifier::external_body]
pub struct ExExif(exif::Exif);

/// Which table of tags a number belongs to.
#[derive(Debug, Clone, Copy, PartialEq, Eq, Structural)]
pub enum Table {
    Tiff,
    Exif,
    Gps,
}

/// A tag: a table and a number in it.
#[derive(Debug, Clone, Copy, PartialEq, Eq, Structural)]
pub struct Tag {
    pub table: Table,
    pub number: u16,
}

/// What a tag holds, as far as it is read: text, fractions, or anything else.
#[derive(Debug)]
pub enum Value {
    Ascii(Vec<Vec<u8>>),
    Rational(Vec<(u32, u32)>),
    Other,
}

/// What a tag holds as mathematics.
pub enum Held {
    Ascii(Seq<Seq<u8>>),
    Rational(Seq<(u32, u32)>),
    Other,
}

impl View for Value {
    type V = Held;

    open spec fn view(&self) -> Held {
        match self {
            Value::Ascii(parts) => Held::Ascii(Seq::new(parts@.len(), |i: int| parts@[i]@)),
            Value::Rational(parts) => Held::Rational(parts@),
            Value::Other => Held::Other,
        }
    }
}

/// The TIFF bytes of the EXIF block in a file, if the crate finds one it can parse.
pub uninterp spec fn block_of(file: Seq<u8>) -> Option<Seq<u8>>;

/// The TIFF bytes that a parsed block holds.
pub uninterp spec fn tiff_of(exif: exif::Exif) -> Seq<u8>;

/// What the first image of a block holds under a tag.
pub uninterp spec fn held_by(tiff: Seq<u8>, tag: Tag) -> Option<Held>;

/// What the first image of a block holds under a tag, in the words of the crate and with
/// its unit.
pub uninterp spec fn shown_by(tiff: Seq<u8>, tag: Tag) -> Option<Seq<char>>;

/// The first whole number that an image of a block, the first one or its thumbnail, holds
/// under a tag.
pub uninterp spec fn number_of(tiff: Seq<u8>, tag: Tag, thumbnail: bool) -> Option<u32>;

/// `exif::Reader::read_from_container`: the EXIF block of a file, or nothing where there
/// is none or it cannot be parsed.
#[verifier::external_body]
pub(crate) fn read_exif(file: &[u8]) -> (exif: Option<exif::Exif>)
    ensures
        exif is Some == (block_of(file@) is Some),
        exif matches Some(exif) ==> block_of(file@) == Some(tiff_of(exif)),
{
    exif::Reader::new().read_from_container(&mut std::io::Cursor::new(file)).ok()
}

/// `exif::Exif::buf`: the TIFF bytes of a block.
#[verifier::external_body]
pub(crate) fn tiff_bytes(exif: &exif::Exif) -> (tiff: &[u8])
    ensures
        tiff@ == tiff_of(*exif),
{
    exif.buf()
}

/// `exif::Exif::get_field` in the first image, and the value of the field found.
#[verifier::external_body]
pub(crate) fn field_value(exif: &exif::Exif, tag: Tag) -> (value: Option<Value>)
    ensures
        value is Some == (held_by(tiff_of(*exif), tag) is Some),
        value matches Some(value) ==> held_by(tiff_of(*exif), tag) == Some(value@),
{
    let context = match tag.table {
        Table::Tiff => exif::Context::Tiff,
        Table::Exif => exif::Context::Exif,
        Table::Gps => exif::Context::Gps,
    };
    let field = exif.get_field(exif::Tag(context, tag.number), exif::In::PRIMARY)?;
    Some(match &field.value {
        exif::Value::Ascii(parts) => Value::Ascii(parts.clone()),
        exif::Value::Rational(parts) =>
            Value::Rational(parts.iter().map(|part| (part.num, part.denom)).collect()),
        _ => Value::Other,
    })
}

/// `exif::Exif::get_field` in the first image, and the field as `display_value` and
/// `with_unit` put it in words.
#[verifier::external_body]
pub(crate) fn field_text(exif: &exif::Exif, tag: Tag) -> (text: Option<String>)
    ensures
        text is Some == (shown_by(tiff_of(*exif), tag) is Some),
        text matches Some(text) ==> shown_by(tiff_of(*exif), tag) == Some(text@),
        text is Some == (held_by(tiff_of(*exif), tag) is Some),
{
    let context = match tag.table {
        Table::Tiff => exif::Context::Tiff,
        Table::Exif => exif::Context::Exif,
        Table::Gps => exif::Context::Gps,
    };
    let field = exif.get_field(exif::Tag(context, tag.number), exif::In::PRIMARY)?;
    Some(field.display_value().with_unit(exif).to_string())
}

/// `exif::Exif::get_field` and `exif::Value::get_uint` of its first component.
#[verifier::external_body]
pub(crate) fn field_number(exif: &exif::Exif, tag: Tag, thumbnail: bool) -> (number: Option<u32>)
    ensures
        number == number_of(tiff_of(*exif), tag, thumbnail),
{
    let context = match tag.table {
        Table::Tiff => exif::Context::Tiff,
        Table::Exif => exif::Context::Exif,
        Table::Gps => exif::Context::Gps,
    };
    let images = [exif::In::PRIMARY, exif::In::THUMBNAIL];
    exif.get_field(exif::Tag(context, tag.number), images[usize::from(thumbnail)])?.value.get_uint(0)
}

/// The text of bytes that may not be UTF-8, with the replacement character where they
/// are not.
pub uninterp spec fn lossy_text(bytes: Seq<u8>) -> Seq<char>;

/// `String::from_utf8_lossy`: bytes as text. Bytes that are UTF-8 are that text.
#[verifier::external_body]
pub(crate) fn text_of(bytes: &Vec<u8>) -> (text: String)
    ensures
        text@ == lossy_text(bytes@),
        vstd::utf8::valid_utf8(bytes@) ==> text@ == vstd::utf8::decode_utf8(bytes@),
{
    String::from_utf8_lossy(bytes).into_owned()
}

} // verus!
