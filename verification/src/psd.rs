//! Reading the flattened composite of a Photoshop `.psd` file.
//!
//! A compatibility-mode PSD carries, in its image-data section, the picture the
//! document looks like. Layers, blend modes and adjustment layers are a compositor's
//! job and are not attempted. The section holds its samples planar, a channel at a
//! time, either uncompressed or PackBits.
//!
//! Supported are RGB, greyscale and CMYK documents, with or without alpha, at 8 and
//! 16 bits per sample, raw or run-length encoded.

use vstd::prelude::*;
use crate::text;
use crate::text::to_decimal;

verus! {

/// What went wrong, in words a user could act on.
#[derive(Debug)]
pub struct PsdError(pub String);

/// The flattened composite: interleaved RGBA8, straight (non-premultiplied) alpha.
pub struct Composite {
    pub width: u32,
    pub height: u32,
    pub pixels: Vec<u8>,
}

/// A composite as mathematics: its size and its interleaved samples.
#[verifier::ext_equal]
pub struct Flattened {
    pub width: nat,
    pub height: nat,
    pub pixels: Seq<u8>,
}

impl View for Composite {
    type V = Flattened;

    open spec fn view(&self) -> Flattened {
        Flattened { width: self.width as nat, height: self.height as nat, pixels: self.pixels@ }
    }
}

/// The big-endian 16-bit number at `at`.
pub open spec fn be16(data: Seq<u8>, at: int) -> int {
    data[at] * 256 + data[at + 1]
}

/// The big-endian 32-bit number at `at`.
pub open spec fn be32(data: Seq<u8>, at: int) -> int {
    be16(data, at) * 65536 + be16(data, at + 2)
}

/// A cursor over big-endian bytes that answers with `None` at the end instead of
/// panicking.
pub struct Reader<'a> {
    pub data: &'a [u8],
    pub pos: usize,
}

impl<'a> Reader<'a> {
    /// The cursor stands inside its data or at the end of it.
    pub open spec fn wf(&self) -> bool {
        self.pos <= self.data@.len()
    }

    pub fn new(data: &'a [u8]) -> (reader: Self)
        ensures
            reader.wf(),
            reader.data@ == data@,
            reader.pos == 0,
    {
        Reader { data, pos: 0 }
    }

    /// The next `count` bytes, or `None`, with the cursor left where it was, when
    /// fewer remain.
    pub fn take(&mut self, count: usize) -> (taken: Option<&'a [u8]>)
        requires
            old(self).wf(),
        ensures
            final(self).wf(),
            final(self).data@ == old(self).data@,
            old(self).pos + count <= old(self).data@.len() ==> {
                &&& taken is Some
                &&& taken->0@ == old(self).data@.subrange(old(self).pos as int, old(self).pos + count)
                &&& final(self).pos == old(self).pos + count
            },
            old(self).pos + count > old(self).data@.len() ==> {
                &&& taken is None
                &&& final(self).pos == old(self).pos
            },
    {
        if count <= self.data.len() - self.pos {
            let slice = vstd::slice::slice_subrange(self.data, self.pos, self.pos + count);
            self.pos = self.pos + count;
            Some(slice)
        } else {
            None
        }
    }

    /// The next two bytes as a big-endian number.
    pub fn u16be(&mut self) -> (value: Option<u16>)
        requires
            old(self).wf(),
        ensures
            final(self).wf(),
            final(self).data@ == old(self).data@,
            old(self).pos + 2 <= old(self).data@.len() ==> {
                &&& value is Some
                &&& value->0 == be16(old(self).data@, old(self).pos as int)
                &&& final(self).pos == old(self).pos + 2
            },
            old(self).pos + 2 > old(self).data@.len() ==> {
                &&& value is None
                &&& final(self).pos == old(self).pos
            },
    {
        match self.take(2) {
            Some(bytes) => Some(bytes[0] as u16 * 256 + bytes[1] as u16),
            None => None,
        }
    }

    /// The next four bytes as a big-endian number.
    pub fn u32be(&mut self) -> (value: Option<u32>)
        requires
            old(self).wf(),
        ensures
            final(self).wf(),
            final(self).data@ == old(self).data@,
            old(self).pos + 4 <= old(self).data@.len() ==> {
                &&& value is Some
                &&& value->0 == be32(old(self).data@, old(self).pos as int)
                &&& final(self).pos == old(self).pos + 4
            },
            old(self).pos + 4 > old(self).data@.len() ==> {
                &&& value is None
                &&& final(self).pos == old(self).pos
            },
    {
        match self.take(4) {
            Some(bytes) => Some(
                (bytes[0] as u32 * 256 + bytes[1] as u32) * 65536 + (bytes[2] as u32 * 256
                    + bytes[3] as u32),
            ),
            None => None,
        }
    }

    /// Skips a length-prefixed section, as the three between the header and the
    /// image data all are. The cursor is past the section where it fits.
    pub fn skip_section(&mut self) -> (skipped: Option<()>)
        requires
            old(self).wf(),
        ensures
            final(self).wf(),
            final(self).data@ == old(self).data@,
            skipped is Some == (section_end(old(self).data@, old(self).pos as int) is Some),
            skipped is Some ==> final(self).pos == section_end(
                old(self).data@,
                old(self).pos as int,
            )->0,
    {
        match self.u32be() {
            Some(len) => {
                if len as u64 <= (self.data.len() - self.pos) as u64 {
                    self.pos = self.pos + len as usize;
                    Some(())
                } else {
                    None
                }
            },
            None => None,
        }
    }
}

/// Where the length-prefixed section that starts at `at` ends, if the data holds it.
pub open spec fn section_end(data: Seq<u8>, at: int) -> Option<int> {
    if at + 4 <= data.len() && at + 4 + be32(data, at) <= data.len() {
        Some(at + 4 + be32(data, at))
    } else {
        None
    }
}

/// What is left of unpacking a PackBits row from `src` on, with `out` unpacked so far
/// and `want` bytes wanted in all.
pub open spec fn unpacked(row: Seq<u8>, src: int, out: Seq<u8>, want: int) -> Result<
    Seq<u8>,
    Seq<char>,
>
    decreases row.len() - src,
{
    if out.len() >= want {
        Ok(out)
    } else if src < 0 || src >= row.len() {
        Err("RLE row ended before the row was full"@)
    } else {
        let code = row[src] as int;
        if code <= 127 {
            // A literal run: the next code + 1 bytes are copied through.
            let count = code + 1;
            if src + 1 + count > row.len() {
                Err("RLE literal run past the end of its row"@)
            } else if out.len() + count > want {
                Err("RLE run overflows its row"@)
            } else {
                unpacked(
                    row,
                    src + 1 + count,
                    out + row.subrange(src + 1, src + 1 + count),
                    want,
                )
            }
        } else if code == 128 {
            // The no-op that keeps the codes signed.
            unpacked(row, src + 1, out, want)
        } else {
            // A repeated run: the next byte fills 257 - code positions.
            let count = 257 - code;
            if src + 1 >= row.len() {
                Err("RLE repeat run past the end of its row"@)
            } else if out.len() + count > want {
                Err("RLE run overflows its row"@)
            } else {
                unpacked(row, src + 2, out + Seq::new(count as nat, |i: int| row[src + 1]), want)
            }
        }
    }
}

/// A `PsdError` that says `message`.
fn psd_error(message: &str) -> (error: PsdError)
    ensures
        error.0@ == message@,
{
    PsdError(message.to_owned())
}

/// Unwraps one PackBits-compressed row, which holds `want` bytes once unpacked.
pub fn unpack_rle(row: &[u8], want: u64) -> (unwrapped: Result<Vec<u8>, PsdError>)
    ensures
        unwrapped matches Ok(out) ==> unpacked(row@, 0, Seq::empty(), want as int) == Ok::<
            Seq<u8>,
            Seq<char>,
        >(out@),
        unwrapped matches Err(error) ==> unpacked(row@, 0, Seq::empty(), want as int) == Err::<
            Seq<u8>,
            Seq<char>,
        >(error.0@),
        unwrapped matches Ok(out) ==> out@.len() == want,
{
    let mut out: Vec<u8> = Vec::new();
    let mut src: usize = 0;
    while (out.len() as u64) < want
        invariant
            src <= row@.len(),
            out@.len() <= want,
            unpacked(row@, 0, Seq::empty(), want as int) == unpacked(
                row@,
                src as int,
                out@,
                want as int,
            ),
        decreases row@.len() - src,
    {
        if src >= row.len() {
            return Err(psd_error("RLE row ended before the row was full"));
        }
        let code: u8 = row[src];
        if code <= 127 {
            let count: usize = code as usize + 1;
            if count > row.len() - src - 1 {
                return Err(psd_error("RLE literal run past the end of its row"));
            }
            if count as u64 > want - out.len() as u64 {
                return Err(psd_error("RLE run overflows its row"));
            }
            let ghost before = out@;
            let mut i: usize = 0;
            while i < count
                invariant
                    i <= count,
                    src + 1 + count <= row@.len() <= usize::MAX,
                    out@ == before + row@.subrange(src + 1, src + 1 + i),
                decreases count - i,
            {
                out.push(row[src + 1 + i]);
                i += 1;
            }
            src = src + 1 + count;
        } else if code == 128 {
            src = src + 1;
        } else {
            let count: usize = 257 - code as usize;
            if row.len() - src < 2 {
                return Err(psd_error("RLE repeat run past the end of its row"));
            }
            let value: u8 = row[src + 1];
            if count as u64 > want - out.len() as u64 {
                return Err(psd_error("RLE run overflows its row"));
            }
            let ghost before = out@;
            let mut i: usize = 0;
            while i < count
                invariant
                    i <= count,
                    out@ == before + Seq::new(i as nat, |k: int| value),
                decreases count - i,
            {
                out.push(value);
                i += 1;
            }
            assert(out@ =~= before + Seq::new(count as nat, |k: int| row@[src + 1]));
            src = src + 2;
        }
    }
    Ok(out)
}

/// The message for a file that ends inside one of its parts.
pub open spec fn short(what: Seq<char>) -> Seq<char> {
    "the file ended inside the "@ + what
}

fn short_error(what: &str) -> (error: PsdError)
    ensures
        error.0@ == short(what@),
{
    let mut message = "the file ended inside the ".to_owned();
    message.append(what);
    PsdError(message)
}

/// A message that puts `number` between two pieces of text.
pub open spec fn numbered(before: Seq<char>, number: int, after: Seq<char>) -> Seq<char> {
    before + text::decimal(number as nat) + after
}

fn numbered_error(before: &str, number: u16, after: &str) -> (error: PsdError)
    ensures
        error.0@ == numbered(before@, number as int, after@),
{
    let mut message = before.to_owned();
    message.append(to_decimal(number as u64).as_str());
    message.append(after);
    PsdError(message)
}

/// The fields of the file header that decide how the image data is read.
pub struct Header {
    pub channels: u16,
    pub height: u32,
    pub width: u32,
    pub depth: u16,
    pub colour_mode: u16,
}

/// The header of a file, which fills its first 26 bytes, or the message for the first
/// thing wrong with it.
pub open spec fn header_of(data: Seq<u8>) -> Result<Header, Seq<char>> {
    let header = Header {
        channels: be16(data, 12) as u16,
        height: be32(data, 14) as u32,
        width: be32(data, 18) as u32,
        depth: be16(data, 22) as u16,
        colour_mode: be16(data, 24) as u16,
    };
    if data.len() < 4 {
        Err(short("header"@))
    } else if data.subrange(0, 4) != seq![0x38u8, 0x42u8, 0x50u8, 0x53u8] {
        Err("not a PSD file"@)
    } else if data.len() < 6 {
        Err(short("header"@))
    } else if be16(data, 4) != 1 {
        Err(numbered("PSB files (version "@, be16(data, 4), ") are not supported"@))
    } else if data.len() < 26 {
        Err(short("header"@))
    } else if !(1 <= header.channels <= 5) {
        Err(numbered("unsupported channel count "@, header.channels as int, ""@))
    } else if header.width == 0 || header.height == 0 {
        Err("the document has no pixels"@)
    } else if header.depth != 8 && header.depth != 16 {
        Err(numbered("unsupported bit depth "@, header.depth as int, ""@))
    } else if header.colour_mode != 1 && header.colour_mode != 3 && header.colour_mode != 4 {
        Err(
            numbered(
                "unsupported colour mode "@,
                header.colour_mode as int,
                " (only greyscale, RGB and CMYK)"@,
            ),
        )
    } else {
        Ok(header)
    }
}

fn read_header(reader: &mut Reader) -> (header: Result<Header, PsdError>)
    requires
        old(reader).wf(),
        old(reader).pos == 0,
    ensures
        final(reader).wf(),
        final(reader).data@ == old(reader).data@,
        header matches Ok(read) ==> header_of(old(reader).data@) == Ok::<Header, Seq<char>>(read)
            && final(reader).pos == 26,
        header matches Err(error) ==> header_of(old(reader).data@) == Err::<Header, Seq<char>>(
            error.0@,
        ),
{
    let ghost data = reader.data@;
    match reader.take(4) {
        Some(magic) => {
            let is_psd = magic[0] == 0x38u8 && magic[1] == 0x42u8 && magic[2] == 0x50u8 && magic[3]
                == 0x53u8;
            if !is_psd {
                assert(data.subrange(0, 4) != seq![0x38u8, 0x42u8, 0x50u8, 0x53u8]);
                return Err(psd_error("not a PSD file"));
            }
            assert(data.subrange(0, 4) =~= seq![0x38u8, 0x42u8, 0x50u8, 0x53u8]);
        },
        None => return Err(short_error("header")),
    }
    match reader.u16be() {
        Some(version) => {
            if version != 1 {
                return Err(numbered_error("PSB files (version ", version, ") are not supported"));
            }
        },
        None => return Err(short_error("header")),
    }
    if reader.take(6).is_none() {
        return Err(short_error("header"));
    }
    let channels = match reader.u16be() {
        Some(channels) => channels,
        None => return Err(short_error("header")),
    };
    let height = match reader.u32be() {
        Some(height) => height,
        None => return Err(short_error("header")),
    };
    let width = match reader.u32be() {
        Some(width) => width,
        None => return Err(short_error("header")),
    };
    let depth = match reader.u16be() {
        Some(depth) => depth,
        None => return Err(short_error("header")),
    };
    let colour_mode = match reader.u16be() {
        Some(colour_mode) => colour_mode,
        None => return Err(short_error("header")),
    };
    if channels < 1 || channels > 5 {
        return Err(numbered_error("unsupported channel count ", channels, ""));
    }
    if width == 0 || height == 0 {
        return Err(psd_error("the document has no pixels"));
    }
    if depth != 8 && depth != 16 {
        return Err(numbered_error("unsupported bit depth ", depth, ""));
    }
    if colour_mode != 1 && colour_mode != 3 && colour_mode != 4 {
        return Err(
            numbered_error(
                "unsupported colour mode ",
                colour_mode,
                " (only greyscale, RGB and CMYK)",
            ),
        );
    }
    Ok(Header { channels, height, width, depth, colour_mode })
}

/// Where the compression marker of the image data stands: behind the colour mode data,
/// the image resources and the layer information, each skipped whole.
pub open spec fn marker_at(data: Seq<u8>) -> Result<int, Seq<char>> {
    match section_end(data, 26) {
        None => Err(short("colour mode data"@)),
        Some(resources) => match section_end(data, resources) {
            None => Err(short("image resources"@)),
            Some(layers) => match section_end(data, layers) {
                None => Err(short("layer information"@)),
                Some(marker) => Ok(marker),
            },
        },
    }
}

fn skip_to_marker(reader: &mut Reader) -> (skipped: Result<(), PsdError>)
    requires
        old(reader).wf(),
        old(reader).pos == 26,
    ensures
        final(reader).wf(),
        final(reader).data@ == old(reader).data@,
        skipped is Ok ==> marker_at(old(reader).data@) == Ok::<int, Seq<char>>(
            final(reader).pos as int,
        ),
        skipped matches Err(error) ==> marker_at(old(reader).data@) == Err::<int, Seq<char>>(
            error.0@,
        ),
{
    if reader.skip_section().is_none() {
        return Err(short_error("colour mode data"));
    }
    if reader.skip_section().is_none() {
        return Err(short_error("image resources"));
    }
    if reader.skip_section().is_none() {
        return Err(short_error("layer information"));
    }
    Ok(())
}

impl Header {
    /// How many bytes one sample takes in the file.
    pub open spec fn bytes_per_sample(&self) -> int {
        if self.depth == 16 {
            2
        } else {
            1
        }
    }

    /// How many pixels the document holds.
    pub open spec fn pixels_per_plane(&self) -> int {
        self.width * self.height
    }

    /// How many samples the document holds: one for each pixel of each channel.
    pub open spec fn planes(&self) -> int {
        self.channels * self.pixels_per_plane()
    }

    /// The header describes a document this reader takes.
    pub open spec fn wf(&self) -> bool {
        &&& 1 <= self.channels <= 5
        &&& self.width >= 1
        &&& self.height >= 1
        &&& self.depth == 8 || self.depth == 16
        &&& self.colour_mode == 1 || self.colour_mode == 3 || self.colour_mode == 4
    }
}

/// Uncompressed samples from `at` on. Of a 16-bit sample the high byte is kept: the
/// low byte is below what a viewer can show.
pub open spec fn raw_samples(data: Seq<u8>, at: int, header: Header) -> Result<
    Seq<u8>,
    Seq<char>,
> {
    if at + header.planes() * header.bytes_per_sample() > data.len() {
        Err(short("image data"@))
    } else {
        Ok(
            Seq::new(
                header.planes() as nat,
                |i: int| data[at + i * header.bytes_per_sample()],
            ),
        )
    }
}

/// The first `rows` compressed rows: where the next one starts, and the samples of
/// those rows. `table` is where the row lengths stand, two bytes each, and `start`
/// where the first row does.
pub open spec fn rle_rows(data: Seq<u8>, table: int, start: int, rows: int, header: Header) -> Result<
    (int, Seq<u8>),
    Seq<char>,
>
    decreases rows,
{
    if rows <= 0 {
        Ok((start, Seq::empty()))
    } else {
        match rle_rows(data, table, start, rows - 1, header) {
            Err(message) => Err(message),
            Ok((at, samples)) => {
                let length = be16(data, table + 2 * (rows - 1));
                let step = header.bytes_per_sample();
                if at + length > data.len() {
                    Err(short("RLE data"@))
                } else {
                    match unpacked(
                        data.subrange(at, at + length),
                        0,
                        Seq::empty(),
                        header.width * step,
                    ) {
                        Err(message) => Err(message),
                        Ok(row) => Ok(
                            (
                                at + length,
                                samples + Seq::new(header.width as nat, |i: int| row[i * step]),
                            ),
                        ),
                    }
                }
            },
        }
    }
}

/// Compressed samples from `at` on: a table of row lengths for every row of every
/// channel, then the rows in that order.
pub open spec fn rle_samples(data: Seq<u8>, at: int, header: Header) -> Result<
    Seq<u8>,
    Seq<char>,
> {
    let rows = header.channels * header.height;
    if at + 2 * rows > data.len() {
        Err(short("RLE row table"@))
    } else {
        match rle_rows(data, at, at + 2 * rows, rows, header) {
            Err(message) => Err(message),
            Ok((end, samples)) => Ok(samples),
        }
    }
}

/// A row that cannot be read stops the reading there.
proof fn lemma_rle_rows_stop(
    data: Seq<u8>,
    table: int,
    start: int,
    failed: int,
    rows: int,
    header: Header,
)
    requires
        failed <= rows,
        rle_rows(data, table, start, failed, header) is Err,
    ensures
        rle_rows(data, table, start, rows, header) == rle_rows(data, table, start, failed, header),
    decreases rows - failed,
{
    if failed < rows {
        lemma_rle_rows_stop(data, table, start, failed, rows - 1, header);
    }
}

fn read_raw(reader: &mut Reader, header: &Header) -> (samples: Result<Vec<u8>, PsdError>)
    requires
        old(reader).wf(),
        header.wf(),
    ensures
        samples matches Ok(read) ==> raw_samples(
            old(reader).data@,
            old(reader).pos as int,
            *header,
        ) == Ok::<Seq<u8>, Seq<char>>(read@),
        samples matches Err(error) ==> raw_samples(
            old(reader).data@,
            old(reader).pos as int,
            *header,
        ) == Err::<Seq<u8>, Seq<char>>(error.0@),
        samples matches Ok(read) ==> read@.len() == header.planes(),
{
    let ghost data = reader.data@;
    let ghost at = reader.pos as int;
    let step: u128 = if header.depth == 16 {
        2
    } else {
        1
    };
    proof {
        lemma_planes_bound(*header);
    }
    let planes: u128 = header.channels as u128 * (header.width as u128 * header.height as u128);
    if planes * step > (reader.data.len() - reader.pos) as u128 {
        return Err(short_error("image data"));
    }
    let planes: usize = planes as usize;
    let step: usize = step as usize;
    let mut samples: Vec<u8> = Vec::new();
    let mut i: usize = 0;
    while i < planes
        invariant
            i <= planes,
            step == header.bytes_per_sample(),
            planes == header.planes(),
            at == reader.pos,
            data == reader.data@,
            at + planes * step <= data.len() <= usize::MAX,
            samples@ == Seq::new(i as nat, |k: int| data[at + k * step]),
        decreases planes - i,
    {
        assert(at + i * step < at + planes * step && 0 <= i * step) by (nonlinear_arith)
            requires
                0 <= i < planes,
                step >= 1,
        ;
        samples.push(reader.data[reader.pos + i * step]);
        i += 1;
    }
    Ok(samples)
}

/// The sample counts of any header stay far inside 128 bits.
proof fn lemma_planes_bound(header: Header)
    requires
        header.wf(),
    ensures
        1 <= header.width * header.height <= 0xffff_fffe_0000_0001,
        header.planes() == header.channels * (header.width * header.height),
        1 <= header.planes() <= 5 * 0xffff_fffe_0000_0001,
        header.channels * header.height <= 5 * 0xffff_ffff,
        header.planes() == (header.channels * header.height) * header.width,
{
    let w = header.width as int;
    let h = header.height as int;
    let c = header.channels as int;
    assert(1 <= w * h <= 0xffff_fffe_0000_0001) by (nonlinear_arith)
        requires
            1 <= w <= 0xffff_ffff,
            1 <= h <= 0xffff_ffff,
    ;
    assert(1 <= c * (w * h) <= 5 * 0xffff_fffe_0000_0001) by (nonlinear_arith)
        requires
            1 <= c <= 5,
            1 <= w * h <= 0xffff_fffe_0000_0001,
    ;
    assert(c * h <= 5 * 0xffff_ffff) by (nonlinear_arith)
        requires
            1 <= c <= 5,
            1 <= h <= 0xffff_ffff,
    ;
    assert(c * (w * h) == (c * h) * w) by (nonlinear_arith);
}

fn read_rle(reader: &mut Reader, header: &Header) -> (samples: Result<Vec<u8>, PsdError>)
    requires
        old(reader).wf(),
        header.wf(),
    ensures
        samples matches Ok(read) ==> rle_samples(
            old(reader).data@,
            old(reader).pos as int,
            *header,
        ) == Ok::<Seq<u8>, Seq<char>>(read@),
        samples matches Err(error) ==> rle_samples(
            old(reader).data@,
            old(reader).pos as int,
            *header,
        ) == Err::<Seq<u8>, Seq<char>>(error.0@),
        samples matches Ok(read) ==> read@.len() == header.planes(),
{
    let ghost data = reader.data@;
    let ghost at = reader.pos as int;
    proof {
        lemma_planes_bound(*header);
    }
    let step: u64 = if header.depth == 16 {
        2
    } else {
        1
    };
    let want: u64 = header.width as u64 * step;
    let rows: u64 = header.channels as u64 * header.height as u64;
    if 2 * rows > (reader.data.len() - reader.pos) as u64 {
        return Err(short_error("RLE row table"));
    }
    let table: usize = reader.pos;
    reader.pos = table + 2 * rows as usize;
    let mut samples: Vec<u8> = Vec::new();
    let mut row: u64 = 0;
    while row < rows
        invariant
            row <= rows,
            rows == header.channels * header.height,
            reader.wf(),
            reader.data@ == data,
            table == at,
            data == old(reader).data@,
            at == old(reader).pos,
            data.len() <= usize::MAX,
            at + 2 * rows <= data.len(),
            step == header.bytes_per_sample(),
            1 <= step <= 2,
            want == header.width * step,
            rle_rows(data, at, at + 2 * rows, row as int, *header) == Ok::<
                (int, Seq<u8>),
                Seq<char>,
            >((reader.pos as int, samples@)),
            samples@.len() == row * header.width,
        decreases rows - row,
    {
        let entry: usize = table + 2 * row as usize;
        let length: usize = reader.data[entry] as usize * 256 + reader.data[entry + 1] as usize;
        assert(length == be16(data, at + 2 * row));
        let packed = match reader.take(length) {
            Some(packed) => packed,
            None => {
                proof {
                    lemma_rle_rows_stop(data, at, at + 2 * rows, row + 1, rows as int, *header);
                }
                return Err(short_error("RLE data"));
            },
        };
        let unwrapped = match unpack_rle(packed, want) {
            Ok(unwrapped) => unwrapped,
            Err(error) => {
                proof {
                    lemma_rle_rows_stop(data, at, at + 2 * rows, row + 1, rows as int, *header);
                }
                return Err(error);
            },
        };
        let ghost before = samples@;
        let mut i: u32 = 0;
        while i < header.width
            invariant
                i <= header.width,
                1 <= step <= 2,
                want == header.width * step,
                unwrapped.len() == want,
                samples@ == before + Seq::new(i as nat, |k: int| unwrapped@[k * step]),
            decreases header.width - i,
        {
            assert(0 <= i * step < want) by (nonlinear_arith)
                requires
                    0 <= i < header.width,
                    1 <= step,
                    want == header.width * step,
            ;
            samples.push(unwrapped[(i as u64 * step) as usize]);
            i += 1;
        }
        assert((row + 1) * header.width == row * header.width + header.width) by (nonlinear_arith);
        row += 1;
    }
    Ok(samples)
}

/// Which colour modes the channel counts fit: greyscale has one or two planes, RGB
/// three or four, CMYK four or five.
pub open spec fn channels_fit(header: Header) -> bool {
    ||| header.colour_mode == 3 && 3 <= header.channels <= 4
    ||| header.colour_mode == 1 && 1 <= header.channels <= 2
    ||| header.colour_mode == 4 && 4 <= header.channels <= 5
}

/// The message for a channel count that does not fit its colour mode.
pub open spec fn misfit(header: Header) -> Seq<char> {
    text::decimal(header.channels as nat) + " channels does not fit colour mode "@ + text::decimal(
        header.colour_mode as nat,
    )
}

/// One byte of one pixel: red, green, blue or alpha.
///
/// CMYK stores ink coverage inverted, so that 0 means full ink, and each output channel
/// is 255 minus its ink minus the black. A document without an alpha plane is opaque.
pub open spec fn colour_of(samples: Seq<u8>, header: Header, pixel: int, part: int) -> u8 {
    let count = header.pixels_per_plane();
    let plain = if header.colour_mode == 1 {
        1int
    } else if header.colour_mode == 3 {
        3int
    } else {
        4int
    };
    if part == 3 {
        if header.channels > plain {
            samples[plain * count + pixel]
        } else {
            255
        }
    } else if header.colour_mode == 1 {
        samples[pixel]
    } else if header.colour_mode == 3 {
        samples[part * count + pixel]
    } else {
        let ink = (255 - samples[part * count + pixel]) + (255 - samples[3 * count + pixel]);
        if ink > 255 {
            0
        } else {
            (255 - ink) as u8
        }
    }
}

/// The interleaved pixels of planar samples.
pub open spec fn interleaved(samples: Seq<u8>, header: Header) -> Seq<u8> {
    Seq::new(
        (4 * header.pixels_per_plane()) as nat,
        |i: int| colour_of(samples, header, i / 4, i % 4),
    )
}

/// The flattened composite of a whole PSD file, or the message for the first thing
/// that keeps it from being read.
pub open spec fn flattened(data: Seq<u8>) -> Result<Flattened, Seq<char>> {
    match header_of(data) {
        Err(message) => Err(message),
        Ok(header) => match marker_at(data) {
            Err(message) => Err(message),
            Ok(at) => if at + 2 > data.len() {
                Err(short("compression marker"@))
            } else if be16(data, at) != 0 && be16(data, at) != 1 {
                Err(numbered("unsupported compression "@, be16(data, at), ""@))
            } else {
                let read = if be16(data, at) == 0 {
                    raw_samples(data, at + 2, header)
                } else {
                    rle_samples(data, at + 2, header)
                };
                match read {
                    Err(message) => Err(message),
                    Ok(samples) => if !channels_fit(header) {
                        Err(misfit(header))
                    } else {
                        Ok(
                            Flattened {
                                width: header.width as nat,
                                height: header.height as nat,
                                pixels: interleaved(samples, header),
                            },
                        )
                    },
                }
            },
        },
    }
}

fn cmyk_channel(ink: u8, black: u8) -> (value: u8)
    ensures
        value == (if (255 - ink) + (255 - black) > 255 {
            0
        } else {
            255 - ((255 - ink) + (255 - black))
        }),
{
    let covered: u16 = (255 - ink as u16) + (255 - black as u16);
    if covered > 255 {
        0
    } else {
        (255 - covered) as u8
    }
}

/// Products with the small factors that pick out a plane.
proof fn lemma_times(count: int)
    ensures
        forall|n: int| n == 0 ==> #[trigger] (n * count) == 0,
        forall|n: int| n == 1 ==> #[trigger] (n * count) == count,
        forall|n: int| n == 2 ==> #[trigger] (n * count) == 2 * count,
        forall|n: int| n == 3 ==> #[trigger] (n * count) == 3 * count,
        forall|n: int| n == 4 ==> #[trigger] (n * count) == 4 * count,
{
}

fn interleave(samples: &Vec<u8>, header: &Header) -> (pixels: Vec<u8>)
    requires
        header.wf(),
        channels_fit(*header),
        samples@.len() == header.planes(),
    ensures
        pixels@ == interleaved(samples@, *header),
{
    proof {
        lemma_planes_bound(*header);
    }
    let count: usize = samples.len() / header.channels as usize;
    let channels = header.channels;
    let mode = header.colour_mode;
    assert(count == header.pixels_per_plane()) by (nonlinear_arith)
        requires
            samples@.len() == header.channels * (header.width * header.height),
            count == samples@.len() / header.channels as nat,
            header.channels >= 1,
            header.pixels_per_plane() == header.width * header.height,
    ;
    let mut pixels: Vec<u8> = Vec::new();
    let mut pixel: usize = 0;
    while pixel < count
        invariant
            pixel <= count,
            count == header.pixels_per_plane(),
            channels == header.channels,
            mode == header.colour_mode,
            header.wf(),
            channels_fit(*header),
            samples@.len() == channels * count,
            samples@.len() <= usize::MAX,
            pixels@.len() == 4 * pixel,
            forall|i: int|
                0 <= i < pixels@.len() ==> pixels@[i] == colour_of(
                    samples@,
                    *header,
                    i / 4,
                    i % 4,
                ),
        decreases count - pixel,
    {
        proof {
            assert(channels == 1 ==> channels * count == 1 * count) by (nonlinear_arith);
            assert(channels == 2 ==> channels * count == 2 * count) by (nonlinear_arith);
            assert(channels == 3 ==> channels * count == 3 * count) by (nonlinear_arith);
            assert(channels == 4 ==> channels * count == 4 * count) by (nonlinear_arith);
            assert(channels == 5 ==> channels * count == 5 * count) by (nonlinear_arith);
        }
        let ghost before = pixels@;
        if mode == 3 {
            pixels.push(samples[pixel]);
            pixels.push(samples[count + pixel]);
            pixels.push(samples[2 * count + pixel]);
            pixels.push(
                if channels == 4 {
                    samples[3 * count + pixel]
                } else {
                    255
                },
            );
        } else if mode == 1 {
            let luma: u8 = samples[pixel];
            pixels.push(luma);
            pixels.push(luma);
            pixels.push(luma);
            pixels.push(
                if channels == 2 {
                    samples[count + pixel]
                } else {
                    255
                },
            );
        } else {
            let black: u8 = samples[3 * count + pixel];
            pixels.push(cmyk_channel(samples[pixel], black));
            pixels.push(cmyk_channel(samples[count + pixel], black));
            pixels.push(cmyk_channel(samples[2 * count + pixel], black));
            pixels.push(
                if channels == 5 {
                    samples[4 * count + pixel]
                } else {
                    255
                },
            );
        }
        proof {
            assert forall|i: int| 0 <= i < pixels@.len() implies pixels@[i] == colour_of(
                samples@,
                *header,
                i / 4,
                i % 4,
            ) by {
                if i < 4 * pixel {
                    assert(pixels@[i] == before[i]);
                } else {
                    let part = i - 4 * pixel;
                    assert(i / 4 == pixel && i % 4 == part);
                    lemma_times(count as int);
                    assert(part == 0 || part == 1 || part == 2 || part == 3);
                }
            }
        }
        pixel += 1;
    }
    pixels
}

/// Reads the flattened composite out of a whole PSD file.
pub fn composite(data: &[u8]) -> (read: Result<Composite, PsdError>)
    ensures
        read matches Ok(composite) ==> flattened(data@) == Ok::<Flattened, Seq<char>>(composite@),
        read matches Err(error) ==> flattened(data@) == Err::<Flattened, Seq<char>>(error.0@),
        read matches Ok(composite) ==> composite.pixels@.len() == composite.width * composite.height
            * 4,
{
    let mut reader = Reader::new(data);
    let header = match read_header(&mut reader) {
        Ok(header) => header,
        Err(error) => return Err(error),
    };
    match skip_to_marker(&mut reader) {
        Ok(_) => {},
        Err(error) => return Err(error),
    }
    let compression = match reader.u16be() {
        Some(compression) => compression,
        None => return Err(short_error("compression marker")),
    };
    if compression != 0 && compression != 1 {
        return Err(numbered_error("unsupported compression ", compression, ""));
    }
    let read = if compression == 0 {
        read_raw(&mut reader, &header)
    } else {
        read_rle(&mut reader, &header)
    };
    let samples = match read {
        Ok(samples) => samples,
        Err(error) => return Err(error),
    };
    let fits = match header.colour_mode {
        1 => header.channels <= 2,
        3 => header.channels == 3 || header.channels == 4,
        _ => header.channels >= 4,
    };
    if !fits {
        let mut message = to_decimal(header.channels as u64);
        message.append(" channels does not fit colour mode ");
        message.append(to_decimal(header.colour_mode as u64).as_str());
        return Err(PsdError(message));
    }
    let pixels = interleave(&samples, &header);
    Ok(Composite { width: header.width, height: header.height, pixels })
}

/// A document without an alpha plane comes out fully opaque.
pub proof fn law_no_alpha_plane_is_opaque(data: Seq<u8>, pixel: int)
    requires
        flattened(data) is Ok,
        header_of(data) matches Ok(header) && header.channels == (if header.colour_mode == 1 {
            1int
        } else if header.colour_mode == 3 {
            3int
        } else {
            4int
        }),
        0 <= pixel < flattened(data)->Ok_0.width * flattened(data)->Ok_0.height,
    ensures
        flattened(data)->Ok_0.pixels[4 * pixel + 3] == 255,
{
    let header = header_of(data)->Ok_0;
    assert((4 * pixel + 3) / 4 == pixel && (4 * pixel + 3) % 4 == 3);
}

/// A greyscale document comes out grey: its three colours are equal at every pixel.
pub proof fn law_greyscale_stays_grey(data: Seq<u8>, pixel: int)
    requires
        flattened(data) is Ok,
        header_of(data) matches Ok(header) && header.colour_mode == 1,
        0 <= pixel < flattened(data)->Ok_0.width * flattened(data)->Ok_0.height,
    ensures
        ({
            let pixels = flattened(data)->Ok_0.pixels;
            pixels[4 * pixel] == pixels[4 * pixel + 1] == pixels[4 * pixel + 2]
        }),
{
    assert((4 * pixel) / 4 == pixel && (4 * pixel) % 4 == 0);
    assert((4 * pixel + 1) / 4 == pixel && (4 * pixel + 1) % 4 == 1);
    assert((4 * pixel + 2) / 4 == pixel && (4 * pixel + 2) % 4 == 2);
}

/// Everything past the bytes a PackBits row needs is left unread: a row that unpacks
/// still unpacks, to the same bytes, with anything behind it.
pub proof fn law_unpacking_ignores_what_follows(
    row: Seq<u8>,
    more: Seq<u8>,
    src: int,
    out: Seq<u8>,
    want: int,
)
    requires
        0 <= src,
        unpacked(row, src, out, want) is Ok,
    ensures
        unpacked(row + more, src, out, want) == unpacked(row, src, out, want),
    decreases row.len() - src,
{
    if out.len() < want {
        let code = row[src] as int;
        assert((row + more)[src] == row[src]);
        if code <= 127 {
            let count = code + 1;
            assert((row + more).subrange(src + 1, src + 1 + count) =~= row.subrange(
                src + 1,
                src + 1 + count,
            ));
            law_unpacking_ignores_what_follows(
                row,
                more,
                src + 1 + count,
                out + row.subrange(src + 1, src + 1 + count),
                want,
            );
        } else if code == 128 {
            law_unpacking_ignores_what_follows(row, more, src + 1, out, want);
        } else {
            let count = 257 - code;
            assert(Seq::new(count as nat, |i: int| (row + more)[src + 1]) =~= Seq::new(
                count as nat,
                |i: int| row[src + 1],
            ));
            law_unpacking_ignores_what_follows(
                row,
                more,
                src + 2,
                out + Seq::new(count as nat, |i: int| row[src + 1]),
                want,
            );
        }
    }
}

/// What an uncompressed document looks like, from its bytes alone: a header, three sections to
/// skip, a marker of two zeros, and then the samples, a channel at a time, rows from the top. It
/// opens, and red, green, blue and alpha are what Photoshop stored. Greyscale is its one
/// channel three times over. CMYK is stored the other way round, 255 being no ink: a channel
/// comes out as its own sample where there is no black, as nothing where there is all of it,
/// and otherwise darker by as much as there is black. Of a wide sample the upper byte counts.
pub proof fn law_a_document_opens_as_it_was_stored(data: Seq<u8>, pixel: int)
    requires
        ({
            let long = |i: int|
                0x100_0000 * data[i] + 0x1_0000 * data[i + 1] + 0x100 * data[i + 2] + data[i + 3];
            let resources = 30 + long(26);
            let layers = resources + 4 + long(resources);
            let marker = layers + 4 + long(layers);
            let (height, width) = (long(14), long(18));
            let (channels, mode) = (data[13] as int, data[25]);
            &&& data.len() >= 30
            &&& resources + 4 <= data.len() && layers + 4 <= data.len() && marker + 2 <= data.len()
            &&& data[0] == '8' as u8 && data[1] == 'B' as u8
            &&& data[2] == 'P' as u8 && data[3] == 'S' as u8
            &&& data[4] == 0 && data[5] == 1
            &&& data[12] == 0 && data[22] == 0 && data[24] == 0
            &&& data[23] == 8 || data[23] == 16
            &&& mode == 1 && 1 <= channels <= 2 || mode == 3 && 3 <= channels <= 4 || mode == 4
                && 4 <= channels <= 5
            &&& width >= 1 && height >= 1
            &&& data[marker] == 0 && data[marker + 1] == 0
            &&& marker + 2 + channels * (width * height) * (if data[23] == 16 {
                2int
            } else {
                1
            }) <= data.len()
            &&& 0 <= pixel < width * height
        }),
    ensures
        ({
            let long = |i: int|
                0x100_0000 * data[i] + 0x1_0000 * data[i + 1] + 0x100 * data[i + 2] + data[i + 3];
            let resources = 30 + long(26);
            let layers = resources + 4 + long(resources);
            let first = layers + 4 + long(layers) + 2;
            let (height, width) = (long(14), long(18));
            let (channels, mode) = (data[13] as int, data[25]);
            let sample = |channel: int|
                data[first + (channel * (width * height) + pixel) * (if data[23] == 16 {
                    2int
                } else {
                    1
                })] as int;
            let pixels = flattened(data)->Ok_0.pixels;
            let (r, g, b, a) = (
                pixels[4 * pixel] as int,
                pixels[4 * pixel + 1] as int,
                pixels[4 * pixel + 2] as int,
                pixels[4 * pixel + 3] as int,
            );
            &&& flattened(data) is Ok
            &&& flattened(data)->Ok_0.width == width
            &&& flattened(data)->Ok_0.height == height
            &&& pixels.len() == 4 * (width * height)
            &&& mode == 3 ==> r == sample(0) && g == sample(1) && b == sample(2)
            &&& mode == 3 ==> a == (if channels == 4 { sample(3) } else { 255 })
            &&& mode == 1 ==> r == sample(0) && g == sample(0) && b == sample(0)
            &&& mode == 1 ==> a == (if channels == 2 { sample(1) } else { 255 })
            &&& mode == 4 && sample(3) == 255 ==> r == sample(0) && g == sample(1) && b == sample(2)
            &&& mode == 4 && sample(3) == 0 ==> r == 0 && g == 0 && b == 0
            &&& mode == 4 ==> {
                let lost = 255 - sample(3);
                &&& r == (if sample(0) > lost { sample(0) - lost } else { 0 })
                &&& g == (if sample(1) > lost { sample(1) - lost } else { 0 })
                &&& b == (if sample(2) > lost { sample(2) - lost } else { 0 })
            }
            &&& mode == 4 ==> a == (if channels == 5 { sample(4) } else { 255 })
        }),
{
    let header = lemma_header_bytes(data);
    lemma_planes_bound(header);
    let long = |i: int|
        0x100_0000 * data[i] + 0x1_0000 * data[i + 1] + 0x100 * data[i + 2] + data[i + 3];
    let resources = 30 + long(26);
    let layers = resources + 4 + long(resources);
    let marker = layers + 4 + long(layers);
    assert(be32(data, 26) == long(26));
    assert(be32(data, resources) == long(resources));
    assert(be32(data, layers) == long(layers));
    assert(marker_at(data) == Ok::<int, Seq<char>>(marker));
    assert(be16(data, marker) == 0);
    let count = header.pixels_per_plane();
    let step = header.bytes_per_sample();
    let samples = raw_samples(data, marker + 2, header)->Ok_0;
    assert(raw_samples(data, marker + 2, header) is Ok);
    assert forall|channel: int| 0 <= channel < header.channels implies #[trigger] samples[channel
        * count + pixel] == data[marker + 2 + (channel * count + pixel) * step] by {
        assert(0 <= channel * count + pixel < header.channels * count) by (nonlinear_arith)
            requires
                0 <= channel < header.channels,
                0 <= pixel < count,
        ;
    }
    lemma_pixel_parts(samples, header, pixel);
}

/// The header of a document, from its bytes.
proof fn lemma_header_bytes(data: Seq<u8>) -> (header: Header)
    requires
        data.len() >= 26,
        data[0] == 0x38 && data[1] == 0x42 && data[2] == 0x50 && data[3] == 0x53,
        data[4] == 0 && data[5] == 1,
        data[12] == 0 && data[22] == 0 && data[24] == 0,
        data[23] == 8 || data[23] == 16,
        data[25] == 1 && 1 <= data[13] <= 2 || data[25] == 3 && 3 <= data[13] <= 4 || data[25] == 4
            && 4 <= data[13] <= 5,
        be32(data, 14) >= 1,
        be32(data, 18) >= 1,
    ensures
        header_of(data) == Ok::<Header, Seq<char>>(header),
        header.wf(),
        channels_fit(header),
        header.channels == data[13],
        header.depth == data[23],
        header.colour_mode == data[25],
        header.height == 0x100_0000 * data[14] + 0x1_0000 * data[15] + 0x100 * data[16] + data[17],
        header.width == 0x100_0000 * data[18] + 0x1_0000 * data[19] + 0x100 * data[20] + data[21],
{
    assert(data.subrange(0, 4) =~= seq![0x38u8, 0x42u8, 0x50u8, 0x53u8]);
    header_of(data)->Ok_0
}

/// The four bytes of one pixel among the interleaved ones.
proof fn lemma_pixel_parts(samples: Seq<u8>, header: Header, pixel: int)
    requires
        header.wf(),
        channels_fit(header),
        0 <= pixel < header.pixels_per_plane(),
    ensures
        ({
            let pixels = interleaved(samples, header);
            let count = header.pixels_per_plane();
            let sample = |channel: int| samples[channel * count + pixel] as int;
            let mode = header.colour_mode;
            let lost = 255 - sample(3);
            &&& pixels.len() == 4 * count
            &&& mode == 3 ==> pixels[4 * pixel] == sample(0) && pixels[4 * pixel + 1] == sample(1)
                && pixels[4 * pixel + 2] == sample(2) && pixels[4 * pixel + 3] == (
            if header.channels == 4 { sample(3) } else { 255 })
            &&& mode == 1 ==> pixels[4 * pixel] == sample(0) && pixels[4 * pixel + 1] == sample(0)
                && pixels[4 * pixel + 2] == sample(0) && pixels[4 * pixel + 3] == (
            if header.channels == 2 { sample(1) } else { 255 })
            &&& mode == 4 ==> {
                &&& pixels[4 * pixel] == (if sample(0) > lost { sample(0) - lost } else { 0 })
                &&& pixels[4 * pixel + 1] == (if sample(1) > lost { sample(1) - lost } else { 0 })
                &&& pixels[4 * pixel + 2] == (if sample(2) > lost { sample(2) - lost } else { 0 })
                &&& pixels[4 * pixel + 3] == (if header.channels == 5 { sample(4) } else { 255 })
            }
        }),
{
    let count = header.pixels_per_plane();
    lemma_times(count);
    let pixels = interleaved(samples, header);
    assert forall|part: int| 0 <= part < 4 implies #[trigger] pixels[4 * pixel + part] == colour_of(
        samples,
        header,
        pixel,
        part,
    ) by {
        assert((4 * pixel + part) / 4 == pixel && (4 * pixel + part) % 4 == part);
    }
    assert(pixels[4 * pixel + 0] == colour_of(samples, header, pixel, 0));
    assert(pixels[4 * pixel + 1] == colour_of(samples, header, pixel, 1));
    assert(pixels[4 * pixel + 2] == colour_of(samples, header, pixel, 2));
    assert(pixels[4 * pixel + 3] == colour_of(samples, header, pixel, 3));
}

/// PackBits, run by run. A byte below 128 is followed by one more bytes than it says, to be
/// copied.
pub proof fn law_a_literal_run_is_copied(run: Seq<u8>, rest: Seq<u8>, out: Seq<u8>, want: int)
    requires
        1 <= run.len() <= 128,
        out.len() + run.len() <= want,
    ensures
        unpacked(seq![(run.len() - 1) as u8] + run + rest, 0, out, want) == unpacked(
            rest,
            0,
            out + run,
            want,
        ),
{
    let row = seq![(run.len() - 1) as u8] + run + rest;
    assert(row.subrange(1, 1 + run.len() as int) =~= run);
    lemma_unpacking_from(row, 1 + run.len() as int, out + run, want);
    assert(row.skip(1 + run.len() as int) =~= rest);
}

/// A byte above 128 is followed by one byte to be repeated, as often as the first falls short
/// of 257.
pub proof fn law_a_repeat_run_is_repeated(
    byte: u8,
    times: nat,
    rest: Seq<u8>,
    out: Seq<u8>,
    want: int,
)
    requires
        2 <= times <= 128,
        out.len() + times <= want,
    ensures
        unpacked(seq![(257 - times) as u8, byte] + rest, 0, out, want) == unpacked(
            rest,
            0,
            out + Seq::new(times, |i: int| byte),
            want,
        ),
{
    let row = seq![(257 - times) as u8, byte] + rest;
    let more = out + Seq::new(times, |i: int| byte);
    assert(out + Seq::new(times, |i: int| row[1]) =~= more);
    lemma_unpacking_from(row, 2, more, want);
    assert(row.skip(2) =~= rest);
}

/// A byte of 128 stands for nothing, and a row that has all its bytes is done.
pub proof fn law_a_row_is_done_when_it_is_full(rest: Seq<u8>, out: Seq<u8>, want: int)
    ensures
        out.len() < want ==> unpacked(seq![128u8] + rest, 0, out, want) == unpacked(
            rest,
            0,
            out,
            want,
        ),
        out.len() == want ==> unpacked(rest, 0, out, want) == Ok::<Seq<u8>, Seq<char>>(out),
        out.len() < want && rest.len() == 0 ==> unpacked(rest, 0, out, want) is Err,
{
    let row = seq![128u8] + rest;
    lemma_unpacking_from(row, 1, out, want);
    assert(row.skip(1) =~= rest);
}

/// A row never comes out with more or fewer bytes than it should have.
pub proof fn law_a_row_comes_out_full(row: Seq<u8>, src: int, out: Seq<u8>, want: int)
    requires
        0 <= src,
        out.len() <= want,
    ensures
        unpacked(row, src, out, want) matches Ok(bytes) ==> bytes.len() == want
            && out.is_prefix_of(bytes),
    decreases row.len() - src,
{
    if out.len() < want && src < row.len() {
        let code = row[src] as int;
        if code <= 127 {
            if src + 2 + code <= row.len() && out.len() + code + 1 <= want {
                let more = out + row.subrange(src + 1, src + 2 + code);
                law_a_row_comes_out_full(row, src + 2 + code, more, want);
                if let Ok(bytes) = unpacked(row, src, out, want) {
                    assert(out =~= bytes.take(out.len() as int)) by {
                        assert(more =~= bytes.take(more.len() as int));
                    }
                }
            }
        } else if code == 128 {
            law_a_row_comes_out_full(row, src + 1, out, want);
        } else {
            let count = (257 - code) as nat;
            if src + 1 < row.len() && out.len() + count <= want {
                let more = out + Seq::new(count, |i: int| row[src + 1]);
                law_a_row_comes_out_full(row, src + 2, more, want);
                if let Ok(bytes) = unpacked(row, src, out, want) {
                    assert(out =~= bytes.take(out.len() as int)) by {
                        assert(more =~= bytes.take(more.len() as int));
                    }
                }
            }
        }
    } else if out.len() >= want {
        assert(out =~= out.take(out.len() as int));
    }
}

/// Unpacking looks only ahead.
proof fn lemma_unpacking_from(row: Seq<u8>, src: int, out: Seq<u8>, want: int)
    requires
        0 <= src <= row.len(),
    ensures
        unpacked(row, src, out, want) == unpacked(row.skip(src), 0, out, want),
{
    lemma_unpacking_shifts(row, src, 0, out, want);
}

proof fn lemma_unpacking_shifts(row: Seq<u8>, shift: int, src: int, out: Seq<u8>, want: int)
    requires
        0 <= shift <= row.len(),
        0 <= src,
    ensures
        unpacked(row, shift + src, out, want) == unpacked(row.skip(shift), src, out, want),
    decreases row.len() - shift - src,
{
    let tail = row.skip(shift);
    if out.len() < want && shift + src < row.len() {
        let code = row[shift + src] as int;
        assert(tail[src] == row[shift + src]);
        if code <= 127 {
            let count = code + 1;
            if shift + src + 1 + count <= row.len() && out.len() + count <= want {
                assert(tail.subrange(src + 1, src + 1 + count) =~= row.subrange(
                    shift + src + 1,
                    shift + src + 1 + count,
                ));
                lemma_unpacking_shifts(
                    row,
                    shift,
                    src + 1 + count,
                    out + tail.subrange(src + 1, src + 1 + count),
                    want,
                );
            }
        } else if code == 128 {
            lemma_unpacking_shifts(row, shift, src + 1, out, want);
        } else {
            let count = 257 - code;
            if shift + src + 1 < row.len() && out.len() + count <= want {
                assert(tail[src + 1] == row[shift + src + 1]);
                let more = Seq::new(count as nat, |i: int| tail[src + 1]);
                assert(more =~= Seq::new(count as nat, |i: int| row[shift + src + 1]));
                lemma_unpacking_shifts(row, shift, src + 2, out + more, want);
            }
        }
    }
}

/// Compression changes how a document is stored and not what it looks like. Behind a marker of
/// one stand the lengths of all rows of all channels, two bytes each, and then the rows: a
/// document whose rows unpack to those of an uncompressed one opens as that one does.
pub proof fn law_compression_changes_nothing(
    plain: Seq<u8>,
    packed: Seq<u8>,
    first: int,
    start: spec_fn(int) -> int,
)
    requires
        flattened(plain) is Ok,
        marker_at(plain) == Ok::<int, Seq<char>>(first - 2),
        26 <= first <= packed.len(),
        first <= plain.len(),
        packed.take(first - 1) == plain.take(first - 1),
        plain[first - 2] == 0 && plain[first - 1] == 0,
        packed[first - 1] == 1,
        ({
            let header = header_of(plain)->Ok_0;
            let rows = header.channels * header.height;
            let bytes = header.width * (if header.depth == 16 { 2int } else { 1 });
            &&& start(0) == first + 2 * rows
            &&& start(rows) <= packed.len()
            &&& forall|row: int, next: int|
                0 <= row < rows && next == row + 1 ==> {
                    &&& #[trigger] start(row) + 256 * packed[first + 2 * row] + packed[first + 2
                        * row + 1] == #[trigger] start(next)
                    &&& unpacked(
                        packed.subrange(start(row), start(next)),
                        0,
                        Seq::empty(),
                        bytes,
                    ) == Ok::<Seq<u8>, Seq<char>>(
                        plain.subrange(first + row * bytes, first + next * bytes),
                    )
                }
        }),
    ensures
        flattened(packed) == flattened(plain),
{
    let header = header_of(plain)->Ok_0;
    let rows = header.channels * header.height;
    lemma_planes_bound(header);
    lemma_front_decides(plain, packed, first);
    let step = header.bytes_per_sample();
    let samples = raw_samples(plain, first, header)->Ok_0;
    lemma_starts_rise(packed, first, start, 0, rows);
    lemma_packed_rows(plain, packed, first, start, rows, header);
    assert(be16(packed, first - 2) == 1);
    assert(be16(plain, first - 2) == 0);
    let read = rle_rows(packed, first, first + 2 * rows, rows, header)->Ok_0.1;
    assert(read.len() == samples.len());
    assert(read =~= samples);
    assert(rle_samples(packed, first, header) == Ok::<Seq<u8>, Seq<char>>(samples));
}

/// What stands in front of the marker decides the header and where the marker is.
proof fn lemma_front_decides(plain: Seq<u8>, packed: Seq<u8>, first: int)
    requires
        header_of(plain) is Ok,
        marker_at(plain) == Ok::<int, Seq<char>>(first - 2),
        26 <= first <= packed.len(),
        first <= plain.len(),
        packed.take(first - 1) == plain.take(first - 1),
    ensures
        header_of(packed) == header_of(plain),
        marker_at(packed) == marker_at(plain),
        packed[first - 2] == plain[first - 2],
{
    assert forall|i: int| 0 <= i < first - 1 implies #[trigger] packed[i] == plain[i] by {
        assert(packed.take(first - 1)[i] == packed[i]);
        assert(plain.take(first - 1)[i] == plain[i]);
    }
    assert(packed.subrange(0, 4) =~= plain.subrange(0, 4));
    let resources = section_end(plain, 26)->0;
    let layers = section_end(plain, resources)->0;
}

/// The rows of a compressed document follow one another inside it.
proof fn lemma_starts_rise(
    packed: Seq<u8>,
    first: int,
    start: spec_fn(int) -> int,
    row: int,
    rows: int,
)
    requires
        0 <= row <= rows,
        start(rows) <= packed.len(),
        forall|row: int, next: int|
            0 <= row < rows && next == row + 1 ==> #[trigger] start(row) + 256 * packed[first + 2
                * row] + packed[first + 2 * row + 1] == #[trigger] start(next),
    ensures
        start(row) <= packed.len(),
    decreases rows - row,
{
    if row < rows {
        lemma_starts_rise(packed, first, start, row + 1, rows);
        assert(start(row) <= start(row + 1));
    }
}

proof fn lemma_packed_rows(
    plain: Seq<u8>,
    packed: Seq<u8>,
    first: int,
    start: spec_fn(int) -> int,
    row: int,
    header: Header,
)
    requires
        header.wf(),
        0 <= row <= header.channels * header.height,
        first + header.planes() * header.bytes_per_sample() <= plain.len(),
        start(0) == first + 2 * (header.channels * header.height),
        start(header.channels * header.height) <= packed.len(),
        0 <= first,
        forall|row: int, next: int|
            0 <= row < header.channels * header.height && next == row + 1 ==> {
                let bytes = header.width * header.bytes_per_sample();
                &&& #[trigger] start(row) + 256 * packed[first + 2 * row] + packed[first + 2 * row
                    + 1] == #[trigger] start(next)
                &&& unpacked(
                    packed.subrange(start(row), start(next)),
                    0,
                    Seq::empty(),
                    bytes,
                ) == Ok::<Seq<u8>, Seq<char>>(
                    plain.subrange(first + row * bytes, first + next * bytes),
                )
            },
    ensures
        ({
            let rows = header.channels * header.height;
            let step = header.bytes_per_sample();
            let read = rle_rows(packed, first, first + 2 * rows, row, header);
            &&& read is Ok
            &&& read->Ok_0.0 == start(row)
            &&& read->Ok_0.1.len() == row * header.width
            &&& forall|i: int|
                0 <= i < row * header.width ==> #[trigger] read->Ok_0.1[i] == plain[first + i
                    * step]
        }),
    decreases row,
{
    let rows = header.channels * header.height;
    let step = header.bytes_per_sample();
    let width = header.width as int;
    lemma_planes_bound(header);
    if row > 0 {
        let last = row - 1;
        lemma_packed_rows(plain, packed, first, start, last, header);
        let before = rle_rows(packed, first, first + 2 * rows, last, header)->Ok_0.1;
        assert(start(last) + 256 * packed[first + 2 * last] + packed[first + 2 * last + 1]
            == start(last + 1));
        lemma_starts_rise(packed, first, start, row, rows);
        let bytes = width * step;
        let line = plain.subrange(first + last * bytes, first + row * bytes);
        let read = rle_rows(packed, first, first + 2 * rows, row, header)->Ok_0.1;
        assert(row * width == last * width + width) by (nonlinear_arith)
            requires
                row == last + 1,
        ;
        assert(read == before + Seq::new(width as nat, |i: int| line[i * step]));
        assert(0 <= last * bytes && row * bytes == last * bytes + bytes && row * bytes <= rows
            * bytes) by (nonlinear_arith)
            requires
                row == last + 1,
                0 <= last,
                row <= rows,
                0 <= bytes,
        ;
        assert(rows * bytes == header.planes() * step) by (nonlinear_arith)
            requires
                bytes == width * step,
                header.planes() == rows * width,
        ;
        assert forall|i: int| 0 <= i < row * width implies #[trigger] read[i] == plain[first + i
            * step] by {
            if i >= last * width {
                let column = i - last * width;
                assert(0 <= column * step < bytes && last * bytes + column * step == i * step)
                    by (nonlinear_arith)
                    requires
                        0 <= column < width,
                        bytes == width * step,
                        step >= 1,
                        i == last * width + column,
                ;
                assert(read[i] == line[column * step]);
            } else {
                assert(read[i] == before[i]);
            }
        }
    } else {
        assert(0 * width == 0);
    }
}

/// Only a document that is whole and of a kind that can be shown opens: with the signature and
/// the version of a PSD file, in grey, RGB or CMYK, with the channels that this takes and at most
/// one for transparency, in eight or sixteen bits, and with at least one pixel.
pub proof fn law_only_a_whole_document_opens(data: Seq<u8>)
    requires
        flattened(data) is Ok,
    ensures
        data.len() >= 40,
        data[0] == 0x38 && data[1] == 0x42 && data[2] == 0x50 && data[3] == 0x53,
        data[4] == 0 && data[5] == 1,
        data[12] == 0 && data[22] == 0 && data[24] == 0,
        data[23] == 8 || data[23] == 16,
        data[25] == 1 && 1 <= data[13] <= 2 || data[25] == 3 && 3 <= data[13] <= 4 || data[25] == 4
            && 4 <= data[13] <= 5,
        flattened(data)->Ok_0.width >= 1 && flattened(data)->Ok_0.height >= 1,
        flattened(data)->Ok_0.width == 0x100_0000 * data[18] + 0x1_0000 * data[19] + 0x100
            * data[20] + data[21],
        flattened(data)->Ok_0.height == 0x100_0000 * data[14] + 0x1_0000 * data[15] + 0x100
            * data[16] + data[17],
        flattened(data)->Ok_0.pixels.len() == 4 * (flattened(data)->Ok_0.width
            * flattened(data)->Ok_0.height),
{
    let signature = data.subrange(0, 4);
    assert(signature[0] == 0x38 && signature[1] == 0x42 && signature[2] == 0x50 && signature[3]
        == 0x53);
    let header = header_of(data)->Ok_0;
    assert(header.pixels_per_plane() >= 0) by (nonlinear_arith)
        requires
            header.pixels_per_plane() == header.width * header.height,
    ;
}

/// A refusal says what is wrong with a file that is long enough to tell: that it is something
/// else, that it is of the large kind, or which of its numbers cannot be shown.
pub proof fn law_a_refusal_says_what_is_wrong(data: Seq<u8>)
    requires
        data.len() >= 26,
    ensures
        ({
            let short = |i: int| 0x100 * data[i] + data[i + 1];
            let signed = data[0] == 0x38 && data[1] == 0x42 && data[2] == 0x50 && data[3] == 0x53;
            let sized = (data[14] > 0 || data[15] > 0 || data[16] > 0 || data[17] > 0) && (data[18]
                > 0 || data[19] > 0 || data[20] > 0 || data[21] > 0);
            let counted = 1 <= short(12) <= 5;
            let said = flattened(data)->Err_0;
            &&& !signed ==> flattened(data) is Err && said == "not a PSD file"@
            &&& signed && short(4) != 1 ==> flattened(data) is Err && said
                == "PSB files (version "@ + text::decimal(short(4) as nat) + ") are not supported"@
            &&& signed && short(4) == 1 && !counted ==> flattened(data) is Err && said
                == "unsupported channel count "@ + text::decimal(short(12) as nat) + ""@
            &&& signed && short(4) == 1 && counted && !sized ==> flattened(data) is Err && said
                == "the document has no pixels"@
            &&& signed && short(4) == 1 && counted && sized && short(22) != 8 && short(22) != 16
                ==> flattened(data) is Err && said == "unsupported bit depth "@ + text::decimal(
                short(22) as nat,
            ) + ""@
            &&& signed && short(4) == 1 && counted && sized && (short(22) == 8 || short(22) == 16)
                && short(24) != 1 && short(24) != 3 && short(24) != 4 ==> flattened(data) is Err
                && said == "unsupported colour mode "@ + text::decimal(short(24) as nat)
                + " (only greyscale, RGB and CMYK)"@
        }),
{
    let signature = data.subrange(0, 4);
    assert(signature[0] == data[0] && signature[1] == data[1] && signature[2] == data[2]
        && signature[3] == data[3]);
    let signed = data[0] == 0x38 && data[1] == 0x42 && data[2] == 0x50 && data[3] == 0x53;
    if signed {
        assert(signature =~= seq![0x38u8, 0x42u8, 0x50u8, 0x53u8]);
    }
}

/// A document that breaks off says where: inside which section, or before its samples begin. One
/// that is whole but packed in another way, or with channels that its colours do not take, says
/// that.
pub proof fn law_a_broken_document_says_where(data: Seq<u8>)
    requires
        header_of(data) is Ok,
    ensures
        ({
            let long = |i: int|
                0x100_0000 * data[i] + 0x1_0000 * data[i + 1] + 0x100 * data[i + 2] + data[i + 3];
            let whole = |i: int| i + 4 <= data.len() && i + 4 + long(i) <= data.len();
            let resources = 30 + long(26);
            let layers = resources + 4 + long(resources);
            let marker = layers + 4 + long(layers);
            let packing = 0x100 * data[marker] + data[marker + 1];
            let inside = "the file ended inside the "@;
            let said = flattened(data)->Err_0;
            &&& !whole(26) ==> flattened(data) is Err && said == inside + "colour mode data"@
            &&& whole(26) && !whole(resources) ==> flattened(data) is Err && said == inside
                + "image resources"@
            &&& whole(26) && whole(resources) && !whole(layers) ==> flattened(data) is Err && said
                == inside + "layer information"@
            &&& whole(26) && whole(resources) && whole(layers) ==> {
                &&& marker + 2 > data.len() ==> flattened(data) is Err && said == inside
                    + "compression marker"@
                &&& marker + 2 <= data.len() && packing > 1 ==> flattened(data) is Err && said
                    == "unsupported compression "@ + text::decimal(packing as nat) + ""@
                &&& marker + 2 <= data.len() && packing == 0 && marker + 2 + data[13] * (long(18)
                    * long(14)) * (if data[23] == 16 { 2int } else { 1 }) > data.len()
                    ==> flattened(data) is Err && said == inside + "image data"@
                &&& marker + 2 <= data.len() && packing == 1 && marker + 2 + 2 * (data[13] * long(
                    14,
                )) > data.len() ==> flattened(data) is Err && said == inside + "RLE row table"@
            }
        }),
{
    let header = header_of(data)->Ok_0;
    assert(header.channels == data[13]);
    assert(header.planes() == data[13] * (header.width * header.height));
}

/// A file whose first four bytes are another signature is no PSD file.
pub proof fn law_the_signature_comes_first(data: Seq<u8>)
    requires
        data.len() >= 4,
        data[0] != 0x38 || data[1] != 0x42 || data[2] != 0x50 || data[3] != 0x53,
    ensures
        flattened(data) == Err::<Flattened, Seq<char>>("not a PSD file"@),
{
    let signature = data.subrange(0, 4);
    assert(signature[0] == data[0] && signature[1] == data[1] && signature[2] == data[2]
        && signature[3] == data[3]);
}

/// Channels that the colours do not take are named in the refusal.
pub proof fn law_a_misfit_is_named(data: Seq<u8>)
    requires
        header_of(data) is Ok,
        ({
            let (channels, mode) = (data[13], data[25]);
            !(mode == 1 && 1 <= channels <= 2 || mode == 3 && 3 <= channels <= 4 || mode == 4 && 4
                <= channels <= 5)
        }),
    ensures
        flattened(data) is Err,
        misfit(header_of(data)->Ok_0) == text::decimal(data[13] as nat)
            + " channels does not fit colour mode "@ + text::decimal(data[25] as nat),
{
}

} // verus!
