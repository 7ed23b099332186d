//! The parts of reading an AVIF that are not its codec: its container, samples of ten and
//! twelve bits brought down to eight, and the picture that comes of it.

use vstd::prelude::*;
use crate::decode;
use crate::decode::DecodeError;
use crate::decode::Decoded;
use crate::decode::Fault;
use crate::decode::finish;
use crate::metadata::Orientation;
use crate::raster;
use crate::raster::Raster;
use crate::text;
use crate::text::to_decimal;

verus! {

/// How long to wait for the one frame of a still, in seconds.
pub const PATIENCE_SECS: u64 = 20;

/// Most threads that the codec is given, so that others stay responsive.
pub const MAX_THREADS: u32 = 4;

/// How many threads the codec is given on a machine that has so many.
pub fn thread_count(available: u32) -> (threads: u32)
    ensures
        threads == (if available < MAX_THREADS {
            available
        } else {
            MAX_THREADS
        }),
{
    if available < MAX_THREADS {
        available
    } else {
        MAX_THREADS
    }
}

/// Why an AVIF could not be read.
#[derive(Debug)]
pub enum AvifError {
    Container(String),
    Codec(String),
    Unavailable,
    TimedOut,
    Size { width: u32, height: u32 },
}

/// What the user is told of an AVIF that could not be read.
pub open spec fn told(error: AvifError) -> Seq<char> {
    match error {
        AvifError::Container(reason) => "not valid AVIF: "@ + reason@,
        AvifError::Codec(reason) => "cannot decode the AV1 picture: "@ + reason@,
        AvifError::Unavailable => "the AV1 decoder could not be started"@,
        AvifError::TimedOut => "the AV1 decoder did not finish within "@ + text::decimal(
            PATIENCE_SECS as nat,
        ) + "s"@,
        AvifError::Size { width, height } => "decoded to "@ + text::decimal(width as nat) + "x"@
            + text::decimal(height as nat) + ", which is not an image"@,
    }
}

impl AvifError {
    pub fn message(&self) -> (message: String)
        ensures
            message@ == told(*self),
    {
        match self {
            AvifError::Container(reason) => {
                let mut message = "not valid AVIF: ".to_owned();
                message.append(reason.as_str());
                message
            },
            AvifError::Codec(reason) => {
                let mut message = "cannot decode the AV1 picture: ".to_owned();
                message.append(reason.as_str());
                message
            },
            AvifError::Unavailable => "the AV1 decoder could not be started".to_owned(),
            AvifError::TimedOut => {
                let mut message = "the AV1 decoder did not finish within ".to_owned();
                message.append(to_decimal(PATIENCE_SECS).as_str());
                message.append("s");
                message
            },
            AvifError::Size { width, height } => {
                let mut message = "decoded to ".to_owned();
                message.append(to_decimal(*width as u64).as_str());
                message.append("x");
                message.append(to_decimal(*height as u64).as_str());
                message.append(", which is not an image");
                message
            },
        }
    }
}

/// The boxes of an AVIF file, read by the `gamut-avif` crate.
#[verifier::external_type_specification]
#[verifier::external_body]
pub struct ExAvifContainer<'a>(gamut_avif::AvifContainer<'a>);

/// What `gamut_avif::AvifContainer::parse` finds wrong with the boxes of a file, on a machine
/// whose addresses have so many bits: a box that claims more than can be addressed is refused
/// in words of its own.
pub uninterp spec fn container_fault(file: Seq<u8>, address_bits: u32) -> Option<Seq<char>>;

/// What keeps a file from being taken as an AVIF container here, if anything does.
pub open spec fn fault_in(file: Seq<u8>) -> Option<Seq<char>> {
    container_fault(file, usize::BITS)
}

/// `gamut_avif::AvifContainer::parse`: reads the boxes of a file. Whether it does, and else
/// the text of its error, depends on the bytes and the width of an address alone. Nothing is
/// said of what the container holds: only the codec looks into it.
#[verifier::external_body]
pub(crate) fn open_container<'a>(file: &'a [u8]) -> (opened: Result<
    gamut_avif::AvifContainer<'a>,
    String,
>)
    ensures
        opened is Ok == (container_fault(file@, usize::BITS) is None),
        opened matches Err(reason) ==> container_fault(file@, usize::BITS) == Some(reason@),
{
    gamut_avif::AvifContainer::parse(file).map_err(|error| error.to_string())
}

/// Opens the container of an AVIF.
pub fn open<'a>(path: &str, file: &'a [u8]) -> (opened: Result<
    gamut_avif::AvifContainer<'a>,
    DecodeError,
>)
    ensures
        opened is Ok == (fault_in(file@) is None),
        opened matches Err(error) ==> {
            &&& error.fault() is Avif
            &&& error.about() == path@
            &&& error.why() == "not valid AVIF: "@ + fault_in(file@)->0
        },
{
    match open_container(file) {
        Ok(container) => Ok(container),
        Err(reason) => Err(at(path, &AvifError::Container(reason))),
    }
}

/// What a codec that gave no picture is reported as. Running out of patience is this
/// machine's fault and not the file's, whatever the codec said.
pub fn refused(timed_out: bool, reason: String) -> (error: AvifError)
    ensures
        error == (if timed_out {
            AvifError::TimedOut
        } else {
            AvifError::Codec(reason)
        }),
{
    if timed_out {
        AvifError::TimedOut
    } else {
        AvifError::Codec(reason)
    }
}

/// How the colour planes of a picture are laid out.
#[derive(Debug, Clone, Copy, PartialEq, Eq, Structural)]
pub enum Layout {
    Monochrome,
    Yuv420,
    Yuv422,
    Yuv444,
}

/// The layout a codec's number stands for.
pub fn layout(code: i32) -> (layout: Layout)
    ensures
        layout is Monochrome == (code == 0),
        layout is Yuv420 == (code == 1),
        layout is Yuv422 == (code == 2),
{
    match code {
        0 => Layout::Monochrome,
        1 => Layout::Yuv420,
        2 => Layout::Yuv422,
        _ => Layout::Yuv444,
    }
}

/// A sample of a picture coded at `depth` bits, at eight bits: rounded to the nearest,
/// halves upwards, and at most 255. Up to eight bits it stays as it is.
pub open spec fn narrowed(sample: u16, depth: u8) -> u16 {
    if depth <= 8 {
        sample
    } else {
        let step = vstd::arithmetic::power2::pow2((depth - 8) as nat);
        let lifted = if sample + step / 2 > u16::MAX {
            u16::MAX as int
        } else {
            sample + step / 2
        };
        if lifted / step as int > 255 {
            255
        } else {
            (lifted / step as int) as u16
        }
    }
}

/// Brings one sample down to eight bits.
pub fn narrow(sample: u16, depth: u8) -> (out: u16)
    requires
        depth <= 23,
    ensures
        out == narrowed(sample, depth),
{
    if depth <= 8 {
        return sample;
    }
    let mut step: u16 = 1;
    let mut bit: u8 = 8;
    proof {
        vstd::arithmetic::power2::lemma2_to64();
    }
    while bit < depth
        invariant
            8 <= bit <= depth <= 23,
            step == vstd::arithmetic::power2::pow2((bit - 8) as nat),
            1 <= step <= 0x8000,
        decreases depth - bit,
    {
        proof {
            vstd::arithmetic::power2::lemma_pow2_unfold((bit - 8 + 1) as nat);
            vstd::arithmetic::power2::lemma2_to64();
            if bit + 1 < 23 {
                vstd::arithmetic::power2::lemma_pow2_strictly_increases((bit - 7) as nat, 15);
            }
        }
        step = step * 2;
        bit += 1;
    }
    let half: u16 = step / 2;
    let lifted: u16 = if sample > u16::MAX - half {
        u16::MAX
    } else {
        sample + half
    };
    let out: u16 = lifted / step;
    if out > 255 {
        255
    } else {
        out
    }
}

/// Brings a row of samples down to eight bits.
pub fn narrow_row(samples: &[u16], depth: u8) -> (out: Vec<u16>)
    requires
        depth <= 23,
    ensures
        out@ == samples@.map_values(|sample: u16| narrowed(sample, depth)),
{
    let mut out: Vec<u16> = Vec::new();
    let mut i: usize = 0;
    while i < samples.len()
        invariant
            i <= samples@.len(),
            depth <= 23,
            out@ == samples@.take(i as int).map_values(|sample: u16| narrowed(sample, depth)),
        decreases samples@.len() - i,
    {
        out.push(narrow(samples[i], depth));
        i += 1;
        assert(out@ =~= samples@.take(i as int).map_values(|sample: u16| narrowed(sample, depth)));
    }
    assert(samples@.take(i as int) =~= samples@);
    out
}

/// Eight bits come of every coded depth, and nothing gets darker than the nearest step:
/// the brightest sample of a depth comes out at 255 and the darkest at nothing.
pub proof fn law_narrowing_keeps_both_ends(depth: u8)
    requires
        8 < depth <= 16,
    ensures
        narrowed(0, depth) == 0,
        narrowed((vstd::arithmetic::power2::pow2(depth as nat) - 1) as u16, depth) == 255,
{
    let step = vstd::arithmetic::power2::pow2((depth - 8) as nat);
    vstd::arithmetic::power2::lemma2_to64();
    vstd::arithmetic::power2::lemma_pow2_pos((depth - 8) as nat);
    vstd::arithmetic::power2::lemma_pow2_adds(8, (depth - 8) as nat);
    if depth < 16 {
        vstd::arithmetic::power2::lemma_pow2_strictly_increases(depth as nat, 16);
    }
    assert(step / 2 < step && (step / 2) / step == 0) by (nonlinear_arith)
        requires
            step >= 1,
    ;
    let lifted = if 256 * step - 1 + step / 2 > u16::MAX {
        u16::MAX as int
    } else {
        256 * step - 1 + step / 2
    };
    assert(lifted / step as int >= 255) by (nonlinear_arith)
        requires
            lifted >= 256 * step - 1,
            step >= 1,
    ;
}

/// Narrowing never swaps two samples.
pub proof fn law_narrowing_keeps_the_order(one: u16, other: u16, depth: u8)
    requires
        8 < depth <= 23,
        one <= other,
    ensures
        narrowed(one, depth) <= narrowed(other, depth) <= 255,
{
    let step = vstd::arithmetic::power2::pow2((depth - 8) as nat) as int;
    vstd::arithmetic::power2::lemma_pow2_pos((depth - 8) as nat);
    let low = if one + step / 2 > u16::MAX {
        u16::MAX as int
    } else {
        one + step / 2
    };
    let high = if other + step / 2 > u16::MAX {
        u16::MAX as int
    } else {
        other + step / 2
    };
    vstd::arithmetic::div_mod::lemma_div_is_ordered(low, high, step);
    vstd::arithmetic::div_mod::lemma_div_pos_is_pos(low, step);
}

/// Makes an image of a decoded AVIF picture.
pub fn finish_avif<A>(
    width: u32,
    height: u32,
    samples: Vec<u8>,
    orientation: Orientation,
) -> (decoded: Result<Decoded<A>, AvifError>)
    ensures
        decoded is Ok == (width * height * 4 <= samples@.len() && raster::addressable(
            width as int,
            height as int,
        )),
        decoded matches Ok(decoded) ==> {
            &&& decoded.wf()
            &&& decoded.svg is None
            &&& decoded@ == decode::still(
                raster::picture_of(
                    width as nat,
                    height as nat,
                    samples@.take(width * height * 4),
                ),
                (width, height),
                orientation,
            )
        },
        decoded matches Err(error) ==> error == (AvifError::Size { width, height }),
{
    match Raster::from_raw(width, height, samples) {
        Some(pixels) => Ok(finish(pixels, orientation)),
        None => Err(AvifError::Size { width, height }),
    }
}

/// Says which file an AVIF failure is about.
pub fn at(path: &str, error: &AvifError) -> (about: DecodeError)
    ensures
        about.fault() is Avif,
        about.about() == path@,
        about.why() == told(*error),
{
    DecodeError::new(Fault::Avif, path, error.message().as_str())
}

/// A deep sample becomes the nearest of the 256 shallow ones, and one halfway goes up. Only the
/// very last steps, which would round to one past the end, stop at it. A shallow sample is left
/// as it is.
pub proof fn law_a_sample_goes_to_the_nearest_step(sample: u16, depth: u8, step: int)
    requires
        8 < depth <= 16,
        step == vstd::arithmetic::power2::pow2((depth - 8) as nat),
        sample < 256 * step,
    ensures
        2 * sample < 511 * step ==> 2 * (sample - narrowed(sample, depth) * step) < step,
        2 * (sample - narrowed(sample, depth) * step) >= -step,
        2 * sample >= 511 * step ==> narrowed(sample, depth) == 255,
        narrowed(sample, 8) == sample,
{
    vstd::arithmetic::power2::lemma2_to64();
    vstd::arithmetic::power2::lemma_pow2_pos((depth - 8) as nat);
    vstd::arithmetic::power2::lemma_pow2_unfold((depth - 8) as nat);
    let half = vstd::arithmetic::power2::pow2((depth - 9) as nat) as int;
    assert(step == 2 * half);
    if depth < 16 {
        vstd::arithmetic::power2::lemma_pow2_strictly_increases((depth - 8) as nat, 8);
    }
    assert(1 <= half && step <= 256);
    assert(step / 2 == half);
    let lifted = if sample + half > u16::MAX {
        u16::MAX as int
    } else {
        sample + half
    };
    let quotient = lifted / step;
    vstd::arithmetic::div_mod::lemma_fundamental_div_mod(lifted, step);
    vstd::arithmetic::div_mod::lemma_mod_bound(lifted, step);
    assert(step * quotient == quotient * step) by (nonlinear_arith);
    assert(quotient * step <= lifted < quotient * step + step);
    if 2 * sample < 511 * step {
        assert(lifted == sample + half);
        assert(quotient <= 255) by (nonlinear_arith)
            requires
                quotient * step <= lifted,
                lifted < 256 * step,
                step >= 1,
        ;
    } else {
        assert(quotient >= 255) by (nonlinear_arith)
            requires
                lifted < quotient * step + step,
                lifted >= 255 * step,
                step >= 1,
        ;
        assert(narrowed(sample, depth) == 255);
    }
}

} // verus!
