//! Pictures in memory: RGBA8, row-major, straight alpha.

use vstd::prelude::*;

verus! {

/// One pixel.
pub struct Rgba {
    pub r: u8,
    pub g: u8,
    pub b: u8,
    pub a: u8,
}

/// A picture as mathematics: rows of pixels, from the top.
#[verifier::ext_equal]
pub struct Picture {
    pub width: nat,
    pub height: nat,
    pub rows: Seq<Seq<Rgba>>,
}

impl Picture {
    /// Every row has the width, and there are as many as the height says.
    pub open spec fn wf(self) -> bool {
        &&& self.rows.len() == self.height
        &&& forall|y: int| 0 <= y < self.height ==> (#[trigger] self.rows[y]).len() == self.width
    }

    /// The pixel in column `x` of row `y`.
    pub open spec fn at(self, x: int, y: int) -> Rgba {
        self.rows[y][x]
    }

    /// Whether `(x, y)` is a place in the picture.
    pub open spec fn holds(self, x: int, y: int) -> bool {
        0 <= x < self.width && 0 <= y < self.height
    }

    /// The picture of the given size whose pixels `f` names, by column and row.
    pub open spec fn drawn(width: nat, height: nat, f: spec_fn(int, int) -> Rgba) -> Picture {
        Picture {
            width,
            height,
            rows: Seq::new(height, |y: int| Seq::new(width, |x: int| f(x, y))),
        }
    }

    /// Turned over left to right.
    pub open spec fn flipped_horizontally(self) -> Picture {
        Picture::drawn(self.width, self.height, |x: int, y: int| self.at(self.width - 1 - x, y))
    }

    /// Turned over top to bottom.
    pub open spec fn flipped_vertically(self) -> Picture {
        Picture::drawn(self.width, self.height, |x: int, y: int| self.at(x, self.height - 1 - y))
    }

    /// A quarter turn clockwise: the left column becomes the top row.
    pub open spec fn turned_clockwise(self) -> Picture {
        Picture::drawn(self.height, self.width, |x: int, y: int| self.at(y, self.height - 1 - x))
    }

    /// A quarter turn anticlockwise: the right column becomes the top row.
    pub open spec fn turned_anticlockwise(self) -> Picture {
        Picture::drawn(self.height, self.width, |x: int, y: int| self.at(self.width - 1 - y, x))
    }

    /// The rectangle of the given size whose top left corner is `(left, top)`.
    pub open spec fn cropped(self, left: nat, top: nat, width: nat, height: nat) -> Picture {
        Picture::drawn(width, height, |x: int, y: int| self.at(left + x, top + y))
    }

    /// This picture with `other` laid over it at `(left, top)`. What of `other` lies
    /// outside is lost.
    pub open spec fn with(self, other: Picture, left: int, top: int) -> Picture {
        Picture::drawn(
            self.width,
            self.height,
            |x: int, y: int|
                if other.holds(x - left, y - top) {
                    other.at(x - left, y - top)
                } else {
                    self.at(x, y)
                },
        )
    }

    /// Every pixel replaced by what `f` makes of it.
    pub open spec fn recoloured(self, f: spec_fn(Rgba) -> Rgba) -> Picture {
        Picture::drawn(self.width, self.height, |x: int, y: int| f(self.at(x, y)))
    }

    /// A picture of nothing: every pixel fully transparent black.
    pub open spec fn blank(width: nat, height: nat) -> Picture {
        Picture::drawn(width, height, |x: int, y: int| Rgba { r: 0, g: 0, b: 0, a: 0 })
    }

    /// Whether some pixel is less than fully opaque.
    pub open spec fn sees_through(self) -> bool {
        exists|x: int, y: int| self.holds(x, y) && (#[trigger] self.at(x, y)).a != 255
    }
}

/// A picture: its size, and its pixels as interleaved bytes.
#[derive(Debug, PartialEq, Eq)]
pub struct Raster {
    pub width: u32,
    pub height: u32,
    pub pixels: Vec<u8>,
}

/// The `n`th pixel of interleaved bytes.
pub open spec fn pixel_at(bytes: Seq<u8>, n: int) -> Rgba {
    Rgba { r: bytes[4 * n], g: bytes[4 * n + 1], b: bytes[4 * n + 2], a: bytes[4 * n + 3] }
}

/// The picture that interleaved bytes make up.
pub open spec fn picture_of(width: nat, height: nat, bytes: Seq<u8>) -> Picture {
    Picture::drawn(width, height, |x: int, y: int| pixel_at(bytes, y * width + x))
}

impl View for Raster {
    type V = Picture;

    open spec fn view(&self) -> Picture {
        picture_of(self.width as nat, self.height as nat, self.pixels@)
    }
}

impl Clone for Raster {
    fn clone(&self) -> (copied: Self)
        ensures
            copied.width == self.width,
            copied.height == self.height,
            copied.pixels@ == self.pixels@,
            copied@ == self@,
            copied.wf() == self.wf(),
    {
        Raster { width: self.width, height: self.height, pixels: self.pixels.clone() }
    }
}

/// Whether a picture of this size can be held: its bytes must fit in the memory a machine
/// can address.
pub open spec fn addressable(width: int, height: int) -> bool {
    width * height * 4 <= isize::MAX
}

impl Raster {
    /// The bytes are exactly those of a picture of this size.
    pub open spec fn wf(&self) -> bool {
        &&& self.pixels@.len() == self.width * self.height * 4
        &&& addressable(self.width as int, self.height as int)
    }

    /// Wraps bytes that hold at least as many pixels as the size claims. Bytes past
    /// those are dropped.
    pub fn from_raw(width: u32, height: u32, pixels: Vec<u8>) -> (raster: Option<Raster>)
        ensures
            raster is Some == (width * height * 4 <= pixels@.len() && addressable(
                width as int,
                height as int,
            )),
            raster matches Some(raster) ==> {
                &&& raster.wf()
                &&& raster.width == width
                &&& raster.height == height
                &&& raster.pixels@ == pixels@.take(width * height * 4)
            },
    {
        proof {
            lemma_area(width as int, height as int);
        }
        let count: u128 = width as u128 * height as u128;
        if count * 4 > pixels.len() as u128 || count * 4 > isize::MAX as u128 {
            return None;
        }
        let mut pixels = pixels;
        pixels.truncate((count * 4) as usize);
        Some(Raster { width, height, pixels })
    }

    /// A fully transparent picture.
    pub fn new(width: u32, height: u32) -> (raster: Raster)
        requires
            addressable(width as int, height as int),
        ensures
            raster.wf(),
            raster@ == Picture::blank(width as nat, height as nat),
            raster.width == width,
            raster.height == height,
    {
        proof {
            lemma_area(width as int, height as int);
        }
        let count: usize = (width as u128 * height as u128 * 4) as usize;
        let mut pixels: Vec<u8> = Vec::new();
        let mut i: usize = 0;
        while i < count
            invariant
                i <= count,
                pixels@ == Seq::new(i as nat, |k: int| 0u8),
            decreases count - i,
        {
            pixels.push(0);
            i += 1;
        }
        let raster = Raster { width, height, pixels };
        proof {
            let empty = Picture::blank(width as nat, height as nat);
            assert forall|x: int, y: int| raster@.holds(x, y) implies #[trigger] raster@.at(x, y)
                == empty.at(x, y) by {
                lemma_index(width as int, height as int, x, y);
            }
            lemma_same(raster@, empty);
        }
        raster
    }

    pub fn dimensions(&self) -> (size: (u32, u32))
        ensures
            size == (self.width, self.height),
    {
        (self.width, self.height)
    }

    /// The four bytes of one pixel: red, green, blue and alpha.
    pub fn get_pixel(&self, x: u32, y: u32) -> (pixel: [u8; 4])
        requires
            self.wf(),
            x < self.width,
            y < self.height,
        ensures
            self@.at(x as int, y as int) == (Rgba {
                r: pixel[0],
                g: pixel[1],
                b: pixel[2],
                a: pixel[3],
            }),
    {
        proof {
            lemma_index(self.width as int, self.height as int, x as int, y as int);
            lemma_area(self.width as int, self.height as int);
        }
        let n: usize = (y as u64 * self.width as u64 + x as u64) as usize;
        [
            self.pixels[4 * n],
            self.pixels[4 * n + 1],
            self.pixels[4 * n + 2],
            self.pixels[4 * n + 3],
        ]
    }

    /// Whether any pixel is less than fully opaque.
    pub fn has_transparency(&self) -> (found: bool)
        requires
            self.wf(),
        ensures
            found == self@.sees_through(),
    {
        proof {
            lemma_area(self.width as int, self.height as int);
        }
        let ghost width = self.width as int;
        let ghost height = self.height as int;
        let count: usize = self.pixels.len() / 4;
        let mut n: usize = 0;
        while n < count
            invariant
                n <= count,
                self.wf(),
                width == self.width,
                height == self.height,
                count * 4 == self.pixels@.len(),
                count == width * height,
                forall|k: int| 0 <= k < n ==> (#[trigger] pixel_at(self.pixels@, k)).a == 255,
            decreases count - n,
        {
            if self.pixels[4 * n + 3] != 255 {
                proof {
                    lemma_place(width, height, n as int);
                    assert(self@.at(n as int % width, n as int / width) == pixel_at(
                        self.pixels@,
                        n as int,
                    ));
                }
                return true;
            }
            n += 1;
        }
        proof {
            assert forall|x: int, y: int| self@.holds(x, y) implies (#[trigger] self@.at(x, y)).a
                == 255 by {
                lemma_index(width, height, x, y);
                assert(pixel_at(self.pixels@, y * width + x).a == 255);
            }
        }
        false
    }
}

/// Pictures of one size that agree at every place are the same.
pub proof fn lemma_same(one: Picture, other: Picture)
    requires
        one.wf(),
        other.wf(),
        one.width == other.width,
        one.height == other.height,
        forall|x: int, y: int| one.holds(x, y) ==> #[trigger] one.at(x, y) == other.at(x, y),
    ensures
        one == other,
{
    assert forall|y: int| 0 <= y < one.height implies one.rows[y] == other.rows[y] by {
        assert forall|x: int| 0 <= x < one.width implies one.rows[y][x] == other.rows[y][x] by {
            assert(one.at(x, y) == other.at(x, y));
        }
        assert(one.rows[y] =~= other.rows[y]);
    }
    assert(one.rows =~= other.rows);
}

/// The area of any picture stays inside 64 bits, and its bytes inside 128.
pub proof fn lemma_area(width: int, height: int)
    requires
        0 <= width <= u32::MAX,
        0 <= height <= u32::MAX,
    ensures
        0 <= width * height <= 0xffff_fffe_0000_0001,
{
    assert(0 <= width * height <= 0xffff_fffe_0000_0001) by (nonlinear_arith)
        requires
            0 <= width <= 0xffff_ffff,
            0 <= height <= 0xffff_ffff,
    ;
}

/// A place in a picture has an index below the area.
pub proof fn lemma_index(width: int, height: int, x: int, y: int)
    requires
        0 <= x < width,
        0 <= y < height,
    ensures
        0 <= y * width + x < width * height,
{
    assert(0 <= y * width + x < width * height) by (nonlinear_arith)
        requires
            0 <= x < width,
            0 <= y < height,
    ;
}

/// An index below the area is that of a place in the picture.
pub proof fn lemma_place(width: int, height: int, n: int)
    requires
        0 <= n < width * height,
        0 <= width,
        0 <= height,
    ensures
        0 <= n % width < width,
        0 <= n / width < height,
        (n / width) * width + n % width == n,
{
    assert(width > 0) by (nonlinear_arith)
        requires
            0 <= n < width * height,
            0 <= width,
            0 <= height,
    ;
    assert(0 <= n % width < width && 0 <= n / width < height && (n / width) * width + n % width
        == n) by (nonlinear_arith)
        requires
            0 <= n < width * height,
            0 < width,
    ;
}

/// Bytes make a picture row by row from the top, each row from the left, four to a pixel: red,
/// green, blue and alpha.
pub proof fn law_bytes_are_rows_of_pixels(width: nat, height: nat, bytes: Seq<u8>, x: int, y: int)
    requires
        0 <= x < width,
        0 <= y < height,
    ensures
        ({
            let picture = picture_of(width, height, bytes);
            let at = 4 * (y * width + x);
            &&& picture.width == width && picture.height == height && picture.wf()
            &&& picture.at(x, y).r == bytes[at]
            &&& picture.at(x, y).g == bytes[at + 1]
            &&& picture.at(x, y).b == bytes[at + 2]
            &&& picture.at(x, y).a == bytes[at + 3]
        }),
{
}

/// What is laid over a picture hides it there, and nowhere else.
pub proof fn law_what_lies_on_top_hides(under: Picture, over: Picture, left: int, top: int, x: int, y: int)
    requires
        under.wf(),
        over.wf(),
        under.holds(x, y),
    ensures
        ({
            let both = under.with(over, left, top);
            let covered = left <= x < left + over.width && top <= y < top + over.height;
            &&& both.width == under.width && both.height == under.height
            &&& covered ==> both.at(x, y) == over.at(x - left, y - top)
            &&& !covered ==> both.at(x, y) == under.at(x, y)
        }),
{
}

/// A picture can be seen through as soon as one of its pixels is not wholly opaque.
pub proof fn law_one_clear_pixel_is_enough(p: Picture, x: int, y: int)
    requires
        p.wf(),
        p.holds(x, y),
    ensures
        p.at(x, y).a < 255 ==> p.sees_through(),
        !p.sees_through() ==> p.at(x, y).a == 255,
{
}

/// A blank picture is clear throughout, and a recoloured one has its size and the new colour of
/// each pixel where the pixel was.
pub proof fn law_recolouring_moves_nothing(
    p: Picture,
    f: spec_fn(Rgba) -> Rgba,
    width: nat,
    height: nat,
    x: int,
    y: int,
)
    ensures
        p.recoloured(f).width == p.width && p.recoloured(f).height == p.height,
        0 <= x < p.width && 0 <= y < p.height ==> p.recoloured(f).at(x, y) == f(p.at(x, y)),
        Picture::blank(width, height).width == width && Picture::blank(width, height).height
            == height,
        0 <= x < width && 0 <= y < height ==> Picture::blank(width, height).at(x, y) == (Rgba {
            r: 0,
            g: 0,
            b: 0,
            a: 0,
        }),
{
}

/// A size can be held if its bytes, four for each pixel, can be.
pub proof fn law_a_size_is_held_in_four_bytes_a_pixel(width: int, height: int)
    ensures
        addressable(width, height) <==> 4 * (width * height) <= isize::MAX,
{
    assert(width * height * 4 == 4 * (width * height)) by (nonlinear_arith);
}

} // verus!
