//! The difference hash: a luminance image is brought to a fixed 9 x 8 grid,
//! and each horizontally adjacent pair of grid pixels gives one bit.

use vstd::prelude::*;
use vstd::arithmetic::div_mod::lemma_div_denominator;
use vstd::arithmetic::power2::{lemma2_to64, lemma2_to64_rest, lemma_pow2_pos, lemma_pow2_strictly_increases, lemma_pow2_unfold, pow2};
use vstd::bits::lemma_u64_shr_is_div;
use vstd::string::StringExecFns;

verus! {

/// Width of the grid every image is brought to before differencing.
pub const GRID_WIDTH: u32 = 9;

/// Height of that grid.
pub const GRID_HEIGHT: u32 = 8;

/// Number of bits of every fingerprint: `(GRID_WIDTH - 1) * GRID_HEIGHT`.
pub const FINGERPRINT_BITS: usize = 64;

/// Bringing an image to the grid takes 128 bytes of working storage for each
/// of its columns: `GRID_HEIGHT` pixels of four 32-bit channels. A vector
/// holds at most `isize::MAX` bytes, so an image is too wide when its width
/// times this factor does not fit in `usize`.
pub const RESAMPLE_COST: u64 = 256;

/// A single-channel image: `height` rows of `width` luminance values each,
/// row after row.
#[derive(Clone, Debug)]
pub struct LumaImage {
    pub width: u32,
    pub height: u32,
    pub pixels: Vec<u8>,
}

/// The mathematical value of a `LumaImage`.
pub ghost struct LumaView {
    pub width: nat,
    pub height: nat,
    pub pixels: Seq<u8>,
}

impl View for LumaImage {
    type V = LumaView;

    open spec fn view(&self) -> LumaView {
        LumaView { width: self.width as nat, height: self.height as nat, pixels: self.pixels@ }
    }
}

/// A perceptual fingerprint: 64 bits, the first bit in the highest place.
#[derive(Clone, Copy, Debug, PartialEq, Eq, Hash, Structural)]
pub struct Fingerprint {
    pub bits: u64,
}

/// The binary digits of `value` in `n` places, the highest place first.
pub open spec fn digits(value: nat, n: nat) -> Seq<bool> {
    Seq::new(n, |i: int| (value / pow2((n - 1 - i) as nat)) % 2 == 1)
}

/// A bit string as text: `1` for a set bit, `0` for a clear one.
pub open spec fn bit_text(bits: Seq<bool>) -> Seq<char> {
    Seq::new(
        bits.len(),
        |i: int|
            if bits[i] {
                '1'
            } else {
                '0'
            },
    )
}

impl View for Fingerprint {
    type V = Seq<bool>;

    /// The fingerprint as a sequence of 64 bits.
    open spec fn view(&self) -> Seq<bool> {
        digits(self.bits as nat, FINGERPRINT_BITS as nat)
    }
}

impl Fingerprint {
    /// Bit `i` of the fingerprint, counted from the first.
    pub fn bit(&self, i: usize) -> (set: bool)
        requires
            i < FINGERPRINT_BITS,
        ensures
            set == self@[i as int],
    {
        let shift: u64 = 63 - i as u64;
        let shifted: u64 = self.bits >> shift;
        proof {
            lemma_u64_shr_is_div(self.bits, shift);
            assert((shifted & 1 == 1) == (shifted % 2 == 1)) by (bit_vector);
        }
        shifted & 1 == 1
    }

    /// The fingerprint as a string of 64 characters `0` and `1`.
    pub fn to_bit_string(&self) -> (text: String)
        ensures
            text@ == bit_text(self@),
    {
        let mut text = String::new();
        let mut i: usize = 0;
        while i < FINGERPRINT_BITS
            invariant
                i <= FINGERPRINT_BITS,
                text@ == bit_text(self@).take(i as int),
            decreases FINGERPRINT_BITS - i,
        {
            proof {
                reveal_strlit("1");
                reveal_strlit("0");
            }
            let ghost before = text@;
            if self.bit(i) {
                text.append("1");
                assert(text@ == before.push('1'));
            } else {
                text.append("0");
                assert(text@ == before.push('0'));
            }
            assert(bit_text(self@).take(i + 1) == bit_text(self@).take(i as int).push(
                bit_text(self@)[i as int],
            ));
            i = i + 1;
        }
        assert(bit_text(self@).take(FINGERPRINT_BITS as int) == bit_text(self@));
        text
    }
}

/// Why pixel data cannot be fingerprinted.
#[derive(Clone, Copy, Debug, PartialEq, Eq, Structural)]
pub enum PixelDataError {
    /// The image has no pixels: its width or its height is zero.
    Empty,
    /// There are fewer luminance values than width times height.
    Malformed,
    /// The image is too wide to be resampled on this machine.
    TooWide,
}

/// The reason that is recorded for `error`.
pub open spec fn reason_text(error: PixelDataError) -> Seq<char> {
    match error {
        PixelDataError::Empty => "image has no pixels"@,
        PixelDataError::Malformed => "pixel data is too short for the image dimensions"@,
        PixelDataError::TooWide => "image is too wide to resample"@,
    }
}

impl PixelDataError {
    /// The reason to record for this error.
    pub fn reason(&self) -> (text: String)
        ensures
            text@ == reason_text(*self),
    {
        match self {
            PixelDataError::Empty => "image has no pixels".to_owned(),
            PixelDataError::Malformed => "pixel data is too short for the image dimensions".to_owned(),
            PixelDataError::TooWide => "image is too wide to resample".to_owned(),
        }
    }
}

/// A decoded image of the `image` crate, carried through as it is.
#[verifier::external_type_specification]
#[verifier::external_body]
pub struct ExDynamicImage(image::DynamicImage);

/// The luminance image that `image::DynamicImage::to_luma8` gives for `image`.
pub uninterp spec fn luminance(image: image::DynamicImage) -> LumaView;

/// The luminance values that `image::imageops::resize` with the triangle
/// filter gives for a `width` x `height` luminance image brought to
/// `new_width` x `new_height`.
pub uninterp spec fn resampled(
    pixels: Seq<u8>,
    width: int,
    height: int,
    new_width: int,
    new_height: int,
) -> Seq<u8>;

/// The bit for position `i` of a grid `width` wide, counted row after row over
/// the `width - 1` adjacent pairs of each row: set when the left pixel of the
/// pair is darker than the right one.
pub open spec fn difference_bit(pixels: Seq<u8>, width: int, i: int) -> bool {
    let row = i / (width - 1);
    let col = i % (width - 1);
    pixels[row * width + col] < pixels[row * width + col + 1]
}

/// All `(width - 1) * height` difference bits of a grid, row after row.
pub open spec fn difference_bits(pixels: Seq<u8>, width: int, height: int) -> Seq<bool> {
    Seq::new(((width - 1) * height) as nat, |i: int| difference_bit(pixels, width, i))
}

/// The number whose binary digits are `bits`, the first bit in the highest place.
pub open spec fn pack(bits: Seq<bool>) -> nat
    decreases bits.len(),
{
    if bits.len() == 0 {
        0
    } else {
        2 * pack(bits.drop_last()) + if bits.last() {
            1nat
        } else {
            0nat
        }
    }
}

/// The luminance values of `image` on the fixed grid.
pub open spec fn normalized(image: LumaView) -> Seq<u8> {
    resampled(
        image.pixels,
        image.width as int,
        image.height as int,
        GRID_WIDTH as int,
        GRID_HEIGHT as int,
    )
}

/// The bit string of the fingerprint of `image`.
pub open spec fn fingerprint_bits(image: LumaView) -> Seq<bool> {
    difference_bits(normalized(image), GRID_WIDTH as int, GRID_HEIGHT as int)
}

/// The fingerprint of `image`, or the reason why it has none.
pub open spec fn fingerprint_of(image: LumaView) -> Result<Fingerprint, PixelDataError> {
    if image.width == 0 || image.height == 0 {
        Err(PixelDataError::Empty)
    } else if image.pixels.len() < image.width * image.height {
        Err(PixelDataError::Malformed)
    } else if image.width * RESAMPLE_COST > usize::MAX {
        Err(PixelDataError::TooWide)
    } else {
        Ok(Fingerprint { bits: pack(fingerprint_bits(image)) as u64 })
    }
}

/// A bit string of length `n` packs into a number below `2^n`.
pub proof fn lemma_pack_bound(bits: Seq<bool>)
    ensures
        pack(bits) < pow2(bits.len()),
    decreases bits.len(),
{
    if bits.len() == 0 {
        lemma2_to64();
    } else {
        lemma_pack_bound(bits.drop_last());
        lemma_pow2_unfold(bits.len());
    }
}

/// Packing a bit string and reading the digits of the number gives the bit
/// string back.
pub proof fn lemma_digits_of_pack(bits: Seq<bool>)
    ensures
        digits(pack(bits), bits.len()) == bits,
    decreases bits.len(),
{
    let n = bits.len();
    if n > 0 {
        let front = bits.drop_last();
        lemma_digits_of_pack(front);
        lemma2_to64();
        let whole = pack(bits) as int;
        let half = pack(front) as int;
        assert(whole == 2 * half + if bits.last() {
            1int
        } else {
            0int
        });
        assert(whole / 2 == half);
        assert((whole % 2 == 1) == bits.last());
        assert forall|i: int| 0 <= i < n implies digits(pack(bits), n)[i] == bits[i] by {
            if i == n - 1 {
                assert(pow2(0) == 1);
                assert(whole / 1 == whole);
            } else {
                let low = pow2((n - 2 - i) as nat) as int;
                lemma_pow2_pos((n - 2 - i) as nat);
                lemma_pow2_unfold((n - 1 - i) as nat);
                assert(pow2((n - 1 - i) as nat) as int == 2 * low);
                lemma_div_denominator(whole, 2, low);
                assert(whole / (2 * low) == half / low);
                assert(digits(pack(front), front.len())[i] == ((half / low) % 2 == 1));
                assert(front[i] == bits[i]);
            }
        }
    }
    assert(digits(pack(bits), n) =~= bits);
}

/// Bit strings of one length that pack into the same number are the same:
/// equal fingerprints mean equal bit strings.
pub proof fn lemma_pack_injective(a: Seq<bool>, b: Seq<bool>)
    requires
        a.len() == b.len(),
        pack(a) == pack(b),
    ensures
        a == b,
    decreases a.len(),
{
    if a.len() > 0 {
        lemma_pack_injective(a.drop_last(), b.drop_last());
        assert(a == a.drop_last().push(a.last()));
        assert(b == b.drop_last().push(b.last()));
    } else {
        assert(a =~= b);
    }
}

/// Every fingerprint has the same number of bits, whatever the size of the
/// image it was taken from, and they are the difference bits of the image on
/// the fixed grid.
pub proof fn lemma_fingerprint_length(image: LumaView)
    ensures
        fingerprint_bits(image).len() == FINGERPRINT_BITS,
        pack(fingerprint_bits(image)) <= u64::MAX,
        fingerprint_of(image) matches Ok(fingerprint) ==> fingerprint@ == fingerprint_bits(image)
            && fingerprint@.len() == FINGERPRINT_BITS,
{
    lemma_pack_bound(fingerprint_bits(image));
    lemma2_to64_rest();
    lemma_digits_of_pack(fingerprint_bits(image));
}

/// The fingerprint depends on the pixel content alone: images with the same
/// dimensions and the same luminance values have the same fingerprint.
pub proof fn lemma_same_pixels_same_fingerprint(a: LumaView, b: LumaView)
    requires
        a.width == b.width,
        a.height == b.height,
        a.pixels =~= b.pixels,
    ensures
        fingerprint_of(a) == fingerprint_of(b),
{
}

/// Images of different sizes that look the same on the fixed grid have the
/// same fingerprint.
pub proof fn lemma_resolution_independence(a: LumaView, b: LumaView)
    requires
        fingerprint_of(a) is Ok,
        fingerprint_of(b) is Ok,
        normalized(a) == normalized(b),
    ensures
        fingerprint_of(a) == fingerprint_of(b),
{
}

/// The luminance image of a decoded image, from
/// `image::DynamicImage::to_luma8`.
///
/// Trusted: the result is the image that `luminance` names, and it holds at
/// least one value for each of its pixels.
#[verifier::external_body]
fn to_luma(image: &image::DynamicImage) -> (luma: LumaImage)
    ensures
        luma@ == luminance(*image),
        luma.pixels.len() >= luma.width * luma.height,
{
    let gray = image.to_luma8();
    LumaImage { width: gray.width(), height: gray.height(), pixels: gray.into_raw() }
}

/// Brings a luminance image to `new_width` x `new_height` with
/// `image::imageops::resize` and the triangle filter.
///
/// Trusted: the result has one value per pixel of the new size, it is what
/// `resampled` names, and an image that already has the new size comes back
/// with its own values. The demands on the sizes keep the buffers of the
/// resize within what a vector can hold: its intermediate image has
/// `width * new_height` pixels of four 32-bit channels. An image without
/// pixels is left out, so that there is something to sample from.
#[verifier::external_body]
fn resample(pixels: &Vec<u8>, width: u32, height: u32, new_width: u32, new_height: u32) -> (out:
    Vec<u8>)
    requires
        width > 0,
        height > 0,
        pixels.len() >= width * height,
        0 < new_width <= GRID_WIDTH,
        0 < new_height <= GRID_HEIGHT,
        width * RESAMPLE_COST <= usize::MAX,
    ensures
        out@ == resampled(
            pixels@,
            width as int,
            height as int,
            new_width as int,
            new_height as int,
        ),
        out.len() == new_width * new_height,
        width == new_width && height == new_height ==> out@ == pixels@.take(width * height),
{
    let source = image::ImageBuffer::<image::Luma<u8>, &[u8]>::from_raw(
        width,
        height,
        pixels.as_slice(),
    ).unwrap();
    image::imageops::resize(
        &source,
        new_width,
        new_height,
        image::imageops::FilterType::Triangle,
    ).into_raw()
}

/// The fingerprint of an image that already lies on the fixed grid, taken
/// from its difference bits; `None` for an image of any other shape or with
/// too few values.
pub fn difference_hash(grid: &LumaImage) -> (hash: Option<Fingerprint>)
    ensures
        hash is Some <==> grid.width == GRID_WIDTH && grid.height == GRID_HEIGHT
            && grid.pixels.len() >= GRID_WIDTH * GRID_HEIGHT,
        hash matches Some(fp) ==> fp.bits == pack(
            difference_bits(grid.pixels@, GRID_WIDTH as int, GRID_HEIGHT as int),
        ) && fp@ == difference_bits(grid.pixels@, GRID_WIDTH as int, GRID_HEIGHT as int),
{
    if grid.width != GRID_WIDTH || grid.height != GRID_HEIGHT || grid.pixels.len() < 72 {
        return None;
    }
    let ghost all = difference_bits(grid.pixels@, GRID_WIDTH as int, GRID_HEIGHT as int);
    let mut acc: u64 = 0;
    let mut i: usize = 0;
    while i < FINGERPRINT_BITS
        invariant
            i <= FINGERPRINT_BITS,
            grid.pixels.len() >= 72,
            all == difference_bits(grid.pixels@, GRID_WIDTH as int, GRID_HEIGHT as int),
            acc == pack(all.take(i as int)),
        decreases FINGERPRINT_BITS - i,
    {
        let row = i / 8;
        let col = i % 8;
        let bit = grid.pixels[row * 9 + col] < grid.pixels[row * 9 + col + 1];
        proof {
            assert(all.take(i + 1).drop_last() == all.take(i as int));
            assert(all.take(i + 1).last() == bit);
            lemma_pack_bound(all.take(i as int));
            lemma2_to64_rest();
            if i < 63 {
                lemma_pow2_strictly_increases(i as nat, 63);
            }
        }
        acc = acc * 2 + if bit {
            1
        } else {
            0
        };
        i = i + 1;
    }
    proof {
        assert(all.take(FINGERPRINT_BITS as int) == all);
        lemma_digits_of_pack(all);
    }
    Some(Fingerprint { bits: acc })
}

/// The fingerprint of a decoded image: the fingerprint of its luminance.
pub fn compute_dhash(image: &image::DynamicImage) -> (result: Result<Fingerprint, PixelDataError>)
    ensures
        result == fingerprint_of(luminance(*image)),
{
    let luma = to_luma(image);
    fingerprint(&luma)
}

/// The fingerprint of a luminance image: its difference hash after it has
/// been brought to the fixed grid. Fails on pixel data that is empty, that is
/// too short for its dimensions, or that is too wide to resample on this
/// machine.
pub fn fingerprint(image: &LumaImage) -> (result: Result<Fingerprint, PixelDataError>)
    ensures
        result == fingerprint_of(image@),
{
    if image.width == 0 || image.height == 0 {
        return Err(PixelDataError::Empty);
    }
    let wide: u64 = image.width as u64;
    let high: u64 = image.height as u64;
    assert(wide * high <= 0xFFFF_FFFF * 0xFFFF_FFFF) by (nonlinear_arith)
        requires
            wide <= 0xFFFF_FFFF,
            high <= 0xFFFF_FFFF,
    ;
    if (image.pixels.len() as u64) < wide * high {
        return Err(PixelDataError::Malformed);
    }
    if wide * RESAMPLE_COST > usize::MAX as u64 {
        return Err(PixelDataError::TooWide);
    }
    let pixels = resample(&image.pixels, image.width, image.height, GRID_WIDTH, GRID_HEIGHT);
    let grid = LumaImage { width: GRID_WIDTH, height: GRID_HEIGHT, pixels };
    match difference_hash(&grid) {
        Some(fp) => {
            proof {
                lemma_fingerprint_length(image@);
            }
            Ok(fp)
        },
        // Not taken: what `resample` returns lies on the fixed grid.
        None => Err(PixelDataError::Malformed),
    }
}

} // verus!
