use vstd::prelude::*;

verus! {

// The output image: a row-major buffer of quantized 8-bit channel values
// and its text encoding. Averaging and gamma correction of the sampled
// colors are floating-point work on the caller's side; the buffer handed
// here already holds one byte per channel.

/// How the pixels of an image buffer are laid out.
pub enum PixelFormat {
    /// Three channels per pixel, one byte each, in red, green, blue order.
    RGBU8,
}

/// A text format an image can be encoded to.
pub enum ImageFormat {
    PPM,
}

/// A rendered image: its dimensions and its row-major channel buffer.
pub struct Image {
    pub width: u32,
    pub height: u32,
    pub format: PixelFormat,
    pub pixels: Vec<u8>,
}

/// The number of channels a pixel holds.
pub open spec fn channel_count(format: PixelFormat) -> nat {
    match format {
        PixelFormat::RGBU8 => 3,
    }
}

impl Image {
    /// A buffer that holds exactly one pixel per image position.
    pub open spec fn wf(self) -> bool {
        self.pixels@.len() == self.width as nat * self.height as nat * channel_count(self.format)
    }

    /// An empty image of the given dimensions, to be filled by
    /// `set_pixels`.
    pub fn new(width: u32, height: u32, format: PixelFormat) -> (img: Image)
        ensures
            img.width == width,
            img.height == height,
            img.pixels@.len() == 0,
    {
        let p: Vec<u8> = Vec::new();
        Image { width, height, format, pixels: p }
    }

    /// An image over a copy of the given buffer, which must hold exactly
    /// `width * height` pixels of the given format.
    pub fn from(width: u32, height: u32, format: PixelFormat, pixels: &[u8]) -> (img: Image)
        requires
            pixels@.len() == width as nat * height as nat * channel_count(format),
        ensures
            img.wf(),
            img.width == width,
            img.height == height,
            img.format == format,
            img.pixels@ == pixels@,
    {
        let p: Vec<u8> = vstd::slice::slice_to_vec(pixels);
        Image { width, height, format, pixels: p }
    }

    pub fn get_pixels(&self) -> (r: &Vec<u8>)
        ensures
            r@ == self.pixels@,
    {
        &self.pixels
    }

    /// Overwrite the channel values from `first` up to `last` with the
    /// given ones; the rest of the buffer is untouched.
    pub fn set_pixels(&mut self, first: usize, last: usize, pixels: &[u8])
        requires
            first <= last <= old(self).pixels@.len(),
            pixels@.len() >= last - first,
        ensures
            final(self).width == old(self).width,
            final(self).height == old(self).height,
            final(self).format == old(self).format,
            final(self).pixels@.len() == old(self).pixels@.len(),
            forall|i: int|
                0 <= i < old(self).pixels@.len() ==> #[trigger] final(self).pixels@[i] == if first
                    <= i < last {
                    pixels@[i - first]
                } else {
                    old(self).pixels@[i]
                },
    {
        let mut i: usize = first;
        while i < last
            invariant
                first <= i <= last <= self.pixels@.len(),
                pixels@.len() >= last - first,
                self.pixels@.len() == old(self).pixels@.len(),
                self.width == old(self).width,
                self.height == old(self).height,
                self.format == old(self).format,
                forall|k: int|
                    0 <= k < old(self).pixels@.len() ==> #[trigger] self.pixels@[k] == if first
                        <= k < i {
                        pixels@[k - first]
                    } else {
                        old(self).pixels@[k]
                    },
            decreases last - i,
        {
            let v = pixels[i - first];
            self.pixels[i] = v;
            i = i + 1;
        }
    }
}

/// The decimal digits of `n`, most significant first, as ASCII bytes.
pub open spec fn decimal(n: nat) -> Seq<u8>
    decreases n,
{
    if n < 10 {
        seq![(48 + n) as u8]
    } else {
        decimal(n / 10).push((48 + n % 10) as u8)
    }
}

/// Append the decimal digits of `n` to `out`.
fn push_decimal(out: &mut Vec<u8>, n: u32)
    ensures
        final(out)@ == old(out)@ + decimal(n as nat),
    decreases n,
{
    if n < 10 {
        out.push(48 + (n as u8));
        assert(final(out)@ =~= old(out)@ + decimal(n as nat));
    } else {
        push_decimal(out, n / 10);
        out.push(48 + ((n % 10) as u8));
        assert(final(out)@ =~= old(out)@ + decimal(n as nat));
    }
}

/// The text line of the pixel at index `i`: its three channel values in
/// decimal, separated by spaces, ended by a newline.
pub open spec fn ppm_pixel_line(pixels: Seq<u8>, i: int) -> Seq<u8> {
    decimal(pixels[3 * i] as nat) + seq![32u8] + decimal(pixels[3 * i + 1] as nat) + seq![32u8]
        + decimal(pixels[3 * i + 2] as nat) + seq![10u8]
}

/// The text lines of the first `count` pixels, in buffer order.
pub open spec fn ppm_body(pixels: Seq<u8>, count: nat) -> Seq<u8>
    decreases count,
{
    if count == 0 {
        Seq::empty()
    } else {
        ppm_body(pixels, (count - 1) as nat) + ppm_pixel_line(pixels, count - 1)
    }
}

/// The PPM header: the magic line, the dimensions line and the maximum
/// channel value line.
pub open spec fn ppm_header(width: u32, height: u32) -> Seq<u8> {
    seq![80u8, 51u8, 10u8] + decimal(width as nat) + seq![32u8] + decimal(height as nat) + seq![
        10u8,
    ] + decimal(255) + seq![10u8]
}

/// The full PPM text of an image: the header, then one line per pixel.
pub open spec fn ppm_bytes(img: Image) -> Seq<u8> {
    ppm_header(img.width, img.height) + ppm_body(
        img.pixels@,
        img.width as nat * img.height as nat,
    )
}

/// Encode an image to PPM text, one byte per character.
pub fn encode_ppm(image: &Image) -> (out: Vec<u8>)
    requires
        image.wf(),
    ensures
        out@ == ppm_bytes(*image),
{
    let mut out: Vec<u8> = Vec::new();
    out.push(80);
    out.push(51);
    out.push(10);
    push_decimal(&mut out, image.width);
    out.push(32);
    push_decimal(&mut out, image.height);
    out.push(10);
    push_decimal(&mut out, 255);
    out.push(10);
    proof {
        assert(out@ =~= ppm_header(image.width, image.height));
    }
    let buffer_len = image.pixels.len();
    proof {
        assert((image.width as nat) * (image.height as nat) * 3 <= usize::MAX) by (nonlinear_arith)
            requires
                buffer_len == (image.width as nat) * (image.height as nat) * 3,
                buffer_len <= usize::MAX,
        ;
    }
    let pixel_total: usize = (image.width as usize) * (image.height as usize);
    let mut i: usize = 0;
    while i < pixel_total
        invariant
            image.wf(),
            pixel_total == image.width as nat * image.height as nat,
            image.pixels@.len() == pixel_total * 3,
            image.pixels@.len() <= usize::MAX,
            i <= pixel_total,
            out@ == ppm_header(image.width, image.height) + ppm_body(image.pixels@, i as nat),
        decreases pixel_total - i,
    {
        proof {
            assert(3 * i + 2 < image.pixels@.len()) by (nonlinear_arith)
                requires
                    i < pixel_total,
                    image.pixels@.len() == pixel_total * 3,
                    image.pixels@.len() <= usize::MAX,
            ;
        }
        let r = image.pixels[3 * i];
        let g = image.pixels[3 * i + 1];
        let b = image.pixels[3 * i + 2];
        push_decimal(&mut out, r as u32);
        out.push(32);
        push_decimal(&mut out, g as u32);
        out.push(32);
        push_decimal(&mut out, b as u32);
        out.push(10);
        proof {
            assert(out@ =~= ppm_header(image.width, image.height) + ppm_body(
                image.pixels@,
                (i + 1) as nat,
            ));
        }
        i = i + 1;
    }
    out
}

/// Every byte of `s` is ASCII.
pub open spec fn ascii_seq(s: Seq<u8>) -> bool {
    forall|i: int| 0 <= i < s.len() ==> #[trigger] s[i] < 128
}

/// Relies on String::from_utf8: ASCII bytes are valid UTF-8 and decode to
/// the characters of the same values; other bytes are not handed to it.
#[verifier::external_body]
fn ascii_to_string(bytes: Vec<u8>) -> (r: String)
    requires
        ascii_seq(bytes@),
    ensures
        r@ == bytes@.map_values(|b: u8| b as char),
{
    String::from_utf8(bytes).unwrap_or_default()
}

proof fn lemma_ascii_concat(a: Seq<u8>, b: Seq<u8>)
    requires
        ascii_seq(a),
        ascii_seq(b),
    ensures
        ascii_seq(a + b),
{
    assert forall|i: int| 0 <= i < (a + b).len() implies #[trigger] (a + b)[i] < 128 by {
        if i < a.len() {
            assert((a + b)[i] == a[i]);
        } else {
            assert((a + b)[i] == b[i - a.len()]);
        }
    }
}

proof fn lemma_decimal_ascii(n: nat)
    ensures
        ascii_seq(decimal(n)),
    decreases n,
{
    if n >= 10 {
        lemma_decimal_ascii(n / 10);
        assert(ascii_seq(decimal(n / 10).push((48 + n % 10) as u8)));
    }
}

proof fn lemma_ppm_body_ascii(pixels: Seq<u8>, count: nat)
    ensures
        ascii_seq(ppm_body(pixels, count)),
    decreases count,
{
    if count > 0 {
        let prev = (count - 1) as nat;
        lemma_ppm_body_ascii(pixels, prev);
        lemma_decimal_ascii(pixels[3 * (count - 1)] as nat);
        lemma_decimal_ascii(pixels[3 * (count - 1) + 1] as nat);
        lemma_decimal_ascii(pixels[3 * (count - 1) + 2] as nat);
        lemma_ascii_concat(decimal(pixels[3 * (count - 1)] as nat), seq![32u8]);
        lemma_ascii_concat(
            decimal(pixels[3 * (count - 1)] as nat) + seq![32u8],
            decimal(pixels[3 * (count - 1) + 1] as nat),
        );
        lemma_ascii_concat(
            decimal(pixels[3 * (count - 1)] as nat) + seq![32u8] + decimal(
                pixels[3 * (count - 1) + 1] as nat,
            ),
            seq![32u8],
        );
        lemma_ascii_concat(
            decimal(pixels[3 * (count - 1)] as nat) + seq![32u8] + decimal(
                pixels[3 * (count - 1) + 1] as nat,
            ) + seq![32u8],
            decimal(pixels[3 * (count - 1) + 2] as nat),
        );
        lemma_ascii_concat(
            decimal(pixels[3 * (count - 1)] as nat) + seq![32u8] + decimal(
                pixels[3 * (count - 1) + 1] as nat,
            ) + seq![32u8] + decimal(pixels[3 * (count - 1) + 2] as nat),
            seq![10u8],
        );
        lemma_ascii_concat(ppm_body(pixels, prev), ppm_pixel_line(pixels, count - 1));
    }
}

/// The PPM text is ASCII throughout.
proof fn lemma_ppm_bytes_ascii(img: Image)
    ensures
        ascii_seq(ppm_bytes(img)),
{
    lemma_decimal_ascii(img.width as nat);
    lemma_decimal_ascii(img.height as nat);
    lemma_decimal_ascii(255);
    lemma_ppm_body_ascii(img.pixels@, img.width as nat * img.height as nat);
    lemma_ascii_concat(seq![80u8, 51u8, 10u8], decimal(img.width as nat));
    lemma_ascii_concat(seq![80u8, 51u8, 10u8] + decimal(img.width as nat), seq![32u8]);
    lemma_ascii_concat(
        seq![80u8, 51u8, 10u8] + decimal(img.width as nat) + seq![32u8],
        decimal(img.height as nat),
    );
    lemma_ascii_concat(
        seq![80u8, 51u8, 10u8] + decimal(img.width as nat) + seq![32u8] + decimal(
            img.height as nat,
        ),
        seq![10u8],
    );
    lemma_ascii_concat(
        seq![80u8, 51u8, 10u8] + decimal(img.width as nat) + seq![32u8] + decimal(
            img.height as nat,
        ) + seq![10u8],
        decimal(255),
    );
    lemma_ascii_concat(
        seq![80u8, 51u8, 10u8] + decimal(img.width as nat) + seq![32u8] + decimal(
            img.height as nat,
        ) + seq![10u8] + decimal(255),
        seq![10u8],
    );
    lemma_ascii_concat(
        ppm_header(img.width, img.height),
        ppm_body(img.pixels@, img.width as nat * img.height as nat),
    );
}

/// A value that can be written out in a chosen image format.
pub trait Serializable {
    fn encode(&self, format: ImageFormat) -> String;
}

impl Serializable for Image {
    /// The PPM text of this image, character for character the bytes of
    /// `ppm_bytes`; the empty string if the buffer does not hold one pixel
    /// per image position.
    fn encode(&self, format: ImageFormat) -> (r: String)
        ensures
            self.wf() ==> r@ == ppm_bytes(*self).map_values(|b: u8| b as char),
    {
        let buffer_len = self.pixels.len();
        let wh = match (self.width as usize).checked_mul(self.height as usize) {
            Some(v) => v,
            None => {
                proof {
                    assert(!self.wf()) by (nonlinear_arith)
                        requires
                            (self.width as nat) * (self.height as nat) > usize::MAX,
                            buffer_len == self.pixels@.len(),
                            buffer_len <= usize::MAX,
                    ;
                }
                return String::new();
            },
        };
        let len = match wh.checked_mul(3) {
            Some(v) => v,
            None => {
                proof {
                    assert(!self.wf()) by (nonlinear_arith)
                        requires
                            (self.width as nat) * (self.height as nat) * 3 > usize::MAX,
                            buffer_len == self.pixels@.len(),
                            buffer_len <= usize::MAX,
                    ;
                }
                return String::new();
            },
        };
        if len != self.pixels.len() {
            return String::new();
        }
        match format {
            ImageFormat::PPM => {
                let bytes = encode_ppm(self);
                proof {
                    lemma_ppm_bytes_ascii(*self);
                }
                ascii_to_string(bytes)
            },
        }
    }
}

} // verus!
