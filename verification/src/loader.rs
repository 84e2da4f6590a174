//! The sprite assets, decoded from PCX images.

use crate::buffer::zeroed;
use crate::sprites::Frame;
use std::collections::HashMap;
use std::rc::Rc;
use vstd::prelude::*;

verus! {

broadcast use vstd::std_specs::hash::group_hash_axioms;

/// A decoded sprite: its width, its height and its pixel bytes.
pub type CachedSprite = (usize, usize, Rc<Vec<u8>>);

/// The key under which the assets hold the sprite of a frame.
pub open spec fn frame_key(f: Frame) -> usize {
    match f {
        Frame::Blipjoy1 => 0,
        Frame::Blipjoy2 => 1,
        Frame::Ferris1 => 2,
        Frame::Ferris2 => 3,
        Frame::Cthulhu1 => 4,
        Frame::Cthulhu2 => 5,
        Frame::Player1 => 6,
        Frame::Player2 => 7,
        Frame::Shield1 => 8,
        Frame::Bullet1 => 9,
        Frame::Laser1 => 10,
    }
}

/// The key under which the assets hold the sprite of a frame.
pub fn key_of(f: Frame) -> (k: usize)
    ensures
        k == frame_key(f),
{
    match f {
        Frame::Blipjoy1 => 0,
        Frame::Blipjoy2 => 1,
        Frame::Ferris1 => 2,
        Frame::Ferris2 => 3,
        Frame::Cthulhu1 => 4,
        Frame::Cthulhu2 => 5,
        Frame::Player1 => 6,
        Frame::Player2 => 7,
        Frame::Shield1 => 8,
        Frame::Bullet1 => 9,
        Frame::Laser1 => 10,
    }
}

/// A list of assets loaded into memory.
#[derive(Debug)]
pub struct Assets {
    pub sprites: HashMap<usize, CachedSprite>,
}

impl Assets {
    /// The sprites, by frame key.
    pub open spec fn spec_sprites(&self) -> Map<usize, CachedSprite> {
        self.sprites@
    }

    /// The sprites, by frame key.
    pub fn sprites(&self) -> (r: &HashMap<usize, CachedSprite>)
        ensures
            r@ == self.spec_sprites(),
    {
        &self.sprites
    }

    /// The sprite held for `frame`.
    pub fn sprite(&self, frame: Frame) -> (r: &CachedSprite)
        requires
            self.spec_sprites().contains_key(frame_key(frame)),
        ensures
            *r == self.spec_sprites()[frame_key(frame)],
    {
        let key = key_of(frame);
        self.sprites.get(&key).unwrap()
    }
}


/// A PCX decoder reading from a byte slice: `pcx::Reader<&[u8]>`, held opaquely because Verus
/// refuses to declare `pcx::Reader` itself (its parameter is bound by `std::io::Read`, which
/// Verus does not know).
#[verifier::external_body]
pub struct PcxReader<'a> {
    reader: pcx::Reader<&'a [u8]>,
}

/// A PCX decoder together with the bytes it was opened on, the number of rows it has read, and
/// whether reading a row has failed (the decoder then holds a partly read row).
pub struct PcxDecoder<'a> {
    reader: PcxReader<'a>,
    source: Ghost<Seq<u8>>,
    rows: Ghost<nat>,
    torn: Ghost<bool>,
}

impl<'a> PcxDecoder<'a> {
    /// The bytes that the decoder was opened on.
    pub closed spec fn source(&self) -> Seq<u8> {
        self.source@
    }

    /// The number of rows that the decoder has read.
    pub closed spec fn rows(&self) -> nat {
        self.rows@
    }

    /// Whether reading a row has failed.
    pub closed spec fn torn(&self) -> bool {
        self.torn@
    }
}

/// Whether `pcx::Reader::new` accepts the header at the front of `bytes`.
pub uninterp spec fn pcx_opens(bytes: Seq<u8>) -> bool;

/// The image width that `pcx::Reader::width` reads from the header of `bytes`.
pub uninterp spec fn pcx_header_width(bytes: Seq<u8>) -> u16;

/// The image height that `pcx::Reader::height` reads from the header of `bytes`.
pub uninterp spec fn pcx_header_height(bytes: Seq<u8>) -> u16;

/// Whether the header of `bytes` describes a paletted image, as `pcx::Reader::is_paletted` says.
pub uninterp spec fn pcx_header_paletted(bytes: Seq<u8>) -> bool;

/// The number of palette colors that `pcx::Reader::palette_length` reads from the header of
/// `bytes`.
pub uninterp spec fn pcx_header_palette_length(bytes: Seq<u8>) -> Option<u16>;

/// The row that `pcx::Reader::next_row_paletted` reads, one palette index per pixel, when it is
/// called for the row numbered `row` (from 0) on a decoder of `bytes` that has read the rows
/// before it without error; `None` where it returns an error.
pub uninterp spec fn pcx_paletted_row(bytes: Seq<u8>, row: nat) -> Option<Seq<u8>>;

/// The row that `pcx::Reader::next_row_rgb` reads, as interleaved R, G, B bytes, when it is
/// called for the row numbered `row` (from 0) on a decoder of `bytes` that has read the rows
/// before it without error; `None` where it returns an error.
pub uninterp spec fn pcx_rgb_row(bytes: Seq<u8>, row: nat) -> Option<Seq<u8>>;

/// The palette that `pcx::Reader::read_palette` writes, as R, G, B bytes, when it is called on a
/// decoder of `bytes` that has read `rows` rows without error; `None` where it returns an error.
pub uninterp spec fn pcx_palette(bytes: Seq<u8>, rows: nat) -> Option<Seq<u8>>;

/// Calls `pcx::Reader::new`, which reads the PCX header from the front of `bytes`: the decoder
/// is returned exactly when the header is accepted (`None` stands for the error), and it keeps
/// the bytes it reads from.
#[verifier::external_body]
fn pcx_open<'a>(bytes: &'a [u8]) -> (r: Option<PcxDecoder<'a>>)
    ensures
        r is Some == pcx_opens(bytes@),
        r matches Some(d) ==> d.source() == bytes@ && d.rows() == 0 && !d.torn(),
{
    match pcx::Reader::new(bytes) {
        Ok(reader) => Some(
            PcxDecoder {
                reader: PcxReader { reader },
                source: Ghost(bytes@),
                rows: Ghost(0nat),
                torn: Ghost(false),
            },
        ),
        Err(_) => None,
    }
}

/// Calls `pcx::Reader::width`, the image width from the header.
#[verifier::external_body]
fn pcx_width(d: &PcxDecoder) -> (w: u16)
    ensures
        w == pcx_header_width(d.source()),
{
    d.reader.reader.width()
}

/// Calls `pcx::Reader::height`, the image height from the header.
#[verifier::external_body]
fn pcx_height(d: &PcxDecoder) -> (h: u16)
    ensures
        h == pcx_header_height(d.source()),
{
    d.reader.reader.height()
}

/// Calls `pcx::Reader::is_paletted`: whether the image is paletted or 24-bit RGB, from the
/// header; it is paletted exactly when the header gives a number of palette colors.
#[verifier::external_body]
fn pcx_is_paletted(d: &PcxDecoder) -> (p: bool)
    ensures
        p == pcx_header_paletted(d.source()),
        p == pcx_header_palette_length(d.source()) is Some,
{
    d.reader.reader.is_paletted()
}

/// Calls `pcx::Reader::palette_length`, the number of colors of a paletted image from the
/// header, documented to be 2, 4, 8, 16 or 256.
#[verifier::external_body]
fn pcx_palette_length(d: &PcxDecoder) -> (n: Option<u16>)
    ensures
        n == pcx_header_palette_length(d.source()),
        n matches Some(k) ==> k == 2 || k == 4 || k == 8 || k == 16 || k == 256,
{
    d.reader.reader.palette_length()
}

/// Calls `pcx::Reader::next_row_paletted`, which reads the palette indices of the next row into
/// `row`, one byte per pixel; `false` stands for the error it returns. The row must be as wide as
/// the image, else the crate can panic on packed images. On success every byte of the row is
/// written, from what the decoder reads of `bytes` after the rows before it, so the row is the
/// named one for the decoder's count of rows.
#[verifier::external_body]
fn pcx_next_row_paletted(d: &mut PcxDecoder, row: &mut Vec<u8>) -> (ok: bool)
    requires
        old(row)@.len() == pcx_header_width(old(d).source()),
        !old(d).torn(),
    ensures
        final(row)@.len() == old(row)@.len(),
        final(d).source() == old(d).source(),
        final(d).rows() == old(d).rows() + 1,
        final(d).torn() == !ok,
        ok == pcx_paletted_row(old(d).source(), old(d).rows()) is Some,
        ok ==> pcx_paletted_row(old(d).source(), old(d).rows()) == Some(final(row)@),
{
    let ok = d.reader.reader.next_row_paletted(row.as_mut_slice()).is_ok();
    d.rows = Ghost((d.rows@ + 1) as nat);
    d.torn = Ghost(!ok);
    ok
}

/// Calls `pcx::Reader::next_row_rgb`, which reads the next row of an RGB image into `row` as
/// interleaved R, G, B bytes, three per pixel of the image's width; `false` stands for the error
/// it returns. After an error partway through a row the crate's next call panics on its count of
/// color planes, so a torn decoder is not read again. On success every byte of the row is
/// written, from what the decoder reads of `bytes` after the rows before it.
#[verifier::external_body]
fn pcx_next_row_rgb(d: &mut PcxDecoder, row: &mut Vec<u8>) -> (ok: bool)
    requires
        old(row)@.len() == pcx_header_width(old(d).source()) * 3,
        !old(d).torn(),
    ensures
        final(row)@.len() == old(row)@.len(),
        final(d).source() == old(d).source(),
        final(d).rows() == old(d).rows() + 1,
        final(d).torn() == !ok,
        ok == pcx_rgb_row(old(d).source(), old(d).rows()) is Some,
        ok ==> pcx_rgb_row(old(d).source(), old(d).rows()) == Some(final(row)@),
{
    let ok = d.reader.reader.next_row_rgb(row.as_mut_slice()).is_ok();
    d.rows = Ghost((d.rows@ + 1) as nat);
    d.torn = Ghost(!ok);
    ok
}

/// The number of palette colors that the header gives, or 0 for an RGB image.
pub open spec fn header_colors(bytes: Seq<u8>) -> nat {
    match pcx_header_palette_length(bytes) {
        Some(n) => n as nat,
        None => 0,
    }
}

/// Calls `pcx::Reader::read_palette`, which consumes the decoder and writes the palette to the
/// front of `palette` as R, G, B bytes. It returns the number of colors, which is the header's
/// (2, 4, 8, 16 or 256), or 0 for an RGB image, and writes three bytes for each of them and
/// nothing more; `None` stands for the error it returns. A 16-color palette or smaller comes from
/// the header; a 256-color one from the end of the data after the rows that were read.
#[verifier::external_body]
fn pcx_read_palette(d: PcxDecoder, palette: &mut Vec<u8>) -> (n: Option<usize>)
    requires
        old(palette)@.len() == 768,
        !d.torn(),
    ensures
        final(palette)@.len() == 768,
        n is Some == pcx_palette(d.source(), d.rows()) is Some,
        n matches Some(c) ==> c == header_colors(d.source()) && c <= 256,
        n matches Some(c) ==> pcx_palette(d.source(), d.rows()) == Some(
            final(palette)@.subrange(0, 3 * c),
        ),
        n matches Some(c) ==> final(palette)@.subrange(3 * c, 768) == old(palette)@.subrange(
            3 * c,
            768,
        ),
{
    d.reader.reader.read_palette(palette.as_mut_slice()).ok()
}

/// The RGB bytes of a paletted image: three bytes from the palette for each index.
pub open spec fn palette_lookup(indices: Seq<u8>, palette: Seq<u8>) -> Seq<u8> {
    Seq::new(indices.len() * 3, |i: int| palette[indices[i / 3] * 3 + i % 3])
}

/// Every index names one of the `colors` entries of the palette.
pub open spec fn indices_in_palette(indices: Seq<u8>, colors: nat) -> bool {
    forall|k: int| 0 <= k < indices.len() ==> (#[trigger] indices[k]) < colors
}

/// The RGBA bytes of RGB data: each pixel gets an opaque alpha byte.
pub open spec fn with_alpha(rgb: Seq<u8>) -> Seq<u8> {
    Seq::new(
        rgb.len() / 3 * 4,
        |i: int|
            if i % 4 == 3 {
                255u8
            } else {
                rgb[i / 4 * 3 + i % 4]
            },
    )
}

/// Look up the palette colors of `indices`, three bytes each, in the first `colors` entries of
/// `palette`. Returns `None` when an index lies outside them.
pub fn apply_palette(indices: &Vec<u8>, palette: &Vec<u8>, colors: usize) -> (r: Option<Vec<u8>>)
    requires
        colors * 3 <= palette@.len(),
    ensures
        r is Some <==> indices_in_palette(indices@, colors as nat),
        r matches Some(v) ==> v@ == palette_lookup(indices@, palette@),
{
    let mut out: Vec<u8> = Vec::new();
    let mut k: usize = 0;
    while k < indices.len()
        invariant
            0 <= k <= indices@.len(),
            colors * 3 <= palette@.len(),
            out@ == palette_lookup(indices@.subrange(0, k as int), palette@),
            indices_in_palette(indices@.subrange(0, k as int), colors as nat),
        decreases indices@.len() - k,
    {
        let p = indices[k] as usize;
        if p >= colors {
            proof {
                assert(!indices_in_palette(indices@, colors as nat)) by {
                    assert(indices@[k as int] >= colors);
                }
            }
            return None;
        }
        let i = p * 3;
        let ghost before = out@;
        out.push(palette[i]);
        out.push(palette[i + 1]);
        out.push(palette[i + 2]);
        proof {
            let next = indices@.subrange(0, k + 1);
            assert(next.subrange(0, k as int) =~= indices@.subrange(0, k as int));
            assert forall|j: int| 0 <= j < next.len() implies (#[trigger] next[j]) < colors by {
                if j < k {
                    assert(next[j] == indices@.subrange(0, k as int)[j]);
                }
            }
            assert(out@ =~= palette_lookup(next, palette@));
        }
        k = k + 1;
    }
    proof {
        assert(indices@.subrange(0, indices@.len() as int) =~= indices@);
    }
    Some(out)
}

/// Append the RGBA bytes of an RGB row to `out`: each pixel gets an opaque alpha byte.
pub fn push_with_alpha(out: &mut Vec<u8>, rgb: &Vec<u8>)
    requires
        rgb@.len() % 3 == 0,
    ensures
        final(out)@ == old(out)@ + with_alpha(rgb@),
{
    let mut k: usize = 0;
    let len = rgb.len();
    let pixels = len / 3;
    while k < pixels
        invariant
            0 <= k <= pixels,
            pixels * 3 == rgb@.len(),
            len == rgb@.len(),
            final_prefix(out@, old(out)@, rgb@, k as int),
        decreases pixels - k,
    {
        let ghost before = out@;
        out.push(rgb[3 * k]);
        out.push(rgb[3 * k + 1]);
        out.push(rgb[3 * k + 2]);
        out.push(255);
        proof {
            let w = with_alpha(rgb@);
            assert(w.subrange(0, 4 * k + 4) =~= w.subrange(0, 4 * k as int) + seq![
                rgb@[3 * k as int],
                rgb@[3 * k + 1],
                rgb@[3 * k + 2],
                255u8,
            ]);
        }
        k = k + 1;
    }
    proof {
        assert(with_alpha(rgb@) =~= with_alpha(rgb@).subrange(0, 4 * pixels as int));
    }
}

/// `out` is `start` followed by the RGBA bytes of the first `k` pixels of `rgb`.
pub open spec fn final_prefix(out: Seq<u8>, start: Seq<u8>, rgb: Seq<u8>, k: int) -> bool {
    out =~= start + with_alpha(rgb).subrange(0, 4 * k)
}


/// The pixel bytes of a paletted sprite of `width` by `height` pixels: for each pixel, the three
/// bytes of its color in the palette and an opaque alpha byte, where its index names one of the
/// `colors` colors.
pub open spec fn paletted_pixels(width: usize, height: usize, pixels: Seq<u8>, colors: nat) -> bool {
    exists|indices: Seq<u8>, palette: Seq<u8>|
        {
            &&& indices.len() == width * height
            &&& indices_in_palette(indices, colors)
            &&& #[trigger] with_alpha(palette_lookup(indices, palette)) == pixels
        }
}

/// The pixel bytes of an RGB sprite of `width` by `height` pixels: the image with an opaque
/// alpha byte per pixel.
pub open spec fn rgb_pixels(width: usize, height: usize, pixels: Seq<u8>) -> bool {
    exists|rgb: Seq<u8>| rgb.len() == width * height * 3 && #[trigger] with_alpha(rgb) == pixels
}

/// The pixel bytes of a decoded sprite of `width` by `height` pixels: the palette colors of a
/// paletted image, or the RGB image, with an opaque alpha byte per pixel.
pub open spec fn decoded_pixels(width: usize, height: usize, pixels: Seq<u8>) -> bool {
    ||| exists|colors: nat| paletted_pixels(width, height, pixels, colors)
    ||| rgb_pixels(width, height, pixels)
}

/// The palette indices of the first `k` rows of the PCX data `bytes`, row after row, or `None`
/// where reading one of them fails.
pub open spec fn paletted_rows(bytes: Seq<u8>, k: nat) -> Option<Seq<u8>>
    decreases k,
{
    if k == 0 {
        Some(Seq::empty())
    } else {
        match (paletted_rows(bytes, (k - 1) as nat), pcx_paletted_row(bytes, (k - 1) as nat)) {
            (Some(before), Some(row)) => Some(before + row),
            _ => None,
        }
    }
}

/// The RGB bytes of the first `k` rows of the PCX data `bytes`, row after row, or `None` where
/// reading one of them fails.
pub open spec fn rgb_rows(bytes: Seq<u8>, k: nat) -> Option<Seq<u8>>
    decreases k,
{
    if k == 0 {
        Some(Seq::empty())
    } else {
        match (rgb_rows(bytes, (k - 1) as nat), pcx_rgb_row(bytes, (k - 1) as nat)) {
            (Some(before), Some(row)) => Some(before + row),
            _ => None,
        }
    }
}

/// The sprite that the PCX data `bytes` decodes to: its width, its height and its pixel bytes,
/// or `None` where the header is refused, a row or the palette fails to read, or a palette index
/// lies outside the palette. Each pixel gets four bytes: its color (from the palette for a
/// paletted image) and an opaque alpha byte.
pub open spec fn pcx_image(bytes: Seq<u8>) -> Option<(usize, usize, Seq<u8>)> {
    if !pcx_opens(bytes) {
        None
    } else {
        let w = pcx_header_width(bytes) as usize;
        let h = pcx_header_height(bytes) as usize;
        if pcx_header_paletted(bytes) {
            match (paletted_rows(bytes, h as nat), pcx_palette(bytes, h as nat)) {
                (Some(indices), Some(palette)) => if indices_in_palette(
                    indices,
                    header_colors(bytes),
                ) {
                    Some((w, h, with_alpha(palette_lookup(indices, palette))))
                } else {
                    None
                },
                _ => None,
            }
        } else {
            match rgb_rows(bytes, h as nat) {
                Some(rgb) => Some((w, h, with_alpha(rgb))),
                None => None,
            }
        }
    }
}

/// Once a row fails to read, every longer run of rows fails too.
pub proof fn lemma_rows_fail_on(bytes: Seq<u8>, k: nat, m: nat)
    requires
        k <= m,
    ensures
        paletted_rows(bytes, k) is None ==> paletted_rows(bytes, m) is None,
        rgb_rows(bytes, k) is None ==> rgb_rows(bytes, m) is None,
    decreases m - k,
{
    if k < m {
        lemma_rows_fail_on(bytes, k, (m - 1) as nat);
    }
}

/// `s` is the sprite decoded from the PCX data `pcx`: the image's size from its header, and its
/// pixels as the header's format has them.
pub open spec fn loaded_from(s: CachedSprite, pcx: Seq<u8>) -> bool {
    &&& pcx_image(pcx) == Some((s.0, s.1, s.2@))
    &&& pcx_opens(pcx)
    &&& s.0 == pcx_header_width(pcx)
    &&& s.1 == pcx_header_height(pcx)
    &&& decoded_pixels(s.0, s.1, s.2@)
    &&& pcx_header_paletted(pcx) ==> (pcx_header_palette_length(pcx) matches Some(n)
        && paletted_pixels(s.0, s.1, s.2@, n as nat))
    &&& !pcx_header_paletted(pcx) ==> rgb_pixels(s.0, s.1, s.2@)
}

/// The file at index `i` is the last one given for its frame.
pub open spec fn last_for_frame(files: Seq<(Frame, Vec<u8>)>, i: int) -> bool {
    forall|j: int| i < j < files.len() ==> frame_key(#[trigger] files[j].0) != frame_key(files[i].0)
}

/// Convert PCX data to raw pixels.
///
/// Returns `None` where the decoder reports an error, or where a palette index lies outside the
/// palette: exactly where the data decodes to no image.
pub fn load_pcx(pcx: &[u8]) -> (r: Option<CachedSprite>)
    ensures
        r is Some <==> pcx_image(pcx@) is Some,
        r matches Some(s) ==> loaded_from(s, pcx@),
        r matches Some(s) ==> s.2@.len() == 4 * s.0 * s.1,
{
    let mut reader = match pcx_open(pcx) {
        Some(reader) => reader,
        None => return None,
    };
    let width = pcx_width(&reader) as usize;
    let height = pcx_height(&reader) as usize;
    proof {
        assert(width * height <= 0xffff * 0xffff) by (nonlinear_arith)
            requires
                width <= 0xffff,
                height <= 0xffff,
        ;
    }

    if pcx_is_paletted(&reader) {
        // Read the raw pixel data
        let mut buffer: Vec<u8> = Vec::new();
        let mut y: usize = 0;
        while y < height
            invariant
                0 <= y <= height,
                width <= 0xffff,
                height <= 0xffff,
                buffer@.len() == y * width,
                reader.source() == pcx@,
                reader.rows() == y,
                !reader.torn(),
                width == pcx_header_width(pcx@),
                height == pcx_header_height(pcx@),
                pcx_opens(pcx@),
                pcx_header_paletted(pcx@),
                paletted_rows(pcx@, y as nat) == Some(buffer@),
            decreases height - y,
        {
            let mut row = zeroed(width);
            if !pcx_next_row_paletted(&mut reader, &mut row) {
                proof {
                    assert(paletted_rows(pcx@, (y + 1) as nat) is None);
                    lemma_rows_fail_on(pcx@, (y + 1) as nat, height as nat);
                }
                return None;
            }
            let ghost before = buffer@;
            let mut x: usize = 0;
            while x < width
                invariant
                    0 <= x <= width,
                    row@.len() == width,
                    buffer@ == before + row@.subrange(0, x as int),
                decreases width - x,
            {
                buffer.push(row[x]);
                proof {
                    assert(row@.subrange(0, x + 1) == row@.subrange(0, x as int).push(row@[x as int]));
                }
                x = x + 1;
            }
            proof {
                assert(row@.subrange(0, width as int) == row@);
                assert((y + 1) * width == y * width + width) by (nonlinear_arith);
            }
            y = y + 1;
        }

        // Read the palette
        let palette_length = match pcx_palette_length(&reader) {
            Some(n) => n as usize,
            None => return None,
        };
        let mut palette = zeroed(768);
        let colors = match pcx_read_palette(reader, &mut palette) {
            Some(colors) => colors,
            None => return None,
        };
        let ghost colors_read = palette@.subrange(0, 3 * colors as int);

        // Copy to result with an alpha component
        let pixels = match apply_palette(&buffer, &palette, palette_length) {
            Some(pixels) => pixels,
            None => return None,
        };
        let mut result: Vec<u8> = Vec::new();
        push_with_alpha(&mut result, &pixels);
        proof {
            assert(colors == palette_length);
            assert forall|i: int| 0 <= i < pixels@.len() implies pixels@[i] == palette_lookup(
                buffer@,
                colors_read,
            )[i] by {
                let k = buffer@[i / 3] as int;
                assert(0 <= i / 3 < buffer@.len());
                assert(k < palette_length);
                assert(k * 3 + i % 3 < 3 * colors);
            }
            assert(pixels@ =~= palette_lookup(buffer@, colors_read));
            assert(result@ =~= with_alpha(palette_lookup(buffer@, colors_read)));
            assert(height * width == width * height) by (nonlinear_arith);
            assert(paletted_pixels(width, height, result@, palette_length as nat));
            assert(decoded_pixels(width, height, result@));
            assert(result@.len() == 4 * width * height) by (nonlinear_arith)
                requires
                    result@.len() == buffer@.len() * 3 / 3 * 4,
                    buffer@.len() == height * width,
            ;
        }
        Some((width, height, Rc::new(result)))
    } else {
        let mut result: Vec<u8> = Vec::new();
        let ghost mut rgb: Seq<u8> = Seq::empty();
        let mut y: usize = 0;
        while y < height
            invariant
                0 <= y <= height,
                width <= 0xffff,
                height <= 0xffff,
                width == pcx_header_width(pcx@),
                height == pcx_header_height(pcx@),
                pcx_opens(pcx@),
                !pcx_header_paletted(pcx@),
                rgb.len() == y * width * 3,
                reader.source() == pcx@,
                reader.rows() == y,
                !reader.torn(),
                rgb_rows(pcx@, y as nat) == Some(rgb),
                result@ == with_alpha(rgb),
            decreases height - y,
        {
            // Read the raw pixel data
            let mut buffer = zeroed(width * 3);
            if !pcx_next_row_rgb(&mut reader, &mut buffer) {
                proof {
                    assert(rgb_rows(pcx@, (y + 1) as nat) is None);
                    lemma_rows_fail_on(pcx@, (y + 1) as nat, height as nat);
                }
                return None;
            }

            // Copy to result with an alpha component
            push_with_alpha(&mut result, &buffer);
            proof {
                lemma_with_alpha_append(rgb, buffer@);
                rgb = rgb + buffer@;
                assert((y + 1) * width * 3 == y * width * 3 + width * 3) by (nonlinear_arith);
            }
            y = y + 1;
        }
        proof {
            assert(height * width * 3 == width * height * 3) by (nonlinear_arith);
            assert(with_alpha(rgb) == result@);
            assert(rgb_pixels(width, height, result@));
            assert(decoded_pixels(width, height, result@));
            assert(result@.len() == 4 * width * height) by (nonlinear_arith)
                requires
                    result@.len() == rgb.len() / 3 * 4,
                    rgb.len() == height * width * 3,
            ;
        }
        Some((width, height, Rc::new(result)))
    }
}

/// The RGBA bytes of two RGB runs of whole pixels are those of each run, one after the other.
pub proof fn lemma_with_alpha_append(a: Seq<u8>, b: Seq<u8>)
    requires
        a.len() % 3 == 0,
        b.len() % 3 == 0,
    ensures
        with_alpha(a + b) == with_alpha(a) + with_alpha(b),
{
    let ab = a + b;
    assert(ab.len() / 3 * 4 == a.len() / 3 * 4 + b.len() / 3 * 4);
    assert forall|i: int| 0 <= i < ab.len() / 3 * 4 implies #[trigger] with_alpha(ab)[i] == (with_alpha(a) + with_alpha(b))[i] by {
        let la = a.len() / 3 * 4;
        if i >= la {
            let j = i - la;
            assert(j % 4 == i % 4);
            assert(j / 4 == i / 4 - a.len() / 3);
        }
    }
    assert(with_alpha(ab) =~= with_alpha(a) + with_alpha(b));
}

/// The image file that holds the sprite of a frame, where the game ships one.
pub fn asset_file(frame: Frame) -> (name: Option<&'static str>)
    ensures
        name is None <==> frame == Frame::Cthulhu1 || frame == Frame::Cthulhu2 || frame
            == Frame::Bullet1 || frame == Frame::Laser1,
{
    match frame {
        Frame::Blipjoy1 => Some("blipjoy1.pcx"),
        Frame::Blipjoy2 => Some("blipjoy2.pcx"),
        Frame::Ferris1 => Some("ferris1.pcx"),
        Frame::Ferris2 => Some("ferris2.pcx"),
        Frame::Player1 => Some("player1.pcx"),
        Frame::Player2 => Some("player2.pcx"),
        Frame::Shield1 => Some("shield.pcx"),
        Frame::Cthulhu1 | Frame::Cthulhu2 | Frame::Bullet1 | Frame::Laser1 => None,
    }
}

/// Load all static assets into an `Assets` structure: the sprite of each frame is decoded from
/// the PCX data given for it.
///
/// Returns `None` exactly when some image fails to decode. Otherwise the assets hold a sprite for
/// exactly the frames given, decoded from the data given last for it.
pub fn load_assets(files: &Vec<(Frame, Vec<u8>)>) -> (r: Option<Assets>)
    ensures
        r is None <==> exists|i: int|
            0 <= i < files@.len() && (#[trigger] pcx_image(files@[i].1@)) is None,
        r matches Some(a) ==> forall|k: usize|
            #[trigger] a.spec_sprites().contains_key(k) <==> exists|i: int|
                0 <= i < files@.len() && frame_key(#[trigger] files@[i].0) == k,
        r matches Some(a) ==> forall|i: int|
            0 <= i < files@.len() && #[trigger] last_for_frame(files@, i) ==> loaded_from(
                a.spec_sprites()[frame_key(files@[i].0)],
                files@[i].1@,
            ),
        r matches Some(a) ==> forall|k: usize|
            #[trigger] a.spec_sprites().contains_key(k) ==> decoded_pixels(
                a.spec_sprites()[k].0,
                a.spec_sprites()[k].1,
                a.spec_sprites()[k].2@,
            ),
        r matches Some(a) ==> forall|k: usize|
            #[trigger] a.spec_sprites().contains_key(k) ==> a.spec_sprites()[k].2@.len() == 4
                * a.spec_sprites()[k].0 * a.spec_sprites()[k].1,
{
    let mut sprites: HashMap<usize, CachedSprite> = HashMap::new();
    let mut i: usize = 0;
    while i < files.len()
        invariant
            0 <= i <= files@.len(),
            forall|j: int| 0 <= j < i ==> (#[trigger] pcx_image(files@[j].1@)) is Some,
            forall|k: usize|
                #[trigger] sprites@.contains_key(k) <==> exists|j: int|
                    0 <= j < i && frame_key(#[trigger] files@[j].0) == k,
            forall|j: int|
                0 <= j < i && (forall|jj: int| j < jj < i ==> frame_key(#[trigger] files@[jj].0) != frame_key(files@[j].0))
                    ==> #[trigger] loaded_from(sprites@[frame_key(files@[j].0)], files@[j].1@),
            forall|k: usize|
                #[trigger] sprites@.contains_key(k) ==> decoded_pixels(
                    sprites@[k].0,
                    sprites@[k].1,
                    sprites@[k].2@,
                ),
            forall|k: usize|
                #[trigger] sprites@.contains_key(k) ==> sprites@[k].2@.len() == 4 * sprites@[k].0
                    * sprites@[k].1,
        decreases files@.len() - i,
    {
        let (frame, data) = &files[i];
        let sprite = match load_pcx(data.as_slice()) {
            Some(sprite) => sprite,
            None => {
                proof {
                    assert(files@[i as int].1@ == data@);
                }
                return None;
            },
        };
        let key = key_of(*frame);
        let ghost before = sprites@;
        sprites.insert(key, sprite);
        proof {
            assert(files@[i as int].1@ == data@);
            assert forall|k: usize| #[trigger] sprites@.contains_key(k) <==> exists|j: int|
                0 <= j < i + 1 && frame_key(#[trigger] files@[j].0) == k by {
                if k == key {
                    assert(frame_key(files@[i as int].0) == k);
                }
            }
            assert forall|j: int|
                0 <= j < i + 1 && (forall|jj: int| j < jj < i + 1 ==> frame_key(#[trigger] files@[jj].0) != frame_key(files@[j].0))
                    implies #[trigger] loaded_from(sprites@[frame_key(files@[j].0)], files@[j].1@) by {
                if j < i {
                    assert(frame_key(files@[i as int].0) != frame_key(files@[j].0));
                    assert(forall|jj: int| j < jj < i ==> frame_key(#[trigger] files@[jj].0) != frame_key(files@[j].0));
                    assert(sprites@[frame_key(files@[j].0)] == before[frame_key(files@[j].0)]);
                }
            }
        }
        i = i + 1;
    }
    proof {
        assert forall|j: int| 0 <= j < files@.len() && #[trigger] last_for_frame(files@, j) implies loaded_from(
            sprites@[frame_key(files@[j].0)],
            files@[j].1@,
        ) by {
            assert(forall|jj: int| j < jj < files@.len() ==> frame_key(#[trigger] files@[jj].0) != frame_key(files@[j].0));
        }
    }

    Some(Assets { sprites })
}

} // verus!
