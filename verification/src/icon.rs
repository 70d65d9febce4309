use base64::Engine;
use vstd::prelude::*;
use crate::text::text_of;

verus! {

/// Size in bytes of the device description handed to the pixel dump.
pub const HEADER_LEN: usize = 40;

/// How many leading bytes of a native bitmap record hold its type, width and
/// height.
pub const GEOMETRY_LEN: usize = 12;

/// The unsigned number that four bytes spell, least significant byte first.
pub open spec fn le_u32(b0: u8, b1: u8, b2: u8, b3: u8) -> int {
    b0 + 256 * b1 + 65536 * b2 + 16777216 * b3
}

/// The signed 32-bit number whose two's complement form is `v`.
pub open spec fn signed32(v: int) -> int {
    if v >= 0x8000_0000 {
        v - 0x1_0000_0000
    } else {
        v
    }
}

/// The two's complement form of a signed 32-bit number.
pub open spec fn unsigned32(x: int) -> int {
    if x < 0 {
        x + 0x1_0000_0000
    } else {
        x
    }
}

/// The four bytes of an unsigned 32-bit number, least significant first.
pub open spec fn le_bytes32(v: int) -> Seq<u8> {
    seq![
        (v % 256) as u8,
        (v / 256 % 256) as u8,
        (v / 65536 % 256) as u8,
        (v / 16777216 % 256) as u8,
    ]
}

/// The two bytes of an unsigned 16-bit number, least significant first.
pub open spec fn le_bytes16(v: int) -> Seq<u8> {
    seq![(v % 256) as u8, (v / 256 % 256) as u8]
}

fn read_i32_le(raw: &[u8], at: usize) -> (r: i32)
    requires
        at + 4 <= raw@.len(),
    ensures
        r == signed32(le_u32(raw@[at as int], raw@[at + 1], raw@[at + 2], raw@[at + 3])),
{
    let v: u32 = raw[at] as u32 + 256 * (raw[at + 1] as u32) + 65536 * (raw[at + 2] as u32)
        + 16777216 * (raw[at + 3] as u32);
    if v >= 0x8000_0000 {
        let low: u32 = v - 0x8000_0000;
        (low as i32) + i32::MIN
    } else {
        v as i32
    }
}

fn push_u32_le(out: &mut Vec<u8>, v: u32)
    ensures
        final(out)@ == old(out)@ + le_bytes32(v as int),
{
    out.push((v % 256) as u8);
    out.push((v / 256 % 256) as u8);
    out.push((v / 65536 % 256) as u8);
    out.push((v / 16777216 % 256) as u8);
    assert(out@ =~= old(out)@ + le_bytes32(v as int));
}

fn push_i32_le(out: &mut Vec<u8>, x: i32)
    ensures
        final(out)@ == old(out)@ + le_bytes32(unsigned32(x as int)),
{
    let v: u32 = if x < 0 {
        let up: i32 = x - i32::MIN;
        (up as u32) + 0x8000_0000
    } else {
        x as u32
    };
    push_u32_le(out, v);
}

fn push_u16_le(out: &mut Vec<u8>, v: u16)
    ensures
        final(out)@ == old(out)@ + le_bytes16(v as int),
{
    out.push((v % 256) as u8);
    out.push((v / 256 % 256) as u8);
    assert(out@ =~= old(out)@ + le_bytes16(v as int));
}

/// Width and signed height of a bitmap, as its native record states them.
#[derive(Clone, Copy, Debug, PartialEq, Eq)]
pub struct BitmapGeometry {
    pub width: i32,
    pub height: i32,
}

/// Number of pixel rows of a bitmap whose signed height is `height`.
pub open spec fn row_count(height: int) -> int {
    if height < 0 {
        -height
    } else {
        height
    }
}

/// Bytes of a 32-bit dump of a bitmap with this width and signed height.
pub open spec fn dump_len(width: int, height: int) -> int {
    width * row_count(height) * 4
}

/// What to ask the device for: a top-down, uncompressed dump with 32 bits per
/// pixel, the number of rows to copy and the size of the buffer to copy into.
#[derive(Clone, Copy, Debug, PartialEq, Eq)]
pub struct DumpRequest {
    /// Pixels per row.
    pub width: i32,
    /// Signed height of the description; not positive, so that the top row
    /// comes first.
    pub height: i32,
    /// Rows to copy.
    pub scan_lines: u32,
    /// Bytes the rows take.
    pub buffer_len: usize,
}

impl BitmapGeometry {
    /// What `decode` reads from a native bitmap record: a 32-bit type, then the
    /// width and the height as signed 32-bit numbers, least significant byte
    /// first. A record too short to hold the three has no geometry.
    pub open spec fn decoded(raw: Seq<u8>) -> Option<BitmapGeometry> {
        if raw.len() < GEOMETRY_LEN {
            None
        } else {
            Some(
                BitmapGeometry {
                    width: signed32(le_u32(raw[4], raw[5], raw[6], raw[7])) as i32,
                    height: signed32(le_u32(raw[8], raw[9], raw[10], raw[11])) as i32,
                },
            )
        }
    }

    /// Reads width and height at their fixed offsets in a native bitmap record.
    pub fn decode(raw: &[u8]) -> (r: Option<BitmapGeometry>)
        ensures
            r == Self::decoded(raw@),
    {
        if raw.len() < GEOMETRY_LEN {
            return None;
        }
        let width = read_i32_le(raw, 4);
        let height = read_i32_le(raw, 8);
        Some(BitmapGeometry { width, height })
    }

    /// The request for a dump of a bitmap of this geometry. None is owed where
    /// the width is negative or the dump does not fit the address space.
    pub open spec fn request(self) -> Option<DumpRequest> {
        if self.width < 0 || dump_len(self.width as int, self.height as int) > usize::MAX {
            None
        } else {
            Some(
                DumpRequest {
                    width: self.width,
                    height: (-row_count(self.height as int)) as i32,
                    scan_lines: row_count(self.height as int) as u32,
                    buffer_len: dump_len(self.width as int, self.height as int) as usize,
                },
            )
        }
    }

    /// Plans the pixel dump of a bitmap of this geometry.
    pub fn dump_request(&self) -> (r: Option<DumpRequest>)
        ensures
            r == self.request(),
    {
        if self.width < 0 {
            return None;
        }
        let top_down: i32 = if self.height > 0 {
            -self.height
        } else {
            self.height
        };
        let rows: u32 = if self.height >= 0 {
            self.height as u32
        } else {
            let up: i32 = self.height - i32::MIN;
            0x8000_0000u32 - (up as u32)
        };
        let w: u64 = self.width as u64;
        let h: u64 = rows as u64;
        assert(w * h <= 0x7fff_ffff * 0x8000_0000) by (nonlinear_arith)
            requires
                0 <= w <= 0x7fff_ffff,
                0 <= h <= 0x8000_0000,
        ;
        let len: u64 = w * h * 4;
        assert(len == dump_len(self.width as int, self.height as int));
        if len > usize::MAX as u64 {
            return None;
        }
        Some(
            DumpRequest {
                width: self.width,
                height: top_down,
                scan_lines: rows,
                buffer_len: len as usize,
            },
        )
    }
}

impl DumpRequest {
    /// The device description of the request, byte for byte: its own size,
    /// width, height, one plane, 32 bits per pixel, no compression, and zero
    /// for the five fields that an uncompressed dump does not use.
    pub open spec fn header_bytes(self) -> Seq<u8> {
        le_bytes32(HEADER_LEN as int) + le_bytes32(unsigned32(self.width as int)) + le_bytes32(
            unsigned32(self.height as int),
        ) + le_bytes16(1) + le_bytes16(32) + le_bytes32(0) + Seq::new(20, |i: int| 0u8)
    }

    /// Writes the device description of the request.
    pub fn header(&self) -> (r: Vec<u8>)
        ensures
            r@ == self.header_bytes(),
            r@.len() == HEADER_LEN,
    {
        let mut out: Vec<u8> = Vec::new();
        push_u32_le(&mut out, 40);
        push_i32_le(&mut out, self.width);
        push_i32_le(&mut out, self.height);
        push_u16_le(&mut out, 1);
        push_u16_le(&mut out, 32);
        push_u32_le(&mut out, 0);
        let ghost fixed = out@;
        let mut i: usize = 0;
        while i < 20
            invariant
                i <= 20,
                out@ == fixed + Seq::new(i as nat, |k: int| 0u8),
            decreases 20 - i,
        {
            out.push(0u8);
            i = i + 1;
        }
        out
    }
}

/// The buffer with the first and third byte of every complete group of four
/// exchanged: blue, green, red, alpha becomes red, green, blue, alpha. The
/// second and fourth byte of a group stay, and so do up to three bytes that
/// follow the last complete group.
pub open spec fn swapped_channels(bgra: Seq<u8>) -> Seq<u8> {
    Seq::new(
        bgra.len(),
        |i: int|
            if i - i % 4 + 4 <= bgra.len() && i % 4 == 0 {
                bgra[i + 2]
            } else if i - i % 4 + 4 <= bgra.len() && i % 4 == 2 {
                bgra[i - 2]
            } else {
                bgra[i]
            },
    )
}

/// Exchanges the first and third byte of every complete group of four bytes,
/// in place.
pub fn swap_red_blue(pixels: &mut Vec<u8>)
    ensures
        final(pixels)@ == swapped_channels(old(pixels)@),
{
    let n = pixels.len();
    let mut i: usize = 0;
    while n - i >= 4
        invariant
            i <= n,
            i % 4 == 0,
            pixels@.len() == n,
            old(pixels)@.len() == n,
            forall|k: int| 0 <= k < i ==> pixels@[k] == swapped_channels(old(pixels)@)[k],
            forall|k: int| i <= k < n ==> pixels@[k] == old(pixels)@[k],
        decreases n - i,
    {
        let blue = pixels[i];
        let red = pixels[i + 2];
        pixels[i] = red;
        pixels[i + 2] = blue;
        i = i + 4;
    }
    assert(pixels@ =~= swapped_channels(old(pixels)@));
}

/// Exchanging the channels twice gives the buffer back: the exchange loses
/// nothing.
pub proof fn lemma_swap_twice(bgra: Seq<u8>)
    ensures
        swapped_channels(swapped_channels(bgra)) == bgra,
{
    assert(swapped_channels(swapped_channels(bgra)) =~= bgra);
}

/// In every complete group of four bytes, wherever it lies and however long
/// the buffer is, the exchange swaps the first and third byte and keeps the
/// second and fourth.
pub proof fn lemma_swap_group(bgra: Seq<u8>, group: int)
    requires
        0 <= group,
        4 * group + 4 <= bgra.len(),
    ensures
        swapped_channels(bgra).len() == bgra.len(),
        swapped_channels(bgra)[4 * group] == bgra[4 * group + 2],
        swapped_channels(bgra)[4 * group + 1] == bgra[4 * group + 1],
        swapped_channels(bgra)[4 * group + 2] == bgra[4 * group],
        swapped_channels(bgra)[4 * group + 3] == bgra[4 * group + 3],
{
}

/// An image of 8-bit red, green, blue, alpha pixels, held by the image crate.
#[verifier::external_body]
pub struct Raster {
    inner: image::RgbaImage,
}

/// Pixels per row of a raster.
pub uninterp spec fn raster_width(raster: Raster) -> u32;

/// Rows of a raster.
pub uninterp spec fn raster_height(raster: Raster) -> u32;

/// The bytes that a raster was made of.
pub uninterp spec fn raster_data(raster: Raster) -> Seq<u8>;

/// The PNG file that the image crate writes for a raster of this width and
/// height made of these bytes, or None where it refuses to write one.
pub uninterp spec fn png_rgba8(width: u32, height: u32, rgba: Seq<u8>) -> Option<Seq<u8>>;

/// The standard base64 text of a byte string, with padding.
pub uninterp spec fn base64_standard(bytes: Seq<u8>) -> Seq<char>;

/// Calls `image::ImageBuffer::from_raw` for 8-bit RGBA pixels over a `Vec<u8>`.
/// It makes a raster exactly when the buffer holds at least four bytes for each
/// of the `width * height` pixels; the raster then has these dimensions and
/// owns the buffer unchanged.
#[verifier::external_body]
fn raster_from_raw(width: u32, height: u32, buf: Vec<u8>) -> (r: Option<Raster>)
    ensures
        r is Some <==> width * height * 4 <= buf@.len(),
        r matches Some(raster) ==> raster_width(raster) == width && raster_height(raster)
            == height && raster_data(raster) == buf@,
{
    match image::RgbaImage::from_raw(width, height, buf) {
        Some(inner) => Some(Raster { inner }),
        None => None,
    }
}

/// Calls `image::ImageBuffer::write_to` with `ImageFormat::Png` on a cursor over
/// an empty vector. What is written depends on the raster's dimensions and bytes
/// alone; an encoder error gives None.
#[verifier::external_body]
fn write_png(raster: &Raster) -> (r: Option<Vec<u8>>)
    ensures
        bytes_of(r) == png_rgba8(
            raster_width(*raster),
            raster_height(*raster),
            raster_data(*raster),
        ),
{
    let mut buffer = std::io::Cursor::new(Vec::new());
    match raster.inner.write_to(&mut buffer, image::ImageFormat::Png) {
        Ok(()) => Some(buffer.into_inner()),
        Err(_) => None,
    }
}

/// Length of the padded base64 text of `n` bytes.
pub open spec fn base64_len(n: int) -> int {
    4 * ((n + 2) / 3)
}

/// Calls `base64::Engine::encode` on `base64::engine::general_purpose::STANDARD`.
/// The call panics where the length of the text does not fit `usize`, so such
/// inputs are left out.
#[verifier::external_body]
fn base64_encode(bytes: &Vec<u8>) -> (r: String)
    requires
        base64_len(bytes@.len() as int) <= usize::MAX,
    ensures
        r@ == base64_standard(bytes@),
{
    base64::engine::general_purpose::STANDARD.encode(bytes)
}

/// The byte string of an optional vector.
pub open spec fn bytes_of(v: Option<Vec<u8>>) -> Option<Seq<u8>> {
    match v {
        Some(bytes) => Some(bytes@),
        None => None,
    }
}

/// The payload made of an encoded image: its base64 text, where there is an
/// image and the text's length fits the address space.
pub open spec fn payload_of_png(png: Option<Seq<u8>>) -> Option<Seq<char>> {
    match png {
        Some(bytes) => if base64_len(bytes.len() as int) <= usize::MAX {
            Some(base64_standard(bytes))
        } else {
            None
        },
        None => None,
    }
}

/// Wraps an encoded image in base64 text.
pub fn png_payload(png: Option<Vec<u8>>) -> (r: Option<String>)
    ensures
        text_of(r) == payload_of_png(bytes_of(png)),
{
    match png {
        Some(bytes) => {
            let n = bytes.len();
            let groups: usize = if n % 3 == 0 {
                n / 3
            } else {
                n / 3 + 1
            };
            assert(groups == (n + 2) / 3);
            if groups > usize::MAX / 4 {
                None
            } else {
                Some(base64_encode(&bytes))
            }
        },
        None => None,
    }
}

/// The payload of a small icon whose top-down dump in blue, green, red, alpha
/// order is `bgra`. Where the width is negative or the dump does not hold
/// exactly four bytes for each pixel there is none. Otherwise the channels are
/// exchanged, the image is written as PNG and the file is wrapped in base64.
pub open spec fn icon_payload(width: int, height: int, bgra: Seq<u8>) -> Option<Seq<char>> {
    if width < 0 || bgra.len() != dump_len(width, height) {
        None
    } else {
        payload_of_png(
            png_rgba8(width as u32, row_count(height) as u32, swapped_channels(bgra)),
        )
    }
}

/// Turns the pixel dump of a small icon into its text payload.
pub fn icon_to_base64(width: i32, height: i32, pixels: Vec<u8>) -> (r: Option<String>)
    ensures
        text_of(r) == icon_payload(width as int, height as int, pixels@),
{
    let len = pixels.len();
    let geometry = BitmapGeometry { width, height };
    let request = match geometry.dump_request() {
        Some(request) => request,
        None => {
            return None;
        },
    };
    if len != request.buffer_len {
        return None;
    }
    let mut rgba = pixels;
    swap_red_blue(&mut rgba);
    match raster_from_raw(width as u32, request.scan_lines, rgba) {
        Some(raster) => png_payload(write_png(&raster)),
        None => None,
    }
}

/// The top-down pixel dump of a small icon, four bytes for each pixel in the
/// order blue, green, red, alpha, with the geometry of the bitmap it was
/// taken from.
#[derive(Clone, Debug, PartialEq, Eq)]
pub struct PixelDump {
    pub width: i32,
    pub height: i32,
    pub pixels: Vec<u8>,
}

/// Mathematical model of a pixel dump.
pub struct DumpView {
    pub width: i32,
    pub height: i32,
    pub pixels: Seq<u8>,
}

impl View for PixelDump {
    type V = DumpView;

    open spec fn view(&self) -> DumpView {
        DumpView { width: self.width, height: self.height, pixels: self.pixels@ }
    }
}

/// The payload of a file for which the shell gave this dump, or none where it
/// gave no icon at all.
pub open spec fn extracted(dump: Option<DumpView>) -> Option<Seq<char>> {
    match dump {
        Some(d) => icon_payload(d.width as int, d.height as int, d.pixels),
        None => None,
    }
}

/// The model of an optional dump.
pub open spec fn dump_of(dump: Option<PixelDump>) -> Option<DumpView> {
    match dump {
        Some(d) => Some(d@),
        None => None,
    }
}

/// Makes the icon payload of a file from what the shell gave for it. A file
/// without an icon, and a dump that cannot be encoded, have no payload.
pub fn extract_icon(dump: &Option<PixelDump>) -> (r: Option<String>)
    ensures
        text_of(r) == extracted(dump_of(*dump)),
{
    match dump {
        Some(d) => icon_to_base64(d.width, d.height, d.pixels.clone()),
        None => None,
    }
}

} // verus!
