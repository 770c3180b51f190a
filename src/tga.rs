use vstd::prelude::*;

verus! {

/// The length of a TGA file header.
pub const HEADER_SIZE: usize = 18;

/// Why a TGA image could not be decoded.
#[derive(Clone, Copy, Debug, PartialEq, Eq)]
pub enum TgaError {
    /// Shorter than a header.
    TooShort,
    /// A data type other than uncompressed or run-length encoded true colour
    /// or greyscale.
    Unsupported,
    /// The pixel data ends before the image does.
    Truncated,
}

/// `s` written `c` times in a row.
pub open spec fn repeat(s: Seq<u8>, c: nat) -> Seq<u8>
    decreases c,
{
    if c == 0 {
        Seq::empty()
    } else {
        repeat(s, (c - 1) as nat) + s
    }
}

/// Run-length decoding of at least `left` pixels of `bpp` bytes from
/// `data[pos..]`. A chunk header below 128 is followed by header + 1 literal
/// pixels; any other header by one pixel repeated header - 127 times. `None`
/// when the data ends inside a chunk or before the pixels do.
pub open spec fn rle_decode(data: Seq<u8>, pos: int, left: int, bpp: nat) -> Option<Seq<u8>>
    decreases (if left > 0 { left } else { 0 }),
{
    if left <= 0 {
        Some(Seq::empty())
    } else if pos < 0 || pos >= data.len() {
        None
    } else {
        let h = data[pos] as int;
        if h < 128 {
            let n = (h + 1) * bpp;
            if pos + 1 + n > data.len() {
                None
            } else {
                match rle_decode(data, pos + 1 + n, left - (h + 1), bpp) {
                    Some(rest) => Some(data.subrange(pos + 1, pos + 1 + n) + rest),
                    None => None,
                }
            }
        } else {
            if pos + 1 + bpp > data.len() {
                None
            } else {
                match rle_decode(data, pos + 1 + bpp, left - (h - 127), bpp) {
                    Some(rest) => Some(
                        repeat(data.subrange(pos + 1, pos + 1 + bpp), (h - 127) as nat) + rest,
                    ),
                    None => None,
                }
            }
        }
    }
}

/// The packed `0xRRGGBB` colour of pixel number `i` of `buffer`: a grey level
/// for one byte per pixel, blue, green, red bytes for three or four.
pub open spec fn pixel_value(buffer: Seq<u8>, bpp: nat, i: int) -> u32 {
    if bpp == 1 {
        let g = buffer[i] as u32;
        (g + g * 256 + g * 65536) as u32
    } else if bpp == 3 || bpp == 4 {
        let k = i * bpp;
        (buffer[k] as u32 + buffer[k + 1] as u32 * 256 + buffer[k + 2] as u32 * 65536) as u32
    } else {
        0
    }
}

pub open spec fn header_width(data: Seq<u8>) -> nat {
    (data[12] as nat + data[13] as nat * 256) as nat
}

pub open spec fn header_height(data: Seq<u8>) -> nat {
    (data[14] as nat + data[15] as nat * 256) as nat
}

/// Bytes per pixel.
pub open spec fn header_bpp(data: Seq<u8>) -> nat {
    (data[16] / 8) as nat
}

pub open spec fn header_type(data: Seq<u8>) -> u8 {
    data[2]
}

/// The image descriptor asks for the rows in the opposite order.
pub open spec fn header_flipped(data: Seq<u8>) -> bool {
    (data[17] / 32) % 2 == 1
}

/// The pixel bytes of a TGA file, uncompressed: what follows the header for
/// an uncompressed image, its run-length decoding for a compressed one.
pub open spec fn pixel_bytes(data: Seq<u8>) -> Option<Seq<u8>> {
    let t = header_type(data);
    if t == 2 || t == 3 {
        Some(data.subrange(HEADER_SIZE as int, data.len() as int))
    } else {
        rle_decode(
            data,
            HEADER_SIZE as int,
            (header_width(data) * header_height(data)) as int,
            header_bpp(data),
        )
    }
}

/// What decoding `data` gives: the error, or else the width, height, and
/// the row of the pixel bytes that holds each displayed row.
pub open spec fn decode_error(data: Seq<u8>) -> Option<TgaError> {
    if data.len() < HEADER_SIZE {
        Some(TgaError::TooShort)
    } else if !(header_type(data) == 2 || header_type(data) == 3 || header_type(data) == 10
        || header_type(data) == 11) || !(header_bpp(data) == 1 || header_bpp(data) == 3
        || header_bpp(data) == 4) {
        Some(TgaError::Unsupported)
    } else if pixel_bytes(data) is None || pixel_bytes(data)->0.len() < header_width(data)
        * header_height(data) * header_bpp(data) {
        Some(TgaError::Truncated)
    } else {
        None
    }
}

/// The row of the pixel data shown as row `y` of an image `h` rows high.
pub open spec fn source_row(data: Seq<u8>, h: int, y: int) -> int {
    if header_flipped(data) {
        h - 1 - y
    } else {
        y
    }
}

pub open spec fn clamp(v: int, lo: int, hi: int) -> int {
    if v < lo {
        lo
    } else if v > hi {
        hi
    } else {
        v
    }
}

/// A decoded texture, addressed by column, then row.
pub struct Tga {
    map: Vec<Vec<u32>>,
    width: usize,
    height: usize,
}

proof fn lemma_index_bound(x: int, y: int, w: int, h: int, bpp: int)
    requires
        0 <= x < w,
        0 <= y < h,
        bpp >= 0,
    ensures
        0 <= (y * w + x) * bpp,
        (y * w + x + 1) * bpp <= w * h * bpp,
        (y * w + x) * bpp + bpp == (y * w + x + 1) * bpp,
        y * w + x < w * h,
        bpp >= 1 ==> y * w + x + 1 <= (y * w + x + 1) * bpp,
        0 <= y * w,
{
    assert(0 <= y * w) by (nonlinear_arith)
        requires 0 <= y, 0 <= x < w;
    assert(bpp >= 1 ==> y * w + x + 1 <= (y * w + x + 1) * bpp) by (nonlinear_arith)
        requires 0 <= y * w, 0 <= x;
    assert(y * w + x + 1 <= w * h) by (nonlinear_arith)
        requires 0 <= x < w, 0 <= y < h;
    assert((y * w + x + 1) * bpp <= (w * h) * bpp) by (nonlinear_arith)
        requires y * w + x + 1 <= w * h, bpp >= 0;
    assert(0 <= (y * w + x) * bpp) by (nonlinear_arith)
        requires 0 <= x, 0 <= y, w >= 0, bpp >= 0;
    assert((y * w + x) * bpp + bpp == (y * w + x + 1) * bpp) by (nonlinear_arith);
    assert(w * h * bpp == (w * h) * bpp) by (nonlinear_arith);
}

/// Appends `data[from..from + n]` to `out`.
fn copy_bytes(data: &Vec<u8>, from: usize, n: usize, out: &mut Vec<u8>)
    requires
        from + n <= data@.len(),
    ensures
        final(out)@ == old(out)@ + data@.subrange(from as int, from + n),
{
    let len = data.len();
    let end = from + n;
    let mut i: usize = from;
    while i < end
        invariant
            end == from + n,
            from <= i <= from + n,
            from + n <= data@.len(),
            out@ == old(out)@ + data@.subrange(from as int, i as int),
        decreases end - i,
    {
        out.push(data[i]);
        i = i + 1;
        assert(data@.subrange(from as int, i as int) =~= data@.subrange(from as int, i - 1) + seq![
            data@[i - 1],
        ]);
    }
}

/// Appends `data[from..from + n]` to `out`, `count` times over.
fn repeat_bytes(data: &Vec<u8>, from: usize, n: usize, count: usize, out: &mut Vec<u8>)
    requires
        from + n <= data@.len(),
    ensures
        final(out)@ == old(out)@ + repeat(data@.subrange(from as int, from + n), count as nat),
{
    let ghost unit = data@.subrange(from as int, from + n);
    let mut i: usize = 0;
    while i < count
        invariant
            from + n <= data@.len(),
            i <= count,
            unit == data@.subrange(from as int, from + n),
            out@ == old(out)@ + repeat(unit, i as nat),
        decreases count - i,
    {
        let ghost mid = out@;
        copy_bytes(data, from, n, out);
        i = i + 1;
        assert(old(out)@ + repeat(unit, i as nat) =~= mid + unit);
    }
}

impl Tga {
    pub closed spec fn wf(&self) -> bool {
        &&& self.width <= 65535
        &&& self.height <= 65535
        &&& self.map@.len() == self.width
        &&& forall|x: int| 0 <= x < self.width ==> (#[trigger] self.map@[x])@.len() == self.height
    }

    pub closed spec fn width_spec(&self) -> nat {
        self.width as nat
    }

    /// A well-formed texture is at most 65535 pixels in each direction.
    pub proof fn lemma_size(&self)
        requires
            self.wf(),
        ensures
            self.width_spec() <= 65535,
            self.height_spec() <= 65535,
    {
    }

    pub closed spec fn height_spec(&self) -> nat {
        self.height as nat
    }

    pub closed spec fn pixel(&self, x: int, y: int) -> u32 {
        self.map@[x]@[y]
    }

    /// Decodes the run-length encoded pixel data that starts at `start`,
    /// `pixelcount` pixels of `bytespp` bytes each.
    fn read_rle(pixelcount: usize, bytespp: usize, data: &Vec<u8>, start: usize) -> (r: Option<
        Vec<u8>,
    >)
        requires
            1 <= bytespp <= 4,
            pixelcount <= 0xFFFE_0001,
            start <= data@.len(),
        ensures
            match rle_decode(data@, start as int, pixelcount as int, bytespp as nat) {
                Some(s) => r is Some && r->0@ == s,
                None => r is None,
            },
    {
        let ghost total = rle_decode(data@, start as int, pixelcount as int, bytespp as nat);
        let mut encoded: Vec<u8> = Vec::new();
        let mut pos: usize = start;
        let mut pix: usize = 0;
        proof {
            if total is Some {
                assert(encoded@ + total->0 =~= total->0);
            }
        }
        while pix < pixelcount
            invariant
                1 <= bytespp <= 4,
                pixelcount <= 0xFFFE_0001,
                pix <= pixelcount + 128,
                total == rle_decode(data@, start as int, pixelcount as int, bytespp as nat),
                total == match rle_decode(data@, pos as int, pixelcount - pix, bytespp as nat) {
                    Some(rest) => Some(encoded@ + rest),
                    None => None::<Seq<u8>>,
                },
            decreases pixelcount + 128 - pix,
        {
            if pos >= data.len() {
                assert(rle_decode(data@, pos as int, pixelcount - pix, bytespp as nat) is None);
                return None;
            }
            let header = data[pos] as usize;
            let ghost before = encoded@;
            let ghost left = pixelcount - pix;
            let count: usize;
            let chunk: usize;
            if header < 128 {
                count = header + 1;
                assert(count * bytespp <= 512) by (nonlinear_arith)
                    requires count <= 128, bytespp <= 4;
                chunk = count * bytespp;
            } else {
                count = header - 127;
                chunk = bytespp;
            }
            if chunk > data.len() - (pos + 1) {
                assert(rle_decode(data@, pos as int, pixelcount - pix, bytespp as nat) is None);
                return None;
            }
            if header < 128 {
                copy_bytes(data, pos + 1, chunk, &mut encoded);
            } else {
                repeat_bytes(data, pos + 1, bytespp, count, &mut encoded);
            }
            let ghost piece = encoded@.subrange(before.len() as int, encoded@.len() as int);
            let ghost tail = rle_decode(data@, pos + 1 + chunk, left - count, bytespp as nat);
            assert(encoded@ =~= before + piece);
            proof {
                if tail is Some {
                    assert(before + (piece + tail->0) =~= encoded@ + tail->0);
                }
            }
            pos = pos + 1 + chunk;
            pix = pix + count;
        }
        assert(encoded@ + Seq::<u8>::empty() =~= encoded@);
        Some(encoded)
    }

    /// The image of `width` by `height` pixels of `bytespp` bytes in `buffer`,
    /// row after row; pixel `(x, y)` is `pixel_value(buffer, bytespp, y * width + x)`.
    fn create_canvas(width: usize, height: usize, bytespp: usize, buffer: &Vec<u8>) -> (r: Vec<
        Vec<u32>,
    >)
        requires
            1 <= bytespp <= 4,
            width * height * bytespp <= buffer@.len(),
        ensures
            r@.len() == width,
            forall|x: int| 0 <= x < width ==> (#[trigger] r@[x])@.len() == height,
            forall|x: int, y: int|
                0 <= x < width && 0 <= y < height ==> (#[trigger] r@[x]@[y]) == pixel_value(
                    buffer@,
                    bytespp as nat,
                    y * width + x,
                ),
    {
        let blen = buffer.len();
        let mut canvas: Vec<Vec<u32>> = Vec::new();
        let mut ix: usize = 0;
        while ix < width
            invariant
                1 <= bytespp <= 4,
                width * height * bytespp <= buffer@.len(),
                blen == buffer@.len(),
                ix <= width,
                canvas@.len() == ix,
                forall|x: int| 0 <= x < ix ==> (#[trigger] canvas@[x])@.len() == height,
                forall|x: int, y: int|
                    0 <= x < ix && 0 <= y < height ==> (#[trigger] canvas@[x]@[y]) == pixel_value(
                        buffer@,
                        bytespp as nat,
                        y * width + x,
                    ),
            decreases width - ix,
        {
            let mut col: Vec<u32> = Vec::new();
            let mut iy: usize = 0;
            while iy < height
                invariant
                    1 <= bytespp <= 4,
                    width * height * bytespp <= buffer@.len(),
                    blen == buffer@.len(),
                    ix < width,
                    iy <= height,
                    col@.len() == iy,
                    forall|y: int|
                        0 <= y < iy ==> (#[trigger] col@[y]) == pixel_value(
                            buffer@,
                            bytespp as nat,
                            y * width + ix,
                        ),
                decreases height - iy,
            {
                proof {
                    lemma_index_bound(ix as int, iy as int, width as int, height as int, bytespp as int);
                }
                let i = iy * width + ix;
                let v: u32 = if bytespp == 1 {
                    let g = buffer[i] as u32;
                    g + g * 256 + g * 65536
                } else if bytespp == 3 || bytespp == 4 {
                    let k = i * bytespp;
                    buffer[k] as u32 + buffer[k + 1] as u32 * 256 + buffer[k + 2] as u32 * 65536
                } else {
                    0
                };
                col.push(v);
                iy = iy + 1;
            }
            canvas.push(col);
            ix = ix + 1;
        }
        canvas
    }


    /// Decodes a TGA file held in memory: uncompressed or run-length encoded,
    /// true colour or greyscale, with one, three or four bytes per pixel.
    pub fn read_bytes(data: &Vec<u8>) -> (r: Result<Tga, TgaError>)
        ensures
            match decode_error(data@) {
                Some(e) => r == Err::<Tga, TgaError>(e),
                None => r is Ok && {
                    let t = r->Ok_0;
                    let w = header_width(data@);
                    let h = header_height(data@);
                    &&& t.wf()
                    &&& t.width_spec() == w
                    &&& t.height_spec() == h
                    &&& forall|x: int, y: int|
                        0 <= x < w && 0 <= y < h ==> #[trigger] t.pixel(x, y) == pixel_value(
                            pixel_bytes(data@)->0,
                            header_bpp(data@),
                            source_row(data@, h as int, y) * w + x,
                        )
                },
            },
    {
        if data.len() < HEADER_SIZE {
            return Err(TgaError::TooShort);
        }
        let kind = data[2];
        let width = data[12] as usize + data[13] as usize * 256;
        let height = data[14] as usize + data[15] as usize * 256;
        let bytespp = (data[16] / 8) as usize;
        let flipped = (data[17] / 32) % 2 == 1;
        if !(kind == 2 || kind == 3 || kind == 10 || kind == 11) || !(bytespp == 1 || bytespp == 3
            || bytespp == 4) {
            return Err(TgaError::Unsupported);
        }
        assert(width * height <= 0xFFFE_0001) by (nonlinear_arith)
            requires width <= 65535, height <= 65535;
        let pixelcount = width * height;
        let buffer: Vec<u8>;
        if kind == 2 || kind == 3 {
            let mut raw: Vec<u8> = Vec::new();
            copy_bytes(data, HEADER_SIZE, data.len() - HEADER_SIZE, &mut raw);
            assert(raw@ =~= data@.subrange(HEADER_SIZE as int, data@.len() as int));
            buffer = raw;
        } else {
            match Tga::read_rle(pixelcount, bytespp, data, HEADER_SIZE) {
                Some(decoded) => {
                    buffer = decoded;
                },
                None => {
                    return Err(TgaError::Truncated);
                },
            }
        }
        assert(pixel_bytes(data@) == Some(buffer@));
        if buffer.len() / bytespp < pixelcount {
            proof {
                assert(buffer@.len() < pixelcount * bytespp) by (nonlinear_arith)
                    requires (buffer@.len() as int) / (bytespp as int) < pixelcount, bytespp >= 1;
            }
            return Err(TgaError::Truncated);
        }
        proof {
            assert(pixelcount * bytespp <= buffer@.len()) by (nonlinear_arith)
                requires (buffer@.len() as int) / (bytespp as int) >= pixelcount, bytespp >= 1;
        }
        let canvas = Tga::create_canvas(width, height, bytespp, &buffer);
        let mut map: Vec<Vec<u32>> = Vec::new();
        let mut x: usize = 0;
        while x < width
            invariant
                canvas@.len() == width,
                forall|x: int| 0 <= x < width ==> (#[trigger] canvas@[x])@.len() == height,
                x <= width,
                map@.len() == x,
                forall|k: int| 0 <= k < x ==> (#[trigger] map@[k])@.len() == height,
                forall|k: int, y: int|
                    0 <= k < x && 0 <= y < height ==> (#[trigger] map@[k]@[y]) == canvas@[k]@[if flipped {
                        height - 1 - y
                    } else {
                        y
                    }],
            decreases width - x,
        {
            let mut col: Vec<u32> = Vec::new();
            let mut y: usize = 0;
            while y < height
                invariant
                    canvas@.len() == width,
                    forall|x: int| 0 <= x < width ==> (#[trigger] canvas@[x])@.len() == height,
                    x < width,
                    y <= height,
                    col@.len() == y,
                    forall|k: int|
                        0 <= k < y ==> (#[trigger] col@[k]) == canvas@[x as int]@[if flipped {
                            height - 1 - k
                        } else {
                            k
                        }],
                decreases height - y,
            {
                let src = if flipped { height - 1 - y } else { y };
                col.push(canvas[x][src]);
                y = y + 1;
            }
            map.push(col);
            x = x + 1;
        }
        let t = Tga { map, width, height };
        assert forall|x: int, y: int| 0 <= x < width && 0 <= y < height implies #[trigger] t.pixel(
            x,
            y,
        ) == pixel_value(
            pixel_bytes(data@)->0,
            header_bpp(data@),
            source_row(data@, height as int, y) * width + x,
        ) by {
            let sy = source_row(data@, height as int, y);
            assert(0 <= sy < height);
            assert(t.pixel(x, y) == canvas@[x]@[sy]);
        }
        Ok(t)
    }

    /// The pixel at `(x, y)`; coordinates outside the image are moved to its
    /// nearest edge.
    pub fn get_pixel(&self, x: i32, y: i32) -> (r: u32)
        requires
            self.wf(),
            self.width_spec() >= 1,
            self.height_spec() >= 1,
        ensures
            r == self.pixel(
                clamp(x as int, 0, self.width_spec() - 1),
                clamp(y as int, 0, self.height_spec() - 1),
            ),
    {
        let cx: usize = if x < 0 {
            0
        } else if x as usize > self.width - 1 {
            self.width - 1
        } else {
            x as usize
        };
        let cy: usize = if y < 0 {
            0
        } else if y as usize > self.height - 1 {
            self.height - 1
        } else {
            y as usize
        };
        self.map[cx][cy]
    }

    pub fn width(&self) -> (r: usize)
        ensures
            r == self.width_spec(),
    {
        self.width
    }

    pub fn height(&self) -> (r: usize)
        ensures
            r == self.height_spec(),
    {
        self.height
    }

}

} // verus!
