//! Turning a decoded image into text: how many cells it gets, and which character each cell shows.
use crate::single;
use crate::single::Single;
use vstd::prelude::*;

verus! {

/// A decoded image: rows of pixels from the top, each four bytes of red, green, blue and alpha.
pub struct Image {
    pub width: u32,
    pub height: u32,
    pub pixels: Vec<u8>,
}

/// What a decoded image shows.
pub struct Picture {
    pub width: nat,
    pub height: nat,
    pub pixels: Seq<u8>,
}

impl View for Image {
    type V = Picture;

    open spec fn view(&self) -> Picture {
        Picture { width: self.width as nat, height: self.height as nat, pixels: self.pixels@ }
    }
}

impl Image {
    /// There are bytes for every pixel.
    pub open spec fn wf(self) -> bool {
        self.pixels@.len() >= 4 * self.width * self.height
    }
}

// ── How many cells ────────────────────────────────────────────────────

/// Four fifths of the terminal's cells in one direction, but at least `least`.
pub open spec fn room(cells: u16, least: int) -> int {
    if cells * 4 / 5 < least {
        least
    } else {
        cells * 4 / 5
    }
}

/// Half of a value.
pub open spec fn halved(s: Single) -> Single {
    if s.mant == 0 {
        s
    } else {
        Single { mant: s.mant, exp: (s.exp - 1) as i32 }
    }
}

/// The image's extent in cells: its width, and half its height as a cell is twice as high as wide.
pub open spec fn cells_wide(iw: u32) -> Single {
    single::rounded(iw as nat, 0)
}

pub open spec fn cells_high(ih: u32) -> Single {
    halved(single::rounded(ih as nat, 0))
}

pub open spec fn one() -> Single {
    Single { mant: single::LEAST, exp: (-23) as i32 }
}

/// What the image is scaled by in one direction to fit the room, at most one.
pub open spec fn scale_in(room: int, cells: Single) -> Single {
    if cells.mant == 0 {
        one()
    } else {
        single::smaller(single::quotient(single::rounded(room as nat, 0), cells), one())
    }
}

/// What the image is scaled by: the smaller of both directions.
pub open spec fn scale(cols: u16, rows: u16, iw: u32, ih: u32) -> Single {
    single::smaller(
        scale_in(room(cols, 10), cells_wide(iw)),
        scale_in(room(rows, 3), cells_high(ih)),
    )
}

/// The number of cells that `cells` take when scaled, at least one.
pub open spec fn scaled(cells: Single, by: Single) -> int {
    let n = single::nearest_int(single::product(cells, by));
    if n < 1 {
        1
    } else {
        n as int
    }
}

fn room_for(cells: u16, least: u32) -> (r: u32)
    requires
        least <= 0xffff,
    ensures
        r == room(cells, least as int),
        r <= 0xffff,
{
    let n: u32 = cells as u32 * 4 / 5;
    if n < least {
        least
    } else {
        n
    }
}

fn scale_one(room: u32, cells: Single) -> (s: Single)
    requires
        room > 0,
        cells.wf(),
        -30 <= cells.exp <= 10,
    ensures
        s == scale_in(room as int, cells),
        s.wf(),
        s.mant > 0,
        -60 <= s.exp <= -23,
{
    let unit = Single { mant: single::LEAST, exp: -23 };
    if cells.mant == 0 {
        unit
    } else {
        single::min(single::divide(single::from_u32(room), cells), unit)
    }
}

/// Compute the ascii cell dimensions so the image's longest dimension fits within ~80% of the
/// terminal (width and height), preserving aspect ratio (terminal cells are ~2:1 so rows = H/2 in
/// cell units). Never upscales.
pub fn fit_dimensions(cols: u16, rows: u16, iw: u32, ih: u32) -> (r: (u32, u32))
    ensures
        r.0 == scaled(cells_wide(iw), scale(cols, rows, iw, ih)),
        r.1 == scaled(cells_high(ih), scale(cols, rows, iw, ih)),
{
    let max_w: u32 = room_for(cols, 10);
    let max_h: u32 = room_for(rows, 3);
    let cell_w = single::from_u32(iw);
    let full_h = single::from_u32(ih);
    let cell_h = if full_h.mant == 0 {
        full_h
    } else {
        Single { mant: full_h.mant, exp: full_h.exp - 1 }
    };
    let by = single::min(scale_one(max_w, cell_w), scale_one(max_h, cell_h));
    let out_w: u32 = single::round_to_u32(single::multiply(cell_w, by));
    let out_h: u32 = single::round_to_u32(single::multiply(cell_h, by));
    (
        if out_w < 1 {
            1
        } else {
            out_w
        },
        if out_h < 1 {
            1
        } else {
            out_h
        },
    )
}

// ── What each cell shows ──────────────────────────────────────────────

/// The characters for growing brightness.
pub open spec fn ramp(i: nat) -> char {
    if i == 0 {
        ' '
    } else if i == 1 {
        '.'
    } else if i == 2 {
        ':'
    } else if i == 3 {
        '-'
    } else if i == 4 {
        '='
    } else if i == 5 {
        '+'
    } else if i == 6 {
        '*'
    } else if i == 7 {
        '#'
    } else if i == 8 {
        '%'
    } else {
        '@'
    }
}

fn ramp_char(i: u32) -> (c: char)
    ensures
        c == ramp(i as nat),
{
    match i {
        0 => ' ',
        1 => '.',
        2 => ':',
        3 => '-',
        4 => '=',
        5 => '+',
        6 => '*',
        7 => '#',
        8 => '%',
        _ => '@',
    }
}

/// One half.
pub open spec fn half() -> Single {
    Single { mant: single::LEAST, exp: (-24) as i32 }
}

/// The weights of red, green and blue in the brightness: the singles nearest to 0.2126, 0.7152
/// and 0.0722.
pub open spec fn red_weight() -> Single {
    Single { mant: 0xd9b3d0, exp: (-26) as i32 }
}

pub open spec fn green_weight() -> Single {
    Single { mant: 0xb71759, exp: (-24) as i32 }
}

pub open spec fn blue_weight() -> Single {
    Single { mant: 0x93dd98, exp: (-27) as i32 }
}

/// The source position that cell `i` of `out` shows of `size` pixels: the one under the middle of
/// the cell. In an image so large that the last position is rounded past its edge, that is the last
/// pixel.
pub open spec fn sample(i: nat, out: nat, size: nat) -> int {
    let middle = single::sum(single::rounded(i, 0), half());
    let at = single::product(
        single::quotient(middle, single::rounded(out, 0)),
        single::rounded(size, 0),
    );
    let n = single::whole_part(
        single::smaller(at, single::rounded((size - 1) as nat, 0)),
    );
    if n < size {
        n as int
    } else {
        size - 1
    }
}

/// How bright a pixel is, from 0 to 255.
pub open spec fn brightness(r: u8, g: u8, b: u8) -> Single {
    single::sum(
        single::sum(
            single::product(red_weight(), single::rounded(r as nat, 0)),
            single::product(green_weight(), single::rounded(g as nat, 0)),
        ),
        single::product(blue_weight(), single::rounded(b as nat, 0)),
    )
}

/// The character for a pixel: blank where it is fully transparent.
pub open spec fn shade(r: u8, g: u8, b: u8, a: u8) -> char {
    if a == 0 {
        ' '
    } else {
        ramp(
            single::nearest_int(
                single::product(
                    single::quotient(brightness(r, g, b), single::rounded(255, 0)),
                    single::rounded(9, 0),
                ),
            ),
        )
    }
}

/// The character of the cell at column `x` and row `y`.
pub open spec fn cell(img: Picture, x: nat, y: nat, out_w: nat, out_h: nat) -> char {
    let sx = sample(x, out_w, img.width);
    let sy = sample(y, out_h, img.height);
    let p = 4 * (sy * img.width + sx);
    shade(img.pixels[p], img.pixels[p + 1], img.pixels[p + 2], img.pixels[p + 3])
}

/// The cells of a row from the left, `n` of them.
pub open spec fn row_prefix(img: Picture, y: nat, n: nat, out_w: nat, out_h: nat) -> Seq<char> {
    Seq::new(n, |x: int| cell(img, x as nat, y, out_w, out_h))
}

/// The first `n` rows, each ended by a line feed.
pub open spec fn rows_prefix(img: Picture, n: nat, out_w: nat, out_h: nat) -> Seq<char>
    decreases n,
{
    if n == 0 {
        Seq::empty()
    } else {
        rows_prefix(img, (n - 1) as nat, out_w, out_h) + row_prefix(
            img,
            (n - 1) as nat,
            out_w,
            out_w,
            out_h,
        ).push('\n')
    }
}

/// The image as text; nothing where the image or the room for it is empty.
pub open spec fn ascii(img: Picture, out_w: nat, out_h: nat) -> Seq<char> {
    if img.width == 0 || img.height == 0 || out_w == 0 || out_h == 0 {
        Seq::empty()
    } else {
        rows_prefix(img, out_h, out_w, out_h)
    }
}

fn sample_at(i: u32, out: u32, size: u32) -> (r: u32)
    requires
        out > 0,
        size > 0,
    ensures
        r == sample(i as nat, out as nat, size as nat),
        r < size,
{
    let middle = single::plus(
        single::from_u32(i),
        Single { mant: single::LEAST, exp: -24 },
    );
    let at = single::multiply(
        single::divide(middle, single::from_u32(out)),
        single::from_u32(size),
    );
    let n: u32 = single::truncate_to_u32(single::min(at, single::from_u32(size - 1)));
    if n < size {
        n
    } else {
        size - 1
    }
}

fn shade_of(r: u8, g: u8, b: u8, a: u8) -> (c: char)
    ensures
        c == shade(r, g, b, a),
{
    if a == 0 {
        return ' ';
    }
    proof {
        lemma_byte(r);
        lemma_byte(g);
        lemma_byte(b);
    }
    let red = single::multiply(
        Single { mant: 0xd9b3d0, exp: -26 },
        single::from_u32(r as u32),
    );
    let green = single::multiply(
        Single { mant: 0xb71759, exp: -24 },
        single::from_u32(g as u32),
    );
    let blue = single::multiply(
        Single { mant: 0x93dd98, exp: -27 },
        single::from_u32(b as u32),
    );
    let lum = single::plus(single::plus(red, green), blue);
    let part = single::multiply(
        single::divide(lum, single::from_u32(255)),
        single::from_u32(9),
    );
    ramp_char(single::round_to_u32(part))
}

proof fn lemma_pixel_in_image(sx: int, sy: int, w: int, h: int)
    requires
        0 <= sx < w,
        0 <= sy < h,
    ensures
        0 <= sy * w,
        sy * w + sx < w * h,
        4 * (sy * w + sx) + 3 < 4 * w * h,
{
    assert(0 <= sy * w && sy * w + w <= w * h) by (nonlinear_arith)
        requires
            0 <= sy < h,
            0 < w,
    ;
    assert(4 * w * h == 4 * (w * h)) by (nonlinear_arith);
}

/// Convert a decoded image to ascii art at exactly `out_w` x `out_h` cells. Uses a standard
/// luminance ramp and skips fully-transparent pixels.
pub fn image_to_ascii(img: &Image, out_w: u32, out_h: u32) -> (out: String)
    requires
        img.wf(),
    ensures
        out@ == ascii(img@, out_w as nat, out_h as nat),
{
    let mut out = String::new();
    if img.width == 0 || img.height == 0 || out_w == 0 || out_h == 0 {
        return out;
    }
    let total: usize = img.pixels.len();
    let mut y: u32 = 0;
    while y < out_h
        invariant
            img.wf(),
            total == img.pixels@.len(),
            img.width > 0,
            img.height > 0,
            out_w > 0,
            y <= out_h,
            out@ == rows_prefix(img@, y as nat, out_w as nat, out_h as nat),
        decreases out_h - y,
    {
        let ghost done = out@;
        let sy: u32 = sample_at(y, out_h, img.height);
        let mut x: u32 = 0;
        assert(out@ == done + row_prefix(img@, y as nat, 0, out_w as nat, out_h as nat));
        while x < out_w
            invariant
                img.wf(),
                total == img.pixels@.len(),
                img.width > 0,
                img.height > 0,
                y < out_h,
                x <= out_w,
                sy == sample(y as nat, out_h as nat, img.height as nat),
                sy < img.height,
                out@ == done + row_prefix(img@, y as nat, x as nat, out_w as nat, out_h as nat),
            decreases out_w - x,
        {
            let sx: u32 = sample_at(x, out_w, img.width);
            proof {
                lemma_pixel_in_image(
                    sx as int,
                    sy as int,
                    img.width as int,
                    img.height as int,
                );
            }
            let p: usize = 4 * (sy as usize * img.width as usize + sx as usize);
            out.push(
                shade_of(img.pixels[p], img.pixels[p + 1], img.pixels[p + 2], img.pixels[p + 3]),
            );
            assert(out@ == done + row_prefix(
                img@,
                y as nat,
                (x + 1) as nat,
                out_w as nat,
                out_h as nat,
            ));
            x += 1;
        }
        out.push('\n');
        assert(out@ == done + row_prefix(
            img@,
            y as nat,
            out_w as nat,
            out_w as nat,
            out_h as nat,
        ).push('\n'));
        y += 1;
    }
    out
}

proof fn lemma_rows_len(img: Picture, n: nat, out_w: nat, out_h: nat)
    ensures
        rows_prefix(img, n, out_w, out_h).len() == n * (out_w + 1),
    decreases n,
{
    if n > 0 {
        lemma_rows_len(img, (n - 1) as nat, out_w, out_h);
        assert(n * (out_w + 1) == (n - 1) * (out_w + 1) + (out_w + 1)) by (nonlinear_arith);
    } else {
        assert(n * (out_w + 1) == 0) by (nonlinear_arith)
            requires
                n == 0,
        ;
    }
}

/// The art has exactly the asked size: every cell and one line feed for each row.
pub proof fn art_has_the_asked_size(img: Picture, out_w: nat, out_h: nat)
    requires
        img.width > 0,
        img.height > 0,
        out_w > 0,
    ensures
        ascii(img, out_w, out_h).len() == out_h * (out_w + 1),
{
    lemma_rows_len(img, out_h, out_w, out_h);
    if out_h == 0 {
        assert(out_h * (out_w + 1) == 0) by (nonlinear_arith)
            requires
                out_h == 0,
        ;
    }
}

/// A pixel that is fully transparent shows as a blank, whatever its colour.
pub proof fn transparent_is_blank(r: u8, g: u8, b: u8)
    ensures
        shade(r, g, b, 0) == ' ',
{
}

proof fn lemma_byte(n: u8)
    ensures
        n > 0 ==> -23 <= single::rounded(n as nat, 0).exp <= -15,
{
    if n > 0 {
        vstd::arithmetic::power2::lemma2_to64();
        single::lemma_bit_len(n as nat);
        if single::bit_len(n as nat) > 8 {
            if single::bit_len(n as nat) > 9 {
                vstd::arithmetic::power2::lemma_pow2_strictly_increases(
                    8,
                    (single::bit_len(n as nat) - 1) as nat,
                );
            }
        }
        single::lemma_rounded(n as nat, 0);
    }
}

// ── Laws of the fit ───────────────────────────────────────────────────

proof fn lemma_from_u32(n: u32)
    ensures
        single::rounded(n as nat, 0).wf(),
        -23 <= single::rounded(n as nat, 0).exp <= 9,
        n > 0 ==> single::rounded(n as nat, 0).mant > 0,
        n == 0 ==> single::rounded(n as nat, 0) == single::zero(),
{
    if n > 0 {
        vstd::arithmetic::power2::lemma2_to64();
        single::lemma_bit_len(n as nat);
        let k = single::bit_len(n as nat);
        if k > 33 {
            vstd::arithmetic::power2::lemma_pow2_strictly_increases(32, (k - 1) as nat);
        }
        single::lemma_rounded(n as nat, 0);
    }
}

proof fn lemma_one()
    ensures
        one().wf(),
        single::value(one()) == single::unit(),
{
    vstd::arithmetic::power2::lemma2_to64();
    vstd::arithmetic::power2::lemma_pow2_adds(23, 477);
}

proof fn lemma_scale_in(room: nat, cells: Single)
    requires
        0 < room <= 0xffff,
        cells.wf(),
        -30 <= cells.exp <= 10,
    ensures
        scale_in(room as int, cells).wf(),
        scale_in(room as int, cells).mant > 0,
        -60 <= scale_in(room as int, cells).exp <= -23,
        single::value(scale_in(room as int, cells)) <= single::unit(),
        cells.mant > 0 ==> single::value(scale_in(room as int, cells)) <= single::value(
            single::quotient(single::rounded(room, 0), cells),
        ),
{
    lemma_one();
    if cells.mant > 0 {
        let r = single::rounded(room, 0);
        lemma_from_u32(room as u32);
        single::lemma_whole_value(room);
        single::lemma_quotient(r, cells);
        let q = single::quotient(r, cells);
        single::lemma_less_is_by_value(one(), q);
    }
}

/// The scale is at most what either direction allows.
proof fn lemma_scale(cols: u16, rows: u16, iw: u32, ih: u32)
    ensures
        scale(cols, rows, iw, ih).wf(),
        -60 <= scale(cols, rows, iw, ih).exp <= -23,
        single::value(scale(cols, rows, iw, ih)) <= single::value(
            scale_in(room(cols, 10), cells_wide(iw)),
        ),
        single::value(scale(cols, rows, iw, ih)) <= single::value(
            scale_in(room(rows, 3), cells_high(ih)),
        ),
{
    lemma_from_u32(iw);
    lemma_from_u32(ih);
    let a = scale_in(room(cols, 10), cells_wide(iw));
    let b = scale_in(room(rows, 3), cells_high(ih));
    lemma_scale_in(room(cols, 10) as nat, cells_wide(iw));
    lemma_scale_in(room(rows, 3) as nat, cells_high(ih));
    single::lemma_less_is_by_value(b, a);
}

/// Cells that are scaled by no more than the room allows stay within the room.
proof fn lemma_scaled_within(cells: Single, room: nat, by: Single)
    requires
        0 < room <= 0xffff,
        cells.wf(),
        -30 <= cells.exp <= 10,
        by.wf(),
        -60 <= by.exp <= -23,
        single::value(by) <= single::value(scale_in(room as int, cells)),
    ensures
        scaled(cells, by) <= room,
{
    lemma_scale_in(room, cells);
    single::lemma_product(cells, by);
    let p = single::product(cells, by);
    let u = single::unit();
    vstd::arithmetic::power2::lemma_pow2_pos(500);
    if cells.mant == 0 {
        assert(0 * u == 0);
        assert(2 * single::value(p) < (2 * room + 1) * u) by (nonlinear_arith)
            requires
                single::value(p) == 0,
                u > 0,
        ;
    } else {
        single::lemma_product_close(cells, by);
        let r = single::rounded(room, 0);
        lemma_from_u32(room as u32);
        single::lemma_whole_value(room);
        single::lemma_quotient_close(r, cells);
        let q = single::quotient(r, cells);
        let vp = single::value(p);
        let vc = single::value(cells);
        let vb = single::value(by);
        let vq = single::value(q);
        let l: int = 0x100_0000;
        assert(vp * u * l <= vc * vq * (l + 1)) by (nonlinear_arith)
            requires
                vp * u * l <= vc * vb * (l + 1),
                vb <= vq,
                vc >= 0,
                l > 0,
        ;
        assert(vq * vc * l <= room * u * u * (l + 1));
        assert(vp * u * l * l <= room * u * u * (l + 1) * (l + 1)) by (nonlinear_arith)
            requires
                vp * u * l <= vc * vq * (l + 1),
                vq * vc * l <= room * u * u * (l + 1),
                l > 0,
        ;
        assert(vp * (l * l) <= room * u * ((l + 1) * (l + 1))) by (nonlinear_arith)
            requires
                vp * u * l * l <= room * u * u * (l + 1) * (l + 1),
                u > 0,
        ;
        let big = l * l;
        assert(big == 0x1_0000_0000_0000);
        assert((l + 1) * (l + 1) == 0x1_0000_0200_0001);
        assert(2 * vp < (2 * room + 1) * u) by (nonlinear_arith)
            requires
                vp * 0x1_0000_0000_0000 <= room * u * 0x1_0000_0200_0001,
                0 < room <= 0xffff,
                u > 0,
        ;
    }
    single::lemma_nearest_int_upper(p, room);
}

/// The art never takes more of the terminal than its room in either direction: four fifths of it,
/// or ten columns and three rows where that is more.
pub proof fn fit_stays_within_the_room(cols: u16, rows: u16, iw: u32, ih: u32)
    ensures
        1 <= scaled(cells_wide(iw), scale(cols, rows, iw, ih)) <= room(cols, 10),
        1 <= scaled(cells_high(ih), scale(cols, rows, iw, ih)) <= room(rows, 3),
{
    lemma_from_u32(iw);
    lemma_from_u32(ih);
    lemma_scale(cols, rows, iw, ih);
    let by = scale(cols, rows, iw, ih);
    lemma_scaled_within(cells_wide(iw), room(cols, 10) as nat, by);
    lemma_scaled_within(cells_high(ih), room(rows, 3) as nat, by);
}

/// Cells that are not scaled up take at most the room that they had: `2 * n` halves or fewer.
proof fn lemma_not_scaled_up(cells: Single, halves: nat, n: nat, by: Single)
    requires
        cells.wf(),
        -30 <= cells.exp <= 10,
        by.wf(),
        -60 <= by.exp <= -23,
        single::value(by) <= single::unit(),
        2 * single::value(cells) == halves * single::unit(),
        halves <= 2 * n,
        halves <= 0x2_0000,
    ensures
        single::nearest_int(single::product(cells, by)) <= n,
{
    single::lemma_product(cells, by);
    single::lemma_product_close(cells, by);
    let p = single::product(cells, by);
    let u = single::unit();
    vstd::arithmetic::power2::lemma_pow2_pos(500);
    let vp = single::value(p);
    let vc = single::value(cells);
    let vb = single::value(by);
    let l: int = 0x100_0000;
    assert(vp * u * l <= vc * u * (l + 1)) by (nonlinear_arith)
        requires
            vp * u * l <= vc * vb * (l + 1),
            vb <= u,
            vc >= 0,
            l > 0,
    ;
    assert(vp * l <= vc * (l + 1)) by (nonlinear_arith)
        requires
            vp * u * l <= vc * u * (l + 1),
            u > 0,
    ;
    assert(2 * vp < (2 * n + 1) * u) by (nonlinear_arith)
        requires
            vp * 0x100_0000 <= vc * 0x100_0001,
            2 * vc == halves * u,
            halves <= 2 * n,
            halves <= 0x2_0000,
            u > 0,
    ;
    single::lemma_nearest_int_upper(p, n);
}

/// An image is never shown larger than it is: at most one column for each pixel across, and one
/// row for each two pixels down.
pub proof fn fit_never_upscales(cols: u16, rows: u16, iw: u32, ih: u32)
    requires
        iw > 0,
        ih > 0,
    ensures
        scaled(cells_wide(iw), scale(cols, rows, iw, ih)) <= iw,
        scaled(cells_high(ih), scale(cols, rows, iw, ih)) <= (ih + 1) / 2,
{
    fit_stays_within_the_room(cols, rows, iw, ih);
    lemma_from_u32(iw);
    lemma_from_u32(ih);
    lemma_scale(cols, rows, iw, ih);
    lemma_scale_in(room(cols, 10) as nat, cells_wide(iw));
    let by = scale(cols, rows, iw, ih);
    let u = single::unit();
    if iw <= 0xffff {
        single::lemma_whole_value(iw as nat);
        assert(2 * single::value(cells_wide(iw)) == (2 * iw) * u) by (nonlinear_arith)
            requires
                single::value(cells_wide(iw)) == iw * u,
        ;
        lemma_not_scaled_up(cells_wide(iw), (2 * iw) as nat, iw as nat, by);
    }
    if ih <= 0x2_0000 {
        single::lemma_whole_value(ih as nat);
        lemma_halved(ih);
        lemma_not_scaled_up(cells_high(ih), ih as nat, ((ih + 1) / 2) as nat, by);
    }
}

/// Half of a rounded height, doubled, is the rounded height.
proof fn lemma_halved(ih: u32)
    ensures
        2 * single::value(cells_high(ih)) == single::value(single::rounded(ih as nat, 0)),
{
    lemma_from_u32(ih);
    let full = single::rounded(ih as nat, 0);
    if full.mant > 0 {
        vstd::arithmetic::power2::lemma_pow2_unfold((full.exp + 500) as nat);
        let b = vstd::arithmetic::power2::pow2((full.exp + 499) as nat);
        assert(2 * (full.mant * b) == full.mant * (2 * b)) by (nonlinear_arith);
    } else {
        let b = vstd::arithmetic::power2::pow2(500);
        assert(0 * b == 0) by (nonlinear_arith);
    }
}

/// The scale in one direction is one, or the room over the cells and less than one.
proof fn lemma_scale_in_forms(room: nat, cells: Single)
    requires
        0 < room <= 0xffff,
        cells.wf(),
        cells.mant > 0,
        -30 <= cells.exp <= 10,
    ensures
        scale_in(room as int, cells) == one() && single::value(
            single::quotient(single::rounded(room, 0), cells),
        ) >= single::unit() || scale_in(room as int, cells) == single::quotient(
            single::rounded(room, 0),
            cells,
        ),
{
    lemma_one();
    let r = single::rounded(room, 0);
    lemma_from_u32(room as u32);
    single::lemma_whole_value(room);
    single::lemma_quotient(r, cells);
    single::lemma_less_is_by_value(one(), single::quotient(r, cells));
}

/// Cells that are scaled by exactly what fits them into the room fill it.
proof fn lemma_scaled_fills(cells: Single, room: nat, by: Single)
    requires
        0 < room <= 0xffff,
        cells.wf(),
        cells.mant > 0,
        -30 <= cells.exp <= 10,
        by == single::quotient(single::rounded(room, 0), cells),
    ensures
        scaled(cells, by) >= room,
{
    let r = single::rounded(room, 0);
    lemma_from_u32(room as u32);
    single::lemma_whole_value(room);
    single::lemma_quotient(r, cells);
    single::lemma_quotient_close(r, cells);
    single::lemma_product(cells, by);
    single::lemma_product_close(cells, by);
    let u = single::unit();
    vstd::arithmetic::power2::lemma_pow2_pos(500);
    let vp = single::value(single::product(cells, by));
    let vc = single::value(cells);
    let vb = single::value(by);
    let l: int = 0x100_0000;
    assert(vp * u * l * l >= vc * vb * (l - 1) * l) by (nonlinear_arith)
        requires
            vp * u * l >= vc * vb * (l - 1),
            l == 0x100_0000,
    ;
    assert(vc * vb * (l - 1) * l >= room * u * u * (l - 1) * (l - 1)) by (nonlinear_arith)
        requires
            vb * vc * l >= room * u * u * (l - 1),
            l == 0x100_0000,
    ;
    assert(vp * (l * l) >= room * u * ((l - 1) * (l - 1))) by (nonlinear_arith)
        requires
            vp * u * l * l >= room * u * u * (l - 1) * (l - 1),
            u > 0,
    ;
    assert(l * l == 0x1_0000_0000_0000);
    assert((l - 1) * (l - 1) == 0xffff_fe00_0001);
    assert(2 * vp + u >= 2 * room * u) by (nonlinear_arith)
        requires
            vp * 0x1_0000_0000_0000 >= room * u * 0xffff_fe00_0001,
            0 < room <= 0xffff,
            u > 0,
    ;
    single::lemma_nearest_int_lower(single::product(cells, by), room);
}

/// Cells that are not scaled keep their number: a half counts as a whole.
proof fn lemma_scaled_by_one(cells: Single, halves: nat)
    requires
        cells.wf(),
        -30 <= cells.exp <= 10,
        2 * single::value(cells) == halves * single::unit(),
        0 < halves <= 0x2_0000,
    ensures
        scaled(cells, one()) == (halves + 1) / 2,
{
    single::lemma_times_one(cells, one());
    let u = single::unit();
    vstd::arithmetic::power2::lemma_pow2_pos(500);
    let n = (halves + 1) / 2;
    let v = single::value(cells);
    assert(2 * v < (2 * n + 1) * u && 2 * v + u >= 2 * n * u) by (nonlinear_arith)
        requires
            2 * v == halves * u,
            halves < 2 * n + 1,
            halves + 1 >= 2 * n,
            u > 0,
    ;
    single::lemma_nearest_int_upper(cells, n);
    single::lemma_nearest_int_lower(cells, n);
}

/// Where the room allows the cells at their own size, there are few of them.
proof fn lemma_small_enough(room: nat, cells: Single, n: u32, halves: nat)
    requires
        0 < room <= 0xffff,
        0 < n,
        halves == 1 || halves == 2,
        cells.wf(),
        cells.mant > 0,
        -30 <= cells.exp <= 10,
        2 * single::value(cells) == halves * single::value(single::rounded(n as nat, 0)),
        single::value(single::quotient(single::rounded(room, 0), cells)) >= single::unit(),
    ensures
        n * halves <= 0x2_0000,
        single::value(single::rounded(n as nat, 0)) == n * single::unit(),
{
    let r = single::rounded(room, 0);
    lemma_from_u32(room as u32);
    single::lemma_whole_value(room);
    single::lemma_quotient_close(r, cells);
    single::lemma_rounded_close(n as nat);
    let u = single::unit();
    vstd::arithmetic::power2::lemma_pow2_pos(500);
    let vq = single::value(single::quotient(r, cells));
    let vc = single::value(cells);
    let vn = single::value(single::rounded(n as nat, 0));
    let l: int = 0x100_0000;
    assert(vc * l <= room * u * (l + 1)) by (nonlinear_arith)
        requires
            vq * vc * l <= room * u * u * (l + 1),
            vq >= u,
            vc >= 0,
            l > 0,
            u > 0,
    ;
    let nu = n * u;
    assert(nu * (l - 1) <= vn * l) by (nonlinear_arith)
        requires
            vn * l >= n * u * (l - 1),
            nu == n * u,
    ;
    assert(room * u <= 0xffff * u) by (nonlinear_arith)
        requires
            room <= 0xffff,
            u > 0,
    ;
    let hn = halves * nu;
    assert(hn == n * halves * u) by (nonlinear_arith)
        requires
            hn == halves * nu,
            nu == n * u,
    ;
    assert(hn <= 0x2_0000 * u);
    let c = n * halves;
    assert(c <= 0x2_0000) by (nonlinear_arith)
        requires
            c * u <= 0x2_0000 * u,
            u > 0,
    ;
    single::lemma_whole_value(n as nat);
}

/// An image that fits the room is shown at its own size, and any other fills the room in one
/// direction.
pub proof fn fit_fills_the_room(cols: u16, rows: u16, iw: u32, ih: u32)
    requires
        iw > 0,
        ih > 0,
    ensures
        ({
            let w = scaled(cells_wide(iw), scale(cols, rows, iw, ih));
            let h = scaled(cells_high(ih), scale(cols, rows, iw, ih));
            &&& iw <= room(cols, 10) && ih <= 2 * room(rows, 3) ==> w == iw && h == (ih + 1) / 2
            &&& (w == iw && h == (ih + 1) / 2) || w == room(cols, 10) || h == room(rows, 3)
        }),
{
    fit_stays_within_the_room(cols, rows, iw, ih);
    lemma_from_u32(iw);
    lemma_from_u32(ih);
    lemma_one();
    lemma_halved(ih);
    let by = scale(cols, rows, iw, ih);
    let wide = cells_wide(iw);
    let high = cells_high(ih);
    let a = scale_in(room(cols, 10), wide);
    let b = scale_in(room(rows, 3), high);
    lemma_scale_in(room(cols, 10) as nat, wide);
    lemma_scale_in(room(rows, 3) as nat, high);
    lemma_scale_in_forms(room(cols, 10) as nat, wide);
    lemma_scale_in_forms(room(rows, 3) as nat, high);
    single::lemma_less_is_by_value(b, a);
    if iw <= room(cols, 10) && ih <= 2 * room(rows, 3) {
        lemma_fits(room(cols, 10) as nat, wide, iw as nat, 2);
        lemma_fits(room(rows, 3) as nat, high, ih as nat, 1);
    }
    if by == one() {
        single::lemma_less_is_by_value(a, b);
        single::lemma_value_tells_apart(a, one());
        single::lemma_value_tells_apart(b, one());
        lemma_small_enough(room(cols, 10) as nat, wide, iw, 2);
        lemma_small_enough(room(rows, 3) as nat, high, ih, 1);
        let u = single::unit();
        assert(2 * single::value(wide) == (2 * iw) * u) by (nonlinear_arith)
            requires
                single::value(wide) == iw * u,
        ;
        lemma_scaled_by_one(wide, (2 * iw) as nat);
        lemma_scaled_by_one(high, ih as nat);
    } else if by == a {
        lemma_scaled_fills(wide, room(cols, 10) as nat, by);
    } else {
        lemma_scaled_fills(high, room(rows, 3) as nat, by);
    }
}

/// What fits the room is not scaled in that direction.
proof fn lemma_fits(room: nat, cells: Single, n: nat, halves: nat)
    requires
        0 < room <= 0xffff,
        0 < n,
        halves == 1 || halves == 2,
        n * halves <= 2 * room,
        cells.wf(),
        cells.mant > 0,
        -30 <= cells.exp <= 10,
        2 * single::value(cells) == halves * single::value(single::rounded(n, 0)),
    ensures
        scale_in(room as int, cells) == one(),
{
    lemma_one();
    let r = single::rounded(room, 0);
    lemma_from_u32(room as u32);
    single::lemma_whole_value(room);
    single::lemma_whole_value(n);
    let u = single::unit();
    let v = single::value(cells);
    assert(v <= room * u) by (nonlinear_arith)
        requires
            2 * v == halves * (n * u),
            n * halves <= 2 * room,
            u >= 0,
    ;
    single::lemma_quotient_at_least_one(r, cells, one());
    let q = single::quotient(r, cells);
    single::lemma_quotient(r, cells);
    single::lemma_less_is_by_value(one(), q);
    if !single::less(one(), q) {
        single::lemma_value_tells_apart(q, one());
    }
}

/// Scaled cells come out within one cell of the exact fraction of the image.
proof fn lemma_scaled_near(cells: Single, halves: nat, by: Single)
    requires
        cells.wf(),
        -30 <= cells.exp <= 10,
        by.wf(),
        -60 <= by.exp <= -23,
        2 * single::value(cells) * 0x100_0000 <= halves * single::unit() * 0x100_0001,
        2 * single::value(cells) * 0x100_0000 >= halves * single::unit() * 0xff_ffff,
        scaled(cells, by) <= 0xffff,
    ensures
        2 * scaled(cells, by) * single::unit() <= halves * single::value(by) + 2 * single::unit(),
        2 * scaled(cells, by) * single::unit() + 2 * single::unit() >= halves * single::value(by),
{
    let p = single::product(cells, by);
    single::lemma_product(cells, by);
    single::lemma_product_close(cells, by);
    let u = single::unit();
    vstd::arithmetic::power2::lemma_pow2_pos(500);
    let vp = single::value(p);
    let vc = single::value(cells);
    let vb = single::value(by);
    let x = halves * vb;
    let n = single::nearest_int(p);
    // The product, against the exact fraction.
    assert(2 * vp * 0x1_0000_0000_0000 <= x * 0x1_0000_0200_0001) by (nonlinear_arith)
        requires
            vp * u * 0x100_0000 <= vc * vb * 0x100_0001,
            2 * vc * 0x100_0000 <= halves * u * 0x100_0001,
            x == halves * vb,
            vb >= 0,
            u > 0,
    {
        assert(2 * vp * u * 0x1_0000_0000_0000 <= 2 * vc * vb * 0x100_0001 * 0x100_0000);
        assert(2 * vc * 0x100_0000 * (vb * 0x100_0001) <= halves * u * 0x100_0001 * (vb
            * 0x100_0001));
        assert(2 * vp * u * 0x1_0000_0000_0000 <= x * u * 0x1_0000_0200_0001);
    }
    assert(2 * vp * 0x1_0000_0000_0000 >= x * 0xffff_fe00_0001) by (nonlinear_arith)
        requires
            vp * u * 0x100_0000 >= vc * vb * 0xff_ffff,
            2 * vc * 0x100_0000 >= halves * u * 0xff_ffff,
            x == halves * vb,
            vb >= 0,
            u > 0,
    {
        assert(2 * vp * u * 0x1_0000_0000_0000 >= 2 * vc * vb * 0xff_ffff * 0x100_0000);
        assert(2 * vc * 0x100_0000 * (vb * 0xff_ffff) >= halves * u * 0xff_ffff * (vb * 0xff_ffff));
        assert(2 * vp * u * 0x1_0000_0000_0000 >= x * u * 0xffff_fe00_0001);
    }
    // The nearest integer, against the product.
    let nu = n * u;
    assert(nu <= 0xffff * u && 2 * (n + 1) * u == 2 * nu + 2 * u && (2 * n + 1) * u == 2 * nu + u
        && (2 * (n - 1) + 1) * u == 2 * nu - u && 2 * n * u == 2 * nu) by (nonlinear_arith)
        requires
            nu == n * u,
            n <= 0xffff,
            u > 0,
    ;
    if 2 * vp >= 2 * nu + u {
        single::lemma_nearest_int_lower(p, n + 1);
    }
    if n > 0 && 2 * vp + u < 2 * nu {
        single::lemma_nearest_int_upper(p, (n - 1) as nat);
    }
    let k = scaled(cells, by);
    if n == 0 {
        assert(2 * k * u == 2 * u) by (nonlinear_arith)
            requires
                k == 1,
        ;
    } else {
        assert(2 * k * u == 2 * nu) by (nonlinear_arith)
            requires
                k == n,
                nu == n * u,
        ;
    }
}

/// The aspect ratio is kept: both directions are scaled by the same amount, each to within one
/// cell. A cell is as wide as a pixel and as high as two.
pub proof fn fit_keeps_the_aspect_ratio(cols: u16, rows: u16, iw: u32, ih: u32)
    requires
        iw > 0,
        ih > 0,
    ensures
        ({
            let w = scaled(cells_wide(iw), scale(cols, rows, iw, ih));
            let h = scaled(cells_high(ih), scale(cols, rows, iw, ih));
            -(ih + 2 * iw) <= w * ih - 2 * h * iw <= ih + 2 * iw
        }),
{
    fit_stays_within_the_room(cols, rows, iw, ih);
    lemma_from_u32(iw);
    lemma_from_u32(ih);
    lemma_scale(cols, rows, iw, ih);
    lemma_halved(ih);
    single::lemma_rounded_close(iw as nat);
    single::lemma_rounded_close(ih as nat);
    let by = scale(cols, rows, iw, ih);
    let wide = cells_wide(iw);
    let high = cells_high(ih);
    let u = single::unit();
    vstd::arithmetic::power2::lemma_pow2_pos(500);
    let vw = single::value(wide);
    assert(2 * vw * 0x100_0000 <= (2 * iw) as nat * u * 0x100_0001 && 2 * vw * 0x100_0000 >= (2
        * iw) as nat * u * 0xff_ffff) by (nonlinear_arith)
        requires
            vw * 0x100_0000 <= iw * u * 0x100_0001,
            vw * 0x100_0000 >= iw * u * 0xff_ffff,
    ;
    lemma_scaled_near(wide, (2 * iw) as nat, by);
    lemma_scaled_near(high, ih as nat, by);
    let w = scaled(wide, by);
    let h = scaled(high, by);
    let s = single::value(by);
    let gap = w * ih - 2 * h * iw;
    assert(-(ih + 2 * iw) <= gap <= ih + 2 * iw) by (nonlinear_arith)
        requires
            gap == w * ih - 2 * h * iw,
            2 * w * u <= (2 * iw) * s + 2 * u,
            2 * w * u + 2 * u >= (2 * iw) * s,
            2 * h * u <= ih * s + 2 * u,
            2 * h * u + 2 * u >= ih * s,
            iw > 0,
            ih > 0,
            u > 0,
    {
        let a = w * u - iw * s;
        let b = 2 * h * u - ih * s;
        assert(-u <= a <= u);
        assert(-2 * u <= b <= 2 * u);
        assert(gap * u == ih * a - iw * b);
        assert(-(ih * u) <= ih * a <= ih * u);
        assert(-(2 * iw * u) <= iw * b <= 2 * iw * u);
        assert(gap * u <= (ih + 2 * iw) * u);
        assert(gap * u >= -(ih + 2 * iw) * u);
    }
}

// ── Laws of the picture ───────────────────────────────────────────────

/// There are ten shades, from a blank to the densest sign, and no two look alike.
pub proof fn shades_differ(i: nat, j: nat)
    ensures
        i < 10 ==> ramp(i) == " .:-=+*#%@"@[i as int],
        i < j < 10 ==> ramp(i) != ramp(j),
{
    reveal_strlit(" .:-=+*#%@");
}

/// The art reads like the picture: cell `x` of row `y` stands at its place in the text, row by row
/// from the top and from left to right, and each row ends with a line feed.
pub proof fn cells_stand_in_their_place(img: Picture, out_w: nat, out_h: nat, x: int, y: int)
    requires
        img.width > 0,
        img.height > 0,
        0 <= x < out_w,
        0 <= y < out_h,
    ensures
        ascii(img, out_w, out_h).len() > y * (out_w + 1) + out_w,
        ascii(img, out_w, out_h)[y * (out_w + 1) + x] == cell(img, x as nat, y as nat, out_w, out_h),
        ascii(img, out_w, out_h)[y * (out_w + 1) + out_w] == '\n',
{
    lemma_rows_place(img, out_h, out_w, out_h, x, y);
}

proof fn lemma_rows_place(img: Picture, n: nat, out_w: nat, out_h: nat, x: int, y: int)
    requires
        0 <= x < out_w,
        0 <= y < n,
    ensures
        0 <= y * (out_w + 1),
        rows_prefix(img, n, out_w, out_h).len() > y * (out_w + 1) + out_w,
        rows_prefix(img, n, out_w, out_h)[y * (out_w + 1) + x] == cell(
            img,
            x as nat,
            y as nat,
            out_w,
            out_h,
        ),
        rows_prefix(img, n, out_w, out_h)[y * (out_w + 1) + out_w] == '\n',
    decreases n,
{
    let m = (n - 1) as nat;
    let before = rows_prefix(img, m, out_w, out_h);
    lemma_rows_len(img, m, out_w, out_h);
    lemma_rows_len(img, n, out_w, out_h);
    assert(0 <= y * (out_w + 1)) by (nonlinear_arith)
        requires
            0 <= y,
    ;
    assert(n * (out_w + 1) == m * (out_w + 1) + (out_w + 1)) by (nonlinear_arith)
        requires
            n == m + 1,
    ;
    if y < m {
        lemma_rows_place(img, m, out_w, out_h, x, y);
    } else {
        let row = row_prefix(img, m, out_w, out_w, out_h).push('\n');
        assert(rows_prefix(img, n, out_w, out_h) == before + row);
        assert(row[x] == cell(img, x as nat, m, out_w, out_h));
    }
}

/// The pixel at column `x` and row `y` of a picture: its four bytes.
pub open spec fn pixel(img: Picture, x: int, y: int) -> Seq<u8> {
    img.pixels.subrange(4 * (y * img.width + x), 4 * (y * img.width + x) + 4)
}

/// Columns of the picture become columns of the art, and rows rows: where all rows of a picture
/// are alike, so are those of the art, and where all columns are, each row is of one shade.
pub proof fn art_lies_like_the_picture(img: Picture, out_w: nat, out_h: nat, x: nat, y: nat, other: nat)
    requires
        img.width > 0,
        img.height > 0,
        img.pixels.len() >= 4 * img.width * img.height,
    ensures
        (forall|a: int, b: int, c: int|
            0 <= a < img.width && 0 <= b < img.height && 0 <= c < img.height ==> #[trigger] pixel(
                img,
                a,
                b,
            ) == #[trigger] pixel(img, a, c)) ==> cell(img, x, y, out_w, out_h) == cell(
            img,
            x,
            other,
            out_w,
            out_h,
        ),
        (forall|a: int, b: int, c: int|
            0 <= a < img.width && 0 <= c < img.width && 0 <= b < img.height ==> #[trigger] pixel(
                img,
                a,
                b,
            ) == #[trigger] pixel(img, c, b)) ==> cell(img, x, y, out_w, out_h) == cell(
            img,
            other,
            y,
            out_w,
            out_h,
        ),
{
    let sx = sample(x, out_w, img.width);
    let sy = sample(y, out_h, img.height);
    let tx = sample(other, out_w, img.width);
    let ty = sample(other, out_h, img.height);
    lemma_sample_in_range(x, out_w, img.width);
    lemma_sample_in_range(y, out_h, img.height);
    lemma_sample_in_range(other, out_w, img.width);
    lemma_sample_in_range(other, out_h, img.height);
    lemma_cell_is_pixel(img, x, y, out_w, out_h);
    lemma_cell_is_pixel(img, x, other, out_w, out_h);
    lemma_cell_is_pixel(img, other, y, out_w, out_h);
    if forall|a: int, b: int, c: int|
        0 <= a < img.width && 0 <= b < img.height && 0 <= c < img.height ==> #[trigger] pixel(
            img,
            a,
            b,
        ) == #[trigger] pixel(img, a, c) {
        assert(pixel(img, sx, sy) == pixel(img, sx, ty));
    }
    if forall|a: int, b: int, c: int|
        0 <= a < img.width && 0 <= c < img.width && 0 <= b < img.height ==> #[trigger] pixel(
            img,
            a,
            b,
        ) == #[trigger] pixel(img, c, b) {
        assert(pixel(img, sx, sy) == pixel(img, tx, sy));
    }
}

proof fn lemma_sample_in_range(i: nat, out: nat, size: nat)
    requires
        size > 0,
    ensures
        0 <= sample(i, out, size) < size,
{
}

proof fn lemma_pixel_bytes(img: Picture, x: int, y: int)
    requires
        0 <= x < img.width,
        0 <= y < img.height,
        img.pixels.len() >= 4 * img.width * img.height,
    ensures
        ({
            let at = 4 * (y * img.width + x);
            let p = pixel(img, x, y);
            &&& p[0] == img.pixels[at]
            &&& p[1] == img.pixels[at + 1]
            &&& p[2] == img.pixels[at + 2]
            &&& p[3] == img.pixels[at + 3]
        }),
{
    lemma_pixel_in_image(x, y, img.width as int, img.height as int);
}

proof fn lemma_cell_is_pixel(img: Picture, x: nat, y: nat, out_w: nat, out_h: nat)
    requires
        img.width > 0,
        img.height > 0,
        img.pixels.len() >= 4 * img.width * img.height,
    ensures
        ({
            let p = pixel(
                img,
                sample(x, out_w, img.width),
                sample(y, out_h, img.height),
            );
            cell(img, x, y, out_w, out_h) == shade(p[0], p[1], p[2], p[3])
        }),
{
    lemma_sample_in_range(x, out_w, img.width);
    lemma_sample_in_range(y, out_h, img.height);
    lemma_pixel_bytes(img, sample(x, out_w, img.width), sample(y, out_h, img.height));
}

/// The room for an image is four fifths of the terminal's cells, rounded down, or the least that is
/// given where that is more.
pub proof fn room_is_four_fifths(cells: u16, least: int)
    ensures
        room(cells, least) >= least,
        room(cells, least) > least ==> 5 * room(cells, least) <= 4 * cells,
        5 * (room(cells, least) + 1) > 4 * cells,
{
}

/// Of pixels of one pure colour green is the brightest and blue the darkest.
pub proof fn green_counts_most(n: u8)
    requires
        n > 0,
    ensures
        single::value(brightness(0, n, 0)) > single::value(brightness(n, 0, 0)),
        single::value(brightness(n, 0, 0)) > single::value(brightness(0, 0, n)),
{
    let s = single::rounded(n as nat, 0);
    lemma_byte(n);
    lemma_from_u32(n as u32);
    let dark = single::zero();
    assert(single::rounded(0, 0) == dark);
    single::lemma_product(red_weight(), dark);
    single::lemma_product(green_weight(), dark);
    single::lemma_product(blue_weight(), dark);
    single::lemma_product(red_weight(), s);
    single::lemma_product(green_weight(), s);
    assert(brightness(n, 0, 0) == single::product(red_weight(), s));
    assert(brightness(0, n, 0) == single::product(green_weight(), s));
    assert(brightness(0, 0, n) == single::product(blue_weight(), s));
    lemma_brighter(green_weight(), red_weight(), s);
    lemma_brighter(red_weight(), blue_weight(), s);
}

proof fn lemma_brighter(a: Single, b: Single, s: Single)
    requires
        a == green_weight() && b == red_weight() || a == red_weight() && b == blue_weight(),
        s.wf(),
        s.mant > 0,
        -23 <= s.exp <= -15,
    ensures
        single::value(single::product(a, s)) > single::value(single::product(b, s)),
{
    single::lemma_product_close(a, s);
    single::lemma_product_close(b, s);
    let va = single::value(a);
    let vb = single::value(b);
    let vs = single::value(s);
    let pa = single::value(single::product(a, s));
    let pb = single::value(single::product(b, s));
    let u = single::unit();
    vstd::arithmetic::power2::lemma_pow2_pos(500);
    vstd::arithmetic::power2::lemma_pow2_pos((s.exp + 500) as nat);
    assert(vs > 0) by (nonlinear_arith)
        requires
            vs == s.mant as nat * vstd::arithmetic::power2::pow2((s.exp + 500) as nat),
            s.mant > 0,
            vstd::arithmetic::power2::pow2((s.exp + 500) as nat) > 0,
    ;
    let p = vstd::arithmetic::power2::pow2(473);
    vstd::arithmetic::power2::lemma_pow2_pos(473);
    vstd::arithmetic::power2::lemma_pow2_unfold(474);
    vstd::arithmetic::power2::lemma_pow2_unfold(475);
    vstd::arithmetic::power2::lemma_pow2_unfold(476);
    let green = 0xb71759 * (8 * p);
    let red = 0xd9b3d0 * (2 * p);
    let blue = 0x93dd98 * p;
    assert(green * 0xff_ffff > red * 0x100_0001 && red * 0xff_ffff > blue * 0x100_0001);
    assert(va * 0xff_ffff > vb * 0x100_0001);
    assert(va * vs * 0xff_ffff > vb * vs * 0x100_0001) by (nonlinear_arith)
        requires
            va * 0xff_ffff > vb * 0x100_0001,
            vs > 0,
    ;
    assert(pa * u * 0x100_0000 > pb * u * 0x100_0000);
    assert(pa > pb) by (nonlinear_arith)
        requires
            pa * u * 0x100_0000 > pb * u * 0x100_0000,
            u > 0,
    ;
}

/// The middle of a cell is half a cell behind its beginning.
proof fn lemma_middle(i: nat)
    requires
        i <= 0xffff,
    ensures
        ({
            let m = single::sum(single::rounded(i, 0), half());
            &&& m.wf()
            &&& m.mant > 0
            &&& -24 <= m.exp <= 10
            &&& 2 * single::value(m) == (2 * i + 1) * single::unit()
        }),
{
    let c = 2 * i + 1;
    let w = single::rounded(c, 0);
    let h = single::rounded(c, -1);
    let m = single::sum(single::rounded(i, 0), half());
    single::lemma_whole_value(c);
    single::lemma_bit_len(c);
    lemma_from_u32(c as u32);
    vstd::arithmetic::power2::lemma2_to64();
    let k = single::bit_len(c);
    if k > 18 {
        vstd::arithmetic::power2::lemma_pow2_strictly_increases(17, (k - 1) as nat);
    }
    assert(h.mant == w.mant && h.exp == w.exp - 1);
    vstd::arithmetic::power2::lemma_pow2_unfold((w.exp + 500) as nat);
    let p = vstd::arithmetic::power2::pow2((h.exp + 500) as nat);
    assert(2 * single::value(h) == single::value(w)) by (nonlinear_arith)
        requires
            single::value(h) == h.mant as nat * p,
            single::value(w) == h.mant as nat * (2 * p),
    ;
    if i == 0 {
        assert(single::bit_len(1) == 1) by {
            assert(single::bit_len(0) == 0);
        }
        assert(m == half());
        assert(h == half());
    } else {
        let a = single::rounded(i, 0);
        single::lemma_whole_value(i);
        lemma_from_u32(i as u32);
        let x = vstd::arithmetic::power2::pow2((a.exp + 24) as nat);
        let z = vstd::arithmetic::power2::pow2(476);
        vstd::arithmetic::power2::lemma_pow2_pos(476);
        vstd::arithmetic::power2::lemma_pow2_adds((a.exp + 24) as nat, 476);
        vstd::arithmetic::power2::lemma_pow2_adds(24, 476);
        let am = a.mant as nat;
        assert(am * x == i * 0x100_0000) by (nonlinear_arith)
            requires
                am * (x * z) == i * (0x100_0000 * z),
                z > 0,
        ;
        assert(m == single::rounded(am * x + 0x80_0000, -24));
        assert(am * x + 0x80_0000 == c * 0x80_0000);
        single::lemma_rounded_shift(c, 23, -24);
    }
}

/// A cell shows the pixel under its middle: its place in the picture is to its place in the art as
/// the picture is to the art, but for what single precision rounds, which is less than a fiftieth
/// of a pixel.
pub proof fn cells_show_what_lies_under_them(i: nat, out: nat, size: nat)
    requires
        i < out <= 0xffff,
        0 < size <= 0xffff,
    ensures
        ({
            let at = sample(i, out, size);
            &&& 0 <= at < size
            &&& 50 * at * (2 * out) <= 50 * ((2 * i + 1) * size) + 2 * out
            &&& at == size - 1 || 50 * (at + 1) * (2 * out) > 50 * ((2 * i + 1) * size) - 2 * out
        }),
{
    lemma_sample_in_range(i, out, size);
    lemma_middle(i);
    let u = single::unit();
    vstd::arithmetic::power2::lemma_pow2_pos(500);
    let middle = single::sum(single::rounded(i, 0), half());
    let o = single::rounded(out, 0);
    let s = single::rounded(size, 0);
    let e = single::rounded((size - 1) as nat, 0);
    single::lemma_whole_value(out);
    single::lemma_whole_value(size);
    single::lemma_whole_value((size - 1) as nat);
    lemma_from_u32(out as u32);
    lemma_from_u32(size as u32);
    lemma_from_u32((size - 1) as u32);
    let q = single::quotient(middle, o);
    single::lemma_quotient(middle, o);
    single::lemma_quotient_close(middle, o);
    let p = single::product(q, s);
    single::lemma_product(q, s);
    single::lemma_product_close(q, s);
    let vq = single::value(q);
    let vp = single::value(p);
    lemma_scaled_middle(i, out, size, single::value(middle), vq, vp, u);
    let capped = single::smaller(p, e);
    single::lemma_less_is_by_value(e, p);
    let vc = single::value(capped);
    assert(vc <= (size - 1) * u && vc <= vp && (vc == vp || vc == (size - 1) * u));
    assert((size - 1) * u < 0x1_0000_0000 * u) by (nonlinear_arith)
        requires
            size <= 0xffff,
            u > 0,
    ;
    single::lemma_whole_part(capped);
    let n = single::whole_part(capped);
    assert(n <= size - 1) by (nonlinear_arith)
        requires
            n * u <= vc,
            vc <= (size - 1) * u,
            u > 0,
    ;
    let x = (2 * i + 1) * size;
    let d = 2 * out;
    assert(50 * n * d <= 50 * x + d) by (nonlinear_arith)
        requires
            n * u <= vp,
            50 * vp * d <= (50 * x + d) * u,
            u > 0,
            d > 0,
    ;
    if vc == vp {
        assert(50 * (n + 1) * d > 50 * x - d) by (nonlinear_arith)
            requires
                vp < (n + 1) * u,
                50 * vp * d >= (50 * x - d) * u,
                u > 0,
                d > 0,
        ;
    } else {
        assert(n == size - 1) by (nonlinear_arith)
            requires
                n <= size - 1,
                (size - 1) * u < (n + 1) * u,
                u > 0,
        ;
    }
}

proof fn lemma_scaled_middle(i: nat, out: nat, size: nat, vm: nat, vq: nat, vp: nat, u: nat)
    requires
        i < out <= 0xffff,
        0 < size <= 0xffff,
        u > 0,
        2 * vm == (2 * i + 1) * u,
        vq * (out * u) * 0x100_0000 <= vm * u * 0x100_0001,
        vq * (out * u) * 0x100_0000 >= vm * u * 0xff_ffff,
        vp * u * 0x100_0000 <= vq * (size * u) * 0x100_0001,
        vp * u * 0x100_0000 >= vq * (size * u) * 0xff_ffff,
    ensures
        50 * vp * (2 * out) <= (50 * ((2 * i + 1) * size) + 2 * out) * u,
        50 * vp * (2 * out) >= (50 * ((2 * i + 1) * size) - 2 * out) * u,
{
    let l: int = 0x100_0000;
    let x = (2 * i + 1) * size;
    let d = 2 * out;
    assert(vq * out * l <= vm * (l + 1) && vq * out * l >= vm * (l - 1)) by (nonlinear_arith)
        requires
            vq * (out * u) * 0x100_0000 <= vm * u * 0x100_0001,
            vq * (out * u) * 0x100_0000 >= vm * u * 0xff_ffff,
            u > 0,
            l == 0x100_0000,
    ;
    assert(vp * l <= vq * size * (l + 1) && vp * l >= vq * size * (l - 1)) by (nonlinear_arith)
        requires
            vp * u * 0x100_0000 <= vq * (size * u) * 0x100_0001,
            vp * u * 0x100_0000 >= vq * (size * u) * 0xff_ffff,
            u > 0,
            l == 0x100_0000,
    ;
    let g = vq * d * l;
    assert(g <= (2 * i + 1) * u * (l + 1) && g >= (2 * i + 1) * u * (l - 1)) by (nonlinear_arith)
        requires
            g == vq * d * l,
            d == 2 * out,
            vq * out * l <= vm * (l + 1),
            vq * out * l >= vm * (l - 1),
            2 * vm == (2 * i + 1) * u,
    ;
    let t = vp * d * l;
    assert(t * l <= g * size * (l + 1) && t * l >= g * size * (l - 1)) by (nonlinear_arith)
        requires
            t == vp * d * l,
            g == vq * d * l,
            vp * l <= vq * size * (l + 1),
            vp * l >= vq * size * (l - 1),
            d >= 0,
            l > 0,
    ;
    let y = x * u;
    assert(g * size * (l + 1) <= y * (l + 1) * (l + 1) && g * size * (l - 1) >= y * (l - 1) * (l
        - 1)) by (nonlinear_arith)
        requires
            g <= (2 * i + 1) * u * (l + 1),
            g >= (2 * i + 1) * u * (l - 1),
            y == (2 * i + 1) * size * u,
            size > 0,
            l == 0x100_0000,
    ;
    assert(x <= d * 0xffff) by (nonlinear_arith)
        requires
            x == (2 * i + 1) * size,
            2 * i + 1 <= d,
            size <= 0xffff,
    ;
    let du = d * u;
    assert(y <= du * 0xffff) by (nonlinear_arith)
        requires
            y == x * u,
            du == d * u,
            x <= d * 0xffff,
            u > 0,
    ;
    let v = vp * d;
    assert(t * l == v * (l * l)) by (nonlinear_arith)
        requires
            t == vp * d * l,
            v == vp * d,
    ;
    assert(y * (l + 1) * (l + 1) == y * (l * l) + y * (2 * l + 1)) by (nonlinear_arith);
    assert(y * (l - 1) * (l - 1) == y * (l * l) - y * (2 * l - 1)) by (nonlinear_arith);
    assert(v * 0x1_0000_0000_0000 <= y * 0x1_0000_0000_0000 + y * 0x200_0001);
    assert(v * 0x1_0000_0000_0000 >= y * 0x1_0000_0000_0000 - y * 0x1ff_ffff);
    assert(50 * v <= 50 * y + du);
    assert(50 * v >= 50 * y - du);
    assert((50 * x + d) * u == 50 * y + du) by (nonlinear_arith)
        requires
            y == x * u,
            du == d * u,
    ;
    assert((50 * x - d) * u == 50 * y - du) by (nonlinear_arith)
        requires
            y == x * u,
            du == d * u,
    ;
    assert(50 * vp * (2 * out) == 50 * v) by (nonlinear_arith)
        requires
            v == vp * d,
            d == 2 * out,
    ;
}

/// At its own size every pixel of a picture has a cell of its own.
pub proof fn own_size_shows_every_pixel(i: nat, n: nat)
    requires
        i < n <= 0xffff,
    ensures
        sample(i, n, n) == i,
{
    cells_show_what_lies_under_them(i, n, n);
    let at = sample(i, n, n);
    assert(at <= i) by (nonlinear_arith)
        requires
            50 * at * (2 * n) <= 50 * ((2 * i + 1) * n) + 2 * n,
            n > 0,
    ;
    if at != n - 1 {
        assert(at >= i) by (nonlinear_arith)
            requires
                50 * (at + 1) * (2 * n) > 50 * ((2 * i + 1) * n) - 2 * n,
                n > 0,
        ;
    }
}

/// At its own size a picture comes out pixel by pixel: each at its own place, shaded by its own
/// colour.
pub proof fn own_size_art_is_the_picture(img: Picture, x: int, y: int)
    requires
        0 <= x < img.width <= 0xffff,
        0 <= y < img.height <= 0xffff,
        img.pixels.len() >= 4 * img.width * img.height,
    ensures
        ({
            let p = pixel(img, x, y);
            ascii(img, img.width, img.height)[y * (img.width + 1) + x] == shade(
                p[0],
                p[1],
                p[2],
                p[3],
            )
        }),
{
    cells_stand_in_their_place(img, img.width, img.height, x, y);
    own_size_shows_every_pixel(x as nat, img.width);
    own_size_shows_every_pixel(y as nat, img.height);
    lemma_cell_is_pixel(img, x as nat, y as nat, img.width, img.height);
}

/// Black shows as a blank, however opaque it is.
pub proof fn black_is_blank(a: u8)
    ensures
        shade(0, 0, 0, a) == ' ',
{
    let dark = single::zero();
    assert(single::rounded(0, 0) == dark);
    single::lemma_product(red_weight(), dark);
    single::lemma_product(green_weight(), dark);
    single::lemma_product(blue_weight(), dark);
    assert(brightness(0, 0, 0) == dark);
    lemma_from_u32(9);
    single::lemma_product(dark, single::rounded(9, 0));
    vstd::arithmetic::power2::lemma2_to64();
}

} // verus!
