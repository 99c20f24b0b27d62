use vstd::prelude::*;
use crate::pixel::{Color, color_code, color_of_code, lemma_color_code_round_trip};
use crate::grid::{Grid, GridMode, extent};

verus! {

/// The five bytes every `.TIF` image starts with: ".TIF ".
pub open spec fn tif_magic() -> Seq<u8> {
    seq![46u8, 84u8, 73u8, 70u8, 32u8]
}

/// How many pixels from position `i` on have the color of `s[i]` without a break
/// (0 when `i` is outside `s`).
pub open spec fn run_len_at(s: Seq<Color>, i: int) -> nat
    decreases s.len() - i,
{
    if i < 0 || i >= s.len() {
        0
    } else if i + 1 < s.len() && s[i + 1] == s[i] {
        1 + run_len_at(s, i + 1)
    } else {
        1
    }
}

/// The length of the run written for position `i`: the run, cut at 255.
pub open spec fn chunk_len_at(s: Seq<Color>, i: int) -> nat {
    if run_len_at(s, i) < 255 {
        run_len_at(s, i)
    } else {
        255
    }
}

/// Run-length code of `s` from position `i` on: for each run of one color,
/// cut into pieces of at most 255 pixels, the color's byte then the piece's length.
pub open spec fn enc_from(s: Seq<Color>, i: int) -> Seq<u8>
    decreases s.len() - i,
{
    if i < 0 || i >= s.len() {
        seq![]
    } else {
        proof {
            lemma_run_same(s, i);
        }
        seq![color_code(s[i]), chunk_len_at(s, i) as u8] + enc_from(s, i + chunk_len_at(s, i))
    }
}

/// Run-length code of a whole pixel sequence.
pub open spec fn rle_encode(s: Seq<Color>) -> Seq<u8> {
    enc_from(s, 0)
}

/// Pixels that a run-length code stands for: each pair of bytes is a color
/// byte and a count; a lone last byte serves as both.
pub open spec fn rle_decode(d: Seq<u8>) -> Seq<Color>
    decreases d.len(),
{
    if d.len() == 0 {
        seq![]
    } else if d.len() == 1 {
        Seq::new(d[0] as nat, |k: int| color_of_code(d[0]))
    } else {
        Seq::new(d[1] as nat, |k: int| color_of_code(d[0])) + rle_decode(d.skip(2))
    }
}

/// Cuts `px` into rows of `w` pixels (the last one shorter if `w` does not divide).
pub open spec fn chunk_rows(px: Seq<Color>, w: int) -> Seq<Seq<Color>>
    decreases px.len(),
{
    if w <= 0 || px.len() == 0 {
        seq![]
    } else if px.len() <= w {
        seq![px]
    } else {
        seq![px.take(w)].add(chunk_rows(px.skip(w), w))
    }
}

/// The header written for an image: the magic then the width as one byte.
pub open spec fn tif_header(width: i16) -> Seq<u8> {
    tif_magic().push(width as u8)
}

/// The pixels, row after row.
pub open spec fn flat_colors(g: &Grid) -> Seq<Color> {
    g.color_rows().flatten()
}

/// The complete `.TIF` bytes of an image.
pub open spec fn tif_bytes_of(g: &Grid) -> Seq<u8> {
    tif_header(g.width) + rle_encode(flat_colors(g))
}

/// The pixels a `.TIF` file lists after its header.
pub open spec fn tif_pixels(bytes: Seq<u8>) -> Seq<Color> {
    rle_decode(bytes.skip(6))
}

/// The width byte of a `.TIF` file.
pub open spec fn tif_width(bytes: Seq<u8>) -> u8 {
    bytes[5]
}

/// The number of rows a `.TIF` file holds.
pub open spec fn tif_height(bytes: Seq<u8>) -> int {
    (tif_pixels(bytes).len() as int) / (tif_width(bytes) as int)
}

/// The bytes can be read as an image: the magic, a nonzero width, whole rows,
/// and no more rows than an `i16` counts.
pub open spec fn tif_loadable(bytes: Seq<u8>) -> bool {
    &&& bytes.len() >= 6
    &&& bytes.take(5) == tif_magic()
    &&& tif_width(bytes) > 0
    &&& (tif_pixels(bytes).len() as int) % (tif_width(bytes) as int) == 0
    &&& tif_height(bytes) <= i16::MAX
}

/// The image's rows as read from `.TIF` bytes.
pub open spec fn tif_rows(bytes: Seq<u8>) -> Seq<Seq<Color>> {
    chunk_rows(tif_pixels(bytes), tif_width(bytes) as int)
}

// ---------------------------------------------------------------- lemmas

/// A run starting at `i` lies inside `s` and has one color.
pub proof fn lemma_run_same(s: Seq<Color>, i: int)
    requires
        0 <= i < s.len(),
    ensures
        1 <= run_len_at(s, i),
        i + run_len_at(s, i) <= s.len(),
        forall|t: int| i <= t < i + run_len_at(s, i) ==> s[t] == s[i],
    decreases s.len() - i,
{
    if i + 1 < s.len() && s[i + 1] == s[i] {
        lemma_run_same(s, i + 1);
    }
}

/// A stretch `[b, k)` of one color that stops at `k` (end or color change) is the whole run at `b`.
pub proof fn lemma_run_exact(s: Seq<Color>, b: int, k: int)
    requires
        0 <= b < k <= s.len(),
        forall|t: int| b <= t < k ==> s[t] == s[b],
        k == s.len() || s[k] != s[b],
    ensures
        run_len_at(s, b) == k - b,
    decreases k - b,
{
    if b + 1 < k {
        lemma_run_exact(s, b + 1, k);
    }
}

/// A stretch `[b, b + m)` of one color is at most the run at `b`.
pub proof fn lemma_run_at_least(s: Seq<Color>, b: int, m: int)
    requires
        0 <= b,
        1 <= m,
        b + m <= s.len(),
        forall|t: int| b <= t < b + m ==> s[t] == s[b],
    ensures
        run_len_at(s, b) >= m,
    decreases m,
{
    if m > 1 {
        lemma_run_at_least(s, b + 1, m - 1);
    }
}

/// Decoding the code of `s` from `i` on gives back `s` from `i` on.
pub proof fn lemma_decode_enc_from(s: Seq<Color>, i: int)
    requires
        0 <= i <= s.len(),
    ensures
        rle_decode(enc_from(s, i)) == s.skip(i),
    decreases s.len() - i,
{
    if i == s.len() {
        assert(s.skip(i) =~= seq![]);
    } else {
        lemma_run_same(s, i);
        let n = chunk_len_at(s, i);
        let rest = enc_from(s, i + n);
        let d = enc_from(s, i);
        assert(d == seq![color_code(s[i]), n as u8] + rest);
        lemma_decode_enc_from(s, i + n);
        assert(d.skip(2) =~= rest);
        lemma_color_code_round_trip(s[i]);
        let head = Seq::new(n, |k: int| color_of_code(color_code(s[i])));
        assert(rle_decode(d) == head + rle_decode(d.skip(2)));
        assert(head =~= s.subrange(i, i + n));
        assert(s.skip(i) =~= s.subrange(i, i + n) + s.skip(i + n));
    }
}

/// Decoding undoes encoding.
pub proof fn lemma_rle_round_trip(s: Seq<Color>)
    ensures
        rle_decode(rle_encode(s)) == s,
{
    lemma_decode_enc_from(s, 0);
    assert(s.skip(0) =~= s);
}

/// Rows of equal width, flattened, have `rows * w` pixels.
pub proof fn lemma_flatten_len(rows: Seq<Seq<Color>>, w: int)
    requires
        0 <= w,
        forall|i: int| 0 <= i < rows.len() ==> (#[trigger] rows[i]).len() == w,
    ensures
        rows.flatten().len() == rows.len() * w,
    decreases rows.len(),
{
    if rows.len() > 0 {
        let rest = rows.drop_first();
        assert forall|i: int| 0 <= i < rest.len() implies (#[trigger] rest[i]).len() == w by {
            assert(rest[i] == rows[i + 1]);
        }
        lemma_flatten_len(rest, w);
        assert(rows.len() * w == w + rest.len() * w) by (nonlinear_arith)
            requires
                rest.len() == rows.len() - 1,
        ;
    }
}

/// Cutting the flattened rows of width `w` gives the rows back.
pub proof fn lemma_chunk_flatten(rows: Seq<Seq<Color>>, w: int)
    requires
        0 < w,
        forall|i: int| 0 <= i < rows.len() ==> (#[trigger] rows[i]).len() == w,
    ensures
        chunk_rows(rows.flatten(), w) == rows,
    decreases rows.len(),
{
    if rows.len() == 0 {
        assert(chunk_rows(rows.flatten(), w) =~= rows);
    } else {
        let rest = rows.drop_first();
        assert forall|i: int| 0 <= i < rest.len() implies (#[trigger] rest[i]).len() == w by {
            assert(rest[i] == rows[i + 1]);
        }
        lemma_chunk_flatten(rest, w);
        let f = rows.flatten();
        assert(f == rows[0] + rest.flatten());
        if rest.len() == 0 {
            assert(rest.flatten() =~= seq![]);
            assert(f =~= rows[0]);
            assert(chunk_rows(f, w) == seq![f]);
            assert(chunk_rows(f, w) =~= rows);
        } else {
            assert(rest[0].len() == w);
            assert(rest.flatten() == rest[0] + rest.drop_first().flatten());
            assert(f.len() > w);
            assert(f.take(w) =~= rows[0]);
            assert(f.skip(w) =~= rest.flatten());
            assert(chunk_rows(f, w) == seq![f.take(w)].add(chunk_rows(f.skip(w), w)));
            assert(chunk_rows(f, w) =~= rows);
        }
    }
}

/// Writing an image as `.TIF` bytes and reading them back gives the same
/// size and the same pixel colors, for every well-formed image whose width
/// fits the one-byte header field (1 to 255) and whose height is not negative.
pub proof fn lemma_tif_round_trip(g: &Grid)
    requires
        g.wf(),
        0 <= g.height,
        1 <= g.width <= 255,
    ensures
        tif_loadable(tif_bytes_of(g)),
        tif_width(tif_bytes_of(g)) as int == g.width,
        tif_height(tif_bytes_of(g)) == g.height,
        tif_rows(tif_bytes_of(g)) == g.color_rows(),
{
    let rows = g.color_rows();
    let w = g.width as int;
    let h = g.height as int;
    assert forall|i: int| 0 <= i < rows.len() implies (#[trigger] rows[i]).len() == w by {
        assert(g.pixel@[i]@.len() == extent(g.width));
    }
    let flat = rows.flatten();
    lemma_flatten_len(rows, w);
    let bytes = tif_bytes_of(g);
    assert(bytes.take(5) =~= tif_magic());
    assert(bytes[5] == g.width as u8);
    assert(bytes.skip(6) =~= rle_encode(flat));
    lemma_rle_round_trip(flat);
    assert(tif_pixels(bytes) == flat);
    assert(flat.len() == h * w);
    vstd::arithmetic::div_mod::lemma_mod_multiples_basic(h, w);
    vstd::arithmetic::div_mod::lemma_div_multiples_vanish(h, w);
    assert(h * w == w * h) by (nonlinear_arith);
    lemma_chunk_flatten(rows, w);
}


/// Cutting `h * w` pixels into rows of `w`: `h` rows, row `r` is pixels `r*w .. r*w + w`.
pub proof fn lemma_chunk_rows_index(px: Seq<Color>, w: int, h: int)
    requires
        0 < w,
        0 <= h,
        px.len() == h * w,
    ensures
        chunk_rows(px, w).len() == h,
        forall|r: int| 0 <= r < h ==> #[trigger] chunk_rows(px, w)[r] == px.subrange(r * w, r * w + w),
    decreases h,
{
    let c = chunk_rows(px, w);
    if h == 0 {
        assert(px.len() == 0) by (nonlinear_arith) requires px.len() == h * w, h == 0;
    } else if h == 1 {
        assert(px.len() == w) by (nonlinear_arith) requires px.len() == h * w, h == 1;
        assert(c == seq![px]);
        assert(px.subrange(0 * w, 0 * w + w) =~= px);
    } else {
        assert(px.len() == w + (h - 1) * w) by (nonlinear_arith) requires px.len() == h * w;
        assert((h - 1) * w >= w) by (nonlinear_arith) requires h >= 2, w > 0;
        let rest = px.skip(w);
        lemma_chunk_rows_index(rest, w, h - 1);
        assert(c == seq![px.take(w)].add(chunk_rows(rest, w)));
        assert forall|r: int| 0 <= r < h implies #[trigger] c[r] == px.subrange(r * w, r * w + w) by {
            if r == 0 {
                assert(c[0] == px.take(w));
                assert(px.take(w) =~= px.subrange(0 * w, 0 * w + w));
            } else {
                let q = r - 1;
                assert(c[r] == chunk_rows(rest, w)[q]);
                assert(chunk_rows(rest, w)[q] == rest.subrange(q * w, q * w + w));
                assert(q * w + w == r * w) by (nonlinear_arith) requires q == r - 1;
                assert(0 <= q * w) by (nonlinear_arith) requires q >= 0, w > 0;
                assert(q * w + w <= (h - 1) * w) by (nonlinear_arith) requires q < h - 1, w > 0;
                assert(rest.subrange(q * w, q * w + w) =~= px.subrange(r * w, r * w + w));
            }
        }
    }
}

// ---------------------------------------------------------------- code

impl Grid {
    /// The six header bytes: ".TIF " then the width as one byte (truncated).
    pub fn get_header(&self) -> (h: Vec<u8>)
        ensures
            h@ == tif_header(self.width),
    {
        let h = vec![0x2eu8, 0x54u8, 0x49u8, 0x46u8, 0x20u8, self.width as u8];
        assert(h@ =~= tif_header(self.width));
        h
    }

    /// Appends the run-length code of the pixels, row after row, to `buffer`.
    pub fn append_pixels(&self, buffer: &mut Vec<u8>)
        requires
            self.wf(),
        ensures
            final(buffer)@ == old(buffer)@ + rle_encode(flat_colors(self)),
    {
        let ghost rows = self.color_rows();
        let ghost s = rows.flatten();
        let ghost start = buffer@;
        let ghost mut k: int = 0;
        let ghost mut b: int = 0;
        let ghost mut done: Seq<u8> = seq![];
        let mut current_color = Color::Black;
        let mut pixels: u8 = 0;
        assert(rows.skip(0) =~= rows);
        assert(s.skip(0) =~= s);
        let mut i: i16 = 0;
        while i < self.height
            invariant
                self.wf(),
                rows == self.color_rows(),
                s == rows.flatten(),
                0 <= i <= extent(self.height),
                0 <= k <= s.len(),
                s.skip(k) == rows.skip(i as int).flatten(),
                buffer@ == start + done,
                done + enc_from(s, b) == enc_from(s, 0),
                b == k - pixels,
                0 <= b <= k,
                pixels <= 254,
                forall|t: int| b <= t < k ==> s[t] == current_color,
            decreases self.height - i,
        {
            assert(rows.skip(i as int).first() == rows[i as int]);
            assert(rows.skip(i as int).drop_first() =~= rows.skip(i + 1));
            assert(rows[i as int].skip(0) =~= rows[i as int]);
            let mut j: i16 = 0;
            while j < self.width
                invariant
                    self.wf(),
                    rows == self.color_rows(),
                    s == rows.flatten(),
                    0 <= i < extent(self.height),
                    0 <= j <= extent(self.width),
                    0 <= k <= s.len(),
                    s.skip(k) == rows[i as int].skip(j as int) + rows.skip(i + 1).flatten(),
                    buffer@ == start + done,
                    done + enc_from(s, b) == enc_from(s, 0),
                    b == k - pixels,
                    0 <= b <= k,
                0 <= b <= k,
                    pixels <= 254,
                    forall|t: int| b <= t < k ==> s[t] == current_color,
                decreases self.width - j,
            {
                let pix = self.get_pixel_at((i, j));
                proof {
                    assert(rows[i as int].len() == extent(self.width));
                    assert(rows[i as int][j as int] == pix.color);
                    assert(s.skip(k).len() > 0);
                    assert(s.skip(k)[0] == s[k]);
                    assert(s[k] == pix.color);
                    let ra = rows[i as int].skip(j as int);
                    let rb = rows.skip(i + 1).flatten();
                    assert(ra.len() > 0);
                    assert(s.skip(k + 1) =~= s.skip(k).skip(1));
                    assert(ra.skip(1) =~= rows[i as int].skip(j + 1));
                    assert((ra + rb).skip(1) =~= ra.skip(1) + rb);
                    assert(s.skip(k + 1) == rows[i as int].skip(j + 1) + rb);
                }
                if pix.color == current_color {
                    pixels = pixels + 1;
                    proof {
                        k = k + 1;
                    }
                    if pixels >= 255 {
                        proof {
                            lemma_run_at_least(s, b, 255);
                            lemma_run_same(s, b);
                            assert(chunk_len_at(s, b) == 255);
                            assert(s[b] == current_color);
                            assert(enc_from(s, b) == seq![color_code(current_color), 255u8] + enc_from(s, k));
                            done = done + seq![color_code(current_color), 255u8];
                            b = k;
                        }
                        buffer.push(current_color.to_tif_color());
                        buffer.push(pixels);
                        pixels = 0;
                    }
                } else {
                    if pixels > 0 {
                        proof {
                            lemma_run_exact(s, b, k);
                            assert(s[b] == current_color);
                            assert(chunk_len_at(s, b) == pixels);
                            assert(enc_from(s, b) == seq![color_code(current_color), pixels] + enc_from(s, k));
                            done = done + seq![color_code(current_color), pixels];
                            b = k;
                        }
                        buffer.push(current_color.to_tif_color());
                        buffer.push(pixels);
                    }
                    current_color = pix.color;
                    pixels = 1;
                    proof {
                        b = k;
                        k = k + 1;
                    }
                }
                j = j + 1;
            }
            proof {
                assert(rows[i as int].skip(j as int) =~= seq![]);
                assert(s.skip(k) =~= rows.skip(i + 1).flatten());
            }
            i = i + 1;
        }
        proof {
            assert(rows.skip(i as int) =~= seq![]);
            assert(s.skip(k).len() == 0);
        }
        if pixels > 0 {
            proof {
                lemma_run_exact(s, b, k);
                assert(s[b] == current_color);
                assert(enc_from(s, b) == seq![color_code(current_color), pixels] + enc_from(s, k));
                done = done + seq![color_code(current_color), pixels];
                b = k;
            }
            buffer.push(current_color.to_tif_color());
            buffer.push(pixels);
        }
        proof {
            assert(enc_from(s, b) =~= seq![]);
            assert(done =~= enc_from(s, 0));
        }
    }

    /// The complete `.TIF` bytes of the image: header, then pixel runs.
    pub fn to_tif_bytes(&self) -> (bytes: Vec<u8>)
        requires
            self.wf(),
        ensures
            bytes@ == tif_bytes_of(self),
    {
        let mut buffer = self.get_header();
        self.append_pixels(&mut buffer);
        buffer
    }
}


impl Grid {
    /// Reads an image from `.TIF` bytes: the header gives the width, the runs
    /// give the pixels row after row. The cursor is at (0, 0) in selection
    /// mode, and the brush holds the color of the last pixel (Black when
    /// there are none).
    pub fn from_tif_bytes(buffer: &Vec<u8>) -> (g: Grid)
        requires
            tif_loadable(buffer@),
        ensures
            g.wf(),
            g.height == tif_height(buffer@),
            g.width == tif_width(buffer@) as i16,
            g.color_rows() == tif_rows(buffer@),
            g.currently_selected == (0i16, 0i16),
            g.mode == GridMode::Selection,
            g.selected_color == (if tif_pixels(buffer@).len() == 0 {
                Color::Black
            } else {
                tif_pixels(buffer@).last()
            }),
    {
        let ghost px = tif_pixels(buffer@);
        let width = buffer[5];
        let len = buffer.len();
        let mut pixels: Vec<Color> = Vec::new();
        let mut idx: usize = 6;
        assert(pixels@ + rle_decode(buffer@.skip(6)) =~= px);
        while idx < len
            invariant
                len == buffer@.len(),
                6 <= idx <= len,
                px == tif_pixels(buffer@),
                pixels@ + rle_decode(buffer@.skip(idx as int)) == px,
            decreases len - idx,
        {
            let ghost d = buffer@.skip(idx as int);
            let color = Color::from_tif_color(buffer[idx]);
            let count: u8;
            let next: usize;
            if idx + 1 < len {
                count = buffer[idx + 1];
                next = idx + 2;
                assert(d.skip(2) =~= buffer@.skip(next as int));
            } else {
                count = buffer[idx];
                next = len;
                assert(buffer@.skip(next as int) =~= seq![]);
            }
            let ghost run = Seq::new(count as nat, |k: int| color_of_code(buffer@[idx as int]));
            assert(rle_decode(d) == run + rle_decode(buffer@.skip(next as int)));
            let ghost before = pixels@;
            let mut c: u8 = 0;
            while c < count
                invariant
                    c <= count,
                    pixels@ == before + run.take(c as int),
                    run.len() == count,
                    color == color_of_code(buffer@[idx as int]),
                    forall|k: int| 0 <= k < run.len() ==> #[trigger] run[k] == color,
                decreases count - c,
            {
                pixels.push(color);
                assert(run.take(c + 1) =~= run.take(c as int).push(color));
                c = c + 1;
            }
            assert(run.take(count as int) =~= run);
            assert(pixels@ + rle_decode(buffer@.skip(next as int)) =~= px);
            idx = next;
        }
        assert(buffer@.skip(len as int) =~= seq![]);
        assert(pixels@ =~= px);
        let w = width as usize;
        let total = pixels.len();
        let height = total / w;
        let ghost wi = w as int;
        let ghost hi = height as int;
        proof {
            vstd::arithmetic::div_mod::lemma_fundamental_div_mod(px.len() as int, wi);
            assert(px.len() == hi * wi) by (nonlinear_arith)
                requires
                    px.len() == wi * hi + (px.len() as int) % wi,
                    (px.len() as int) % wi == 0,
            ;
            lemma_chunk_rows_index(px, wi, hi);
        }
        assert(hi == tif_height(buffer@));
        let mut grid = Grid::new((height as i16, width as i16));
        let mut row: usize = 0;
        let mut k: usize = 0;
        while row < height
            invariant
                grid.wf(),
                hi == height as int,
                wi == w as int,
                w == width as usize,
                grid.height == height as i16,
                grid.width == width as i16,
                extent(grid.height) == hi,
                extent(grid.width) == wi,
                0 < wi,
                hi <= i16::MAX,
                px.len() == hi * wi,
                pixels@ == px,
                total == px.len(),
                row <= height,
                k == row * wi,
                grid.currently_selected == (0i16, 0i16),
                grid.mode == GridMode::Selection,
                grid.selected_color == (if k == 0 { Color::Black } else { px[k - 1] }),
                forall|r: int, c: int|
                    0 <= r < row && 0 <= c < wi ==> #[trigger] grid.color_at(r, c) == px[r * wi + c],
            decreases height - row,
        {
            assert(k + wi <= hi * wi) by (nonlinear_arith)
                requires
                    k == row * wi,
                    row < hi,
                    0 < wi,
            ;
            let mut col: usize = 0;
            while col < w
                invariant
                    grid.wf(),
                    hi == height as int,
                    w == width as usize,
                    grid.height == height as i16,
                    grid.width == width as i16,
                    extent(grid.height) == hi,
                    extent(grid.width) == wi,
                    wi == w,
                    0 < wi,
                    hi <= i16::MAX,
                    px.len() == hi * wi,
                    pixels@ == px,
                    total == px.len(),
                    row < height,
                    col <= w,
                    k == row * wi + col,
                    k + wi - col <= hi * wi,
                    grid.currently_selected == (0i16, 0i16),
                    grid.mode == GridMode::Selection,
                    grid.selected_color == (if k == 0 { Color::Black } else { px[k - 1] }),
                    forall|r: int, c: int|
                        0 <= r < row && 0 <= c < wi ==> #[trigger] grid.color_at(r, c) == px[r * wi + c],
                    forall|c: int| 0 <= c < col ==> #[trigger] grid.color_at(row as int, c) == px[row * wi + c],
                decreases w - col,
            {
                assert(k < px.len());
                let color = pixels[k];
                let ghost before = grid;
                grid.change_current_selected_color(color);
                grid.set_pixel_color_at((row as i16, col as i16), color);
                assert forall|c: int| 0 <= c < col + 1 implies #[trigger] grid.color_at(row as int, c) == px[row * wi + c] by {
                    if c < col {
                        assert(before.color_at(row as int, c) == px[row * wi + c]);
                        assert(grid.pixel@[row as int]@[c].color == before.pixel@[row as int]@[c].color);
                    }
                }
                assert forall|r: int, c: int| 0 <= r < row && 0 <= c < wi implies #[trigger] grid.color_at(r, c) == px[r * wi + c] by {
                    assert(before.color_at(r, c) == px[r * wi + c]);
                    assert(grid.pixel@[r]@[c].color == before.pixel@[r]@[c].color);
                }
                col = col + 1;
                k = k + 1;
            }
            assert(k == (row + 1) * wi) by (nonlinear_arith)
                requires
                    k == row * wi + col,
                    col == wi,
            ;
            row = row + 1;
        }
        proof {
            let rows = grid.color_rows();
            let chunks = chunk_rows(px, wi);
            assert(rows.len() == hi);
            assert(chunks.len() == hi);
            assert forall|r: int| 0 <= r < hi implies #[trigger] rows[r] =~= chunks[r] by {
                assert(grid.pixel@[r]@.len() == wi);
                assert(chunks[r] == px.subrange(r * wi, r * wi + wi));
                assert(0 <= r * wi) by (nonlinear_arith) requires r >= 0, wi > 0;
                assert(r * wi + wi <= hi * wi) by (nonlinear_arith) requires r < hi, wi > 0;
                assert(rows[r].len() == wi);
                assert forall|c: int| 0 <= c < wi implies rows[r][c] == chunks[r][c] by {
                    assert(grid.color_at(r, c) == px[r * wi + c]);
                }
            }
            assert(rows =~= chunks);
            assert(k == px.len()) by (nonlinear_arith)
                requires
                    k == row * wi,
                    row == hi,
                    px.len() == hi * wi,
            ;
        }
        grid
    }
}


impl Grid {
    /// Whether `from_tif_bytes` can read the bytes: the ".TIF " magic, a
    /// nonzero width, pixel runs that fill whole rows, and at most
    /// `i16::MAX` rows.
    pub fn tif_loadable_bytes(bytes: &Vec<u8>) -> (r: bool)
        ensures
            r == tif_loadable(bytes@),
    {
        let len = bytes.len();
        if len < 6 {
            return false;
        }
        if !(bytes[0] == 46 && bytes[1] == 84 && bytes[2] == 73 && bytes[3] == 70 && bytes[4] == 32) {
            proof {
                if bytes@.take(5) == tif_magic() {
                    assert(bytes@.take(5)[0] == 46u8);
                    assert(bytes@.take(5)[1] == 84u8);
                    assert(bytes@.take(5)[2] == 73u8);
                    assert(bytes@.take(5)[3] == 70u8);
                    assert(bytes@.take(5)[4] == 32u8);
                }
            }
            return false;
        }
        assert(bytes@.take(5) =~= tif_magic());
        let w = bytes[5];
        if w == 0 {
            return false;
        }
        let ghost px = tif_pixels(bytes@);
        let limit: usize = 8355840;
        let mut total: usize = 0;
        let mut idx: usize = 6;
        assert(bytes@.skip(6) =~= bytes@.skip(idx as int));
        while idx < len
            invariant
                len == bytes@.len(),
                6 <= idx <= len,
                px == tif_pixels(bytes@),
                total <= limit,
                limit == 8355840,
                w == bytes@[5],
                w > 0,
                px.len() == total + rle_decode(bytes@.skip(idx as int)).len(),
            decreases len - idx,
        {
            let ghost d = bytes@.skip(idx as int);
            let count: u8;
            let next: usize;
            if idx + 1 < len {
                count = bytes[idx + 1];
                next = idx + 2;
                assert(d.skip(2) =~= bytes@.skip(next as int));
            } else {
                count = bytes[idx];
                next = len;
                assert(bytes@.skip(next as int) =~= seq![]);
            }
            assert(rle_decode(d).len() == count + rle_decode(bytes@.skip(next as int)).len());
            total = total + count as usize;
            idx = next;
            if total > limit {
                proof {
                    let wi = w as int;
                    assert(px.len() >= 32768 * wi) by (nonlinear_arith)
                        requires
                            px.len() >= total,
                            total > 8355840,
                            1 <= wi <= 255,
                    ;
                    vstd::arithmetic::div_mod::lemma_div_is_ordered(32768 * wi, px.len() as int, wi);
                    vstd::arithmetic::div_mod::lemma_div_multiples_vanish(32768, wi);
                    assert(wi * 32768 == 32768 * wi) by (nonlinear_arith);
                }
                return false;
            }
        }
        assert(bytes@.skip(len as int) =~= seq![]);
        assert(px.len() == total);
        let wu = w as usize;
        total % wu == 0 && total / wu <= 32767
    }
}


/// The run at `i` stops where the color changes (or at the end).
pub proof fn lemma_run_stops(s: Seq<Color>, i: int)
    requires
        0 <= i < s.len(),
    ensures
        i + run_len_at(s, i) < s.len() ==> s[i + run_len_at(s, i)] != s[i],
    decreases s.len() - i,
{
    if i + 1 < s.len() && s[i + 1] == s[i] {
        lemma_run_stops(s, i + 1);
    }
}

/// The shape of a pixel code from position `i` on: pairs of a color byte
/// (below 8) and a count from 1 to 255, and a count below 255 only where the
/// run of that color ends, so the next pair has another color.
pub proof fn lemma_enc_from_shape(s: Seq<Color>, i: int)
    requires
        0 <= i <= s.len(),
    ensures
        ({
            let d = enc_from(s, i);
            &&& d.len() % 2 == 0
            &&& forall|k: int| 0 <= k < d.len() && k % 2 == 0 ==> #[trigger] d[k] < 8 && 1 <= d[k + 1] <= 255
            &&& forall|k: int|
                0 <= k && k + 2 < d.len() && k % 2 == 0 && d[k + 1] < 255 ==> d[k + 2]
                    != #[trigger] d[k]
        }),
    decreases s.len() - i,
{
    if i < s.len() {
        lemma_run_same(s, i);
        lemma_run_stops(s, i);
        let n = chunk_len_at(s, i);
        lemma_enc_from_shape(s, i + n);
        let rest = enc_from(s, i + n);
        let d = enc_from(s, i);
        assert(d == seq![color_code(s[i]), n as u8] + rest);
        lemma_color_code_round_trip(s[i]);
        if i + n < s.len() {
            lemma_color_code_round_trip(s[i + n]);
            assert(rest[0] == color_code(s[i + n]));
        }
        assert(d.len() == rest.len() + 2);
        assert(d.len() % 2 == 0);
        assert forall|k: int| 0 <= k < d.len() && k % 2 == 0 implies #[trigger] d[k] < 8 && 1 <= d[k + 1] <= 255 by {
            if k >= 2 {
                assert((k - 2) % 2 == 0);
                assert(d[k] == rest[k - 2]);
                assert(d[k + 1] == rest[(k - 2) + 1]);
            }
        }
        assert forall|k: int|
            0 <= k && k + 2 < d.len() && k % 2 == 0 && d[k + 1] < 255 implies d[k + 2]
                != #[trigger] d[k] by {
            if k >= 2 {
                assert((k - 2) % 2 == 0);
                assert(d[k] == rest[k - 2]);
                assert(d[k + 1] == rest[(k - 2) + 1]);
                assert(d[k + 2] == rest[(k - 2) + 2]);
            } else {
                assert(rest.len() > 0);
                assert(i + n < s.len());
                if s[i + n] == s[i] {
                    assert(n == 255);
                }
            }
        }
    }
}

/// The pixel code is a list of (color byte, count) pairs: every color byte
/// is a palette code, every count is 1 to 255, and a count below 255 is
/// always followed by a pair of another color, so each run of one color is
/// written as full pieces of 255 and one last shorter piece. Decoding it
/// gives the pixels back.
pub proof fn law_rle_shape(s: Seq<Color>)
    ensures
        rle_encode(s).len() % 2 == 0,
        forall|k: int|
            0 <= k < rle_encode(s).len() && k % 2 == 0 ==> #[trigger] rle_encode(s)[k] < 8 && 1
                <= rle_encode(s)[k + 1] <= 255,
        forall|k: int|
            0 <= k && k + 2 < rle_encode(s).len() && k % 2 == 0 && rle_encode(s)[k + 1]
                < 255 ==> rle_encode(s)[k + 2] != #[trigger] rle_encode(s)[k],
        rle_decode(rle_encode(s)) == s,
{
    lemma_enc_from_shape(s, 0);
    lemma_rle_round_trip(s);
    let d = rle_encode(s);
    assert(d == enc_from(s, 0));
}

} // verus!
