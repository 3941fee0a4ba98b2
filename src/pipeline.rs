//! The raster handed to the converter, and the pass that feeds it to a sink.
use vstd::prelude::*;
use crate::convert::PixelConverter;
use crate::stream::{OutputImageStream, Phase, SinkCall, add_call, with_pixel};
use vstd::arithmetic::div_mod::lemma_fundamental_div_mod_converse;

verus! {

pub(crate) proof fn lemma_area_fits(width: u32, height: u32)
    ensures
        width as int * height as int <= u64::MAX,
{
    assert(width as int * height as int <= u32::MAX as int * u32::MAX as int) by (nonlinear_arith)
        requires
            width <= u32::MAX,
            height <= u32::MAX,
    ;
}

/// A width by height grid of RGBA pixels, stored row by row.
pub struct RasterImage {
    width: u32,
    height: u32,
    pixels: Vec<[u8; 4]>,
}

/// The pixels that a flat RGBA buffer holds, four bytes each.
pub open spec fn rgba_pixels(bytes: Seq<u8>) -> Seq<[u8; 4]> {
    Seq::new(
        bytes.len() / 4,
        |k: int| [bytes[4 * k], bytes[4 * k + 1], bytes[4 * k + 2], bytes[4 * k + 3]],
    )
}

impl View for RasterImage {
    type V = Seq<[u8; 4]>;

    /// The pixels in row-major order: pixel (x, y) sits at `y * width + x`.
    closed spec fn view(&self) -> Seq<[u8; 4]> {
        self.pixels@
    }
}

impl RasterImage {
    pub closed spec fn spec_width(&self) -> nat {
        self.width as nat
    }

    pub closed spec fn spec_height(&self) -> nat {
        self.height as nat
    }

    /// The grid holds exactly one pixel per coordinate.
    pub open spec fn wf(&self) -> bool {
        self@.len() == self.spec_width() * self.spec_height()
    }

    /// Wraps `pixels` as a grid; `None` when their number is not
    /// `width * height`.
    pub fn new(width: u32, height: u32, pixels: Vec<[u8; 4]>) -> (r: Option<RasterImage>)
        ensures
            r is Some <==> pixels@.len() == width * height,
            r is Some ==> ({
                let img = r->Some_0;
                &&& img.wf()
                &&& img.spec_width() == width
                &&& img.spec_height() == height
                &&& img@ == pixels@
            }),
    {
        proof {
            lemma_area_fits(width, height);
        }
        let area: u64 = width as u64 * height as u64;
        if pixels.len() as u64 == area {
            Some(RasterImage { width, height, pixels })
        } else {
            None
        }
    }

    /// Reads a grid from a flat buffer of RGBA bytes; `None` when the buffer
    /// does not hold exactly `width * height` pixels.
    pub fn from_rgba(width: u32, height: u32, bytes: &Vec<u8>) -> (r: Option<RasterImage>)
        ensures
            r is Some <==> bytes@.len() == 4 * (width * height),
            r is Some ==> ({
                let img = r->Some_0;
                &&& img.wf()
                &&& img.spec_width() == width
                &&& img.spec_height() == height
                &&& img@ == rgba_pixels(bytes@)
            }),
    {
        proof {
            lemma_area_fits(width, height);
        }
        let area: u64 = width as u64 * height as u64;
        if bytes.len() % 4 != 0 || (bytes.len() / 4) as u64 != area {
            return None;
        }
        let len: usize = bytes.len();
        let n: usize = len / 4;
        let mut pixels: Vec<[u8; 4]> = Vec::new();
        let mut k: usize = 0;
        while k < n
            invariant
                len == bytes@.len(),
                n == bytes@.len() / 4,
                bytes@.len() % 4 == 0,
                k <= n,
                pixels@ =~= rgba_pixels(bytes@).subrange(0, k as int),
            decreases n - k,
        {
            assert(4 * k + 3 < bytes@.len());
            let p: [u8; 4] = [bytes[4 * k], bytes[4 * k + 1], bytes[4 * k + 2], bytes[4 * k + 3]];
            pixels.push(p);
            k = k + 1;
        }
        Some(RasterImage { width, height, pixels })
    }

    pub fn width(&self) -> (r: u32)
        ensures
            r == self.spec_width(),
    {
        self.width
    }

    pub fn height(&self) -> (r: u32)
        ensures
            r == self.spec_height(),
    {
        self.height
    }

    /// The pixel in column `x` of row `y`.
    pub fn pixel(&self, x: u32, y: u32) -> (r: [u8; 4])
        requires
            self.wf(),
            x < self.spec_width(),
            y < self.spec_height(),
        ensures
            r == self@[y * self.spec_width() + x],
    {
        proof {
            lemma_row_in_bounds(self.spec_width(), self.spec_height(), y as nat, x as nat);
        }
        let count: usize = self.pixels.len();
        let idx: usize = y as usize * self.width as usize + x as usize;
        assert(idx < count);
        self.pixels[idx]
    }
}

/// The characters that `converter` gives for `pixels`, in the same order.
pub open spec fn chars_of<C: PixelConverter>(converter: &C, pixels: Seq<[u8; 4]>) -> Seq<char> {
    pixels.map_values(|p: [u8; 4]| converter.char_of(p))
}

/// The text of a grid of `height` rows of `width` characters taken from `cs`
/// row by row: rows are separated by `'\n'`, with none after the last row.
/// A grid with no row or no column gives no text at all.
pub open spec fn layout(width: nat, height: nat, cs: Seq<char>) -> Seq<char>
    decreases height,
{
    if width == 0 || height == 0 {
        Seq::empty()
    } else if height == 1 {
        cs.subrange(0, width as int)
    } else {
        layout(width, (height - 1) as nat, cs) + seq!['\n'] + cs.subrange(
            ((height - 1) * width) as int,
            (height * width) as int,
        )
    }
}

/// The first `n` `add` calls of a row-major pass over a grid `width` wide:
/// call `k` is for row `k / width`, column `k % width`, with character `cs[k]`.
pub open spec fn grid_calls(width: nat, n: nat, cs: Seq<char>) -> Seq<SinkCall> {
    Seq::new(n, |k: int| add_call((k / width as int) as u32, (k % width as int) as u32, cs[k]))
}

/// The calls a whole pass makes: one `on_start`, an `add` per pixel in
/// row-major order, one `on_end`.
pub open spec fn pass_calls(width: nat, height: nat, cs: Seq<char>) -> Seq<SinkCall> {
    seq![SinkCall::Start] + grid_calls(width, width * height, cs) + seq![SinkCall::End]
}

/// The text emitted part-way through row `y`, after its first `x` pixels.
pub open spec fn partial_layout(width: nat, y: nat, x: nat, cs: Seq<char>) -> Seq<char> {
    if x == 0 {
        layout(width, y, cs)
    } else if y == 0 {
        cs.subrange(0, x as int)
    } else {
        layout(width, y, cs) + seq!['\n'] + cs.subrange((y * width) as int, (y * width + x) as int)
    }
}

/// A grid with at least one row and column gives `rows * (width + 1) - 1`
/// characters.
pub proof fn lemma_layout_len(width: nat, height: nat, cs: Seq<char>)
    requires
        width > 0,
        width * height <= cs.len(),
    ensures
        height > 0 ==> layout(width, height, cs).len() == height * (width + 1) - 1,
        height > 0 ==> layout(width, height, cs).len() >= width,
        height == 0 ==> layout(width, height, cs).len() == 0,
    decreases height,
{
    if height == 1 {
        assert(width * height == width && height * (width + 1) == width + 1) by (nonlinear_arith)
            requires
                height == 1,
        ;
    } else if height > 1 {
        let h1 = (height - 1) as nat;
        assert(width * h1 <= width * height) by (nonlinear_arith)
            requires
                h1 + 1 == height,
        ;
        lemma_layout_len(width, h1, cs);
        assert(height * width == h1 * width + width) by (nonlinear_arith)
            requires
                h1 + 1 == height,
        ;
        assert(width * height == height * width) by (nonlinear_arith);
        assert(height * (width + 1) == h1 * (width + 1) + width + 1) by (nonlinear_arith)
            requires
                h1 + 1 == height,
        ;
    }
}

proof fn lemma_row_in_bounds(width: nat, height: nat, y: nat, x: nat)
    requires
        y < height,
        x <= width,
    ensures
        y * width + x <= width * height,
        x < width ==> y * width + x < width * height,
        (y + 1) * width == y * width + width,
        width * y <= width * height,
        width * (y + 1) <= width * height,
        y * width == width * y,
        (y + 1) * width == width * (y + 1),
{
    assert(y * width + x <= width * height) by (nonlinear_arith)
        requires
            y < height,
            x <= width,
    ;
    assert(x < width ==> y * width + x < width * height) by (nonlinear_arith)
        requires
            y < height,
    ;
    assert((y + 1) * width == y * width + width) by (nonlinear_arith);
    assert(width * (y + 1) <= width * height) by (nonlinear_arith)
        requires
            y < height,
    ;
    assert(width * y <= width * height) by (nonlinear_arith)
        requires
            y < height,
    ;
    assert(y * width == width * y) by (nonlinear_arith);
    assert((y + 1) * width == width * (y + 1)) by (nonlinear_arith);
}

/// Feeds every pixel of `img`, in row-major order, through `converter` into
/// `sink`, between one `on_start` and one `on_end`. The sink ends up holding
/// the grid's text.
pub fn process_image<S: OutputImageStream, C: PixelConverter>(
    sink: &mut S,
    img: &RasterImage,
    converter: &C,
)
    requires
        img.wf(),
        old(sink).wf(),
        old(sink).phase() == Phase::NotStarted,
        old(sink).emitted() == Seq::<char>::empty(),
    ensures
        final(sink).wf(),
        final(sink).phase() == Phase::Ended,
        final(sink).emitted() == layout(
            img.spec_width(),
            img.spec_height(),
            chars_of(converter, img@),
        ),
        final(sink).call_log() == old(sink).call_log() + pass_calls(
            img.spec_width(),
            img.spec_height(),
            chars_of(converter, img@),
        ),
{
    let ghost w = img.spec_width();
    let ghost h = img.spec_height();
    let ghost cs = chars_of(converter, img@);
    let width: u32 = img.width;
    let height: u32 = img.height;
    let n: usize = img.pixels.len();
    let ghost calls0 = sink.call_log();
    sink.on_start();
    let mut y: u32 = 0;
    while y < height
        invariant
            img.wf(),
            w == width,
            h == height,
            w == img.spec_width(),
            h == img.spec_height(),
            cs == chars_of(converter, img@),
            n == img@.len(),
            cs.len() == n,
            y <= height,
            sink.wf(),
            sink.phase() == Phase::Started,
            sink.emitted() == layout(w, y as nat, cs),
            sink.call_log() == calls0 + seq![SinkCall::Start] + grid_calls(w, (y * w) as nat, cs),
        decreases height - y,
    {
        let mut x: u32 = 0;
        while x < width
            invariant
                img.wf(),
                w == width,
                h == height,
                w == img.spec_width(),
                h == img.spec_height(),
                cs == chars_of(converter, img@),
                n == img@.len(),
                cs.len() == n,
                y < height,
                x <= width,
                sink.wf(),
                sink.phase() == Phase::Started,
                sink.emitted() == partial_layout(w, y as nat, x as nat, cs),
                sink.call_log() == calls0 + seq![SinkCall::Start] + grid_calls(
                    w,
                    (y * w + x) as nat,
                    cs,
                ),
            decreases width - x,
        {
            proof {
                lemma_row_in_bounds(w, h, y as nat, x as nat);
                lemma_layout_len(w, y as nat, cs);
            }
            let idx: usize = y as usize * width as usize + x as usize;
            let c: char = converter.convert(img.pixels[idx]);
            let ghost before = sink.emitted();
            sink.add(y, x, c);
            proof {
                assert(cs[idx as int] == c);
                if x == 0 && y > 0 {
                    assert(before.len() > 0);
                }
                assert(sink.emitted() =~= partial_layout(w, y as nat, (x + 1) as nat, cs));
                let k = y * w + x;
                lemma_fundamental_div_mod_converse(k as int, w as int, y as int, x as int);
                assert(grid_calls(w, (k + 1) as nat, cs) =~= grid_calls(w, k as nat, cs).push(
                    add_call(y, x, c),
                ));
            }
            x = x + 1;
        }
        proof {
            lemma_row_in_bounds(w, h, y as nat, 0);
            if w > 0 {
                assert(sink.emitted() =~= layout(w, (y + 1) as nat, cs));
            }
        }
        y = y + 1;
    }
    sink.on_end();
    proof {
        assert(h * w == w * h) by (nonlinear_arith);
        assert(sink.call_log() =~= calls0 + pass_calls(w, h, cs));
    }
}

/// Running a whole image through a sink, as a method of the sink.
pub trait ImageProcessor<T>: OutputImageStream {
    fn process_image<C: PixelConverter>(&mut self, img: &RasterImage, converter: &C)
        requires
            img.wf(),
            old(self).wf(),
            old(self).phase() == Phase::NotStarted,
            old(self).emitted() == Seq::<char>::empty(),
        ensures
            final(self).wf(),
            final(self).phase() == Phase::Ended,
            final(self).emitted() == layout(
                img.spec_width(),
                img.spec_height(),
                chars_of(converter, img@),
            ),
            final(self).call_log() == old(self).call_log() + pass_calls(
                img.spec_width(),
                img.spec_height(),
                chars_of(converter, img@),
            ),
    ;
}

impl<T: OutputImageStream> ImageProcessor<T> for T {
    fn process_image<C: PixelConverter>(&mut self, img: &RasterImage, converter: &C) {
        process_image(self, img, converter);
    }
}

/// Row `i` of a grid text: the `width` characters that start right after the
/// `i`-th separator (or at the start, for the first row).
pub open spec fn text_row(text: Seq<char>, width: nat, i: nat) -> Seq<char> {
    text.subrange((i * (width + 1)) as int, (i * (width + 1) + width) as int)
}

/// The character that follows row `i` of a grid text.
pub open spec fn after_row(text: Seq<char>, width: nat, i: nat) -> char {
    text[(i * (width + 1) + width) as int]
}

/// Row `i` of a row-major character grid.
pub open spec fn grid_row(cs: Seq<char>, width: nat, i: nat) -> Seq<char> {
    cs.subrange((i * width) as int, (i * width + width) as int)
}

/// How many times `c` occurs in `s`.
pub open spec fn count_of(s: Seq<char>, c: char) -> nat
    decreases s.len(),
{
    if s.len() == 0 {
        0
    } else {
        count_of(s.drop_last(), c) + if s.last() == c {
            1nat
        } else {
            0nat
        }
    }
}

proof fn lemma_count_concat(a: Seq<char>, b: Seq<char>, c: char)
    ensures
        count_of(a + b, c) == count_of(a, c) + count_of(b, c),
    decreases b.len(),
{
    if b.len() == 0 {
        assert(a + b =~= a);
    } else {
        lemma_count_concat(a, b.drop_last(), c);
        assert((a + b).drop_last() =~= a + b.drop_last());
    }
}

proof fn lemma_count_absent(s: Seq<char>, c: char)
    requires
        !s.contains(c),
    ensures
        count_of(s, c) == 0,
    decreases s.len(),
{
    if s.len() > 0 {
        assert(!s.drop_last().contains(c)) by {
            if s.drop_last().contains(c) {
                let k = choose|k: int| 0 <= k < s.drop_last().len() && s.drop_last()[k] == c;
                assert(s[k] == c);
            }
        }
        lemma_count_absent(s.drop_last(), c);
        assert(s[s.len() - 1] != c);
    }
}

/// The text a sink holds after its first `n` `add` calls of a row-major pass
/// over a grid `width` wide, starting from nothing.
pub open spec fn fed(width: nat, n: nat, cs: Seq<char>) -> Seq<char>
    decreases n,
{
    if n == 0 || width == 0 {
        Seq::empty()
    } else {
        with_pixel(
            fed(width, (n - 1) as nat, cs),
            ((n - 1) as int % width as int) as u32,
            cs[n - 1],
        )
    }
}

proof fn lemma_full_row(width: nat, y: nat, cs: Seq<char>)
    requires
        width > 0,
        width * (y + 1) <= cs.len(),
    ensures
        partial_layout(width, y, width, cs) == layout(width, y + 1, cs),
{
    assert((y + 1) * width == y * width + width) by (nonlinear_arith);
    assert(width * (y + 1) == (y + 1) * width) by (nonlinear_arith);
    assert(partial_layout(width, y, width, cs) =~= layout(width, y + 1, cs));
}

/// Any sink fed, from nothing, the pixels of whole rows in row-major order
/// through `add` holds the grid text of those rows.
pub proof fn lemma_fed_rows(width: nat, rows: nat, cs: Seq<char>)
    requires
        0 < width <= u32::MAX,
        width * rows <= cs.len(),
    ensures
        fed(width, width * rows, cs) == layout(width, rows, cs),
{
    if rows > 0 {
        let y = (rows - 1) as nat;
        assert(width * rows == y * width + width && width * y <= width * rows) by (nonlinear_arith)
            requires
                y + 1 == rows,
        ;
        lemma_fed_partial(width, y, (width - 1) as nat, cs);
        let n = y * width + width;
        lemma_fundamental_div_mod_converse(n - 1, width as int, y as int, width - 1);
        lemma_layout_len(width, y, cs);
        lemma_full_row(width, y, cs);
        let prev = fed(width, (n - 1) as nat, cs);
        assert(prev == partial_layout(width, y, (width - 1) as nat, cs));
        let col = ((n - 1) as int % width as int) as u32;
        assert(col == width - 1);
        assert(fed(width, n, cs) == with_pixel(prev, col, cs[n - 1]));
        if width == 1 && y > 0 {
            assert(prev.len() > 0);
        }
        assert(fed(width, n, cs) =~= partial_layout(width, y, width, cs));
    }
}

proof fn lemma_fed_partial(width: nat, y: nat, x: nat, cs: Seq<char>)
    requires
        0 < width <= u32::MAX,
        x < width,
        width * (y + 1) <= cs.len(),
    ensures
        fed(width, y * width + x, cs) == partial_layout(width, y, x, cs),
    decreases y * width + x,
{
    let n = y * width + x;
    assert(width * y <= width * (y + 1) && (y + 1) * width == y * width + width
        && width * (y + 1) == (y + 1) * width && width * y == y * width) by (nonlinear_arith);
    lemma_layout_len(width, y, cs);
    if n == 0 {
        assert(y == 0) by (nonlinear_arith)
            requires
                y * width + x == 0,
                width > 0,
        ;
    } else if x > 0 {
        lemma_fed_partial(width, y, (x - 1) as nat, cs);
        lemma_fundamental_div_mod_converse(n - 1, width as int, y as int, x - 1);
        let prev = fed(width, (n - 1) as nat, cs);
        assert(prev == partial_layout(width, y, (x - 1) as nat, cs));
        let col = ((n - 1) as int % width as int) as u32;
        assert(col == x - 1);
        assert(fed(width, n, cs) == with_pixel(prev, col, cs[n - 1]));
        if x == 1 && y > 0 {
            assert(prev.len() > 0);
        }
        assert(fed(width, n, cs) =~= partial_layout(width, y, x, cs));
    } else {
        assert(y > 0) by {
            if y == 0 {
                assert(y * width == 0) by (nonlinear_arith)
                    requires
                        y == 0,
                ;
            }
        }
        let py = (y - 1) as nat;
        assert(y * width == py * width + width && width * (py + 1) <= cs.len()) by (nonlinear_arith)
            requires
                py + 1 == y,
                width * (y + 1) <= cs.len(),
        ;
        lemma_fed_partial(width, py, (width - 1) as nat, cs);
        lemma_fundamental_div_mod_converse(n - 1, width as int, py as int, width - 1);
        lemma_layout_len(width, py, cs);
        lemma_full_row(width, py, cs);
        let prev = fed(width, (n - 1) as nat, cs);
        assert(prev == partial_layout(width, py, (width - 1) as nat, cs));
        let col = ((n - 1) as int % width as int) as u32;
        assert(col == width - 1);
        assert(fed(width, n, cs) == with_pixel(prev, col, cs[n - 1]));
        if width == 1 && py > 0 {
            assert(prev.len() > 0);
        }
        assert(fed(width, n, cs) =~= partial_layout(width, py, width, cs));
    }
}

/// An image with no column or no row gives no text: no character and no
/// separator.
pub proof fn lemma_empty_grid(width: nat, height: nat, cs: Seq<char>)
    requires
        width == 0 || height == 0,
    ensures
        layout(width, height, cs) == Seq::<char>::empty(),
{
}

/// In the text of a grid with at least one column, row `i` holds exactly the
/// `width` characters of grid row `i`, and every row but the last is followed
/// by a separator.
pub proof fn lemma_layout_rows(width: nat, height: nat, cs: Seq<char>)
    requires
        width > 0,
        width * height <= cs.len(),
    ensures
        forall|i: nat|
            i < height ==> #[trigger] text_row(layout(width, height, cs), width, i) == grid_row(
                cs,
                width,
                i,
            ),
        forall|i: nat| i + 1 < height ==> #[trigger] after_row(layout(width, height, cs), width, i) == '\n',
    decreases height,
{
    lemma_layout_len(width, height, cs);
    if height == 1 {
        let text = layout(width, height, cs);
        assert forall|i: nat| i < height implies #[trigger] text_row(text, width, i) == grid_row(
            cs,
            width,
            i,
        ) by {
            assert(i == 0);
            assert(text_row(text, width, i) =~= grid_row(cs, width, i));
        }
    } else if height > 1 {
        let h1 = (height - 1) as nat;
        let text = layout(width, height, cs);
        let prev = layout(width, h1, cs);
        assert(width * h1 <= width * height) by (nonlinear_arith)
            requires
                h1 + 1 == height,
        ;
        lemma_layout_len(width, h1, cs);
        lemma_layout_rows(width, h1, cs);
        assert(height * width == h1 * width + width && width * height == height * width)
            by (nonlinear_arith)
            requires
                h1 + 1 == height,
        ;
        assert(text == prev + seq!['\n'] + cs.subrange((h1 * width) as int, (height * width) as int));
        assert forall|i: nat| i < height implies #[trigger] text_row(text, width, i) == grid_row(
            cs,
            width,
            i,
        ) by {
            if i < h1 {
                assert(i * (width + 1) + width <= h1 * (width + 1) - 1) by (nonlinear_arith)
                    requires
                        i < h1,
                ;
                assert(text_row(text, width, i) =~= text_row(prev, width, i));
            } else {
                assert(i == h1);
                let start = h1 * (width + 1);
                let mid = prev + seq!['\n'];
                let last = cs.subrange((h1 * width) as int, (height * width) as int);
                assert(start == mid.len());
                assert(text == mid + last);
                assert forall|k: int| 0 <= k < width implies #[trigger] text[start + k] == cs[h1
                    * width + k] by {
                    assert(text[start + k] == last[k]);
                }
                assert(text_row(text, width, i) =~= grid_row(cs, width, i));
            }
        }
        assert forall|i: nat| i + 1 < height implies #[trigger] after_row(text, width, i) == '\n' by {
            if i + 1 < h1 {
                assert(i * (width + 1) + width < h1 * (width + 1) - 1) by (nonlinear_arith)
                    requires
                        i + 1 < h1,
                ;
                assert(after_row(text, width, i) == after_row(prev, width, i));
            } else {
                assert(i * (width + 1) + width == h1 * (width + 1) - 1) by (nonlinear_arith)
                    requires
                        i + 1 == h1,
                ;
            }
        }
    }
}

/// When no pixel maps to `'\n'`, the text of a grid with at least one column
/// holds `height - 1` separators, none when it has at most one row.
pub proof fn lemma_separator_count(width: nat, height: nat, cs: Seq<char>)
    requires
        width > 0,
        width * height <= cs.len(),
        !cs.contains('\n'),
    ensures
        count_of(layout(width, height, cs), '\n') == if height == 0 {
            0
        } else {
            (height - 1) as nat
        },
    decreases height,
{
    if height == 1 {
        assert(width * height == width) by (nonlinear_arith)
            requires
                height == 1,
        ;
        assert(!cs.subrange(0, width as int).contains('\n')) by {
            if cs.subrange(0, width as int).contains('\n') {
                let k = choose|k: int| 0 <= k < width && cs.subrange(0, width as int)[k] == '\n';
                assert(cs[k] == '\n');
            }
        }
        lemma_count_absent(cs.subrange(0, width as int), '\n');
    } else if height > 1 {
        let h1 = (height - 1) as nat;
        let prev = layout(width, h1, cs);
        assert(width * h1 <= width * height) by (nonlinear_arith)
            requires
                h1 + 1 == height,
        ;
        assert(height * width == h1 * width + width && width * height == height * width)
            by (nonlinear_arith)
            requires
                h1 + 1 == height,
        ;
        let last = cs.subrange((h1 * width) as int, (height * width) as int);
        lemma_separator_count(width, h1, cs);
        assert(!last.contains('\n')) by {
            if last.contains('\n') {
                let k = choose|k: int| 0 <= k < last.len() && last[k] == '\n';
                assert(cs[h1 * width + k] == '\n');
            }
        }
        lemma_count_absent(last, '\n');
        assert(layout(width, height, cs) == prev + seq!['\n'] + last);
        lemma_count_concat(prev, seq!['\n'], '\n');
        lemma_count_concat(prev + seq!['\n'], last, '\n');
        assert(seq!['\n'].drop_last() =~= Seq::<char>::empty());
        assert(count_of(Seq::<char>::empty(), '\n') == 0);
        assert(seq!['\n'].last() == '\n');
    }
}

/// Two passes over the same pixels, with converters that agree on every
/// pixel, give the same text.
pub proof fn lemma_render_deterministic<C: PixelConverter>(
    a: &RasterImage,
    b: &RasterImage,
    ca: &C,
    cb: &C,
)
    requires
        a.spec_width() == b.spec_width(),
        a.spec_height() == b.spec_height(),
        a@ == b@,
        forall|p: [u8; 4]| #[trigger] ca.char_of(p) == cb.char_of(p),
    ensures
        layout(a.spec_width(), a.spec_height(), chars_of(ca, a@)) == layout(
            b.spec_width(),
            b.spec_height(),
            chars_of(cb, b@),
        ),
{
    assert(chars_of(ca, a@) =~= chars_of(cb, b@));
}

/// A sink fed, from nothing, `rows` whole rows in row-major order holds
/// `rows - 1` separators (none for at most one row), when no pixel maps to
/// `'\n'`.
pub proof fn lemma_fed_separator_count(width: nat, rows: nat, cs: Seq<char>)
    requires
        0 < width <= u32::MAX,
        width * rows <= cs.len(),
        !cs.contains('\n'),
    ensures
        count_of(fed(width, width * rows, cs), '\n') == if rows == 0 {
            0
        } else {
            (rows - 1) as nat
        },
{
    lemma_fed_rows(width, rows, cs);
    lemma_separator_count(width, rows, cs);
}

/// A sink fed, from nothing, `rows` whole rows in row-major order holds
/// exactly `width` characters per row, those of the grid row, with a
/// separator after every row but the last and none after it.
pub proof fn lemma_fed_row_shape(width: nat, rows: nat, cs: Seq<char>)
    requires
        0 < width <= u32::MAX,
        width * rows <= cs.len(),
    ensures
        rows > 0 ==> fed(width, width * rows, cs).len() == rows * (width + 1) - 1,
        forall|i: nat|
            i < rows ==> #[trigger] text_row(fed(width, width * rows, cs), width, i) == grid_row(
                cs,
                width,
                i,
            ),
        forall|i: nat| i + 1 < rows ==> #[trigger] after_row(fed(width, width * rows, cs), width, i) == '\n',
{
    lemma_fed_rows(width, rows, cs);
    lemma_layout_len(width, rows, cs);
    lemma_layout_rows(width, rows, cs);
}

} // verus!
