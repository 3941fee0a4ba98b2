//! Brightness sampling and palette lookup.
use vstd::prelude::*;

verus! {

/// Brightness of a pixel: the truncated mean of its red, green and blue
/// channels. The alpha channel plays no part.
pub open spec fn intensity_of(p: [u8; 4]) -> int {
    (p[0] as int + p[1] as int + p[2] as int) / 3
}

/// The palette entry that a pixel maps to: brightness taken modulo the
/// palette's length.
pub open spec fn palette_char(palette: Seq<char>, p: [u8; 4]) -> char {
    palette[intensity_of(p) % (palette.len() as int)]
}

/// Brightness reads red, green and blue alone: two pixels that differ only
/// in alpha have the same brightness, which lies in `0..=255`.
pub proof fn lemma_intensity_ignores_alpha(p: [u8; 4], q: [u8; 4])
    requires
        p[0] == q[0],
        p[1] == q[1],
        p[2] == q[2],
    ensures
        intensity_of(p) == intensity_of(q),
        0 <= intensity_of(p) <= 255,
{
}

/// With a palette of one character, every pixel maps to that character,
/// whatever its brightness.
pub proof fn lemma_single_char_palette(palette: Seq<char>, p: [u8; 4])
    requires
        palette.len() == 1,
    ensures
        palette_char(palette, p) == palette[0],
{
}

/// Computes the brightness of `p`, a value in `0..=255`.
pub fn intensity(p: [u8; 4]) -> (r: u8)
    ensures
        r as int == intensity_of(p),
{
    let sum: u32 = p[0] as u32 + p[1] as u32 + p[2] as u32;
    (sum / 3) as u8
}

/// Looks up `data[idx % data.len()]`, wrapping the index round the palette.
pub fn safe_extract(data: &Vec<char>, idx: usize) -> (r: char)
    requires
        data@.len() > 0,
    ensures
        r == data@[idx as int % data@.len() as int],
{
    data[idx % data.len()]
}

/// Maps a pixel to the character that stands for it.
pub trait PixelConverter {
    /// The character that `convert` gives for `p`.
    spec fn char_of(&self, p: [u8; 4]) -> char;

    fn convert(&self, data: [u8; 4]) -> (r: char)
        ensures
            r == self.char_of(data),
    ;
}

/// Why a palette was refused.
#[derive(Debug, Clone, Copy, PartialEq, Eq, Structural)]
pub enum PaletteError {
    /// The palette holds no character.
    Empty,
}

/// A converter that picks a palette entry by brightness.
pub struct AsciiPixelConverter {
    data: Vec<char>,
}

impl View for AsciiPixelConverter {
    type V = Seq<char>;

    closed spec fn view(&self) -> Seq<char> {
        self.data@
    }
}

impl AsciiPixelConverter {
    #[verifier::type_invariant]
    spec fn inv(self) -> bool {
        self.data@.len() > 0
    }

    /// Builds a converter over `data`; an empty palette is refused.
    pub fn new(data: Vec<char>) -> (r: Result<AsciiPixelConverter, PaletteError>)
        ensures
            data@.len() > 0 <==> r is Ok,
            r is Ok ==> r->Ok_0@ == data@,
            r is Err ==> r->Err_0 == PaletteError::Empty,
    {
        if data.len() == 0 {
            Err(PaletteError::Empty)
        } else {
            Ok(AsciiPixelConverter { data })
        }
    }

    /// The number of characters in the palette, at least one.
    pub fn palette_len(&self) -> (r: usize)
        ensures
            r == self@.len(),
            r > 0,
    {
        proof {
            use_type_invariant(self);
        }
        self.data.len()
    }
}

impl PixelConverter for AsciiPixelConverter {
    open spec fn char_of(&self, p: [u8; 4]) -> char {
        palette_char(self@, p)
    }

    fn convert(&self, x: [u8; 4]) -> (r: char) {
        proof {
            use_type_invariant(self);
        }
        let level = intensity(x);
        safe_extract(&self.data, level as usize)
    }
}

} // verus!
