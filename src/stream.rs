//! Output sinks: where the characters of a converted image go.
use vstd::prelude::*;
use crate::terminal::{Terminal, write_char};
use crate::pipeline::lemma_area_fits;

verus! {

/// Where a sink stands in its lifecycle.
#[derive(Debug, Clone, Copy, PartialEq, Eq, Structural)]
pub enum Phase {
    NotStarted,
    Started,
    Ended,
}

/// The text after one more pixel: a line separator goes in front of the
/// character when it opens a row and something was emitted before it.
pub open spec fn with_pixel(text: Seq<char>, column: u32, c: char) -> Seq<char> {
    if column == 0 && text.len() > 0 {
        text + seq!['\n', c]
    } else {
        text.push(c)
    }
}

/// One call made on a sink, as its record of calls keeps it.
pub enum SinkCall {
    Start,
    Add(u32, u32, char),
    End,
}

/// The record of one `add(row, column, c)`.
pub open spec fn add_call(row: u32, column: u32, c: char) -> SinkCall {
    SinkCall::Add(row, column, c)
}

/// A destination for the characters of an image, fed in row-major order.
pub trait OutputImageStream: Sized {
    /// Everything the sink has emitted so far, separators included.
    spec fn emitted(&self) -> Seq<char>;

    spec fn phase(&self) -> Phase;

    /// The calls made on the sink since it was built, in order.
    spec fn call_log(&self) -> Seq<SinkCall>;

    /// The sink's internal bookkeeping agrees with what it emitted.
    spec fn wf(&self) -> bool;

    fn new(width: u32, height: u32) -> (r: Self)
        ensures
            r.wf(),
            r.phase() == Phase::NotStarted,
            r.emitted() == Seq::<char>::empty(),
            r.call_log() == Seq::<SinkCall>::empty(),
    ;

    fn on_start(&mut self)
        requires
            old(self).wf(),
            old(self).phase() == Phase::NotStarted,
        ensures
            final(self).wf(),
            final(self).phase() == Phase::Started,
            final(self).emitted() == old(self).emitted(),
            final(self).call_log() == old(self).call_log().push(SinkCall::Start),
    ;

    fn add(&mut self, row: u32, w: u32, pixel: char)
        requires
            old(self).wf(),
            old(self).phase() == Phase::Started,
        ensures
            final(self).wf(),
            final(self).phase() == Phase::Started,
            final(self).emitted() == with_pixel(old(self).emitted(), w, pixel),
            final(self).call_log() == old(self).call_log().push(add_call(row, w, pixel)),
    ;

    fn on_end(&mut self)
        requires
            old(self).wf(),
            old(self).phase() == Phase::Started,
        ensures
            final(self).wf(),
            final(self).phase() == Phase::Ended,
            final(self).emitted() == old(self).emitted(),
            final(self).call_log() == old(self).call_log().push(SinkCall::End),
    ;
}

/// What the console writes for one pixel: a line break first when the pixel
/// opens a row and something was written before it, then the pixel.
pub fn console_piece(any: bool, column: u32, c: char) -> (r: Vec<char>)
    ensures
        r@ == if column == 0 && any {
            seq!['\n', c]
        } else {
            seq![c]
        },
{
    if column == 0 && any {
        vec!['\n', c]
    } else {
        vec![c]
    }
}

/// A sink that writes each character to standard output as it arrives.
pub struct ConsoleStream {
    any: bool,
    phase: Phase,
    out: Terminal,
    history: Ghost<Seq<SinkCall>>,
}

impl OutputImageStream for ConsoleStream {
    /// The characters written to the display so far.
    closed spec fn emitted(&self) -> Seq<char> {
        self.out.written()
    }

    closed spec fn phase(&self) -> Phase {
        self.phase
    }

    closed spec fn call_log(&self) -> Seq<SinkCall> {
        self.history@
    }

    closed spec fn wf(&self) -> bool {
        self.any <==> self.out.written().len() > 0
    }

    fn new(_width: u32, _height: u32) -> (r: ConsoleStream) {
        ConsoleStream {
            any: false,
            phase: Phase::NotStarted,
            out: Terminal::new(),
            history: Ghost(Seq::empty()),
        }
    }

    fn on_start(&mut self) {
        self.phase = Phase::Started;
        self.history = Ghost(self.history@.push(SinkCall::Start));
    }

    fn add(&mut self, row: u32, w: u32, pixel: char) {
        let piece = console_piece(self.any, w, pixel);
        let mut k: usize = 0;
        while k < piece.len()
            invariant
                k <= piece@.len(),
                self.phase == old(self).phase,
                self.history == old(self).history,
                self.out.written() == old(self).out.written() + piece@.subrange(0, k as int),
            decreases piece@.len() - k,
        {
            write_char(&mut self.out, piece[k]);
            assert(piece@.subrange(0, k + 1) =~= piece@.subrange(0, k as int).push(piece@[k as int]));
            k = k + 1;
        }
        self.any = true;
        self.history = Ghost(self.history@.push(add_call(row, w, pixel)));
        assert(piece@.subrange(0, piece@.len() as int) =~= piece@);
        assert(self.out.written() =~= with_pixel(old(self).out.written(), w, pixel));
    }

    fn on_end(&mut self) {
        self.phase = Phase::Ended;
        self.history = Ghost(self.history@.push(SinkCall::End));
    }
}

/// A sink that gathers the whole grid in memory, to be written out in one
/// piece once the image is done.
pub struct ImageFileStream {
    line: Vec<char>,
    phase: Phase,
    history: Ghost<Seq<SinkCall>>,
}

impl ImageFileStream {
    /// The text gathered so far.
    pub fn contents(&self) -> (r: &Vec<char>)
        ensures
            r@ == self.emitted(),
    {
        &self.line
    }
}

impl OutputImageStream for ImageFileStream {
    closed spec fn emitted(&self) -> Seq<char> {
        self.line@
    }

    closed spec fn phase(&self) -> Phase {
        self.phase
    }

    closed spec fn call_log(&self) -> Seq<SinkCall> {
        self.history@
    }

    closed spec fn wf(&self) -> bool {
        true
    }

    /// Reserves room for the whole grid: a character per pixel and a
    /// separator per row.
    fn new(width: u32, height: u32) -> (r: ImageFileStream) {
        proof {
            lemma_area_fits(width, height);
        }
        let room: u64 = width as u64 * height as u64;
        let line: Vec<char> = if room <= usize::MAX as u64 - height as u64 {
            Vec::with_capacity(room as usize + height as usize)
        } else {
            Vec::new()
        };
        ImageFileStream { line, phase: Phase::NotStarted, history: Ghost(Seq::empty()) }
    }

    fn on_start(&mut self) {
        self.phase = Phase::Started;
        self.history = Ghost(self.history@.push(SinkCall::Start));
    }

    fn add(&mut self, row: u32, w: u32, pixel: char) {
        self.history = Ghost(self.history@.push(add_call(row, w, pixel)));
        if w == 0 && self.line.len() > 0 {
            self.line.push('\n');
        }
        self.line.push(pixel);
        assert(self.line@ =~= with_pixel(old(self).line@, w, pixel));
    }

    fn on_end(&mut self) {
        self.phase = Phase::Ended;
        self.history = Ghost(self.history@.push(SinkCall::End));
    }
}

} // verus!
