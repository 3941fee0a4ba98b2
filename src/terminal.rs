//! The interactive display, with a record of everything written to it.
use vstd::prelude::*;
use std::io::Write;

verus! {

#[verifier::external_type_specification]
#[verifier::external_body]
pub struct ExStdout(std::io::Stdout);

/// Relies on `std::io::stdout`: a handle to the process's standard output.
#[verifier::external_body]
fn stdout_handle() -> std::io::Stdout {
    std::io::stdout()
}

/// Standard output, together with the characters handed to it so far. Only
/// `write_char` adds to that record.
pub struct Terminal {
    out: std::io::Stdout,
    written: Ghost<Seq<char>>,
}

impl Terminal {
    /// The characters written to the display through this handle, in order.
    pub closed spec fn written(&self) -> Seq<char> {
        self.written@
    }

    pub fn new() -> (r: Terminal)
        ensures
            r.written() == Seq::<char>::empty(),
    {
        Terminal { out: stdout_handle(), written: Ghost(Seq::empty()) }
    }
}

/// Relies on `write!` to `std::io::Stdout`: the character `c` is handed to
/// standard output, after everything handed to it before. An error from the
/// write is dropped.
#[verifier::external_body]
pub(crate) fn write_char(t: &mut Terminal, c: char)
    ensures
        final(t).written() == old(t).written().push(c),
{
    let _ = write!(t.out, "{}", c);
}

} // verus!
