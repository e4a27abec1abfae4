use vstd::prelude::*;

use crate::io::{IoResult, Read, Write};

verus! {

/// Standard output; it takes nothing yet.
#[derive(Copy, Clone, Default)]
pub struct StdOut;

impl Write for StdOut {
    fn write(&mut self, buf: &[u8]) -> (r: IoResult<usize>)
        ensures
            r == Ok::<usize, crate::io::IoError>(0),
    {
        Ok(0)
    }

    fn flush(&mut self) -> (r: IoResult<()>)
        ensures
            r == Ok::<(), crate::io::IoError>(()),
    {
        Ok(())
    }
}

/// Standard input; it yields nothing yet.
#[derive(Copy, Clone, Default)]
pub struct StdIn;

impl Read for StdIn {
    fn read(&mut self, buf: &mut [u8]) -> (r: IoResult<usize>)
        ensures
            r == Ok::<usize, crate::io::IoError>(0),
            final(buf)@ == old(buf)@,
    {
        Ok(0)
    }
}

} // verus!
