use vstd::prelude::*;

pub mod device;
pub mod stdio;

verus! {

/// Error of an I/O operation. No operation fails yet, so nothing outside this
/// module can make one.
#[derive(Copy, Clone, Debug)]
pub struct IoError {
    _never: (),
}

pub type IoResult<T> = Result<T, IoError>;

/// A source of bytes.
pub trait Read {
    /// Reads into `buf`, giving the number of bytes read.
    fn read(&mut self, buf: &mut [u8]) -> IoResult<usize>;
}

/// A sink of bytes.
pub trait Write {
    /// Writes from `buf`, giving the number of bytes written.
    fn write(&mut self, buf: &[u8]) -> IoResult<usize>;

    /// Pushes out whatever is buffered.
    fn flush(&mut self) -> IoResult<()>;
}

/// A device that takes control requests of type `R`.
pub trait Ioctl<R> {
    fn ioctl(&mut self, req: R) -> IoResult<()>;
}

} // verus!
