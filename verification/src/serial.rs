//! The serial-port interface a serial-backed connector reads and writes
//! through. The implementation is supplied by the environment.
use vstd::prelude::*;

verus! {

/// A failed serial-port operation.
#[derive(Clone, Copy, PartialEq, Eq, Debug, Structural)]
pub struct SerialError;

/// A byte-oriented serial port: open the device, write a buffer, and read
/// up to a requested number of bytes.
pub trait SerialPort: Sized {
    fn open(&mut self) -> Result<(), SerialError>;

    fn write(&mut self, bytes: &[u8]) -> Result<usize, SerialError>;

    fn read(&mut self, max_len: usize) -> Result<Vec<u8>, SerialError>;
}

} // verus!
