//! The serial line: what a UART offers, and the console that prints
//! through one.

use vstd::prelude::*;
use vstd::string::StringSliceAdditionalSpecFns;

verus! {

/// A serial port.
pub trait Uart {
    /// Receives into `buffer` and returns how many bytes arrived.
    fn read(&self, buffer: &mut [u8]) -> usize;

    /// Sends `data` and returns how many bytes went out.
    fn write(&self, data: &[u8]) -> usize;

    fn flush(&self);

    fn init(&self);
}

/// A serial port used for output, together with the record of what was
/// handed to it.
pub struct Console<U: Uart> {
    uart: U,
    log: Ghost<Seq<Seq<u8>>>,
}

impl<U: Uart> Console<U> {
    /// The chunks handed to the port so far, oldest first.
    pub closed spec fn sent(&self) -> Seq<Seq<u8>> {
        self.log@
    }

    /// Takes ownership of a port and sets it up. Nothing is sent yet.
    pub fn new(uart: U) -> (console: Self)
        ensures
            console.sent() == Seq::<Seq<u8>>::empty(),
            console.line() == uart,
    {
        uart.init();
        Console { uart, log: Ghost(Seq::empty()) }
    }

    /// The port behind the console.
    pub closed spec fn line(&self) -> U {
        self.uart
    }

    /// Gives the port back.
    pub fn into_inner(self) -> (uart: U)
        ensures
            uart == self.line(),
    {
        self.uart
    }
}

/// Hands `data` to the port in one piece.
pub fn uart_write<U: Uart>(console: &mut Console<U>, data: &[u8])
    ensures
        final(console).sent() == old(console).sent().push(data@),
        final(console).line() == old(console).line(),
{
    let _ = console.uart.write(data);
    proof {
        console.log@ = console.log@.push(data@);
    }
}

/// Prints `text`: its bytes go to the port in one piece, unchanged.
pub fn print<U: Uart>(console: &mut Console<U>, text: &str)
    ensures
        final(console).sent() == old(console).sent().push(text.spec_bytes()),
        final(console).line() == old(console).line(),
{
    uart_write(console, text.as_bytes());
}

} // verus!
