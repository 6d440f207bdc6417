use vstd::prelude::*;
use crate::position::Position;
use crate::result::Error;
use crate::vector::Vector;

verus! {

/// An output device to be controlled for displaying an interface.
///
/// Three pieces of abstract state describe a device: `sent`, the sequence of
/// bytes it has accepted so far; `sizes`, the terminal sizes it has reported
/// so far; and `raw_mode`, whether its terminal is currently in raw mode.
/// The interface's contracts describe their emissions and setup through
/// them. Whether an operation succeeds is the device's own affair: no method
/// is promised to return `Ok`.
pub trait Device: Sized {
    /// The bytes this device has accepted so far, in order. A device that
    /// does not model its history leaves the default, which stands for an
    /// unobserved sink.
    open spec fn sent(&self) -> Seq<u8> {
        Seq::<u8>::empty()
    }

    /// The terminal sizes this device has reported so far, in order. A
    /// device that does not model its history leaves the default.
    open spec fn sizes(&self) -> Seq<Vector> {
        Seq::<Vector>::empty()
    }

    /// Whether the device's terminal is currently in raw mode. A device
    /// that does not model its configuration leaves the default.
    open spec fn raw_mode(&self) -> bool {
        false
    }

    /// Append bytes to the device's output; the device may buffer them. On
    /// failure, some prefix of the bytes may have been accepted.
    fn write_bytes(&mut self, bytes: &[u8]) -> (r: Result<(), Error>)
        ensures
            r is Ok ==> final(self).sent() == old(self).sent() + bytes@,
            r is Err ==> exists|k: int|
                0 <= k <= bytes@.len() && final(self).sent() == old(self).sent() + bytes@.take(
                    k,
                ),
            final(self).sizes() == old(self).sizes(),
            final(self).raw_mode() == old(self).raw_mode(),
    ;

    /// Release any buffered bytes to the terminal.
    fn flush(&mut self) -> (r: Result<(), Error>)
        ensures
            final(self).sent() == old(self).sent(),
            final(self).sizes() == old(self).sizes(),
            final(self).raw_mode() == old(self).raw_mode(),
    ;

    /// Retrieve the device's terminal viewport size as `(columns, lines)`.
    fn get_terminal_size(&mut self) -> (r: Result<Vector, Error>)
        ensures
            final(self).sent() == old(self).sent(),
            final(self).raw_mode() == old(self).raw_mode(),
            r matches Ok(size) ==> final(self).sizes() == old(self).sizes().push(size),
            r is Err ==> final(self).sizes() == old(self).sizes(),
    ;

    /// Enable "raw mode" in the terminal: no line buffering, no echo.
    fn enable_raw_mode(&mut self) -> (r: Result<(), Error>)
        ensures
            final(self).sent() == old(self).sent(),
            final(self).sizes() == old(self).sizes(),
            r is Ok ==> final(self).raw_mode(),
            r is Err ==> final(self).raw_mode() == old(self).raw_mode(),
    ;

    /// Restore the configuration before the terminal was placed in "raw
    /// mode".
    fn disable_raw_mode(&mut self) -> (r: Result<(), Error>)
        ensures
            final(self).sent() == old(self).sent(),
            final(self).sizes() == old(self).sizes(),
            r is Ok ==> !final(self).raw_mode(),
            r is Err ==> final(self).raw_mode() == old(self).raw_mode(),
    ;

    /// Retrieve the cursor's absolute position in the device's buffer.
    fn get_cursor_position(&mut self) -> (r: Result<Position, Error>)
        ensures
            final(self).sent() == old(self).sent(),
            final(self).sizes() == old(self).sizes(),
            final(self).raw_mode() == old(self).raw_mode(),
    ;
}

} // verus!
