use vstd::prelude::*;
use crate::device::Device;
use crate::position::Position;
use crate::result::Error;
use crate::vector::Vector;

verus! {

/// An in-memory terminal emulator, held opaquely: bytes fed to it are
/// interpreted as a real terminal would, and the resulting screen can be
/// read back cell by cell. Backed by vt100's parser.
#[verifier::external_body]
pub struct VirtualTerminal {
    parser: vt100::Parser,
}

impl VirtualTerminal {
    /// A fresh terminal with vt100's default size: 80 columns by 24 rows.
    ///
    /// Relies on `vt100::Parser::default`.
    #[verifier::external_body]
    fn new() -> VirtualTerminal {
        VirtualTerminal { parser: vt100::Parser::default() }
    }

    /// Interpret bytes, updating the in-memory screen.
    ///
    /// Relies on `vt100::Parser::process`.
    #[verifier::external_body]
    fn process(&mut self, bytes: &[u8]) {
        self.parser.process(bytes);
    }

    /// The screen's `(rows, columns)` size.
    ///
    /// Relies on `vt100::Screen::size`.
    #[verifier::external_body]
    fn size(&self) -> (u16, u16) {
        self.parser.screen().size()
    }

    /// The visible screen contents, rows joined by newlines, with trailing
    /// blanks trimmed.
    ///
    /// Relies on `vt100::Screen::contents`.
    #[verifier::external_body]
    pub fn contents(&self) -> String {
        self.parser.screen().contents()
    }

    /// The terminal's cursor position as `(row, column)`.
    ///
    /// Relies on `vt100::Screen::cursor_position`.
    #[verifier::external_body]
    pub fn cursor_position(&self) -> (u16, u16) {
        self.parser.screen().cursor_position()
    }

    /// Whether the terminal's cursor is currently hidden.
    ///
    /// Relies on `vt100::Screen::hide_cursor`.
    #[verifier::external_body]
    pub fn hide_cursor(&self) -> bool {
        self.parser.screen().hide_cursor()
    }

    /// The text of the cell at the zero-indexed `(row, column)`, or `None`
    /// when the position lies outside the screen.
    ///
    /// Relies on `vt100::Screen::cell` and `vt100::Cell::contents`.
    #[verifier::external_body]
    pub fn cell_contents(&self, row: u16, column: u16) -> Option<String> {
        self.parser.screen().cell(row, column).map(|c| c.contents().to_string())
    }

    /// Whether the cell at `(row, column)` is rendered bold.
    ///
    /// Relies on `vt100::Screen::cell` and `vt100::Cell::bold`.
    #[verifier::external_body]
    pub fn cell_bold(&self, row: u16, column: u16) -> Option<bool> {
        self.parser.screen().cell(row, column).map(|c| c.bold())
    }

    /// Whether the cell at `(row, column)` is rendered italic.
    ///
    /// Relies on `vt100::Screen::cell` and `vt100::Cell::italic`.
    #[verifier::external_body]
    pub fn cell_italic(&self, row: u16, column: u16) -> Option<bool> {
        self.parser.screen().cell(row, column).map(|c| c.italic())
    }

    /// The foreground palette index of the cell at `(row, column)`: `None`
    /// when the position lies outside the screen, `Some(None)` for the
    /// terminal's default foreground, and `Some(Some(i))` for palette color
    /// `i`. A direct-color cell also reads as the default here.
    ///
    /// Relies on `vt100::Screen::cell` and `vt100::Cell::fgcolor`.
    #[verifier::external_body]
    pub fn cell_fgcolor_index(&self, row: u16, column: u16) -> Option<Option<u8>> {
        self.parser.screen().cell(row, column).map(|c| match c.fgcolor() {
            vt100::Color::Default => None,
            vt100::Color::Idx(i) => Some(i),
            vt100::Color::Rgb(_, _, _) => None,
        })
    }
}

/// A virtual testing device backed by an in-memory terminal: what an
/// interface writes through it can be read back as a rendered screen.
pub struct VirtualDevice {
    terminal: VirtualTerminal,
    written: usize,
    log: Ghost<Seq<u8>>,
    reported: Ghost<Seq<Vector>>,
    raw: Ghost<bool>,
}

impl VirtualDevice {
    /// Create a new device based around a virtual terminal.
    pub fn new() -> (r: Self)
        ensures
            r.sent() == Seq::<u8>::empty(),
            r.sizes() == Seq::<Vector>::empty(),
            !r.raw_mode(),
    {
        VirtualDevice {
            terminal: VirtualTerminal::new(),
            written: 0,
            log: Ghost(Seq::empty()),
            reported: Ghost(Seq::empty()),
            raw: Ghost(false),
        }
    }

    /// Access this device's underlying terminal.
    pub fn parser(&mut self) -> &mut VirtualTerminal {
        &mut self.terminal
    }

    /// How many bytes have been written to this device so far (saturating).
    pub fn bytes_written(&self) -> usize {
        self.written
    }
}

impl Default for VirtualDevice {
    /// A fresh virtual device with an empty output history.
    fn default() -> (r: Self)
        ensures
            r.sent() == Seq::<u8>::empty(),
            r.sizes() == Seq::<Vector>::empty(),
            !r.raw_mode(),
    {
        VirtualDevice::new()
    }
}

impl Device for VirtualDevice {
    closed spec fn sent(&self) -> Seq<u8> {
        self.log@
    }

    closed spec fn sizes(&self) -> Seq<Vector> {
        self.reported@
    }

    closed spec fn raw_mode(&self) -> bool {
        self.raw@
    }

    /// The virtual terminal accepts every byte: writing never fails.
    fn write_bytes(&mut self, bytes: &[u8]) -> (r: Result<(), Error>)
        ensures
            r is Ok,
            final(self).sent() == old(self).sent() + bytes@,
    {
        self.terminal.process(bytes);
        let count = bytes.len();
        self.written = if self.written <= usize::MAX - count {
            self.written + count
        } else {
            usize::MAX
        };
        proof {
            self.log@ = self.log@ + bytes@;
        }
        Ok(())
    }

    /// Nothing is buffered: flushing never fails.
    fn flush(&mut self) -> (r: Result<(), Error>)
        ensures
            r is Ok,
    {
        Ok(())
    }

    /// The virtual screen always has a size to report.
    fn get_terminal_size(&mut self) -> (r: Result<Vector, Error>)
        ensures
            r is Ok,
    {
        let (lines, columns) = self.terminal.size();
        let size = Vector::new(columns, lines);
        proof {
            self.reported@ = self.reported@.push(size);
        }
        Ok(size)
    }

    /// There is no real terminal configuration to change: enabling raw mode
    /// only records the request, and never fails.
    fn enable_raw_mode(&mut self) -> (r: Result<(), Error>)
        ensures
            r is Ok,
    {
        proof {
            self.raw@ = true;
        }
        Ok(())
    }

    /// The inverse of `enable_raw_mode`; never fails.
    fn disable_raw_mode(&mut self) -> (r: Result<(), Error>)
        ensures
            r is Ok,
    {
        proof {
            self.raw@ = false;
        }
        Ok(())
    }

    /// The virtual cursor's reported home: the origin.
    fn get_cursor_position(&mut self) -> (r: Result<Position, Error>)
        ensures
            r matches Ok(p) && p == (Position { y: 0, x: 0 }),
    {
        Ok(Position::new(0, 0))
    }
}

} // verus!
