use tty_interface::{
    test::VirtualDevice, Configuration, CursorMode, Error, Interface, Position, RenderMode, State,
    Vector,
};

#[test]
fn second_apply_emits_no_bytes() {
    let device = VirtualDevice::new();
    let mut interface = Interface::new_alternate(device).unwrap();

    interface.set(Position::new(0, 0), "Hello, world!");
    interface.apply().unwrap();

    let after_first = interface.device().bytes_written();
    interface.apply().unwrap();
    let after_second = interface.device().bytes_written();

    assert_eq!(after_first, after_second);
    assert_eq!("Hello, world!", &interface.device().parser().contents());
}

#[test]
fn staging_equal_cell_emits_no_cells() {
    let device = VirtualDevice::new();
    let mut interface = Interface::new_alternate(device).unwrap();

    interface.set(Position::new(0, 0), "A");
    interface.apply().unwrap();

    let after_first = interface.device().bytes_written();
    interface.set(Position::new(0, 0), "A");
    interface.apply().unwrap();
    let after_second = interface.device().bytes_written();

    // The position is not re-emitted: the second commit carries only the
    // hide-cursor preamble (CSI ? 2 5 l: six bytes).
    assert_eq!(after_first + 6, after_second);
    assert_eq!("A", &interface.device().parser().contents());
}

#[test]
fn wrap_at_last_column() {
    let device = VirtualDevice::new();
    let mut interface = Interface::new_alternate(device).unwrap();

    // The default virtual terminal is 80 columns wide: column 79 is the last.
    interface.set(Position::new(79, 0), "XYZ");
    interface.apply().unwrap();

    let terminal = interface.device().parser();
    assert_eq!("X", terminal.cell_contents(0, 79).unwrap());
    assert_eq!("Y", terminal.cell_contents(1, 0).unwrap());
    assert_eq!("Z", terminal.cell_contents(1, 1).unwrap());
}

#[test]
fn clear_line_round_trip() {
    let device = VirtualDevice::new();
    let mut interface = Interface::new_alternate(device).unwrap();

    interface.set(Position::new(2, 1), "X");
    interface.apply().unwrap();
    assert_eq!("\n  X", &interface.device().parser().contents());

    interface.clear_line(1);
    interface.apply().unwrap();

    // The row reads back visibly blank: only whitespace remains.
    let contents = interface.device().parser().contents();
    assert!(contents.chars().all(|c| c == ' ' || c == '\n'));
}

#[test]
fn relative_exit_lands_below_content() {
    let device = VirtualDevice::new();
    let mut interface = Interface::new_relative(device).unwrap();

    interface.set(Position::new(0, 0), "Hello, world!");
    interface.apply().unwrap();

    let mut device = interface.exit().unwrap();

    assert_eq!("Hello, world!", &device.parser().contents());
    assert!(!device.parser().hide_cursor());
    let (row, column) = device.parser().cursor_position();
    assert_eq!((1, 0), (row, column));
}

#[test]
fn staged_cursor_is_parked_and_shown() {
    let device = VirtualDevice::new();
    let mut interface = Interface::new_alternate(device).unwrap();

    interface.set(Position::new(0, 0), "Hi");
    interface.set_cursor(Some(Position::new(5, 3)));
    interface.apply().unwrap();

    let terminal = interface.device().parser();
    assert!(!terminal.hide_cursor());
    assert_eq!((3, 5), terminal.cursor_position());
}

#[test]
fn cursor_stays_hidden_without_staged_cursor() {
    let device = VirtualDevice::new();
    let mut interface = Interface::new_alternate(device).unwrap();

    interface.set(Position::new(0, 0), "Hi");
    interface.apply().unwrap();

    assert!(interface.device().parser().hide_cursor());
}

#[test]
fn combining_mark_stays_in_one_cell() {
    let device = VirtualDevice::new();
    let mut interface = Interface::new_alternate(device).unwrap();

    // A letter followed by a combining acute accent is one user-perceived
    // character and occupies a single cell.
    interface.set(Position::new(0, 0), "e\u{301}X");
    interface.apply().unwrap();

    let terminal = interface.device().parser();
    assert_eq!("e\u{301}", terminal.cell_contents(0, 0).unwrap());
    assert_eq!("X", terminal.cell_contents(0, 1).unwrap());
}

#[test]
fn state_last_position_of_empty_grid() {
    let state = State::new();
    assert!(state.get_last_position().is_none());
}

#[test]
fn error_wraps_io_error() {
    let io_error = std::io::Error::new(std::io::ErrorKind::Other, "device gone");
    let error = Error::from(io_error);
    assert!(matches!(error, Error::Terminal(_)));
}

#[test]
fn vector_initialization() {
    let size = Vector::new(7, 4);
    assert_eq!(7, size.x());
    assert_eq!(4, size.y());
}

#[test]
fn configuration_defaults() {
    let configuration = Configuration::default();
    assert_eq!(CursorMode::Relative, configuration.cursor_mode());
    assert_eq!(RenderMode::Full, configuration.render_mode());
}

#[test]
fn wrap_spans_several_rows() {
    let device = VirtualDevice::new();
    let mut interface = Interface::new_alternate(device).unwrap();

    // 95 distinct-patterned clusters written at the last column of an
    // 80-column screen: cluster 0 stays at (79, 0), clusters 1..=80 fill
    // row 1, clusters 81..=94 start row 2.
    let text: String = (0..95u8).map(|i| char::from(b'A' + (i % 26))).collect();
    interface.set(Position::new(79, 0), &text);
    interface.apply().unwrap();

    let cluster = |i: u8| char::from(b'A' + (i % 26)).to_string();
    let terminal = interface.device().parser();
    assert_eq!(cluster(0), terminal.cell_contents(0, 79).unwrap());
    assert_eq!(cluster(1), terminal.cell_contents(1, 0).unwrap());
    assert_eq!(cluster(80), terminal.cell_contents(1, 79).unwrap());
    assert_eq!(cluster(81), terminal.cell_contents(2, 0).unwrap());
    assert_eq!(cluster(94), terminal.cell_contents(2, 13).unwrap());
}
