use tty_interface::{test::VirtualDevice, Color, Interface, Position, Style};

#[test]
fn basic_write() {
    let device = VirtualDevice::new();
    let mut interface = Interface::new_alternate(device).unwrap();

    interface.set(Position::new(0, 0), "Hello, world!");
    interface.apply().unwrap();

    assert_eq!("Hello, world!", &interface.device().parser().contents());
}

#[test]
fn multiple_writes() {
    let device = VirtualDevice::new();
    let mut interface = Interface::new_alternate(device).unwrap();

    interface.set(Position::new(0, 0), "Line 1");
    interface.apply().unwrap();

    interface.set(Position::new(0, 1), "Line 2");
    interface.apply().unwrap();

    interface.set(Position::new(7, 0), "with more");
    interface.apply().unwrap();

    assert_eq!(
        "Line 1 with more\nLine 2",
        &interface.device().parser().contents()
    );
}

#[test]
fn overlapping_writes() {
    let device = VirtualDevice::new();
    let mut interface = Interface::new_alternate(device).unwrap();

    interface.set(Position::new(0, 0), "ABCDEF");
    interface.apply().unwrap();

    interface.set(Position::new(1, 0), "X");
    interface.apply().unwrap();

    interface.set(Position::new(3, 0), "ZZ");
    interface.apply().unwrap();

    assert_eq!("AXCZZF", &interface.device().parser().contents());
}

#[test]
fn multiple_overlapping_formatted_writes() {
    let device = VirtualDevice::new();
    let mut interface = Interface::new_alternate(device).unwrap();

    interface.set_styled(Position::new(0, 0), "FIRST", Style::new().set_bold(true));
    interface.apply().unwrap();

    interface.set(Position::new(2, 0), "SECOND");
    interface.apply().unwrap();

    interface.set_styled(
        Position::new(4, 0),
        "THIRD",
        Style::new().set_italic(true).set_foreground(Color::Red),
    );
    interface.apply().unwrap();

    let expected_text = ["F", "I", "S", "E", "T", "H", "I", "R", "D"];
    let expected_bold = [true, true, false, false, false, false, false, false, false];
    let expected_italic = [false, false, false, false, true, true, true, true, true];
    let expected_color = [
        None,
        None,
        None,
        None,
        Some(9),
        Some(9),
        Some(9),
        Some(9),
        Some(9),
    ];

    assert_eq!("FISETHIRD", &interface.device().parser().contents());

    for column in 0..expected_text.len() {
        let terminal = interface.device().parser();
        assert_eq!(
            expected_text[column],
            terminal.cell_contents(0, column as u16).unwrap()
        );
        assert_eq!(
            expected_bold[column],
            terminal.cell_bold(0, column as u16).unwrap()
        );
        assert_eq!(
            expected_italic[column],
            terminal.cell_italic(0, column as u16).unwrap()
        );
        assert_eq!(
            expected_color[column],
            terminal.cell_fgcolor_index(0, column as u16).unwrap()
        );
    }
}

#[test]
fn clearing_lines() {
    let device = VirtualDevice::new();
    let mut interface = Interface::new_alternate(device).unwrap();

    interface.set(Position::new(0, 0), "ABC");
    interface.set(Position::new(0, 1), "DEF");
    interface.set(Position::new(0, 2), "GHI");
    interface.apply().unwrap();

    interface.clear_line(1);
    interface.apply().unwrap();

    assert_eq!("ABC\n   \nGHI", &interface.device().parser().contents());
}

#[test]
fn clearing_rest_of_line() {
    let device = VirtualDevice::new();
    let mut interface = Interface::new_alternate(device).unwrap();

    interface.set(Position::new(0, 0), "ABC");
    interface.set(Position::new(0, 1), "DEF");
    interface.set(Position::new(0, 2), "GHI");
    interface.apply().unwrap();

    interface.clear_rest_of_line(Position::new(1, 1));
    interface.apply().unwrap();

    assert_eq!("ABC\nD  \nGHI", &interface.device().parser().contents());
}

#[test]
fn clearing_rest_of_interface() {
    let device = VirtualDevice::new();
    let mut interface = Interface::new_alternate(device).unwrap();

    interface.set(Position::new(0, 0), "ABC");
    interface.set(Position::new(0, 1), "DEF");
    interface.set(Position::new(0, 2), "GHI");
    interface.apply().unwrap();

    interface.clear_rest_of_interface(Position::new(1, 1));
    interface.apply().unwrap();

    assert_eq!("ABC\nD  \n   ", &interface.device().parser().contents());
}

#[test]
fn cursor_visible_after_exit_alternate() {
    let device = VirtualDevice::new();
    let interface = Interface::new_alternate(device).unwrap();

    let mut device = interface.exit().unwrap();

    let is_visible = !device.parser().hide_cursor();
    assert!(is_visible);
}

#[test]
fn cursor_visible_after_exit_relative() {
    let device = VirtualDevice::new();
    let interface = Interface::new_relative(device).unwrap();

    let mut device = interface.exit().unwrap();

    let is_visible = !device.parser().hide_cursor();
    assert!(is_visible);
}

#[test]
fn cursor_visible_after_exit_with_content() {
    let device = VirtualDevice::new();
    let mut interface = Interface::new_alternate(device).unwrap();

    interface.set(Position::new(0, 0), "Hello, world!");
    interface.apply().unwrap();

    let mut device = interface.exit().unwrap();

    let is_visible = !device.parser().hide_cursor();
    assert!(is_visible);
}
