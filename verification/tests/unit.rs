use std::cmp::Ordering;

use tty_interface::{Color, Position, State, Style};

#[test]
fn position_initialization() {
    let cases = [(0, 0), (0, 3), (8, 2), (4, 6)];

    for (x, y) in cases {
        let position = Position::new(x, y);

        assert_eq!(x, position.x());
        assert_eq!(y, position.y());
    }
}

#[test]
fn position_comparison() {
    let assert_case = |first: (u16, u16), second: (u16, u16), expected: Ordering| {
        let first_position = Position::new(first.0, first.1);
        let second_position = Position::new(second.0, second.1);

        assert_eq!(
            expected,
            first_position.cmp(&second_position),
            "comparing {:?} and {:?}",
            first_position,
            second_position
        );

        assert_eq!(
            Some(expected),
            first_position.partial_cmp(&second_position),
            "comparing {:?} and {:?}",
            first_position,
            second_position,
        );
    };

    let positions = [(0, 0), (0, 1), (1, 0), (1, 1)];

    let cases = [
        (positions[0], positions[0], Ordering::Equal),
        (positions[0], positions[1], Ordering::Less),
        (positions[0], positions[2], Ordering::Less),
        (positions[0], positions[3], Ordering::Less),
        (positions[1], positions[0], Ordering::Greater),
        (positions[1], positions[1], Ordering::Equal),
        (positions[1], positions[2], Ordering::Greater),
        (positions[1], positions[3], Ordering::Less),
        (positions[2], positions[0], Ordering::Greater),
        (positions[2], positions[1], Ordering::Less),
        (positions[2], positions[2], Ordering::Equal),
        (positions[2], positions[3], Ordering::Less),
        (positions[3], positions[0], Ordering::Greater),
        (positions[3], positions[1], Ordering::Greater),
        (positions[3], positions[2], Ordering::Greater),
        (positions[3], positions[3], Ordering::Equal),
    ];

    for case in cases {
        assert_case(case.0, case.1, case.2);
    }
}

#[test]
fn state_set_text() {
    let mut state = State::new();

    state.set_text(Position::new(0, 0), "A");
    state.set_text(Position::new(2, 0), "B");
    state.set_text(Position::new(1, 1), "C");

    assert_eq!(3, state.cell_count());
    assert_eq!("A", state.get_cell(Position::new(0, 0)).unwrap().grapheme());
    assert_eq!(None, state.get_cell(Position::new(0, 0)).unwrap().style());
    assert_eq!("B", state.get_cell(Position::new(2, 0)).unwrap().grapheme());
    assert_eq!("C", state.get_cell(Position::new(1, 1)).unwrap().grapheme());

    let dirty_positions: Vec<Position> = state.dirty_iter().iter().map(|e| e.0).collect();
    assert_eq!(3, dirty_positions.len());
    assert_eq!(Position::new(0, 0), dirty_positions[0]);
    assert_eq!(Position::new(2, 0), dirty_positions[1]);
    assert_eq!(Position::new(1, 1), dirty_positions[2]);
}

#[test]
fn state_set_styled_text() {
    let mut state = State::new();

    state.set_styled_text(Position::new(0, 0), "X", Style::new().set_bold(true));
    state.set_styled_text(Position::new(1, 3), "Y", Style::new().set_italic(true));
    state.set_styled_text(Position::new(2, 2), "Z", Style::new().set_foreground(Color::Blue));

    assert_eq!(3, state.cell_count());

    let x = state.get_cell(Position::new(0, 0)).unwrap();
    assert_eq!("X", x.grapheme());
    assert_eq!(Some(&Style::new().set_bold(true)), x.style());

    let y = state.get_cell(Position::new(1, 3)).unwrap();
    assert_eq!("Y", y.grapheme());
    assert_eq!(Some(&Style::new().set_italic(true)), y.style());

    let z = state.get_cell(Position::new(2, 2)).unwrap();
    assert_eq!("Z", z.grapheme());
    assert_eq!(Some(&Style::new().set_foreground(Color::Blue)), z.style());

    let dirty_positions: Vec<Position> = state.dirty_iter().iter().map(|e| e.0).collect();
    assert_eq!(3, dirty_positions.len());
    assert_eq!(Position::new(0, 0), dirty_positions[0]);
    assert_eq!(Position::new(2, 2), dirty_positions[1]);
    assert_eq!(Position::new(1, 3), dirty_positions[2]);
}

#[test]
fn state_clear_line() {
    let mut state = State::new();

    state.set_text(Position::new(0, 0), "A");
    state.set_text(Position::new(2, 0), "B");
    state.set_text(Position::new(1, 1), "C");
    state.set_text(Position::new(3, 1), "D");
    state.clear_dirty();

    assert_eq!(4, state.cell_count());
    assert_eq!("A", state.get_cell(Position::new(0, 0)).unwrap().grapheme());
    assert_eq!("B", state.get_cell(Position::new(2, 0)).unwrap().grapheme());
    assert_eq!("C", state.get_cell(Position::new(1, 1)).unwrap().grapheme());
    assert_eq!("D", state.get_cell(Position::new(3, 1)).unwrap().grapheme());

    state.clear_line(1);

    let dirty_positions: Vec<Position> = state.dirty_iter().iter().map(|e| e.0).collect();
    assert_eq!(2, dirty_positions.len());
    assert_eq!(Position::new(1, 1), dirty_positions[0]);
    assert_eq!(Position::new(3, 1), dirty_positions[1]);

    assert!(state.get_cell(Position::new(1, 1)).is_none());
    assert!(state.get_cell(Position::new(3, 1)).is_none());
    assert_eq!(2, state.cell_count());
}

#[test]
fn state_clear_dirty() {
    let mut state = State::new();

    state.set_text(Position::new(0, 0), "A");
    state.set_text(Position::new(2, 0), "B");
    state.set_text(Position::new(1, 1), "C");

    assert_eq!(3, state.cell_count());
    assert_eq!("A", state.get_cell(Position::new(0, 0)).unwrap().grapheme());
    assert_eq!("B", state.get_cell(Position::new(2, 0)).unwrap().grapheme());
    assert_eq!("C", state.get_cell(Position::new(1, 1)).unwrap().grapheme());

    state.clear_dirty();
    assert_eq!(0, state.dirty_iter().len());
    assert_eq!(3, state.cell_count());
}

#[test]
fn state_clear_rest_of_line() {
    let mut state = State::new();

    let content = ["ABC", "DEF", "GHI"];

    for row in 0..content.len() {
        let text = content[row];
        for column in 0..text.len() {
            state.set_text(
                Position::new(column as u16, row as u16),
                text.get(column..column + 1).unwrap(),
            );
        }
    }

    state.clear_dirty();

    assert_eq!(9, state.cell_count());

    state.clear_rest_of_line(Position::new(1, 1));

    assert_eq!(7, state.cell_count());

    let dirty_positions: Vec<Position> = state.dirty_iter().iter().map(|e| e.0).collect();
    assert_eq!(2, dirty_positions.len());
    assert_eq!(Position::new(1, 1), dirty_positions[0]);
    assert_eq!(Position::new(2, 1), dirty_positions[1]);

    assert!(state.get_cell(Position::new(0, 1)).is_some());
    assert!(state.get_cell(Position::new(1, 1)).is_none());
    assert!(state.get_cell(Position::new(2, 1)).is_none());
}

#[test]
fn state_clear_rest_of_interface() {
    let mut state = State::new();

    let content = ["ABC", "DEF", "GHI"];

    for row in 0..content.len() {
        let text = content[row];
        for column in 0..text.len() {
            state.set_text(
                Position::new(column as u16, row as u16),
                text.get(column..column + 1).unwrap(),
            );
        }
    }

    state.clear_dirty();

    assert_eq!(9, state.cell_count());

    state.clear_rest_of_interface(Position::new(1, 1));

    assert_eq!(4, state.cell_count());

    let dirty_positions: Vec<Position> = state.dirty_iter().iter().map(|e| e.0).collect();
    assert_eq!(5, dirty_positions.len());
    assert_eq!(Position::new(1, 1), dirty_positions[0]);
    assert_eq!(Position::new(2, 1), dirty_positions[1]);
    assert_eq!(Position::new(0, 2), dirty_positions[2]);
    assert_eq!(Position::new(1, 2), dirty_positions[3]);
    assert_eq!(Position::new(2, 2), dirty_positions[4]);
}

#[test]
fn state_dirty_iter() {
    let mut state = State::new();

    state.set_text(Position::new(0, 0), "A");
    state.clear_dirty();

    state.set_text(Position::new(2, 0), "B");
    state.set_text(Position::new(1, 1), "C");
    state.set_text(Position::new(0, 2), "D");
    state.clear_line(1);

    let dirty = state.dirty_iter();
    assert_eq!(3, dirty.len());

    assert_eq!(Position::new(2, 0), dirty[0].0);
    assert_eq!("B", dirty[0].1.as_ref().unwrap().grapheme());

    assert_eq!(Position::new(1, 1), dirty[1].0);
    assert!(dirty[1].1.is_none());

    assert_eq!(Position::new(0, 2), dirty[2].0);
    assert_eq!("D", dirty[2].1.as_ref().unwrap().grapheme());
}

#[test]
fn state_get_last_position() {
    let mut state = State::new();

    state.set_text(Position::new(3, 1), "D");
    state.set_text(Position::new(1, 1), "C");
    state.set_text(Position::new(0, 0), "A");
    state.set_text(Position::new(2, 0), "B");

    assert_eq!(Position::new(3, 1), state.get_last_position().unwrap());
}

#[test]
fn style_foreground() {
    let mut style = Style::default();
    assert_eq!(None, style.foreground());

    style = style.set_foreground(Color::Blue);
    assert_eq!(Some(Color::Blue), style.foreground());

    style = style.set_foreground(Color::Red);
    assert_eq!(Some(Color::Red), style.foreground());
}

#[test]
fn style_background() {
    let mut style = Style::default();
    assert_eq!(None, style.background());

    style = style.set_background(Color::Yellow);
    assert_eq!(Some(Color::Yellow), style.background());

    style = style.set_background(Color::Magenta);
    assert_eq!(Some(Color::Magenta), style.background());
}

#[test]
fn style_bold() {
    let mut style = Style::default();
    assert_eq!(false, style.is_bold());

    style = style.set_bold(true);
    assert_eq!(true, style.is_bold());
}

#[test]
fn style_italic() {
    let mut style = Style::default();
    assert_eq!(false, style.is_italic());

    style = style.set_italic(true);
    assert_eq!(true, style.is_italic());
}

#[test]
fn style_underline() {
    let mut style = Style::default();
    assert_eq!(false, style.is_underlined());

    style = style.set_underline(true);
    assert_eq!(true, style.is_underlined());
}
