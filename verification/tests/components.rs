use tty_interface::{
    get_chunks, merge_part_layouts, trim_part_layouts, AbsolutePosition, Error, Line, LineId,
    LineLayout, PartLayout, SegmentId, SegmentLayout, TextParameters, UpdateBatch, UpdateStep,
};

#[test]
fn chunks_of_differing_text() {
    // Overwriting "ABCDEF" with "AXCZZF" re-renders exactly the changed runs.
    let chunks = get_chunks("AXCZZF", "ABCDEF").unwrap();
    assert_eq!(vec![(1, 2), (3, 5)], chunks);
}

#[test]
fn chunks_of_longer_text() {
    // Text past the end of the previous render always needs rendering.
    let chunks = get_chunks("ABCDE", "ABC").unwrap();
    assert_eq!(vec![(3, 5)], chunks);

    let chunks = get_chunks("ABC", "ABC").unwrap();
    assert_eq!(Vec::<(usize, usize)>::new(), chunks);
}

#[test]
fn part_layout_positions() {
    let part = PartLayout::new(AbsolutePosition::new(4, 2), 3, 6, vec![1, 1, 1]);

    assert_eq!(3, part.length());
    let at_start = part.get_position(3).unwrap();
    assert_eq!((4, 2), (at_start.column(), at_start.row()));
    let at_end = part.end_position();
    assert_eq!((7, 2), (at_end.column(), at_end.row()));
    assert!(part.get_position(7).is_none());
}

#[test]
fn trimming_part_layouts() {
    let mut parts = vec![
        PartLayout::new(AbsolutePosition::new(0, 0), 0, 4, vec![1, 1, 1, 1]),
        PartLayout::new(AbsolutePosition::new(0, 1), 4, 7, vec![1, 1, 1]),
    ];

    trim_part_layouts(&mut parts, 4);

    assert_eq!(1, parts.len());
    assert_eq!(0, parts[0].start());
    assert_eq!(3, parts[0].end());
    assert_eq!(&vec![1, 1, 1], parts[0].widths());
}

#[test]
fn line_layout_wrapped_lines() {
    let part_a = PartLayout::new(AbsolutePosition::new(0, 0), 0, 4, vec![1, 1, 1, 1]);
    let part_b = PartLayout::new(AbsolutePosition::new(0, 1), 4, 6, vec![1, 1]);
    let segment = SegmentLayout::new(SegmentId::new(0), vec![part_a, part_b]);
    let line = LineLayout::new(LineId::new(0), vec![segment]);

    // One segment wrapped over two rows: one extra wrapped line, two total.
    assert_eq!(2, line.wrapped_line_count());
    let end = line.end_position().unwrap();
    assert_eq!((2, 1), (end.column(), end.row()));
}

#[test]
fn line_segment_store() {
    let mut line = Line::new(LineId::new(7));
    assert_eq!(LineId::new(7), line.identifier());
    assert!(!line.has_changes());

    let first_id = line.add_segment().identifier();
    line.add_segment().set_text("two");
    assert!(line.has_changes());

    let ids = line.segment_ids().clone();
    assert_eq!(2, ids.len());
    assert_eq!(first_id, ids[0]);
    assert_eq!(0, line.get_segment_index(&first_id).unwrap());

    let second = line.get_segment(&ids[1]).unwrap();
    assert_eq!(Some(&"two".to_string()), second.text());

    line.remove_segment(&first_id).unwrap();
    assert_eq!(1, line.segment_ids().len());

    let taken = line.take_segment(&ids[1]).unwrap();
    assert_eq!(Some(&"two".to_string()), taken.text());
    assert_eq!(0, line.segment_ids().len());
}

#[test]
fn segment_staging() {
    let mut line = Line::new(LineId::new(0));
    let segment = line.add_segment();
    assert!(!segment.has_changes());

    segment.set_text("hello");
    segment.set_color(tty_interface::format::Color::Red);
    segment.set_styles(vec![tty_interface::format::Style::Bold, tty_interface::format::Style::Underline]);
    assert!(segment.has_changes());
    assert_eq!(Some(&"hello".to_string()), segment.text());
    assert_eq!(Some(&tty_interface::format::Color::Red), segment.color());
    assert_eq!(&vec![tty_interface::format::Style::Bold, tty_interface::format::Style::Underline], segment.styles());

    segment.reset_color();
    segment.reset_styles();
    assert_eq!(None, segment.color());
    assert!(segment.styles().is_empty());
}

#[test]
fn text_parameters_styles() {
    let bold = vec![tty_interface::format::Style::Bold];
    let a = TextParameters::new("one", Some(tty_interface::format::Color::Blue), bold.clone());
    let b = a.set_text("two");

    assert_eq!("two", b.text());
    assert!(a.has_same_styles(&b));

    let c = TextParameters::new("one", None, bold);
    assert!(!a.has_same_styles(&c));
}

#[test]
fn update_batch_steps() {
    let mut batch = UpdateBatch::new();
    batch.set_cursor(tty_interface::CursorPosition::init(1, 2));
    batch.delete_line(0);
    batch.delete_segment(3, 4);

    assert_eq!(3, batch.steps.len());
    assert!(matches!(batch.steps[0], UpdateStep::SetCursor(_)));
    assert!(matches!(batch.steps[1], UpdateStep::DeleteLine(0)));
    assert!(matches!(batch.steps[2], UpdateStep::DeleteSegment(3, 4)));
}

#[test]
fn merging_part_layouts() {
    // An existing row 0 rendered for clusters 0..6; an update re-renders
    // clusters 2..4 in place.
    let mut parts = vec![PartLayout::new(AbsolutePosition::new(0, 0), 0, 6, vec![1; 6])];
    let updates = vec![PartLayout::new(AbsolutePosition::new(2, 0), 2, 4, vec![2, 2])];

    merge_part_layouts(&mut parts, updates);

    assert_eq!(1, parts.len());
    assert_eq!(0, parts[0].start());
    assert_eq!(6, parts[0].end());
    assert_eq!(&vec![1, 1, 2, 2, 1, 1], parts[0].widths());
}

#[test]
fn merging_appends_new_rows() {
    let mut parts = vec![PartLayout::new(AbsolutePosition::new(0, 0), 0, 3, vec![1; 3])];
    let updates = vec![PartLayout::new(AbsolutePosition::new(0, 1), 3, 5, vec![1, 1])];

    merge_part_layouts(&mut parts, updates);

    assert_eq!(2, parts.len());
    assert_eq!((3, 5), (parts[1].start(), parts[1].end()));
}

#[test]
fn segment_lookup_mut_and_bounds() {
    let mut line = Line::new(LineId::new(0));
    let id = line.add_segment().identifier();

    line.get_segment_mut(&id).unwrap().set_text("mut");
    assert_eq!(Some(&"mut".to_string()), line.get_segment(&id).unwrap().text());
    assert!(matches!(
        line.get_segment_mut(&SegmentId::new(99)),
        Err(Error::SegmentIdInvalid)
    ));

    assert!(matches!(line.remove_segment_at(5), Err(Error::SegmentOutOfBounds)));
    assert_eq!(1, line.segment_ids().len());
    let removed = line.remove_segment_at(0).unwrap();
    assert_eq!(id, removed);
    assert_eq!(0, line.segment_ids().len());
}
