use tapelang::memory_tape::MemoryTape;

#[test]
fn basic_increment() {
    let mut tape = MemoryTape::new();
    tape.set_cell_value(0);
    tape.increment();

    assert_eq!(tape.get_current_value(), 1);
}

#[test]
fn overflow_increment() {
    let mut tape = MemoryTape::new();
    tape.set_cell_value(255);
    tape.increment();

    assert_eq!(tape.get_current_value(), 0);
}

#[test]
fn basic_decrement() {
    let mut tape = MemoryTape::new();
    tape.set_cell_value(5);
    tape.decrement();

    assert_eq!(tape.get_current_value(), 4);
}

#[test]
fn overflow_decrement() {
    let mut tape = MemoryTape::new();
    tape.set_cell_value(0);
    tape.decrement();

    assert_eq!(tape.get_current_value(), 255);
}

#[test]
fn basic_move_left_and_right() {
    let mut tape = MemoryTape::new();

    tape.move_right();
    assert_eq!(tape.head_position, 1);

    tape.move_left();
    assert_eq!(tape.head_position, 0);
}

#[test]
fn out_of_range_move_left_and_right() {
    let mut tape = MemoryTape::new();

    tape.move_left();
    assert_eq!(tape.head_position, 0);

    tape.move_to(29_999);
    tape.move_right();
    assert_eq!(tape.head_position, 29_999);
}

#[test]
fn move_to_out_of_range_is_ignored() {
    let mut tape = MemoryTape::new();
    tape.move_to(7);
    assert_eq!(tape.head_position, 7);

    tape.move_to(30_000);
    assert_eq!(tape.head_position, 7);
}

#[test]
fn render_window_at_origin() {
    let tape = MemoryTape::new();
    let (cells, indexes, head) = tape.render_tape_sniplet();

    assert_eq!(cells, "[0][0][0][0][0][0][0][0][0][0][0 ]");
    assert_eq!(indexes, "[0][1][2][3][4][5][6][7][8][9][10]");
    // one three-wide column with the caret, nine three-wide ones, one four-wide
    assert_eq!(head, format!("_^{}", "_".repeat(32)));
}

#[test]
fn render_window_centered() {
    let mut tape = MemoryTape::new();
    tape.move_to(100);
    tape.set_cell_value(42);
    let (cells, indexes, head) = tape.render_tape_sniplet();

    // window spans indexes 95..=105, centered on the head at 100
    assert_eq!(cells, "[0 ][0 ][0 ][0 ][0 ][42 ][0  ][0  ][0  ][0  ][0  ]");
    assert_eq!(indexes, "[95][96][97][98][99][100][101][102][103][104][105]");
    let expected_head = format!("{}__^__{}", "_".repeat(20), "_".repeat(25));
    assert_eq!(head, expected_head);
}
