use vga_terminal::cursor::Point;
use vga_terminal::terminal::{hex, itoc, wtoc, Terminal};
use vga_terminal::vga::{CellWrite, Color, Vga};

fn fresh(width: usize, height: usize) -> Terminal {
    Terminal::new(Vga::new(width, height))
}

fn cell(x: usize, y: usize, code: u8, fg: Color, bg: Color) -> CellWrite {
    CellWrite { x, y, code, fg, bg }
}

#[test]
fn new_starts_at_origin() {
    let t = fresh(80, 25);
    assert_eq!(t.current, Point { x: 0, y: 0 });
    assert_eq!(t.max, Point { x: 80, y: 25 });
    assert_eq!(t.vga.width, 80);
    assert_eq!(t.vga.height, 25);
    assert!(t.vga.writes.is_empty());
}

#[test]
fn put_char_interior_advances_then_writes() {
    let mut t = fresh(80, 25);
    t.put_char(65); // 'A'
    assert_eq!(t.current, Point { x: 1, y: 0 });
    assert_eq!(t.vga.writes, vec![cell(1, 0, 65, Color::White, Color::Black)]);
}

#[test]
fn put_char_line_break_moves_cursor_only() {
    let mut t = fresh(80, 25);
    t.put_char(65);
    t.put_char(10); // line break
    assert_eq!(t.current, Point { x: 0, y: 1 });
    assert_eq!(t.vga.writes.len(), 1);
}

#[test]
fn put_char_rollover_at_bottom_right() {
    // On a 1x1 grid the origin is the bottom-right cell: the cursor rolls
    // over to the top-left and the character lands there.
    let mut t = fresh(1, 1);
    t.put_char(97); // 'a'
    assert_eq!(t.current, Point { x: 0, y: 0 });
    assert_eq!(t.vga.writes, vec![cell(0, 0, 97, Color::White, Color::Black)]);
}

#[test]
fn put_char_last_column_keeps_marching() {
    // From the last column of a row that is not the last, the column keeps
    // increasing: the cursor leaves the grid to the right.
    let mut t = fresh(2, 2);
    t.put_char(97); // to (1, 0), the last column
    t.put_char(98); // to (2, 0), past the grid
    assert_eq!(t.current, Point { x: 2, y: 0 });
    assert_eq!(
        t.vga.writes,
        vec![
            cell(1, 0, 97, Color::White, Color::Black),
            cell(2, 0, 98, Color::White, Color::Black),
        ]
    );
}

#[test]
fn put_char_last_row_rolls_row_forward() {
    // From the last row (not the bottom-right cell) the cursor goes to the
    // start of the row below the grid.
    let mut t = fresh(2, 2);
    t.put_char(10); // line break: to (0, 1), the last row
    t.put_char(99); // to (0, 2), one row past the grid
    assert_eq!(t.current, Point { x: 0, y: 2 });
    assert_eq!(t.vga.writes, vec![cell(0, 2, 99, Color::White, Color::Black)]);
}

#[test]
fn line_break_on_last_row_leaves_row_out_of_bounds() {
    let mut t = fresh(2, 2);
    t.put_char(10);
    t.put_char(10);
    assert_eq!(t.current, Point { x: 0, y: 2 });
    assert!(t.vga.writes.is_empty());
}

#[test]
fn hex_digit_values() {
    assert_eq!(hex(0), 48); // '0'
    assert_eq!(hex(9), 57); // '9'
    assert_eq!(hex(10), 65); // 'A'
    assert_eq!(hex(15), 70); // 'F'
}

#[test]
fn hex_digit_sentinel_above_fifteen() {
    assert_eq!(hex(16), 122); // 'z'
    assert_eq!(hex(255), 122);
}

#[test]
fn itoc_splits_byte_into_digit_pair() {
    assert_eq!(itoc(0xAB), (65, 66)); // ('A', 'B')
    assert_eq!(itoc(0x00), (48, 48));
    assert_eq!(itoc(0x0F), (48, 70));
}

#[test]
fn wtoc_orders_nibbles_most_significant_first() {
    // 0x12345678 displays as the digits '1' through '8'.
    assert_eq!(wtoc(0x12345678), (49, 50, 51, 52, 53, 54, 55, 56));
}

#[test]
fn put_hex_emits_prefix_and_two_digits() {
    let mut t = fresh(80, 25);
    t.put_hex(0xAB);
    let codes: Vec<u8> = t.vga.writes.iter().map(|w| w.code).collect();
    assert_eq!(codes, b"0xAB".to_vec());
    let positions: Vec<(usize, usize)> = t.vga.writes.iter().map(|w| (w.x, w.y)).collect();
    assert_eq!(positions, vec![(1, 0), (2, 0), (3, 0), (4, 0)]);
    assert_eq!(t.current, Point { x: 4, y: 0 });
}

#[test]
fn put_int_emits_prefix_and_eight_digits() {
    let mut t = fresh(80, 25);
    t.put_int(0x12345678);
    let codes: Vec<u8> = t.vga.writes.iter().map(|w| w.code).collect();
    assert_eq!(codes, b"0x12345678".to_vec());
    assert_eq!(t.current, Point { x: 10, y: 0 });
}

#[test]
fn put_int_zero() {
    let mut t = fresh(80, 25);
    t.put_int(0);
    let codes: Vec<u8> = t.vga.writes.iter().map(|w| w.code).collect();
    assert_eq!(codes, b"0x00000000".to_vec());
}

#[test]
fn print_writes_each_byte_in_order() {
    let mut t = fresh(80, 25);
    t.print("hi");
    assert_eq!(
        t.vga.writes,
        vec![
            cell(1, 0, 104, Color::White, Color::Black),
            cell(2, 0, 105, Color::White, Color::Black),
        ]
    );
    assert_eq!(t.current, Point { x: 2, y: 0 });
}

#[test]
fn print_empty_writes_nothing() {
    let mut t = fresh(80, 25);
    t.print("");
    assert!(t.vga.writes.is_empty());
    assert_eq!(t.current, Point { x: 0, y: 0 });
}

#[test]
fn println_ab_on_fresh_grid() {
    // The cursor advances before each write: 'A' lands at (1, 0) and 'B' at
    // (2, 0); the closing line break moves the cursor to (0, 1) and writes
    // nothing.
    let mut t = fresh(80, 25);
    t.println("AB");
    assert_eq!(
        t.vga.writes,
        vec![
            cell(1, 0, 65, Color::White, Color::Black),
            cell(2, 0, 66, Color::White, Color::Black),
        ]
    );
    assert_eq!(t.current, Point { x: 0, y: 1 });
}

#[test]
fn println_empty_is_just_a_line_break() {
    let mut t = fresh(80, 25);
    t.println("");
    assert!(t.vga.writes.is_empty());
    assert_eq!(t.current, Point { x: 0, y: 1 });
}

#[test]
fn clear_screen_blanks_every_cell_once_column_major() {
    let mut t = fresh(3, 2);
    t.clear_screen();
    let expected: Vec<CellWrite> = vec![
        cell(0, 0, 0, Color::Black, Color::Black),
        cell(0, 1, 0, Color::Black, Color::Black),
        cell(1, 0, 0, Color::Black, Color::Black),
        cell(1, 1, 0, Color::Black, Color::Black),
        cell(2, 0, 0, Color::Black, Color::Black),
        cell(2, 1, 0, Color::Black, Color::Black),
    ];
    assert_eq!(t.vga.writes, expected);
    // Exactly width * height writes, covering each coordinate exactly once.
    assert_eq!(t.vga.writes.len(), 6);
    for x in 0..3 {
        for y in 0..2 {
            let hits = t.vga.writes.iter().filter(|w| w.x == x && w.y == y).count();
            assert_eq!(hits, 1);
        }
    }
}

#[test]
fn clear_screen_does_not_reset_cursor() {
    let mut t = fresh(80, 25);
    t.put_char(65);
    t.clear_screen();
    assert_eq!(t.current, Point { x: 1, y: 0 });
}

#[test]
fn device_reports_its_dimensions() {
    let v = Vga::new(40, 12);
    assert_eq!(v.x_max(), 40);
    assert_eq!(v.y_max(), 12);
}
