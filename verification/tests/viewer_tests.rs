use texttools::compare::format_row;
use texttools::viewer::TextViewer;

fn doc(n: usize) -> Vec<String> {
    (0..n).map(|i| format!("line {}", i)).collect()
}

#[test]
fn cursor_moves_stay_inside_screen_and_document() {
    let mut v = TextViewer::init(doc(5), 10, 8, "demo.txt".to_string());
    assert_eq!((v.cur_pos.x, v.cur_pos.y), (1, 5));

    v.dec_x();
    assert_eq!(v.cur_pos.x, 1);
    v.inc_x();
    assert_eq!(v.cur_pos.x, 2);
    v.inc_y();
    assert_eq!(v.cur_pos.y, 5);
    v.dec_y();
    assert_eq!(v.cur_pos.y, 4);
    v.set_pos(3, 2);
    assert_eq!((v.cur_pos.x, v.cur_pos.y), (3, 2));
}

#[test]
fn visible_window_follows_the_cursor() {
    // The whole document fits.
    let v = TextViewer::init(doc(5), 80, 24, "demo.txt".to_string());
    assert_eq!(v.visible_window(), (0, 5));

    // Too long: the top of the document while the cursor is high up.
    let mut v = TextViewer::init(doc(100), 80, 24, "demo.txt".to_string());
    v.set_pos(1, 10);
    assert_eq!(v.visible_window(), (0, 21));

    // Further down: the screenful ending at the cursor's line.
    v.set_pos(1, 50);
    assert_eq!(v.visible_window(), (29, 50));
}

#[test]
fn format_row_places_text_and_delimiters() {
    assert_eq!(format_row("a", "", "", true, true, true, "\t"), "a");
    assert_eq!(format_row("", "b", "", true, true, true, "\t"), "\tb");
    assert_eq!(format_row("", "", "c", true, true, true, "\t"), "\t\tc");
    assert_eq!(format_row("", "", "c", false, true, true, "\t"), "\tc");
    assert_eq!(format_row("", "b", "", true, false, true, "\t"), "\t");
}
