use ublocks_ascii_art::trim_blank_lines;

#[test]
fn trim_empty_input() {
    assert_eq!(trim_blank_lines(""), "");
}

#[test]
fn trim_all_blank_rows() {
    assert_eq!(trim_blank_lines("   \n \n\n  "), "");
}

#[test]
fn trim_keeps_interior_blank_rows() {
    assert_eq!(trim_blank_lines(" \n  \nab\n   \n c \n  \n"), "ab\n   \n c ");
}

#[test]
fn trim_keeps_leading_spaces_of_first_row() {
    assert_eq!(trim_blank_lines("\n  ▘ \n▗\n"), "  ▘ \n▗");
}

#[test]
fn trim_is_idempotent() {
    let once = trim_blank_lines("\n \n x\n\ny \n \n");
    assert_eq!(once, " x\n\ny ");
    assert_eq!(trim_blank_lines(once), once);
}

#[test]
fn trim_without_blank_border_rows_is_noop() {
    assert_eq!(trim_blank_lines("a\n \nb"), "a\n \nb");
    assert_eq!(trim_blank_lines("█"), "█");
}

#[test]
fn trim_counts_only_spaces_as_blank() {
    assert_eq!(trim_blank_lines(" \n\t\n "), "\t");
}
