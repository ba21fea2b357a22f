use clippy_speech::{clippy, clippy_say, horizontal_stack, longest_line_size, say};

#[test]
fn test_say_smol() {
    let text = "smol";
    let expected = format!(
        "   ⣴⡾⠿⠿⠿⠿⠿⠿⠿⠿⠿⠿⢷⣦
   ⣿⡇          ⢸⣿
   ⣿⡇  {text}    ⢸⣿
   ⣿⡇          ⢸⣿
   ⠙⣿⡆       ⣴⣶⣾⠟
   ⢰⣿     ⢀⣠⣾⠟⠋
  ⣠⣿⠃ ⢀⣠⣤⣾⠟⠋
  ⢿⣷⡾⠿⠟⠛⠉
"
    );
    let actual = say(text);

    println!("{expected}");
    println!("{actual}");

    assert_eq!(expected, actual)
}

#[test]
fn test_say() {
    let text = "This is a test message on it's own";
    let expected = format!(
        "   ⣴⡾⠿⠿⠿⠿⠿⠿⠿⠿⠿⠿⠿⠿⠿⠿⠿⠿⠿⠿⠿⠿⠿⠿⠿⠿⠿⠿⠿⠿⠿⠿⠿⠿⠿⠿⠿⠿⠿⠿⢷⣦
   ⣿⡇                                      ⢸⣿
   ⣿⡇  {text}  ⢸⣿
   ⣿⡇                                      ⢸⣿
   ⠙⣿⡆       ⣴⣶⣶⣶⣶⣶⣶⣶⣶⣶⣶⣶⣶⣶⣶⣶⣶⣶⣶⣶⣶⣶⣶⣶⣶⣶⣶⣶⣶⣶⣾⠟
   ⢰⣿     ⢀⣠⣾⠟⠋
  ⣠⣿⠃ ⢀⣠⣤⣾⠟⠋
  ⢿⣷⡾⠿⠟⠛⠉
"
    );
    let actual = say(text);

    println!("{expected}");
    println!("{actual}");

    assert_eq!(expected, actual)
}

#[test]
fn test_clippy_say() {
    let text = "This is a test message on it's own";
    let actual = clippy_say(text);
    println!("{}", actual)
}

#[test]
fn longest_line_with_one_line() {
    assert_eq!(5, longest_line_size("hello"));
}

#[test]
fn longest_line_with_two_lines() {
    assert_eq!(7, longest_line_size("hello\ngoodbye"));
}

#[test]
fn longest_line_with_extra_newline() {
    assert_eq!(7, longest_line_size("hello\ngoodbye\n"));
}

#[test]
fn longest_line_of_nothing() {
    assert_eq!(0, longest_line_size(""));
}

#[test]
fn longest_line_counts_columns_not_characters() {
    // Full-width characters take two columns each; the Braille art takes one.
    assert_eq!(4, longest_line_size("ab\n\u{4f60}\u{597d}"));
    assert_eq!(3, longest_line_size("\u{28ff}\u{28ff}\u{28ff}"));
}

#[test]
fn stack_with_no_formatting() {
    assert_eq!("123456\n123456", horizontal_stack("123\n123", "456\n456"));
}

#[test]
fn stack_with_formatting() {
    assert_eq!("12345678\n123  456", horizontal_stack("12345\n123", "678\n456"));
}

#[test]
fn stack_with_more_lines_in_str1() {
    assert_eq!("123456\n123456\n123", horizontal_stack("123\n123\n123", "456\n456"));
}

#[test]
fn stack_with_more_lines_in_str2() {
    assert_eq!("123456\n123456\n   456", horizontal_stack("123\n123", "456\n456\n456"));
}

#[test]
fn stack_of_nothing() {
    assert_eq!("", horizontal_stack("", ""));
}

#[test]
fn stack_aligns_after_wide_characters() {
    // The left block is four columns wide; the right text starts past it on every row.
    assert_eq!(
        "\u{4f60}\u{597d}x\nab  y",
        horizontal_stack("\u{4f60}\u{597d}\nab", "x\ny")
    );
}

#[test]
fn stack_keeps_line_count() {
    let out = horizontal_stack("a\nbb\nccc\n", "1\n2");
    assert_eq!(3, out.lines().count());
    assert!(!out.ends_with('\n'));
    assert_eq!("a  1\nbb 2\nccc", out);
}

#[test]
fn stack_ending_in_a_blank_row() {
    // The last row is empty, so the row before it keeps its newline.
    assert_eq!("\n", horizontal_stack("\n\n", ""));
}

#[test]
fn stack_drops_carriage_returns_of_line_ends() {
    assert_eq!("ab\ncd", horizontal_stack("a\r\nc", "b\r\nd"));
}

#[test]
fn say_nothing_has_minimum_width() {
    let expected = "   \u{28f4}\u{287e}\u{283f}";
    let actual = say("");
    assert!(actual.starts_with(expected));
    let rows: Vec<&str> = actual.lines().collect();
    // Top, two blank rows, bottom, three rows of tail.
    assert_eq!(7, rows.len());
    assert_eq!("   \u{28ff}\u{2847}          \u{28b8}\u{28ff}", rows[1]);
    assert_eq!(rows[1], rows[2]);
}

#[test]
fn say_pads_every_line_to_the_widest() {
    let actual = say("a\nlonger line");
    let rows: Vec<&str> = actual.lines().collect();
    assert_eq!("   \u{28ff}\u{2847}  a            \u{28b8}\u{28ff}", rows[2]);
    assert_eq!("   \u{28ff}\u{2847}  longer line  \u{28b8}\u{28ff}", rows[3]);
}

#[test]
fn say_row_width_matches_box() {
    // One wide line: sides of 7 and 4 columns around 11 columns of text.
    let actual = say("hello world");
    let rows: Vec<&str> = actual.lines().collect();
    assert_eq!("   \u{28ff}\u{2847}  hello world  \u{28b8}\u{28ff}", rows[2]);
    assert_eq!(7 + 11 + 4, rows[2].chars().count());
    assert_eq!(7 + 11 + 4, rows[0].chars().count());
}

#[test]
fn clippy_is_the_mascot() {
    let art = clippy();
    assert!(art.starts_with("\n        \u{2880}"));
    assert_eq!(24, art.lines().count());
}

#[test]
fn clippy_say_raises_mascot_beside_tall_bubble() {
    let text = "1\n2\n3\n4\n5\n6\n7\n8\n9\n10\n11\n12\n13\n14\n15\n16\n17\n18\n19\n20";
    let bubble = say(text);
    let out = clippy_say(text);
    assert_eq!(bubble.lines().count(), out.lines().count());
    assert!(out.lines().last().unwrap().ends_with("\u{283f}\u{281f}\u{281b}\u{2809}"));
}

#[test]
fn clippy_say_beside_short_bubble() {
    let out = clippy_say("hi");
    assert_eq!(clippy().lines().count(), out.lines().count());
    assert!(out.contains("  hi    "));
}
