use rust_ping::bytes::format_hex_dump;

#[test]
fn formats_single_line_dump() {
    let dump = format_hex_dump(b"ABC");
    assert!(dump.contains("0000: 41 42 43"));
    assert!(dump.ends_with("ABC"));
}

#[test]
fn single_line_dump_is_exact() {
    let dump = format_hex_dump(b"ABC");
    let expected = format!("0000: 41 42 43 {} ABC", "   ".repeat(13));
    assert_eq!(dump, expected);
}

#[test]
fn empty_input_gives_empty_dump() {
    assert_eq!(format_hex_dump(&[]), "");
}

#[test]
fn multi_line_dump_is_exact() {
    let bytes: Vec<u8> = (0u8..20).map(|b| b.wrapping_mul(13).wrapping_add(0x1e)).collect();
    let dump = format_hex_dump(&bytes);
    let lines: Vec<&str> = dump.split('\n').collect();
    assert_eq!(lines.len(), 2);
    assert_eq!(
        lines[0],
        "0000: 1e 2b 38 45 52 5f 6c 79 86 93 a0 ad ba c7 d4 e1  .+8ER_ly........"
    );
    assert_eq!(lines[1], format!("0010: ee fb 08 15 {} ....", "   ".repeat(12)));
    assert!(!dump.ends_with('\n'));
}

#[test]
fn full_line_has_no_trailing_newline() {
    let bytes = [b' '; 16];
    let dump = format_hex_dump(&bytes);
    assert_eq!(dump, format!("0000: {} {}", "20 ".repeat(16), " ".repeat(16)));
}

#[test]
fn text_column_shows_graphic_ascii_and_space_only() {
    let dump = format_hex_dump(&[0x1f, 0x20, 0x21, 0x7e, 0x7f, 0xff]);
    assert!(dump.ends_with(" . !~.."));
}

#[test]
fn offsets_grow_past_four_digits() {
    let bytes = vec![0u8; 0x10010];
    let dump = format_hex_dump(&bytes);
    let last = dump.split('\n').last().unwrap();
    assert!(last.starts_with("10000: 00 00 "));
    let second = dump.split('\n').nth(1).unwrap();
    assert!(second.starts_with("0010: "));
}

#[test]
fn dump_of_concatenation_starts_with_dump_of_full_lines() {
    let a: Vec<u8> = (0u8..32).collect();
    let b: Vec<u8> = vec![0x41, 0x0a, 0x42];
    let whole = format_hex_dump(&[a.clone(), b.clone()].concat());
    assert!(whole.starts_with(&(format_hex_dump(&a) + "\n")));
    assert_eq!(whole.matches('\n').count(), (a.len() + b.len() + 15) / 16 - 1);
    assert!(!whole.ends_with('\n'));
}
