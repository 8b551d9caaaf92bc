use xxd::parse_bytes;

/// A 136-byte ELF executable for x86-64 that exits with status 42.
fn executable() -> [u8; 136] {
    [
        0x7f, 0x45, 0x4c, 0x46, 0x02, 0x01, 0x01, 0x00,
        0x00, 0x00, 0x00, 0x00, 0x00, 0x00, 0x00, 0x00,
        0x02, 0x00, 0x3e, 0x00, 0x01, 0x00, 0x00, 0x00,
        0x78, 0x00, 0x40, 0x00, 0x00, 0x00, 0x00, 0x00,
        0x40, 0x00, 0x00, 0x00, 0x00, 0x00, 0x00, 0x00,
        0x00, 0x00, 0x00, 0x00, 0x00, 0x00, 0x00, 0x00,
        0x00, 0x00, 0x00, 0x00, 0x40, 0x00, 0x38, 0x00,
        0x01, 0x00, 0x00, 0x00, 0x00, 0x00, 0x00, 0x00,
        0x01, 0x00, 0x00, 0x00, 0x05, 0x00, 0x00, 0x00,
        0x00, 0x00, 0x00, 0x00, 0x00, 0x00, 0x00, 0x00,
        0x00, 0x00, 0x40, 0x00, 0x00, 0x00, 0x00, 0x00,
        0x00, 0x00, 0x40, 0x00, 0x00, 0x00, 0x00, 0x00,
        0x88, 0x00, 0x00, 0x00, 0x00, 0x00, 0x00, 0x00,
        0x88, 0x00, 0x00, 0x00, 0x00, 0x00, 0x00, 0x00,
        0x00, 0x10, 0x00, 0x00, 0x00, 0x00, 0x00, 0x00,
        0xb8, 0x3c, 0x00, 0x00, 0x00, 0xbf, 0x2a, 0x00,
        0x00, 0x00, 0x0f, 0x05, 0x90, 0x90, 0x90, 0x90,
    ]
}

/// The executable as bare hex digits on one line.
fn hex() -> Vec<u8> {
    let mut text: Vec<u8> = Vec::new();
    text.extend_from_slice(b"7f454c4602010100000000000000000002003e000100000078004000000000004000");
    text.extend_from_slice(b"00000000000000000000000000000000000040003800010000000000000001000000");
    text.extend_from_slice(b"05000000000000000000000000004000000000000000400000000000880000000000");
    text.extend_from_slice(b"000088000000000000000010000000000000b83c000000bf2a0000000f0590909090");
    text.extend_from_slice(b"\n");
    text
}

/// The executable as hex with a comment on every line.
fn hex_with_annotations() -> Vec<u8> {
    let mut text: Vec<u8> = Vec::new();
    text.extend_from_slice(b"; A small ELF executable, 136 bytes: exit(42)\n");
    text.extend_from_slice(b"; One field to a line. What follows a semicolon or a slash is a\n");
    text.extend_from_slice(b"; comment and lasts to the end of its line: 0xCAFE here is no data.\n");
    text.extend_from_slice(b"\n");
    text.extend_from_slice(b"/ header: 64 bytes\n");
    text.extend_from_slice(b"; ----------------------\n");
    text.extend_from_slice(b"7F 45 4C 46 ; magic: 7F then the letters E L F\n");
    text.extend_from_slice(b"02 ; class: 64 bit\n");
    text.extend_from_slice(b"01 ; data: little endian\n");
    text.extend_from_slice(b"01 ; version\n");
    text.extend_from_slice(b"00 ; abi: System V\n");
    text.extend_from_slice(b"00 00 00 00 00 00 00 00 // abi version and padding\n");
    text.extend_from_slice(b"02 00 ; type: executable\n");
    text.extend_from_slice(b"3e 00 ; machine: x86-64\n");
    text.extend_from_slice(b"01 00 00 00 ; version\n");
    text.extend_from_slice(b"78 00 40 00 00 00 00 00 ; entry point 0x400078\n");
    text.extend_from_slice(b"40 00 00 00 00 00 00 00 ; program header offset\n");
    text.extend_from_slice(b"00 00 00 00 00 00 00 00 ; section header offset: none\n");
    text.extend_from_slice(b"00 00 00 00 ; flags\n");
    text.extend_from_slice(b"40 00 ; size of this header\n");
    text.extend_from_slice(b"38 00 ; size of a program header\n");
    text.extend_from_slice(b"01 00 ; number of program headers\n");
    text.extend_from_slice(b"00 00 ; size of a section header\n");
    text.extend_from_slice(b"00 00 ; number of section headers\n");
    text.extend_from_slice(b"00 00 / section name table index\n");
    text.extend_from_slice(b"\n");
    text.extend_from_slice(b"; program header: 56 bytes\n");
    text.extend_from_slice(b"; ----------------------\n");
    text.extend_from_slice(b"01 00 00 00 ; segment type: load\n");
    text.extend_from_slice(b"05 00 00 00 ; segment flags: read, execute\n");
    text.extend_from_slice(b"00 00 00 00 00 00 00 00 ; offset in file\n");
    text.extend_from_slice(b"00 00 40 00 00 00 00 00 ; virtual address 0x400000\n");
    text.extend_from_slice(b"00 00 40 00 00 00 00 00 ; physical address\n");
    text.extend_from_slice(b"88 00 00 00 00 00 00 00 ; size in file: 136 = 0x88\n");
    text.extend_from_slice(b"88 00 00 00 00 00 00 00 ; size in memory\n");
    text.extend_from_slice(b"00 10 00 00 00 00 00 00 ; alignment\n");
    text.extend_from_slice(b"\n");
    text.extend_from_slice(b"; code: 16 bytes\n");
    text.extend_from_slice(b"; ------------------------\n");
    text.extend_from_slice(b"b8 3c 00 00 00 ; mov eax, 60 (exit)\n");
    text.extend_from_slice(b"BF 2A 00 00 00 ; mov edi, 42\n");
    text.extend_from_slice(b"0f 05 ; syscall\n");
    text.extend_from_slice(b"90 90 90 90 // nop nop nop nop\n");
    text
}

#[test]
fn test_reverse_mode() {
    let hex_with_annotations: Vec<u8> = hex_with_annotations();
    let hex: Vec<u8> = hex();
    let executable: [u8; 136] = executable();
    assert_eq!(hex_with_annotations.len(), 1381);
    assert_eq!(hex.len(), 273);
    assert_eq!(&executable[..], parse_bytes(&hex_with_annotations).as_slice());
    assert_eq!(&executable[..], parse_bytes(&hex).as_slice());
}

#[test]
fn comment_suppression() {
    assert_eq!(parse_bytes(b"de;not hex\nad"), vec![0xde, 0xad]);
}

#[test]
fn slash_opens_a_comment_too() {
    assert_eq!(parse_bytes(b"de/ff\nad"), vec![0xde, 0xad]);
    assert_eq!(parse_bytes(b"de//ff\nad"), vec![0xde, 0xad]);
}

#[test]
fn comment_without_newline_runs_to_the_end() {
    assert_eq!(parse_bytes(b"12;34 56 78"), vec![0x12]);
    assert_eq!(parse_bytes(b";12 34"), Vec::<u8>::new());
}

#[test]
fn comment_mark_inside_a_comment_changes_nothing() {
    assert_eq!(parse_bytes(b"ab ; cd / ef ; 01\n23"), vec![0xab, 0x23]);
}

#[test]
fn carriage_return_does_not_end_a_comment() {
    assert_eq!(parse_bytes(b"ab;cd\ref\n01"), vec![0xab, 0x01]);
}

#[test]
fn newline_outside_a_comment_is_only_dropped() {
    assert_eq!(parse_bytes(b"a\nb\n\nc\nd"), vec![0xab, 0xcd]);
}

#[test]
fn pair_may_straddle_a_comment() {
    assert_eq!(parse_bytes(b"d;xx\ne a;yy\nd"), vec![0xde, 0xad]);
}

#[test]
fn case_insensitivity() {
    assert_eq!(parse_bytes(b"DE"), vec![0xde]);
    assert_eq!(parse_bytes(b"de"), vec![0xde]);
    assert_eq!(parse_bytes(b"dE"), parse_bytes(b"De"));
    assert_eq!(parse_bytes(b"AbCdEf"), vec![0xab, 0xcd, 0xef]);
}

#[test]
fn odd_digit_truncation() {
    assert_eq!(parse_bytes(b"abc"), vec![0xab]);
    assert_eq!(parse_bytes(b"a"), Vec::<u8>::new());
}

#[test]
fn empty_text_decodes_to_nothing() {
    assert_eq!(parse_bytes(b""), Vec::<u8>::new());
    assert_eq!(parse_bytes(b" \t\r\n"), Vec::<u8>::new());
}

#[test]
fn everything_but_hex_digits_is_dropped() {
    assert_eq!(parse_bytes(b"0x1f, 0x2e: g-h [3d]"), vec![0x01, 0xf0, 0x2e, 0x3d]);
    assert_eq!(parse_bytes(&[0x30, 0xff, 0x80, 0x00, 0x31]), vec![0x01]);
}

#[test]
fn every_digit_has_its_value() {
    assert_eq!(
        parse_bytes(b"00 11 22 33 44 55 66 77 88 99 aa bb cc dd ee ff"),
        vec![
            0x00, 0x11, 0x22, 0x33, 0x44, 0x55, 0x66, 0x77, 0x88, 0x99, 0xaa, 0xbb, 0xcc, 0xdd,
            0xee, 0xff,
        ]
    );
    assert_eq!(parse_bytes(b"0A 0B 0C 0D 0E 0F"), vec![10, 11, 12, 13, 14, 15]);
    assert_eq!(parse_bytes(b"09 90 a0 f0 F0"), vec![9, 0x90, 0xa0, 0xf0, 0xf0]);
}

#[test]
fn neighbours_of_the_digit_ranges_are_not_digits() {
    // The characters just before and after `0-9`, `A-F` and `a-f`.
    assert_eq!(parse_bytes(b":@G`g"), Vec::<u8>::new());
    assert_eq!(parse_bytes(b":1@2G3`4g5"), vec![0x12, 0x34]);
}

#[test]
fn output_is_half_the_kept_digits() {
    let text: &[u8] = b"1 2 3 4 5 ; 6 7 8\n9";
    assert_eq!(parse_bytes(text).len(), 3);
    assert_eq!(parse_bytes(text), vec![0x12, 0x34, 0x59]);
}
