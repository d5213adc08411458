use rxd::{Dumper, InvalidConfiguration};

fn rule(pad: usize, width: usize) -> String {
    format!("---------+-{}-+-{}", "-".repeat(pad), "-".repeat(width))
}

fn ascii_of(line: &str) -> String {
    line.splitn(3, " | ").nth(2).unwrap().to_string()
}

#[test]
fn sixteen_control_codes_default() {
    let bytes: Vec<u8> = (0u8..16).collect();
    let result = Dumper::new().format_contents(&bytes);
    assert_eq!(
        result,
        vec!["00000000 | 00 01 02 03 04 05 06 07 08 09 0a 0b 0c 0d 0e 0f | ................"]
    );
}

#[test]
fn sixteen_control_codes_as_pictures() {
    let bytes: Vec<u8> = (0u8..16).collect();
    let result = Dumper::new().control_pictures(true).format_contents(&bytes);
    assert_eq!(result.len(), 1);
    assert_eq!(ascii_of(&result[0]), "␀␁␂␃␄␅␆␇␈␉␊␋␌␍␎␏");
    let expected: String = (0x2400u32..0x2410).map(|v| char::from_u32(v).unwrap()).collect();
    assert_eq!(ascii_of(&result[0]), expected);
}

#[test]
fn fifty_bytes_short_last_line() {
    let bytes = vec![0xffu8; 50];
    let result = Dumper::new().line_width(16).unwrap().format_contents(&bytes);
    assert_eq!(result.len(), 4);
    for line in &result[..3] {
        assert_eq!(ascii_of(line), "................");
    }
    let last = format!("00000030 | ff ff{} | ..", " ".repeat(42));
    assert_eq!(result[3], last);
    assert_eq!(Dumper::new().format_line(0x30, &[0xff, 0xff]), last);
}

#[test]
fn groups_of_four() {
    let bytes = vec![0xffu8; 16];
    let result = Dumper::new()
        .line_width(16)
        .unwrap()
        .byte_group_length(4)
        .unwrap()
        .format_contents(&bytes);
    assert_eq!(
        result,
        vec!["00000000 | ffffffff ffffffff ffffffff ffffffff | ................"]
    );
}

#[test]
fn headers_default() {
    let lines = Dumper::new().dump(&[]);
    assert_eq!(
        lines,
        vec![
            format!(
                "         | 00 01 02 03 04 05 06 07 08 09 0a 0b 0c 0d 0e 0f | {}",
                " ".repeat(16)
            ),
            rule(47, 16),
        ]
    );
}

#[test]
fn headers_grouped() {
    let lines = Dumper::new().byte_group_length(4).unwrap().dump(&[]);
    assert_eq!(
        lines[0],
        format!(
            "         | 00       04       08       0c{} | {}",
            " ".repeat(6),
            " ".repeat(16)
        )
    );
    assert_eq!(lines[1], rule(35, 16));
}

#[test]
fn headers_narrow_uneven_groups() {
    let dumper = Dumper::new().line_width(5).unwrap().byte_group_length(2).unwrap();
    let lines = dumper.dump(&[1, 2, 3, 4, 5, 6]);
    assert_eq!(lines[0], format!("         | 00   02   04 | {}", " ".repeat(5)));
    assert_eq!(lines[1], rule(12, 5));
    assert_eq!(lines[2], "00000000 | 0102 0304 05 | .....");
    assert_eq!(lines[3], format!("00000005 | 06{} | .", " ".repeat(10)));
}

#[test]
fn hex_columns_line_up() {
    for (width, group) in [(16, 1), (16, 4), (5, 2), (7, 3), (1, 1), (256, 256), (3, 8)] {
        let dumper = Dumper::new()
            .line_width(width)
            .unwrap()
            .byte_group_length(group)
            .unwrap();
        let bytes = vec![0x41u8; 3 * width + 1];
        let lines = dumper.dump(&bytes);
        let column = |line: &str| line.rfind(" | ").unwrap();
        let head = column(&lines[0]);
        assert_eq!(lines[1].rfind("-+-").unwrap(), head);
        for line in &lines[2..] {
            assert_eq!(line.find(" | ").unwrap(), 8);
            assert_eq!(line.match_indices(" | ").nth(1).unwrap().0, head);
        }
    }
}

#[test]
fn ascii_fields_restore_printable_bytes() {
    let text = "Lorem ipsum dolor sit amet, consectetur adipisicing elit.";
    let lines = Dumper::new().line_width(7).unwrap().format_contents(text.as_bytes());
    let joined: String = lines.iter().map(|line| ascii_of(line)).collect();
    assert_eq!(joined, text);
}

#[test]
fn ascii_fields_keep_positions_of_other_bytes() {
    let bytes = [b'H', 0x00, b'i', 0x7f, 0x1f, 0x80, b'.', b'~', 0x20, 0xff];
    let plain = Dumper::new().line_width(3).unwrap().format_contents(&bytes);
    let joined: String = plain.iter().map(|line| ascii_of(line)).collect();
    assert_eq!(joined, "H.i....~ .");
    let pictures = Dumper::new()
        .line_width(3)
        .unwrap()
        .control_pictures(true)
        .format_contents(&bytes);
    let joined: String = pictures.iter().map(|line| ascii_of(line)).collect();
    assert_eq!(joined, "H␀i.␟..~ .");
}

#[test]
fn same_input_same_output() {
    let bytes: Vec<u8> = (0..=255).chain(0..40).collect();
    let dumper = Dumper::new().byte_group_length(2).unwrap().control_pictures(true);
    assert_eq!(dumper.dump(&bytes), dumper.dump(&bytes));
}

#[test]
fn exact_multiple_has_no_short_line() {
    let lines = Dumper::new().format_contents(&[0x41u8; 32]);
    assert_eq!(lines.len(), 2);
    for line in &lines {
        assert_eq!(ascii_of(line), "A".repeat(16));
    }
    let longer = Dumper::new().format_contents(&[0x41u8; 33]);
    assert_eq!(longer.len(), 3);
    assert_eq!(longer[..2], lines[..]);
    assert_eq!(longer[2], format!("00000020 | 41{} | A", " ".repeat(45)));
}

#[test]
fn empty_source_has_headers_only() {
    assert!(Dumper::new().format_contents(&[]).is_empty());
    assert_eq!(Dumper::new().dump(&[]).len(), 2);
}

#[test]
fn zero_line_count_has_headers_only() {
    let dumper = Dumper::new().line_count(Some(0));
    assert!(dumper.format_contents(&[1, 2, 3]).is_empty());
    assert_eq!(dumper.dump(&[1, 2, 3]).len(), 2);
}

#[test]
fn line_count_ignores_bytes_past_the_limit() {
    let bytes: Vec<u8> = (0..100).collect();
    let dumper = Dumper::new().line_count(Some(2));
    let lines = dumper.format_contents(&bytes);
    assert_eq!(lines.len(), 2);
    assert_eq!(lines, dumper.format_contents(&bytes[..32]));
    assert_eq!(Dumper::new().line_count(Some(9)).format_contents(&bytes).len(), 7);
}

#[test]
fn byte_limit_follows_line_count() {
    assert_eq!(Dumper::new().byte_limit(), None);
    assert_eq!(Dumper::new().line_count(Some(10)).byte_limit(), Some(160));
    let narrow = Dumper::new().line_width(3).unwrap().line_count(Some(5));
    assert_eq!(narrow.byte_limit(), Some(15));
    assert_eq!(Dumper::new().line_count(Some(usize::MAX)).byte_limit(), None);
}

#[test]
fn offsets_grow_past_eight_digits() {
    let line = Dumper::new().format_line(0x1_0000_0000, &[0x41]);
    assert_eq!(line, format!("100000000 | 41{} | A", " ".repeat(45)));
    let line = Dumper::new().format_line(0xabc, &[]);
    assert_eq!(line, format!("00000abc | {} | ", " ".repeat(47)));
}

#[test]
fn out_of_range_options_are_rejected() {
    assert_eq!(
        Dumper::new().line_width(0).unwrap_err(),
        InvalidConfiguration::LineWidth(0)
    );
    assert_eq!(
        Dumper::new().line_width(257).unwrap_err(),
        InvalidConfiguration::LineWidth(257)
    );
    assert_eq!(
        Dumper::new().byte_group_length(0).unwrap_err(),
        InvalidConfiguration::ByteGroupLength(0)
    );
    assert_eq!(
        Dumper::new().byte_group_length(300).unwrap_err(),
        InvalidConfiguration::ByteGroupLength(300)
    );
    assert!(Dumper::new().line_width(256).is_ok());
    assert!(Dumper::new().byte_group_length(256).is_ok());
    assert!(Dumper::new().line_width(1).is_ok());
}
