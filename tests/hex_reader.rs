use pseudo_hexdump::hex_reader::HexLineReader;
use pseudo_hexdump::text_utilities::Formatting;

fn reader(width: usize, gutter: usize) -> HexLineReader {
    HexLineReader::new(Formatting::new(width, gutter).unwrap())
}

fn dump(data: &[u8], width: usize, gutter: usize) -> Vec<String> {
    let mut hr = reader(width, gutter);
    let mut lines = Vec::new();
    for chunk in data.chunks(width) {
        lines.push(hr.get_next_line(chunk).unwrap());
    }
    lines.push(hr.get_next_line(&[]).unwrap());
    assert_eq!(hr.get_next_line(&[]), None);
    lines
}

fn ascii_of(byte: u8) -> String {
    let mut hr = reader(1, 1);
    hr.fill_buf_next(&[byte]);
    hr.buf_as_ascii_string()
}

#[test]
fn end_to_end_four_bytes() {
    let mut hr = reader(4, 4);
    let data = [0x41u8, 0x42, 0x0a, 0x00];
    hr.fill_buf_next(&data);
    assert_eq!(hr.buf_as_hex_string(), "41 42 0a 00 ");
    assert_eq!(hr.buf_as_ascii_string(), "AB..");

    let mut hr = reader(4, 4);
    assert_eq!(
        hr.get_next_line(&data),
        Some(String::from("[0x000000]  41 42 0a 00  |AB..|\n"))
    );
    assert_eq!(hr.get_next_line(&[]), Some(String::from("[0x000004]\n")));
    assert_eq!(hr.get_next_line(&[]), None);
    assert_eq!(hr.get_next_line(&data), None);
}

#[test]
fn full_chunk_hex_field_width() {
    let mut hr = reader(16, 4);
    let data: Vec<u8> = (0u8..16).collect();
    hr.fill_buf_next(&data);
    let hex = hr.buf_as_hex_string();
    assert_eq!(hex.len(), 51);
    assert_eq!(hex, "00 01 02 03  04 05 06 07  08 09 0a 0b  0c 0d 0e 0f ");
}

#[test]
fn full_line_layout() {
    let data = [
        0x41u8, 0x42, 0x43, 0x44, 0x45, 0x46, 0x0a, 0x00, 0xff, 0xfe, 0x10, 0x20, 0x30, 0x31,
        0x32, 0x33,
    ];
    let lines = dump(&data, 16, 4);
    assert_eq!(
        lines,
        vec![
            String::from(
                "[0x000000]  41 42 43 44  45 46 0a 00  ff fe 10 20  30 31 32 33  |ABCDEF..... 0123|\n"
            ),
            String::from("[0x000010]\n"),
        ]
    );
}

#[test]
fn short_final_chunk_is_padded() {
    let data: Vec<u8> = (0x61u8..0x61 + 20).collect();
    let lines = dump(&data, 16, 4);
    assert_eq!(lines.len(), 3);
    assert_eq!(
        lines[1],
        format!("[0x000010]  71 72 73 74  {}|qrst|\n", " ".repeat(39))
    );
    assert_eq!(lines[0].find('|'), lines[1].find('|'));
    // the counter steps by the configured width, not by the bytes present
    assert_eq!(lines[2], "[0x000020]\n");
}

#[test]
fn short_chunk_keeps_nominal_gutters() {
    let mut hr = reader(8, 4);
    hr.fill_buf_next(&[1, 2, 3, 4]);
    assert_eq!(hr.buf_as_hex_string(), "01 02 03 04  ");
    hr.fill_buf_next(&[1, 2, 3, 4, 5, 6, 7, 8]);
    assert_eq!(hr.buf_as_hex_string(), "01 02 03 04  05 06 07 08 ");
}

#[test]
fn empty_input_gives_address_only() {
    let lines = dump(&[], 16, 4);
    assert_eq!(lines, vec![String::from("[0x000000]\n")]);
}

#[test]
fn ascii_field_one_char_per_byte() {
    let mut hr = reader(16, 4);
    let data: Vec<u8> = vec![0x00, 0x0a, 0x41, 0xff, 0x20, 0x7f, 0x09];
    hr.fill_buf_next(&data);
    assert_eq!(hr.buf_as_ascii_string().chars().count(), data.len());
    assert_eq!(hr.buf_as_ascii_string(), "..A. . ");
}

#[test]
fn ascii_line_breaks_show_as_period() {
    assert_eq!(ascii_of(0x0a), ".");
    assert_eq!(ascii_of(0x0d), ".");
}

#[test]
fn ascii_printable_shows_itself() {
    for b in 0x21u8..=0x7e {
        assert_eq!(ascii_of(b), (b as char).to_string());
    }
}

#[test]
fn ascii_other_bytes() {
    assert_eq!(ascii_of(0x20), " ");
    assert_eq!(ascii_of(0x09), " ");
    assert_eq!(ascii_of(0x0c), " ");
    assert_eq!(ascii_of(0x0b), ".");
    for b in (0x00u8..0x20).chain(0x7f..=0xff) {
        if [0x09u8, 0x0a, 0x0c, 0x0d].contains(&b) {
            continue;
        }
        assert_eq!(ascii_of(b), ".", "byte {:#x}", b);
    }
}

#[test]
fn dump_is_repeatable() {
    let data: Vec<u8> = (0u8..=255).cycle().take(1000).collect();
    assert_eq!(dump(&data, 16, 4), dump(&data, 16, 4));
}

#[test]
fn stale_buffer_does_not_leak() {
    let mut a = reader(4, 2);
    let mut b = reader(4, 2);
    a.get_next_line(&[9, 9, 9, 9]).unwrap();
    b.get_next_line(&[1, 2, 3, 4]).unwrap();
    let short = [0x41u8];
    let line = a.get_next_line(&short);
    assert_eq!(line, b.get_next_line(&short));
    assert_eq!(line, Some(format!("[0x000004]  41 {}|A|\n", " ".repeat(11))));
}

#[test]
fn address_is_eight_characters() {
    let mut hr = reader(0x10000, 0x10000);
    let chunk = vec![0u8; 0x10000];
    let first = hr.get_next_line(&chunk).unwrap();
    assert!(first.starts_with("[0x000000]"));
    let second = hr.get_next_line(&chunk).unwrap();
    assert!(second.starts_with("[0x010000]"));
    assert_eq!(hr.get_next_line(&[]), Some(String::from("[0x020000]\n")));
}

#[test]
fn address_widens_past_six_digits() {
    let mut hr = reader(0x1000000, 0x1000000);
    let line = hr.get_next_line(&[0xab]).unwrap();
    assert!(line.starts_with("[0x000000]  ab "));
    assert!(line.ends_with(" |.|\n"));
    assert_eq!(hr.get_next_line(&[]), Some(String::from("[0x1000000]\n")));
}

#[test]
fn buffer_reference_tracks_last_chunk() {
    let mut hr = reader(4, 2);
    assert_eq!(hr.get_buf_ref(), &[] as &[u8]);
    hr.fill_buf_next(&[5, 6, 7]);
    assert_eq!(hr.get_buf_ref(), &[5u8, 6, 7]);
    hr.fill_buf_next(&[8]);
    assert_eq!(hr.get_buf_ref(), &[8u8]);
}

#[test]
fn iterator_pulls_lines() {
    let mut it = reader(2, 1).into_iter();
    assert_eq!(it.next(&[0x30, 0x31]), Some(String::from("[0x000000]  30  31  |01|\n")));
    assert_eq!(it.next(&[0x32]), Some(String::from("[0x000002]  32      |2|\n")));
    assert_eq!(it.next(&[]), Some(String::from("[0x000004]\n")));
    assert_eq!(it.next(&[]), None);
}
