use core::fmt::Write;
use ground_station::writer::FixedWriter;

#[test]
fn new_writer_has_no_data() {
    let mut buffer = [9u8; 4];
    let writer = FixedWriter::new(&mut buffer);
    assert_eq!(writer.data(), &[] as &[u8]);
}

#[test]
fn text_is_appended() {
    let mut buffer = [0u8; 8];
    let mut writer = FixedWriter::new(&mut buffer);
    assert!(writer.write_str("ab").is_ok());
    assert!(writer.write_str("").is_ok());
    assert!(writer.write_str("cde").is_ok());
    assert_eq!(writer.data(), b"abcde");
    assert_eq!(buffer, *b"abcde\0\0\0");
}

#[test]
fn two_writes_leave_what_one_leaves() {
    let mut split = [7u8; 5];
    let mut whole = [7u8; 5];
    let mut writer = FixedWriter::new(&mut split);
    assert!(writer.write_str("xyz").is_ok());
    assert!(writer.write_str("1234").is_err());
    assert_eq!(writer.data(), b"xyz12");
    let mut writer = FixedWriter::new(&mut whole);
    assert!(writer.write_str("xyz1234").is_err());
    assert_eq!(writer.data(), b"xyz12");
    assert_eq!(split, whole);
}

#[test]
fn exact_fit_succeeds_and_full_buffer_fails() {
    let mut buffer = [0u8; 3];
    let mut writer = FixedWriter::new(&mut buffer);
    assert!(writer.write_str("abc").is_ok());
    assert!(writer.write_str("").is_ok());
    assert!(writer.write_str("d").is_err());
    assert_eq!(writer.data(), b"abc");
}

#[test]
fn characters_are_cut_to_their_low_byte() {
    let mut buffer = [0u8; 4];
    let mut writer = FixedWriter::new(&mut buffer);
    assert!(writer.write_str("\u{e9}\u{20ac}\u{1F600}\u{100}").is_ok());
    assert_eq!(writer.data(), &[0xe9, 0xac, 0x00, 0x00]);
}

#[test]
fn copy_to_a_new_writer_is_its_data() {
    let mut buffer = [0u8; 4];
    let mut writer = FixedWriter::new(&mut buffer);
    writer.copy_from_slice(b"hi");
    assert_eq!(writer.data(), b"hi");
    assert_eq!(buffer, *b"hi\0\0");
}

#[test]
fn copy_is_cut_off_at_the_end() {
    let mut buffer = [0u8; 3];
    let mut writer = FixedWriter::new(&mut buffer);
    writer.copy_from_slice(b"hello");
    assert_eq!(writer.data(), b"hel");
}

#[test]
fn copy_after_text_sets_the_position_to_its_length() {
    let mut buffer = [0u8; 6];
    let mut writer = FixedWriter::new(&mut buffer);
    assert!(writer.write_str("abcd").is_ok());
    writer.copy_from_slice(b"xyz");
    assert_eq!(writer.data(), b"ab");
    assert_eq!(buffer, *b"abcdxy");
}
