use dns_resolver::dns::byte_packet_buffer::{append_label, ascii_lowercase, BytePacketBuffer};
use dns_resolver::dns::byte_packet_buffer_error::BytePacketBufferError;

fn buffer_with(bytes: &[u8], at: usize) -> BytePacketBuffer {
    let mut buffer = BytePacketBuffer::new();
    buffer.buffer[at..at + bytes.len()].copy_from_slice(bytes);
    buffer
}

#[test]
fn name_is_written_as_length_prefixed_labels() {
    let mut buffer = BytePacketBuffer::new();
    buffer.write_question_name("www.google.com").unwrap();
    assert_eq!(buffer.position(), 16);
    assert_eq!(&buffer.buffer[0..16], b"\x03www\x06google\x03com\x00");
}

#[test]
fn name_is_read_back() {
    let mut buffer = buffer_with(b"\x03www\x06google\x03com\x00", 0);
    assert_eq!(buffer.read_qname(), Ok("www.google.com".to_string()));
    assert_eq!(buffer.position(), 16);
}

#[test]
fn mixed_case_name_decodes_to_lower_case() {
    let mut buffer = buffer_with(b"\x03WWW\x07Example\x03COM\x00", 0);
    assert_eq!(buffer.read_qname(), Ok("www.example.com".to_string()));
    assert_eq!(buffer.position(), 17);
}

#[test]
fn only_ascii_letters_are_lowered() {
    // "É" is C3 89 in UTF-8; it is no ASCII capital and stays.
    let mut buffer = buffer_with(b"\x03\xC3\x89A\x00", 0);
    assert_eq!(buffer.read_qname(), Ok("\u{C9}a".to_string()));
    let mut buffer = buffer_with(b"\x04@[`{\x00", 0);
    assert_eq!(buffer.read_qname(), Ok("@[`{".to_string()));
    let mut buffer = buffer_with(b"\x02AZ\x00", 0);
    assert_eq!(buffer.read_qname(), Ok("az".to_string()));
}

#[test]
fn octets_that_are_no_text_are_replaced() {
    let mut buffer = buffer_with(b"\x02a\xFF\x01b\x00", 0);
    assert_eq!(buffer.read_qname(), Ok("a\u{FFFD}.b".to_string()));
    assert_eq!(buffer.position(), 6);
}

#[test]
fn root_name_reads_as_empty() {
    let mut buffer = buffer_with(b"\x00", 7);
    buffer.seek(7);
    assert_eq!(buffer.read_qname(), Ok(String::new()));
    assert_eq!(buffer.position(), 8);
}

#[test]
fn pointer_is_followed_and_position_stays_behind_it() {
    // "example.com" at 20, "www" + pointer at 40, bare pointer at 50.
    let mut buffer = buffer_with(b"\x07example\x03com\x00", 20);
    buffer.buffer[40..46].copy_from_slice(b"\x03www\xC0\x14");
    buffer.buffer[50..52].copy_from_slice(b"\xC0\x14");
    buffer.seek(40);
    assert_eq!(buffer.read_qname(), Ok("www.example.com".to_string()));
    assert_eq!(buffer.position(), 46);
    buffer.seek(50);
    assert_eq!(buffer.read_qname(), Ok("example.com".to_string()));
    assert_eq!(buffer.position(), 52);
}

#[test]
fn name_referenced_twice_decodes_identically() {
    let mut buffer = buffer_with(b"\x03ns1\x07Example\x03net\x00", 12);
    buffer.buffer[100..102].copy_from_slice(b"\xC0\x0C");
    buffer.buffer[200..202].copy_from_slice(b"\xC0\x0C");
    buffer.seek(100);
    let first = buffer.read_qname();
    assert_eq!(buffer.position(), 102);
    buffer.seek(200);
    let second = buffer.read_qname();
    assert_eq!(buffer.position(), 202);
    assert_eq!(first, Ok("ns1.example.net".to_string()));
    assert_eq!(first, second);
}

#[test]
fn pointer_with_high_offset_bits_is_followed() {
    // 0xC1 0x2C points at 0x012C = 300.
    let mut buffer = buffer_with(b"\x01x\x00", 300);
    buffer.buffer[0..2].copy_from_slice(b"\xC1\x2C");
    assert_eq!(buffer.read_qname(), Ok("x".to_string()));
    assert_eq!(buffer.position(), 2);
}

#[test]
fn five_pointers_in_a_row_are_followed() {
    let mut buffer = BytePacketBuffer::new();
    // pointers at 0, 2, 4, 6, 8, each to the next; the name at 10.
    for i in 0..5u8 {
        buffer.buffer[2 * i as usize] = 0xC0;
        buffer.buffer[2 * i as usize + 1] = 2 * i + 2;
    }
    buffer.buffer[10..13].copy_from_slice(b"\x01a\x00");
    assert_eq!(buffer.read_qname(), Ok("a".to_string()));
    assert_eq!(buffer.position(), 2);
}

#[test]
fn six_pointers_in_a_row_exceed_the_limit() {
    let mut buffer = BytePacketBuffer::new();
    for i in 0..6u8 {
        buffer.buffer[2 * i as usize] = 0xC0;
        buffer.buffer[2 * i as usize + 1] = 2 * i + 2;
    }
    buffer.buffer[12..15].copy_from_slice(b"\x01a\x00");
    assert_eq!(buffer.read_qname(), Err(BytePacketBufferError::ExceededJumpCount(5)));
    assert_eq!(buffer.position(), 2);
}

#[test]
fn pointer_to_itself_exceeds_the_limit() {
    let mut buffer = buffer_with(b"\xC0\x00", 0);
    assert_eq!(buffer.read_qname(), Err(BytePacketBufferError::ExceededJumpCount(5)));
    let mut buffer = buffer_with(b"\x03abc\xC0\x1E", 30);
    buffer.seek(30);
    assert_eq!(buffer.read_qname(), Err(BytePacketBufferError::ExceededJumpCount(5)));
    assert_eq!(buffer.position(), 36);
}

#[test]
fn pointer_beyond_the_buffer_fails() {
    // 0xFF 0xFF points at 0x3FFF.
    let mut buffer = buffer_with(b"\xFF\xFF", 0);
    assert_eq!(buffer.read_qname(), Err(BytePacketBufferError::EndOfBuffer));
    assert_eq!(buffer.position(), 2);
}

#[test]
fn pointer_cut_off_by_the_end_fails() {
    let mut buffer = buffer_with(b"\xC0", 511);
    buffer.seek(511);
    assert_eq!(buffer.read_qname(), Err(BytePacketBufferError::EndOfBuffer));
    // the pointer is not followed, and the position has not moved
    assert_eq!(buffer.position(), 511);

    // behind a label, too, the position stays where the name starts
    let mut buffer = buffer_with(b"\x01a\xC0", 509);
    buffer.seek(509);
    assert_eq!(buffer.read_qname(), Err(BytePacketBufferError::EndOfBuffer));
    assert_eq!(buffer.position(), 509);

    // a pointer whose second octet is the last of the buffer is followed
    let mut buffer = buffer_with(b"\xC0\x00", 510);
    buffer.seek(510);
    assert_eq!(buffer.read_qname(), Ok(String::new()));
    assert_eq!(buffer.position(), 512);
}

#[test]
fn label_running_into_the_end_fails() {
    let mut buffer = BytePacketBuffer::new();
    buffer.buffer[505] = 6;
    buffer.seek(505);
    assert_eq!(buffer.read_qname(), Err(BytePacketBufferError::EndOfBuffer));
    assert_eq!(buffer.position(), 505);
    // a label that ends at 510 leaves room for the end of the name
    buffer.buffer[505] = 5;
    assert_eq!(buffer.read_qname(), Ok("\0\0\0\0\0".to_string()));
    assert_eq!(buffer.position(), 512);
}

#[test]
fn name_without_end_fails() {
    let mut buffer = BytePacketBuffer::new();
    for octet in buffer.buffer.iter_mut() {
        *octet = 1;
    }
    assert_eq!(buffer.read_qname(), Err(BytePacketBufferError::EndOfBuffer));
    assert_eq!(buffer.position(), 0);
}

#[test]
fn label_of_63_octets_is_written() {
    let label = "a".repeat(63);
    let mut buffer = BytePacketBuffer::new();
    assert_eq!(buffer.write_question_name(&label), Ok(()));
    assert_eq!(buffer.position(), 65);
    assert_eq!(buffer.buffer[0], 63);
    assert_eq!(buffer.buffer[64], 0);
}

#[test]
fn label_of_64_octets_is_refused() {
    let label = "a".repeat(64);
    let mut buffer = BytePacketBuffer::new();
    assert_eq!(
        buffer.write_question_name(&label),
        Err(BytePacketBufferError::QueryLabelNameLengthExceeded(0, 64))
    );
    assert_eq!(buffer.position(), 0);
}

#[test]
fn too_long_label_is_reported_with_its_index() {
    let name = format!("www.{}.com", "b".repeat(64));
    let mut buffer = BytePacketBuffer::new();
    assert_eq!(
        buffer.write_question_name(&name),
        Err(BytePacketBufferError::QueryLabelNameLengthExceeded(1, 64))
    );
    // the label before it has been written
    assert_eq!(buffer.position(), 4);
    assert_eq!(&buffer.buffer[0..4], b"\x03www");
}

#[test]
fn name_of_255_octets_is_written() {
    let label = "a".repeat(63);
    let name = format!("{0}.{0}.{0}.{0}", label);
    assert_eq!(name.len(), 255);
    let mut buffer = BytePacketBuffer::new();
    assert_eq!(buffer.write_question_name(&name), Ok(()));
    assert_eq!(buffer.position(), 257);
}

#[test]
fn name_of_256_octets_is_refused() {
    let label = "a".repeat(63);
    let name = format!("{0}.{0}.{0}.{0}.", label);
    assert_eq!(name.len(), 256);
    let mut buffer = BytePacketBuffer::new();
    assert_eq!(
        buffer.write_question_name(&name),
        Err(BytePacketBufferError::QueryDomainNameLengthExceeded(256))
    );
    assert_eq!(buffer.position(), 0);
    // the length of the name is checked before that of its labels
    let name = "c".repeat(256);
    assert_eq!(
        buffer.write_question_name(&name),
        Err(BytePacketBufferError::QueryDomainNameLengthExceeded(256))
    );
}

#[test]
fn empty_labels_are_written_as_they_stand() {
    let mut buffer = BytePacketBuffer::new();
    buffer.write_question_name("").unwrap();
    assert_eq!(buffer.position(), 2);
    let mut buffer = BytePacketBuffer::new();
    buffer.write_question_name("a.").unwrap();
    assert_eq!(&buffer.buffer[0..4], b"\x01a\x00\x00");
    assert_eq!(buffer.position(), 4);
    let mut buffer = BytePacketBuffer::new();
    buffer.write_question_name("a..b").unwrap();
    assert_eq!(&buffer.buffer[0..6], b"\x01a\x00\x01b\x00");
}

#[test]
fn name_running_into_the_end_fails_before_a_later_long_label() {
    let name = format!("aaaa.{}", "b".repeat(64));
    let mut buffer = BytePacketBuffer::new();
    buffer.seek(510);
    assert_eq!(buffer.write_question_name(&name), Err(BytePacketBufferError::EndOfBuffer));
    assert_eq!(buffer.position(), 512);
    assert_eq!(&buffer.buffer[510..512], b"\x04a");
}

#[test]
fn name_that_just_fits_is_written() {
    let mut buffer = BytePacketBuffer::new();
    buffer.seek(507);
    assert_eq!(buffer.write_question_name("abc"), Ok(()));
    assert_eq!(buffer.position(), 512);
    buffer.seek(508);
    assert_eq!(buffer.write_question_name("abc"), Err(BytePacketBufferError::EndOfBuffer));
}

#[test]
fn written_name_reads_back_unchanged() {
    let mut buffer = BytePacketBuffer::new();
    buffer.seek(33);
    buffer.write_question_name("mail.b\u{FC}cher.example").unwrap();
    let end = buffer.position();
    buffer.seek(33);
    assert_eq!(buffer.read_qname(), Ok("mail.b\u{FC}cher.example".to_string()));
    assert_eq!(buffer.position(), end);
}

#[test]
fn octets_are_lowered_one_by_one() {
    assert_eq!(ascii_lowercase(b"Hello, WORLD! @[`{"), b"hello, world! @[`{".to_vec());
    assert_eq!(ascii_lowercase(b""), Vec::<u8>::new());
    assert_eq!(ascii_lowercase(&[0x40, 0x41, 0x5A, 0x5B, 0xC1, 0xDA]), vec![0x40, 0x61, 0x7A, 0x5B, 0xC1, 0xDA]);
}

#[test]
fn labels_are_joined_by_dots() {
    let mut name = String::new();
    append_label(&mut name, true, "www");
    assert_eq!(name, "www");
    append_label(&mut name, false, "example");
    assert_eq!(name, "www.example");
    append_label(&mut name, false, "");
    assert_eq!(name, "www.example.");
    let mut name = "x".to_string();
    append_label(&mut name, true, "y");
    assert_eq!(name, "xy");
}
