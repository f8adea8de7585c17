use dns_resolver::dns::address::{Ipv4Address, Ipv6Address};
use dns_resolver::dns::byte_packet_buffer::BytePacketBuffer;
use dns_resolver::dns::byte_packet_buffer_error::BytePacketBufferError;
use dns_resolver::dns::dns_header::DnsHeader;
use dns_resolver::dns::dns_packet::DnsPacket;
use dns_resolver::dns::dns_question::DnsQuestion;
use dns_resolver::dns::dns_record::DnsRecord;
use dns_resolver::dns::query_class::QueryClass;
use dns_resolver::dns::query_type::QueryType;
use dns_resolver::dns::result_code::ResultCode;

fn buffer_with(bytes: &[u8], at: usize) -> BytePacketBuffer {
    let mut buffer = BytePacketBuffer::new();
    buffer.buffer[at..at + bytes.len()].copy_from_slice(bytes);
    buffer
}

#[test]
fn result_code_numbers() {
    assert_eq!(ResultCode::from_num(0), ResultCode::NOERROR);
    assert_eq!(ResultCode::from_num(1), ResultCode::FORMERR);
    assert_eq!(ResultCode::from_num(2), ResultCode::SERVFAIL);
    assert_eq!(ResultCode::from_num(3), ResultCode::NXDOMAIN);
    assert_eq!(ResultCode::from_num(4), ResultCode::NOTIMP);
    assert_eq!(ResultCode::from_num(5), ResultCode::REFUSED);
    assert_eq!(ResultCode::from_num(6), ResultCode::NOERROR);
    assert_eq!(ResultCode::from_num(15), ResultCode::NOERROR);
    for number in 0..6u8 {
        assert_eq!(ResultCode::from_num(number).to_num(), number);
    }
}

#[test]
fn query_type_numbers() {
    assert_eq!(QueryType::from_num(1), QueryType::A);
    assert_eq!(QueryType::from_num(2), QueryType::NS);
    assert_eq!(QueryType::from_num(5), QueryType::CNAME);
    assert_eq!(QueryType::from_num(15), QueryType::MX);
    assert_eq!(QueryType::from_num(16), QueryType::TXT);
    assert_eq!(QueryType::from_num(28), QueryType::AAAA);
    assert_eq!(QueryType::from_num(255), QueryType::EVERYTHING);
    assert_eq!(QueryType::from_num(0), QueryType::UNKNOWN(0));
    assert_eq!(QueryType::from_num(17), QueryType::UNKNOWN(17));
    assert_eq!(QueryType::from_num(65535), QueryType::UNKNOWN(65535));
    assert_eq!(QueryType::AAAA.to_num(), 28);
    assert_eq!(QueryType::UNKNOWN(1).to_num(), 1);
    for number in 0..=u16::MAX {
        assert_eq!(QueryType::from_num(number).to_num(), number);
    }
}

#[test]
fn query_class_numbers() {
    assert_eq!(QueryClass::from_num(1), QueryClass::IN);
    assert_eq!(QueryClass::from_num(2), QueryClass::CS);
    assert_eq!(QueryClass::from_num(3), QueryClass::CH);
    assert_eq!(QueryClass::from_num(4), QueryClass::HS);
    assert_eq!(QueryClass::from_num(0), QueryClass::UNKNOWN(0));
    assert_eq!(QueryClass::from_num(5), QueryClass::UNKNOWN(5));
    for number in 0..=u16::MAX {
        assert_eq!(QueryClass::from_num(number).to_num(), number);
    }
}

#[test]
fn addresses_keep_their_parts() {
    let v4 = Ipv4Address::new(198, 41, 0, 4);
    assert_eq!(v4.octets(), [198, 41, 0, 4]);
    let v6 = Ipv6Address::new(0x2001, 0xdb8, 0, 0, 0, 0, 0, 1);
    assert_eq!(v6.segments(), [0x2001, 0xdb8, 0, 0, 0, 0, 0, 1]);
}

#[test]
fn new_header_is_clear() {
    let header = DnsHeader::new();
    assert_eq!(header.id, 0);
    assert!(!header.recursion_desired && !header.truncated_message);
    assert!(!header.authoritative_answer && !header.response);
    assert!(!header.checking_disabled && !header.authed_data && !header.z);
    assert!(!header.recursion_available);
    assert_eq!(header.opcode, 0);
    assert_eq!(header.rescode, ResultCode::NOERROR);
    assert_eq!(
        (header.questions, header.answers, header.authoritative_entries, header.resource_entries),
        (0, 0, 0, 0)
    );
}

#[test]
fn header_flags_serialize_to_0x91_0x03() {
    let mut header = DnsHeader::new();
    header.recursion_desired = true;
    header.response = true;
    header.opcode = 2;
    header.rescode = ResultCode::NXDOMAIN;
    let mut buffer = BytePacketBuffer::new();
    header.write(&mut buffer).unwrap();
    assert_eq!(buffer.position(), 12);
    assert_eq!(buffer.buffer[2], 0x91);
    assert_eq!(buffer.buffer[3], 0x03);

    buffer.seek(0);
    let mut decoded = DnsHeader::new();
    decoded.read(&mut buffer).unwrap();
    assert_eq!(decoded, header);
    assert!(decoded.recursion_desired && decoded.response);
    assert_eq!(decoded.opcode, 2);
    assert_eq!(decoded.rescode, ResultCode::NXDOMAIN);
}

#[test]
fn header_layout_is_bit_exact() {
    let header = DnsHeader {
        id: 0xBEEF,
        recursion_desired: false,
        truncated_message: true,
        authoritative_answer: true,
        opcode: 9,
        response: false,
        rescode: ResultCode::REFUSED,
        checking_disabled: true,
        authed_data: false,
        z: true,
        recursion_available: true,
        questions: 0x0102,
        answers: 0x0304,
        authoritative_entries: 0x0506,
        resource_entries: 0x0708,
    };
    let mut buffer = BytePacketBuffer::new();
    header.write(&mut buffer).unwrap();
    assert_eq!(
        &buffer.buffer[0..12],
        &[0xBE, 0xEF, 0b0100_1110, 0b1101_0101, 1, 2, 3, 4, 5, 6, 7, 8]
    );
    buffer.seek(0);
    let mut decoded = DnsHeader::new();
    decoded.read(&mut buffer).unwrap();
    assert_eq!(decoded, header);
}

#[test]
fn every_flag_octet_pair_survives_decoding_and_encoding() {
    for a in 0..=255u8 {
        for b in [0u8, 1, 2, 3, 4, 5, 0x10, 0x25, 0x43, 0x80, 0xF5] {
            let mut buffer = buffer_with(&[0, 0, a, b], 0);
            let mut header = DnsHeader::new();
            header.read(&mut buffer).unwrap();
            let mut out = BytePacketBuffer::new();
            header.write(&mut out).unwrap();
            assert_eq!(&out.buffer[2..4], &[a, b]);
        }
    }
}

#[test]
fn opcode_is_written_with_four_bits() {
    let mut header = DnsHeader::new();
    header.opcode = 0xF2;
    let mut buffer = BytePacketBuffer::new();
    header.write(&mut buffer).unwrap();
    assert_eq!(buffer.buffer[2], 0x10);
}

#[test]
fn header_cut_short_fails_and_is_left_alone() {
    let mut buffer = BytePacketBuffer::new();
    buffer.seek(501);
    let mut header = DnsHeader::new();
    header.id = 77;
    assert_eq!(header.read(&mut buffer), Err(BytePacketBufferError::EndOfBuffer));
    assert_eq!(header.id, 77);
    assert_eq!(buffer.position(), 512);
    assert_eq!(header.write(&mut buffer), Err(BytePacketBufferError::EndOfBuffer));
    buffer.seek(500);
    assert_eq!(header.write(&mut buffer), Ok(()));
    assert_eq!(buffer.position(), 512);
}

#[test]
fn question_is_written_with_the_internet_class() {
    let question = DnsQuestion::new("google.com".to_string(), QueryType::MX, QueryClass::CH);
    let mut buffer = BytePacketBuffer::new();
    question.write(&mut buffer).unwrap();
    assert_eq!(buffer.position(), 16);
    assert_eq!(&buffer.buffer[0..16], b"\x06google\x03com\x00\x00\x0F\x00\x01");
}

#[test]
fn question_is_read_without_its_class() {
    let mut buffer = buffer_with(b"\x06Google\x03com\x00\x00\x1C\x00\x03", 0);
    let mut question = DnsQuestion::new(String::new(), QueryType::UNKNOWN(0), QueryClass::IN);
    question.read(&mut buffer).unwrap();
    assert_eq!(
        question,
        DnsQuestion::new("google.com".to_string(), QueryType::AAAA, QueryClass::IN)
    );
    assert_eq!(buffer.position(), 16);

    buffer.seek(0);
    let mut question = DnsQuestion::new(String::new(), QueryType::UNKNOWN(0), QueryClass::HS);
    question.read(&mut buffer).unwrap();
    assert_eq!(question.q_class, QueryClass::HS);
}

#[test]
fn question_cut_short_fails_and_is_left_alone() {
    let mut buffer = buffer_with(b"\x01a\x00\x00\x01\x00", 506);
    buffer.seek(506);
    let mut question = DnsQuestion::new("kept".to_string(), QueryType::NS, QueryClass::IN);
    assert_eq!(question.read(&mut buffer), Err(BytePacketBufferError::EndOfBuffer));
    assert_eq!(question, DnsQuestion::new("kept".to_string(), QueryType::NS, QueryClass::IN));
}

#[test]
fn a_record_wire_form() {
    let record =
        DnsRecord::A { domain: "a.b".to_string(), addr: Ipv4Address::new(10, 1, 2, 3), ttl: 0x01020304 };
    let mut buffer = BytePacketBuffer::new();
    assert_eq!(record.write(&mut buffer), Ok(19));
    assert_eq!(
        &buffer.buffer[0..19],
        b"\x01a\x01b\x00\x00\x01\x00\x01\x01\x02\x03\x04\x00\x04\x0A\x01\x02\x03"
    );
    buffer.seek(0);
    assert_eq!(DnsRecord::read(&mut buffer), Ok(record));
    assert_eq!(buffer.position(), 19);
}

#[test]
fn aaaa_record_wire_form() {
    let record = DnsRecord::AAAA {
        domain: "v6".to_string(),
        addr: Ipv6Address::new(0x2001, 0x0db8, 0, 0x1234, 0, 0, 0xABCD, 1),
        ttl: 60,
    };
    let mut buffer = BytePacketBuffer::new();
    assert_eq!(record.write(&mut buffer), Ok(30));
    assert_eq!(
        &buffer.buffer[0..30],
        b"\x02v6\x00\x00\x1C\x00\x01\x00\x00\x00\x3C\x00\x10\
          \x20\x01\x0D\xB8\x00\x00\x12\x34\x00\x00\x00\x00\xAB\xCD\x00\x01"
    );
    buffer.seek(0);
    assert_eq!(DnsRecord::read(&mut buffer), Ok(record));
    assert_eq!(buffer.position(), 30);
}

#[test]
fn ns_record_wire_form_has_the_length_patched_in() {
    let record =
        DnsRecord::NS { domain: "com".to_string(), host: "ns1.example.com".to_string(), ttl: 5 };
    let mut buffer = BytePacketBuffer::new();
    assert_eq!(record.write(&mut buffer), Ok(32));
    assert_eq!(
        &buffer.buffer[0..32],
        b"\x03com\x00\x00\x02\x00\x01\x00\x00\x00\x05\x00\x11\x03ns1\x07example\x03com\x00"
    );
    buffer.seek(0);
    assert_eq!(DnsRecord::read(&mut buffer), Ok(record));
    assert_eq!(buffer.position(), 32);
}

#[test]
fn cname_record_round_trip() {
    let record =
        DnsRecord::CNAME { domain: "www.x.org".to_string(), host: "x.org".to_string(), ttl: 300 };
    let mut buffer = BytePacketBuffer::new();
    assert_eq!(record.write(&mut buffer), Ok(11 + 10 + 7));
    assert_eq!(&buffer.buffer[11..13], &[0, 5]);
    assert_eq!(&buffer.buffer[19..21], &[0, 7]);
    buffer.seek(0);
    assert_eq!(DnsRecord::read(&mut buffer), Ok(record));
}

#[test]
fn mx_record_wire_form() {
    let record = DnsRecord::MX {
        domain: "x.org".to_string(),
        preference: 0x0A0B,
        host: "mail.x.org".to_string(),
        ttl: 1,
    };
    let mut buffer = BytePacketBuffer::new();
    assert_eq!(record.write(&mut buffer), Ok(7 + 10 + 2 + 12));
    assert_eq!(
        &buffer.buffer[0..31],
        b"\x01x\x03org\x00\x00\x0F\x00\x01\x00\x00\x00\x01\x00\x0E\x0A\x0B\x04mail\x01x\x03org\x00"
    );
    buffer.seek(0);
    assert_eq!(DnsRecord::read(&mut buffer), Ok(record));
    assert_eq!(buffer.position(), 31);
}

#[test]
fn record_of_other_type_is_kept_as_unhandled_and_passed_over() {
    // type 16 (TXT), class 1, ttl 9, 3 octets of data, then an A record
    let mut buffer = buffer_with(
        b"\x01t\x00\x00\x10\x00\x01\x00\x00\x00\x09\x00\x03\x02hi\
          \x01a\x00\x00\x01\x00\x01\x00\x00\x00\x01\x00\x04\x01\x02\x03\x04",
        0,
    );
    assert_eq!(
        DnsRecord::read(&mut buffer),
        Ok(DnsRecord::UNHANDLED {
            domain: "t".to_string(),
            qtype: QueryType::TXT,
            data_len: 3,
            ttl: 9
        })
    );
    assert_eq!(buffer.position(), 16);
    assert_eq!(
        DnsRecord::read(&mut buffer),
        Ok(DnsRecord::A { domain: "a".to_string(), addr: Ipv4Address::new(1, 2, 3, 4), ttl: 1 })
    );
}

#[test]
fn record_of_unnamed_type_keeps_its_number() {
    let mut buffer = buffer_with(b"\x00\x01\x2C\x00\x01\x00\x00\x00\x00\x00\x07", 0);
    assert_eq!(
        DnsRecord::read(&mut buffer),
        Ok(DnsRecord::UNHANDLED {
            domain: String::new(),
            qtype: QueryType::UNKNOWN(300),
            data_len: 7,
            ttl: 0
        })
    );
    assert_eq!(buffer.position(), 11 + 7);
}

#[test]
fn data_of_a_record_that_runs_beyond_the_buffer_is_refused() {
    // type 99 with 0xFFFF octets of data
    let mut buffer = buffer_with(b"\x00\x00\x63\x00\x01\x00\x00\x00\x00\xFF\xFF", 0);
    assert_eq!(DnsRecord::read(&mut buffer), Err(BytePacketBufferError::EndOfBuffer));
    assert_eq!(buffer.position(), 512);

    // one octet too many
    let mut buffer = buffer_with(b"\x00\x00\x63\x00\x01\x00\x00\x00\x00\x01\xF6", 0);
    assert_eq!(DnsRecord::read(&mut buffer), Err(BytePacketBufferError::EndOfBuffer));
    assert_eq!(buffer.position(), 512);

    // data that ends with the buffer is passed over
    let mut buffer = buffer_with(b"\x00\x00\x63\x00\x01\x00\x00\x00\x00\x01\xF5", 0);
    assert_eq!(
        DnsRecord::read(&mut buffer),
        Ok(DnsRecord::UNHANDLED {
            domain: String::new(),
            qtype: QueryType::UNKNOWN(99),
            data_len: 501,
            ttl: 0
        })
    );
    assert_eq!(buffer.position(), 512);

    // a message that promises such a record is not read
    let mut buffer = buffer_with(
        b"\x00\x00\x80\x00\x00\x00\x00\x01\x00\x00\x00\x00\
          \x00\x00\x63\x00\x01\x00\x00\x00\x00\xFF\xFF",
        0,
    );
    assert_eq!(DnsPacket::from_buffer(&mut buffer), Err(BytePacketBufferError::EndOfBuffer));
    assert_eq!(buffer.position(), 512);
}

#[test]
fn unhandled_record_is_not_written() {
    let record = DnsRecord::UNHANDLED {
        domain: "t".to_string(),
        qtype: QueryType::TXT,
        data_len: 3,
        ttl: 9,
    };
    let mut buffer = BytePacketBuffer::new();
    buffer.seek(40);
    assert_eq!(record.write(&mut buffer), Ok(0));
    assert_eq!(buffer.position(), 40);
    assert!(buffer.buffer.iter().all(|octet| *octet == 0));
    buffer.seek(512);
    assert_eq!(record.write(&mut buffer), Ok(0));
}

#[test]
fn record_data_is_read_in_the_form_of_its_type_whatever_the_length_says() {
    let mut buffer = buffer_with(b"\x00\x00\x01\x00\x01\x00\x00\x00\x00\x00\x63\x09\x08\x07\x06", 0);
    assert_eq!(
        DnsRecord::read(&mut buffer),
        Ok(DnsRecord::A { domain: String::new(), addr: Ipv4Address::new(9, 8, 7, 6), ttl: 0 })
    );
    assert_eq!(buffer.position(), 15);
}

#[test]
fn record_with_compressed_names_is_read() {
    let mut buffer = buffer_with(b"\x07example\x03com\x00", 12);
    buffer.buffer[40..58].copy_from_slice(b"\xC0\x0C\x00\x02\x00\x01\x00\x00\x0E\x10\x00\x06\x03ns1\xC0\x0C");
    buffer.seek(40);
    assert_eq!(
        DnsRecord::read(&mut buffer),
        Ok(DnsRecord::NS {
            domain: "example.com".to_string(),
            host: "ns1.example.com".to_string(),
            ttl: 3600
        })
    );
    assert_eq!(buffer.position(), 58);
}

#[test]
fn record_errors_pass_through() {
    let long = "a".repeat(64);
    let record = DnsRecord::NS { domain: "ok".to_string(), host: long.clone(), ttl: 0 };
    let mut buffer = BytePacketBuffer::new();
    assert_eq!(
        record.write(&mut buffer),
        Err(BytePacketBufferError::QueryLabelNameLengthExceeded(0, 64))
    );
    let record = DnsRecord::MX {
        domain: "x".repeat(256),
        preference: 1,
        host: "ok".to_string(),
        ttl: 0,
    };
    assert_eq!(
        record.write(&mut buffer),
        Err(BytePacketBufferError::QueryDomainNameLengthExceeded(256))
    );
    let record =
        DnsRecord::A { domain: "ok".to_string(), addr: Ipv4Address::new(1, 1, 1, 1), ttl: 0 };
    let mut buffer = BytePacketBuffer::new();
    buffer.seek(495);
    assert_eq!(record.write(&mut buffer), Err(BytePacketBufferError::EndOfBuffer));
    buffer.seek(494);
    assert_eq!(record.write(&mut buffer), Ok(18));
    assert_eq!(buffer.position(), 512);
}

fn sample_packet() -> DnsPacket {
    let mut packet = DnsPacket::new();
    packet.header.id = 4242;
    packet.header.response = true;
    packet.header.recursion_desired = true;
    packet.header.recursion_available = true;
    packet.header.authoritative_answer = true;
    packet.header.opcode = 2;
    packet.header.rescode = ResultCode::NOERROR;
    packet.questions.push(DnsQuestion::new(
        "www.example.com".to_string(),
        QueryType::A,
        QueryClass::IN,
    ));
    packet.answers.push(DnsRecord::CNAME {
        domain: "www.example.com".to_string(),
        host: "example.com".to_string(),
        ttl: 100,
    });
    packet.answers.push(DnsRecord::A {
        domain: "example.com".to_string(),
        addr: Ipv4Address::new(93, 184, 216, 34),
        ttl: 200,
    });
    packet.answers.push(DnsRecord::AAAA {
        domain: "example.com".to_string(),
        addr: Ipv6Address::new(0x2606, 0x2800, 0x220, 1, 0x248, 0x1893, 0x25c8, 0x1946),
        ttl: 300,
    });
    packet.authorities.push(DnsRecord::NS {
        domain: "example.com".to_string(),
        host: "ns.example.com".to_string(),
        ttl: 400,
    });
    packet.resources.push(DnsRecord::MX {
        domain: "example.com".to_string(),
        preference: 10,
        host: "mail.example.com".to_string(),
        ttl: 500,
    });
    packet.resources.push(DnsRecord::A {
        domain: "ns.example.com".to_string(),
        addr: Ipv4Address::new(1, 2, 3, 4),
        ttl: 600,
    });
    packet
}

#[test]
fn new_packet_is_empty() {
    let packet = DnsPacket::new();
    assert_eq!(packet.header, DnsHeader::new());
    assert!(packet.questions.is_empty() && packet.answers.is_empty());
    assert!(packet.authorities.is_empty() && packet.resources.is_empty());
}

#[test]
fn packet_survives_writing_and_reading() {
    let mut packet = sample_packet();
    let mut buffer = BytePacketBuffer::new();
    assert_eq!(packet.write(&mut buffer), Ok(()));
    let end = buffer.position();
    assert_eq!(packet.header.questions, 1);
    assert_eq!(packet.header.answers, 3);
    assert_eq!(packet.header.authoritative_entries, 1);
    assert_eq!(packet.header.resource_entries, 2);

    buffer.seek(0);
    let decoded = DnsPacket::from_buffer(&mut buffer).unwrap();
    assert_eq!(decoded, packet);
    assert_eq!(buffer.position(), end);

    // and the octets survive reading and writing
    let mut decoded = decoded;
    let mut again = BytePacketBuffer::new();
    assert_eq!(decoded.write(&mut again), Ok(()));
    assert_eq!(again.position(), end);
    assert_eq!(&again.buffer[..], &buffer.buffer[..]);
}

#[test]
fn counts_are_set_from_the_sections_when_writing() {
    let mut packet = sample_packet();
    packet.header.questions = 9;
    packet.header.answers = 0;
    packet.header.authoritative_entries = 77;
    packet.header.resource_entries = 65535;
    let mut buffer = BytePacketBuffer::new();
    packet.write(&mut buffer).unwrap();
    assert_eq!(&buffer.buffer[4..12], &[0, 1, 0, 3, 0, 1, 0, 2]);
    assert_eq!(packet.header.questions, 1);
    assert_eq!(packet.header.resource_entries, 2);
}

#[test]
fn unhandled_records_are_counted_but_left_out() {
    let mut packet = DnsPacket::new();
    packet.answers.push(DnsRecord::UNHANDLED {
        domain: "t".to_string(),
        qtype: QueryType::TXT,
        data_len: 3,
        ttl: 9,
    });
    let mut buffer = BytePacketBuffer::new();
    packet.write(&mut buffer).unwrap();
    assert_eq!(buffer.position(), 12);
    assert_eq!(&buffer.buffer[4..12], &[0, 0, 0, 1, 0, 0, 0, 0]);
}

#[test]
fn packet_with_lying_counts_fails_where_the_buffer_ends() {
    let mut packet = sample_packet();
    let mut buffer = BytePacketBuffer::new();
    packet.write(&mut buffer).unwrap();
    buffer.buffer[10] = 0xFF;
    buffer.buffer[11] = 0xFF;
    buffer.seek(0);
    assert_eq!(DnsPacket::from_buffer(&mut buffer), Err(BytePacketBufferError::EndOfBuffer));
}

#[test]
fn packet_that_does_not_fit_fails() {
    let mut packet = DnsPacket::new();
    for _ in 0..40 {
        packet.answers.push(DnsRecord::A {
            domain: "a.example".to_string(),
            addr: Ipv4Address::new(1, 2, 3, 4),
            ttl: 1,
        });
    }
    let mut buffer = BytePacketBuffer::new();
    assert_eq!(packet.write(&mut buffer), Err(BytePacketBufferError::EndOfBuffer));
    packet.answers.truncate(20);
    let mut buffer = BytePacketBuffer::new();
    assert_eq!(packet.write(&mut buffer), Ok(()));
    assert_eq!(buffer.position(), 12 + 20 * 25);
}

#[test]
fn packet_reads_query_from_the_wire() {
    let mut buffer = buffer_with(
        b"\x86\x2A\x01\x20\x00\x01\x00\x00\x00\x00\x00\x00\
          \x06google\x03com\x00\x00\x01\x00\x01",
        0,
    );
    let packet = DnsPacket::from_buffer(&mut buffer).unwrap();
    assert_eq!(packet.header.id, 0x862A);
    assert!(packet.header.recursion_desired);
    assert!(packet.header.authed_data);
    assert!(!packet.header.response);
    assert_eq!(packet.header.questions, 1);
    assert_eq!(
        packet.questions,
        vec![DnsQuestion::new("google.com".to_string(), QueryType::A, QueryClass::IN)]
    );
    assert!(packet.answers.is_empty());
    assert_eq!(buffer.position(), 28);
}

#[test]
fn first_address_among_answers_is_picked() {
    let packet = sample_packet();
    assert_eq!(packet.get_random_a(), Some(Ipv4Address::new(93, 184, 216, 34)));
    assert_eq!(DnsPacket::new().get_random_a(), None);
}

fn referral() -> DnsPacket {
    let mut packet = DnsPacket::new();
    packet.authorities.push(DnsRecord::NS {
        domain: "org".to_string(),
        host: "ns.other.org".to_string(),
        ttl: 1,
    });
    packet.authorities.push(DnsRecord::NS {
        domain: "com".to_string(),
        host: "a.gtld.net".to_string(),
        ttl: 1,
    });
    packet.authorities.push(DnsRecord::CNAME {
        domain: "com".to_string(),
        host: "not.a.server".to_string(),
        ttl: 1,
    });
    packet.authorities.push(DnsRecord::NS {
        domain: "example.com".to_string(),
        host: "b.gtld.net".to_string(),
        ttl: 1,
    });
    packet.resources.push(DnsRecord::A {
        domain: "ns.other.org".to_string(),
        addr: Ipv4Address::new(9, 9, 9, 9),
        ttl: 1,
    });
    packet.resources.push(DnsRecord::AAAA {
        domain: "a.gtld.net".to_string(),
        addr: Ipv6Address::new(1, 2, 3, 4, 5, 6, 7, 8),
        ttl: 1,
    });
    packet.resources.push(DnsRecord::A {
        domain: "b.gtld.net".to_string(),
        addr: Ipv4Address::new(5, 6, 7, 8),
        ttl: 1,
    });
    packet.resources.push(DnsRecord::A {
        domain: "b.gtld.net".to_string(),
        addr: Ipv4Address::new(8, 8, 8, 8),
        ttl: 1,
    });
    packet
}

#[test]
fn name_servers_of_the_name_are_listed_in_order() {
    let packet = referral();
    assert_eq!(
        packet.get_ns("www.example.com"),
        vec![
            ("com".to_string(), "a.gtld.net".to_string()),
            ("example.com".to_string(), "b.gtld.net".to_string())
        ]
    );
    assert_eq!(
        packet.get_ns("other.org"),
        vec![("org".to_string(), "ns.other.org".to_string())]
    );
    assert_eq!(packet.get_ns("example.net"), Vec::<(String, String)>::new());
    assert_eq!(packet.get_ns("om"), Vec::<(String, String)>::new());
}

#[test]
fn glue_address_is_found_for_the_first_server_that_has_one() {
    let packet = referral();
    assert_eq!(packet.get_resolved_ns("www.example.com"), Some(Ipv4Address::new(5, 6, 7, 8)));
    assert_eq!(packet.get_resolved_ns("other.org"), Some(Ipv4Address::new(9, 9, 9, 9)));
    assert_eq!(packet.get_resolved_ns("example.net"), None);
    assert_eq!(
        packet.address_of_host(&"b.gtld.net".to_string()),
        Some(Ipv4Address::new(5, 6, 7, 8))
    );
    assert_eq!(packet.address_of_host(&"a.gtld.net".to_string()), None);
}

#[test]
fn server_without_glue_is_found() {
    let packet = referral();
    assert_eq!(packet.get_unresolved_ns("www.example.com"), Some("a.gtld.net".to_string()));
    assert_eq!(packet.get_unresolved_ns("other.org"), None);
    assert_eq!(packet.get_unresolved_ns("example.net"), None);
}

#[test]
fn failed_record_reading_leaves_the_position_where_it_stopped() {
    // the name ends at 505; the ten octets behind it do not fit
    let mut buffer = buffer_with(b"\x01a\x00", 502);
    buffer.seek(502);
    assert_eq!(DnsRecord::read(&mut buffer), Err(BytePacketBufferError::EndOfBuffer));
    assert_eq!(buffer.position(), 512);

    // an address cut off by the end
    let mut buffer = buffer_with(b"\x00\x00\x01\x00\x01\x00\x00\x00\x00\x00\x04\x01\x02", 499);
    buffer.seek(499);
    assert_eq!(DnsRecord::read(&mut buffer), Err(BytePacketBufferError::EndOfBuffer));
    assert_eq!(buffer.position(), 512);

    // a host name that runs in a circle: the position stays behind its pointer
    let mut buffer = buffer_with(b"\x00\x00\x02\x00\x01\x00\x00\x00\x00\x00\x02\xC0\x0B", 0);
    assert_eq!(DnsRecord::read(&mut buffer), Err(BytePacketBufferError::ExceededJumpCount(5)));
    assert_eq!(buffer.position(), 13);

    // a label that runs into the end: the position stays at the name
    let mut buffer = BytePacketBuffer::new();
    buffer.buffer[500] = 20;
    buffer.seek(500);
    assert_eq!(DnsRecord::read(&mut buffer), Err(BytePacketBufferError::EndOfBuffer));
    assert_eq!(buffer.position(), 500);
}

#[test]
fn failed_question_reading_leaves_the_position_where_it_stopped() {
    let mut buffer = buffer_with(b"\x01a\x00\x00\x01", 507);
    buffer.seek(507);
    let mut question = DnsQuestion::new(String::new(), QueryType::UNKNOWN(0), QueryClass::IN);
    assert_eq!(question.read(&mut buffer), Err(BytePacketBufferError::EndOfBuffer));
    assert_eq!(buffer.position(), 512);
}

#[test]
fn failed_packet_reading_leaves_the_position_where_it_stopped() {
    let mut buffer = BytePacketBuffer::new();
    buffer.seek(505);
    assert_eq!(DnsPacket::from_buffer(&mut buffer), Err(BytePacketBufferError::EndOfBuffer));
    assert_eq!(buffer.position(), 512);

    // one question is promised, and its name points at itself
    let mut buffer = buffer_with(b"\x00\x00\x00\x00\x00\x01\x00\x00\x00\x00\x00\x00\xC0\x0C", 0);
    assert_eq!(
        DnsPacket::from_buffer(&mut buffer),
        Err(BytePacketBufferError::ExceededJumpCount(5))
    );
    assert_eq!(buffer.position(), 14);
}

#[test]
fn failed_writing_leaves_the_position_where_it_stopped() {
    let record = DnsRecord::NS { domain: "ab".to_string(), host: "x".repeat(64), ttl: 0 };
    let mut buffer = BytePacketBuffer::new();
    buffer.seek(100);
    assert_eq!(
        record.write(&mut buffer),
        Err(BytePacketBufferError::QueryLabelNameLengthExceeded(0, 64))
    );
    // the name, ten octets, and the two octets kept free for the length
    assert_eq!(buffer.position(), 100 + 4 + 8 + 2);

    let record =
        DnsRecord::A { domain: "ab".to_string(), addr: Ipv4Address::new(1, 1, 1, 1), ttl: 0 };
    buffer.seek(500);
    assert_eq!(record.write(&mut buffer), Err(BytePacketBufferError::EndOfBuffer));
    assert_eq!(buffer.position(), 512);

    let mut packet = DnsPacket::new();
    packet.questions.push(DnsQuestion::new("a.b".to_string(), QueryType::A, QueryClass::IN));
    packet.answers.push(DnsRecord::CNAME {
        domain: "a.b".to_string(),
        host: format!("c.{}", "d".repeat(70)),
        ttl: 0,
    });
    let mut buffer = BytePacketBuffer::new();
    assert_eq!(
        packet.write(&mut buffer),
        Err(BytePacketBufferError::QueryLabelNameLengthExceeded(1, 70))
    );
    // header, question, and of the record all up to the label that is too long
    assert_eq!(buffer.position(), 12 + 9 + 5 + 8 + 2 + 2);
    buffer.seek(480);
    assert_eq!(packet.write(&mut buffer), Err(BytePacketBufferError::EndOfBuffer));
    assert_eq!(buffer.position(), 512);
}

#[test]
fn class_of_a_record_is_passed_over() {
    let octets = b"\x01a\x00\x00\x02\x00\x01\x00\x00\x00\x09\x00\x04\x02ns\x00";
    let mut in_class = buffer_with(octets, 30);
    let mut other_class = buffer_with(octets, 30);
    other_class.buffer[35] = 0xAB;
    other_class.buffer[36] = 0xCD;
    in_class.seek(30);
    other_class.seek(30);
    let first = DnsRecord::read(&mut in_class);
    let second = DnsRecord::read(&mut other_class);
    assert_eq!(
        first,
        Ok(DnsRecord::NS { domain: "a".to_string(), host: "ns".to_string(), ttl: 9 })
    );
    assert_eq!(first, second);
    assert_eq!(in_class.position(), other_class.position());

    // and a record that is cut short fails alike
    let mut in_class = buffer_with(&octets[..10], 502);
    let mut other_class = buffer_with(&octets[..10], 502);
    other_class.buffer[507] = 0xFF;
    in_class.seek(502);
    other_class.seek(502);
    assert_eq!(DnsRecord::read(&mut in_class), DnsRecord::read(&mut other_class));
    assert_eq!(in_class.position(), other_class.position());
}
