//! What is written can be read again: a message that is written and then
//! read is the message that was written.
//!
//! This holds of the messages that reading can produce at all. Names are
//! read with small letters and never with an empty label, records whose
//! data is not interpreted are left out when written, and questions read as
//! of the Internet class; a message with anything else in it comes back
//! changed, or is not written.

use vstd::prelude::*;
use vstd::utf8::{
    decode_first_scalar, decode_utf8, decode_utf8_split, encode_utf8, encode_utf8_decode_utf8,
    encode_utf8_valid_utf8, is_char_boundary_iff_not_is_continuation_byte,
    length_of_first_scalar, pop_first_scalar, valid_utf8, valid_utf8_split,
};
use crate::dns::address::Ipv6Address;
use crate::dns::byte_packet_buffer::BytePacketBuffer;
use crate::dns::byte_packet_buffer_error::BytePacketBufferError;
use crate::dns::dns_header::{DnsHeader, HEADER_LENGTH};
use crate::dns::dns_packet::{question_wires, record_wires, DnsPacket, PacketView};
use crate::dns::dns_question::{DnsQuestion, QuestionView};
use crate::dns::dns_record::{DnsRecord, RecordView};
use crate::dns::query_class::QueryClass;
use crate::dns::query_type::QueryType;
use crate::dns::name::{
    dotted, label_end, label_end_bounds, label_texts, labels_wire, lowered, name_text,
    name_wire, split, split_from, take_name, walk, NameWalk, DOT, MAX_JUMPS, MAX_LABEL,
    MAX_NAME,
};
use crate::dns::wire::{
    room, Stopped, take_u16, u16_at, u16_octets, u32_at, u32_octets, Encoding, CAPACITY,
};

verus! {

/// Whether `data` stands in `bytes` from `pos` on.
#[verifier::opaque]
pub open spec fn holds_at(bytes: Seq<u8>, pos: int, data: Seq<u8>) -> bool {
    &&& 0 <= pos
    &&& pos + data.len() <= bytes.len()
    &&& bytes.subrange(pos, pos + data.len()) == data
}

/// What was written into a buffer that had room for it stands there, from
/// the position on at which the writing started.
pub proof fn written_holds(old: BytePacketBuffer, new: BytePacketBuffer, data: Seq<u8>)
    requires
        BytePacketBuffer::wrote(old, new, data),
        old.position <= CAPACITY,
        data.len() <= room(old.position as int),
    ensures
        holds_at(new.buffer@, old.position as int, data),
        old.position + data.len() <= CAPACITY,
{
    reveal(holds_at);
    assert(data.take(data.len() as int) =~= data);
    assert(new.buffer@.subrange(old.position as int, old.position + data.len()) =~= data);
}

/// Where two pieces stand in a row, each of them stands in its place.
pub proof fn holds_at_both(bytes: Seq<u8>, pos: int, first: Seq<u8>, second: Seq<u8>)
    requires
        holds_at(bytes, pos, first + second),
    ensures
        holds_at(bytes, pos, first),
        holds_at(bytes, pos + first.len(), second),
{
    reveal(holds_at);
    let whole = bytes.subrange(pos, pos + (first + second).len());
    assert(bytes.subrange(pos, pos + first.len()) =~= whole.subrange(0, first.len() as int));
    assert(whole.subrange(0, first.len() as int) =~= first);
    assert(bytes.subrange(pos + first.len(), pos + first.len() + second.len()) =~= whole.subrange(
        first.len() as int,
        (first.len() + second.len()) as int,
    ));
    assert(whole.subrange(first.len() as int, (first.len() + second.len()) as int) =~= second);
}

/// A piece that stands in `bytes` is the part of `bytes` in its place.
pub proof fn holds_at_part(bytes: Seq<u8>, pos: int, data: Seq<u8>)
    requires
        holds_at(bytes, pos, data),
    ensures
        0 <= pos,
        pos + data.len() <= bytes.len(),
        bytes.subrange(pos, pos + data.len()) == data,
{
    reveal(holds_at);
}

/// The octet of a piece that stands in `bytes` is found there.
pub proof fn holds_at_index(bytes: Seq<u8>, pos: int, data: Seq<u8>, i: int)
    requires
        holds_at(bytes, pos, data),
        0 <= i < data.len(),
    ensures
        0 <= pos,
        pos + data.len() <= bytes.len(),
        bytes[pos + i] == data[i],
{
    reveal(holds_at);
    assert(bytes.subrange(pos, pos + data.len())[i] == bytes[pos + i]);
}

/// A 16-bit number is read from its two octets.
pub proof fn number_reads_back(bytes: Seq<u8>, pos: int, value: u16)
    requires
        holds_at(bytes, pos, u16_octets(value)),
    ensures
        u16_at(bytes, pos) == value,
{
    holds_at_index(bytes, pos, u16_octets(value), 0);
    holds_at_index(bytes, pos, u16_octets(value), 1);
}

/// A 32-bit number is read from its four octets.
pub proof fn long_number_reads_back(bytes: Seq<u8>, pos: int, value: u32)
    requires
        holds_at(bytes, pos, u32_octets(value)),
    ensures
        u32_at(bytes, pos) == value,
{
    holds_at_index(bytes, pos, u32_octets(value), 0);
    holds_at_index(bytes, pos, u32_octets(value), 1);
    holds_at_index(bytes, pos, u32_octets(value), 2);
    holds_at_index(bytes, pos, u32_octets(value), 3);
}

/// Whether every label can be written and read: none is empty, and none is
/// longer than `MAX_LABEL` octets.
pub open spec fn labels_fit(labels: Seq<Seq<u8>>) -> bool {
    forall|i: int| 0 <= i < labels.len() ==> 1 <= #[trigger] labels[i].len() <= MAX_LABEL
}

/// Whether no octet is an ASCII capital letter.
pub open spec fn is_small(bytes: Seq<u8>) -> bool {
    forall|i: int| 0 <= i < bytes.len() ==> !(0x41 <= #[trigger] bytes[i] <= 0x5A)
}

/// Whether a name is one that reading can produce and writing accepts: no
/// longer than `MAX_NAME` octets, without ASCII capital letters, and each of
/// its labels neither empty nor longer than `MAX_LABEL` octets.
#[verifier::opaque]
pub open spec fn is_plain_name(name: Seq<char>) -> bool {
    let octets = encode_utf8(name);
    &&& octets.len() <= MAX_NAME
    &&& is_small(octets)
    &&& labels_fit(split(octets))
}

/// Labels that fit are written whole, each with its length, and a zero
/// octet after the last.
pub proof fn labels_wire_length(labels: Seq<Seq<u8>>, index: int)
    requires
        labels_fit(labels),
    ensures
        labels_wire(labels, index).failure is None,
        labels_wire(labels, index).bytes.len() >= 1,
        labels.len() > 0 ==> labels_wire(labels, index).bytes == seq![labels[0].len() as u8]
            + labels[0] + labels_wire(labels.drop_first(), index + 1).bytes,
    decreases labels.len(),
{
    if labels.len() > 0 {
        assert(labels_fit(labels.drop_first())) by {
            assert forall|i: int| 0 <= i < labels.drop_first().len() implies 1
                <= #[trigger] labels.drop_first()[i].len() <= MAX_LABEL by {
                assert(labels.drop_first()[i] == labels[i + 1]);
            }
        }
        labels_wire_length(labels.drop_first(), index + 1);
    }
}

/// Labels that were written are the labels that are read, and the position
/// is left behind the zero octet that ends them.
pub proof fn labels_read_back(
    bytes: Seq<u8>,
    pos: int,
    labels: Seq<Seq<u8>>,
    index: int,
    jumps: int,
)
    requires
        labels_fit(labels),
        0 <= jumps <= MAX_JUMPS,
        holds_at(bytes, pos, labels_wire(labels, index).bytes),
        pos + labels_wire(labels, index).bytes.len() <= CAPACITY,
    ensures
        walk(bytes, pos, jumps) == (NameWalk {
            labels: Ok(labels),
            cursor: Some(pos + labels_wire(labels, index).bytes.len()),
        }),
    decreases labels.len(),
{
    let wire = labels_wire(labels, index).bytes;
    labels_wire_length(labels, index);
    if labels.len() == 0 {
        holds_at_index(bytes, pos, wire, 0);
        assert(bytes[pos] == 0);
        assert(labels =~= Seq::<Seq<u8>>::empty());
    } else {
        let label = labels[0];
        let rest = labels.drop_first();
        let tail = labels_wire(rest, index + 1).bytes;
        assert(labels_fit(rest)) by {
            assert forall|i: int| 0 <= i < rest.len() implies 1 <= #[trigger] rest[i].len()
                <= MAX_LABEL by {
                assert(rest[i] == labels[i + 1]);
            }
        }
        labels_wire_length(rest, index + 1);
        assert(wire == seq![label.len() as u8] + label + tail);
        holds_at_both(bytes, pos, seq![label.len() as u8] + label, tail);
        holds_at_both(bytes, pos, seq![label.len() as u8], label);
        holds_at_index(bytes, pos, seq![label.len() as u8], 0);
        holds_at_part(bytes, pos + 1, label);
        assert(bytes[pos] == label.len());
        labels_read_back(bytes, pos + 1 + label.len(), rest, index + 1, jumps);
        assert(seq![label] + rest =~= labels);
        assert(wire.len() == 1 + label.len() + tail.len());
        let next = walk(bytes, pos + 1 + label.len(), jumps);
        assert(next.labels == Ok::<Seq<Seq<u8>>, BytePacketBufferError>(rest));
        assert(walk(bytes, pos, jumps).labels == Ok::<Seq<Seq<u8>>, BytePacketBufferError>(
            seq![label] + rest,
        ));
    }
}

/// Octets without ASCII capital letters stay as they are.
pub proof fn small_stays(bytes: Seq<u8>)
    requires
        is_small(bytes),
    ensures
        lowered(bytes) == bytes,
{
    assert(lowered(bytes) =~= bytes);
}

/// The first of several labels, a dot, and the others joined.
pub proof fn dotted_first(first: Seq<char>, others: Seq<Seq<char>>)
    requires
        others.len() > 0,
    ensures
        dotted(seq![first] + others) == first + seq!['.'] + dotted(others),
    decreases others.len(),
{
    let all = seq![first] + others;
    assert(all.last() == others.last());
    if others.len() == 1 {
        assert(all.drop_last() =~= seq![first]);
        assert(dotted(seq![first]) == first);
        assert(dotted(others) == others[0]);
    } else {
        assert(all.drop_last() =~= seq![first] + others.drop_last());
        dotted_first(first, others.drop_last());
        assert(first + seq!['.'] + dotted(others.drop_last()) + seq!['.'] + others.last() =~= first
            + seq!['.'] + (dotted(others.drop_last()) + seq!['.'] + others.last()));
    }
}

/// Valid text with a dot in it is valid text before the dot and behind it,
/// and reads as the one, a dot, and the other.
pub proof fn text_around_dot(bytes: Seq<u8>, at: int)
    requires
        valid_utf8(bytes),
        0 <= at < bytes.len(),
        bytes[at] == DOT,
    ensures
        valid_utf8(bytes.subrange(0, at)),
        valid_utf8(bytes.subrange(at + 1, bytes.len() as int)),
        decode_utf8(bytes) == decode_utf8(bytes.subrange(0, at)) + seq!['.'] + decode_utf8(
            bytes.subrange(at + 1, bytes.len() as int),
        ),
{
    let dot = bytes[at];
    is_char_boundary_iff_not_is_continuation_byte(bytes, at);
    valid_utf8_split(bytes, at);
    decode_utf8_split(bytes, at);
    let behind = bytes.subrange(at, bytes.len() as int);
    assert(behind[0] == dot);
    assert((dot & 0x7F) as u32 == 0x2Eu32) by (bit_vector)
        requires
            dot == 0x2Eu8,
    ;
    assert(length_of_first_scalar(behind) == 1 && decode_first_scalar(behind) == 0x2Eu32);
    assert(pop_first_scalar(behind) =~= bytes.subrange(at + 1, bytes.len() as int));
    assert(0x2Eu32 as char == '.');
}

/// The labels of valid text without ASCII capital letters read, joined by
/// dots, as that text.
pub proof fn split_reads_back(octets: Seq<u8>, from: int)
    requires
        0 <= from <= octets.len(),
        valid_utf8(octets.subrange(from, octets.len() as int)),
        is_small(octets),
    ensures
        split_from(octets, from).len() > 0,
        name_text(split_from(octets, from)) == decode_utf8(
            octets.subrange(from, octets.len() as int),
        ),
    decreases octets.len() - from,
{
    let end = label_end(octets, from);
    label_end_bounds(octets, from);
    let behind = octets.subrange(from, octets.len() as int);
    if end >= octets.len() {
        let labels = seq![behind];
        assert(split_from(octets, from) == labels);
        small_stays(behind);
        assert(label_texts(labels) =~= seq![decode_utf8(behind)]);
    } else {
        let label = octets.subrange(from, end);
        let others = split_from(octets, end + 1);
        assert(split_from(octets, from) == seq![label] + others);
        assert(behind[end - from] == DOT);
        text_around_dot(behind, end - from);
        assert(behind.subrange(0, end - from) =~= label);
        assert(behind.subrange(end - from + 1, behind.len() as int) =~= octets.subrange(
            end + 1,
            octets.len() as int,
        ));
        split_reads_back(octets, end + 1);
        small_stays(label);
        assert(label_texts(seq![label] + others) =~= seq![decode_utf8(label)] + label_texts(
            others,
        ));
        dotted_first(decode_utf8(label), label_texts(others));
    }
}

/// A plain name that was written is the name that is read, and the position
/// is left behind it.
pub proof fn name_reads_back(name: Seq<char>, bytes: Seq<u8>, pos: int)
    requires
        is_plain_name(name),
        holds_at(bytes, pos, name_wire(encode_utf8(name)).bytes),
        pos + name_wire(encode_utf8(name)).bytes.len() <= CAPACITY,
    ensures
        name_wire(encode_utf8(name)).failure is None,
        take_name(bytes, pos) == Ok::<(Seq<char>, int), Stopped>(
            (name, pos + name_wire(encode_utf8(name)).bytes.len()),
        ),
{
    reveal(is_plain_name);
    reveal(name_wire);
    reveal(take_name);
    let octets = encode_utf8(name);
    encode_utf8_valid_utf8(name);
    encode_utf8_decode_utf8(name);
    labels_wire_length(split(octets), 0);
    labels_read_back(bytes, pos, split(octets), 0, 0);
    assert(octets.subrange(0, octets.len() as int) =~= octets);
    split_reads_back(octets, 0);
}

/// A plain name is written whole, in at least two octets: no label is
/// refused.
pub proof fn plain_name_is_written(name: Seq<char>)
    requires
        is_plain_name(name),
    ensures
        name_wire(encode_utf8(name)).failure is None,
        name_wire(encode_utf8(name)).bytes.len() >= 1,
{
    reveal(is_plain_name);
    reveal(name_wire);
    labels_wire_length(split(encode_utf8(name)), 0);
}

/// Whether a question is one that reading can produce: its name is plain,
/// its type is the one that its number reads as, and its class is the
/// Internet class.
pub open spec fn is_plain_question(question: QuestionView) -> bool {
    &&& is_plain_name(question.q_name)
    &&& question.q_type.is_canonical()
    &&& question.q_class == QueryClass::IN
}

/// A plain question that was written is the question that is read, and the
/// position is left behind it.
pub proof fn question_reads_back(question: QuestionView, bytes: Seq<u8>, pos: int)
    requires
        is_plain_question(question),
        holds_at(bytes, pos, DnsQuestion::wire(question).bytes),
        pos + DnsQuestion::wire(question).bytes.len() <= CAPACITY,
    ensures
        DnsQuestion::wire(question).failure is None,
        DnsQuestion::parse(bytes, pos, QueryClass::IN) == Ok::<(QuestionView, int), Stopped>((question, pos + DnsQuestion::wire(question).bytes.len())),
{
    let name = name_wire(encode_utf8(question.q_name));
    let number = u16_octets(question.q_type.spec_to_num());
    let class = u16_octets(QueryClass::IN.spec_to_num());
    plain_name_is_written(question.q_name);
    assert(DnsQuestion::wire(question).bytes == name.bytes + (number + class));
    holds_at_both(bytes, pos, name.bytes, number + class);
    holds_at_both(bytes, pos + name.bytes.len(), number, class);
    name_reads_back(question.q_name, bytes, pos);
    number_reads_back(bytes, pos + name.bytes.len(), question.q_type.spec_to_num());
    QueryType::from_num_inverts_to_num(question.q_type);
}

/// Whether a record is one that is written and read as it is: its names are
/// plain, its address has the length of its kind, and it is not one whose
/// data is not interpreted.
pub open spec fn is_plain_record(record: RecordView) -> bool {
    match record {
        RecordView::UNHANDLED { .. } => false,
        RecordView::A { domain, addr, .. } => is_plain_name(domain) && addr.len() == 4,
        RecordView::NS { domain, host, .. } => is_plain_name(domain) && is_plain_name(host),
        RecordView::CNAME { domain, host, .. } => is_plain_name(domain) && is_plain_name(host),
        RecordView::MX { domain, host, .. } => is_plain_name(domain) && is_plain_name(host),
        RecordView::AAAA { domain, addr, .. } => is_plain_name(domain) && addr.len() == 8,
    }
}

/// What all records start with is read as it was written: the name, and
/// behind it the type and the time to live.
pub proof fn preamble_reads_back(
    domain: Seq<char>,
    type_number: u16,
    ttl: u32,
    bytes: Seq<u8>,
    pos: int,
)
    requires
        is_plain_name(domain),
        holds_at(bytes, pos, DnsRecord::preamble(domain, type_number, ttl).bytes),
        pos + DnsRecord::preamble(domain, type_number, ttl).bytes.len() <= CAPACITY,
    ensures
        DnsRecord::preamble(domain, type_number, ttl).failure is None,
        DnsRecord::preamble(domain, type_number, ttl).bytes.len() == name_wire(
            encode_utf8(domain),
        ).bytes.len() + 8,
        take_name(bytes, pos) == Ok::<(Seq<char>, int), Stopped>(
            (domain, pos + name_wire(encode_utf8(domain)).bytes.len()),
        ),
        u16_at(bytes, pos + name_wire(encode_utf8(domain)).bytes.len()) == type_number,
        u32_at(bytes, pos + name_wire(encode_utf8(domain)).bytes.len() + 4) == ttl,
{
    let name = name_wire(encode_utf8(domain)).bytes;
    let number = u16_octets(type_number);
    let class = u16_octets(QueryClass::IN.spec_to_num());
    let time = u32_octets(ttl);
    plain_name_is_written(domain);
    assert(DnsRecord::preamble(domain, type_number, ttl).bytes == name + number + class + time);
    holds_at_both(bytes, pos, name + number + class, time);
    holds_at_both(bytes, pos, name + number, class);
    holds_at_both(bytes, pos, name, number);
    name_reads_back(domain, bytes, pos);
    number_reads_back(bytes, pos + name.len(), type_number);
    long_number_reads_back(bytes, pos + name.len() + 4, ttl);
}

/// The groups of an IPv6 address are read from their octets.
pub proof fn groups_read_back(groups: Seq<u16>, count: int, bytes: Seq<u8>, pos: int)
    requires
        0 <= count <= groups.len(),
        holds_at(bytes, pos, Ipv6Address::groups_wire(groups, count)),
    ensures
        Ipv6Address::groups_wire(groups, count).len() == 2 * count,
        forall|i: int| 0 <= i < count ==> u16_at(bytes, pos + 2 * i) == groups[i],
    decreases count,
{
    DnsRecord::groups_length(groups, count);
    if count > 0 {
        DnsRecord::groups_length(groups, count - 1);
        holds_at_both(
            bytes,
            pos,
            Ipv6Address::groups_wire(groups, count - 1),
            u16_octets(groups[count - 1]),
        );
        groups_read_back(groups, count - 1, bytes, pos);
        number_reads_back(bytes, pos + 2 * (count - 1), groups[count - 1]);
    }
}

/// The data of a record that names a host is read as it was written.
pub proof fn host_data_reads_back(
    preference: Option<u16>,
    host: Seq<char>,
    bytes: Seq<u8>,
    pos: int,
)
    requires
        is_plain_name(host),
        holds_at(bytes, pos, DnsRecord::sized(DnsRecord::host_data(preference, host)).bytes),
        pos + DnsRecord::sized(DnsRecord::host_data(preference, host)).bytes.len() <= CAPACITY,
    ensures
        DnsRecord::sized(DnsRecord::host_data(preference, host)).failure is None,
        match preference {
            Some(value) => take_u16(bytes, pos + 2) == Ok::<(u16, int), Stopped>(
                (value, pos + 4),
            ) && take_name(bytes, pos + 4) == Ok::<(Seq<char>, int), Stopped>(
                (host, pos + DnsRecord::sized(DnsRecord::host_data(preference, host)).bytes.len()),
            ),
            None => take_name(bytes, pos + 2) == Ok::<(Seq<char>, int), Stopped>(
                (host, pos + DnsRecord::sized(DnsRecord::host_data(preference, host)).bytes.len()),
            ),
        },
{
    let name = name_wire(encode_utf8(host)).bytes;
    let data = DnsRecord::host_data(preference, host);
    let length = u16_octets(data.bytes.len() as u16);
    plain_name_is_written(host);
    holds_at_both(bytes, pos, length, data.bytes);
    match preference {
        Some(value) => {
            assert(data.bytes == u16_octets(value) + name);
            holds_at_both(bytes, pos + 2, u16_octets(value), name);
            number_reads_back(bytes, pos + 2, value);
            name_reads_back(host, bytes, pos + 4);
        },
        None => {
            name_reads_back(host, bytes, pos + 2);
        },
    }
}

/// A plain `A` record that was written is the record that is read.
proof fn a_record_reads_back(domain: Seq<char>, addr: Seq<u8>, ttl: u32, bytes: Seq<u8>, pos: int)
    requires
        is_plain_name(domain),
        addr.len() == 4,
        holds_at(bytes, pos, DnsRecord::wire(RecordView::A { domain, addr, ttl }).bytes),
        pos + DnsRecord::wire(RecordView::A { domain, addr, ttl }).bytes.len() <= CAPACITY,
    ensures
        DnsRecord::wire(RecordView::A { domain, addr, ttl }).failure is None,
        DnsRecord::parse(bytes, pos) == Ok::<(RecordView, int), Stopped>(
            (
                RecordView::A { domain, addr, ttl },
                pos + DnsRecord::wire(RecordView::A { domain, addr, ttl }).bytes.len(),
            ),
        ),
{
    reveal(DnsRecord::parse);
    let record = RecordView::A { domain, addr, ttl };
    let head = DnsRecord::preamble(domain, QueryType::A.spec_to_num(), ttl);
    plain_name_is_written(domain);
    assert(DnsRecord::wire(record).bytes == head.bytes + u16_octets(4) + addr);
    holds_at_both(bytes, pos, head.bytes + u16_octets(4), addr);
    holds_at_both(bytes, pos, head.bytes, u16_octets(4));
    holds_at_part(bytes, pos + head.bytes.len() + 2, addr);
    preamble_reads_back(domain, QueryType::A.spec_to_num(), ttl, bytes, pos);
    let at = pos + name_wire(encode_utf8(domain)).bytes.len();
    assert(QueryType::spec_from_num(u16_at(bytes, at)) == QueryType::A);
    assert(at + 10 == pos + head.bytes.len() + 2);
}

/// A plain `AAAA` record that was written is the record that is read.
proof fn aaaa_record_reads_back(
    domain: Seq<char>,
    addr: Seq<u16>,
    ttl: u32,
    bytes: Seq<u8>,
    pos: int,
)
    requires
        is_plain_name(domain),
        addr.len() == 8,
        holds_at(bytes, pos, DnsRecord::wire(RecordView::AAAA { domain, addr, ttl }).bytes),
        pos + DnsRecord::wire(RecordView::AAAA { domain, addr, ttl }).bytes.len() <= CAPACITY,
    ensures
        DnsRecord::wire(RecordView::AAAA { domain, addr, ttl }).failure is None,
        DnsRecord::parse(bytes, pos) == Ok::<(RecordView, int), Stopped>(
            (
                RecordView::AAAA { domain, addr, ttl },
                pos + DnsRecord::wire(RecordView::AAAA { domain, addr, ttl }).bytes.len(),
            ),
        ),
{
    reveal(DnsRecord::parse);
    let record = RecordView::AAAA { domain, addr, ttl };
    let head = DnsRecord::preamble(domain, QueryType::AAAA.spec_to_num(), ttl);
    let groups = Ipv6Address::groups_wire(addr, 8);
    plain_name_is_written(domain);
    assert(DnsRecord::wire(record).bytes == head.bytes + u16_octets(16) + groups);
    holds_at_both(bytes, pos, head.bytes + u16_octets(16), groups);
    holds_at_both(bytes, pos, head.bytes, u16_octets(16));
    preamble_reads_back(domain, QueryType::AAAA.spec_to_num(), ttl, bytes, pos);
    let at = pos + name_wire(encode_utf8(domain)).bytes.len();
    assert(QueryType::spec_from_num(u16_at(bytes, at)) == QueryType::AAAA);
    assert(at + 10 == pos + head.bytes.len() + 2);
    groups_read_back(addr, 8, bytes, at + 10);
    assert(Seq::new(8, |i: int| u16_at(bytes, at + 10 + 2 * i)) =~= addr);
}

/// The type of a record that names a host.
pub open spec fn host_record_type(record: RecordView) -> QueryType {
    match record {
        RecordView::NS { .. } => QueryType::NS,
        RecordView::CNAME { .. } => QueryType::CNAME,
        _ => QueryType::MX,
    }
}

/// What reading finds at `pos` is, for a record that names a host, the
/// record built from what stands there: the name, the type, the time to
/// live, and the data in the form of the type.
proof fn host_record_is_parsed(
    record: RecordView,
    domain: Seq<char>,
    preference: Option<u16>,
    host: Seq<char>,
    ttl: u32,
    bytes: Seq<u8>,
    pos: int,
    at: int,
    end: int,
)
    requires
        record == (RecordView::NS { domain, host, ttl }) && preference is None || record
            == (RecordView::CNAME { domain, host, ttl }) && preference is None || preference
            is Some && record == (RecordView::MX {
            domain,
            preference: preference->Some_0,
            host,
            ttl,
        }),
        take_name(bytes, pos) == Ok::<(Seq<char>, int), Stopped>((domain, at)),
        at + 10 <= CAPACITY,
        QueryType::spec_from_num(u16_at(bytes, at)) == host_record_type(record),
        u32_at(bytes, at + 4) == ttl,
        match preference {
            Some(value) => take_u16(bytes, at + 10) == Ok::<(u16, int), Stopped>(
                (value, at + 12),
            ) && take_name(bytes, at + 12) == Ok::<(Seq<char>, int), Stopped>(
                (host, end),
            ),
            None => take_name(bytes, at + 10) == Ok::<(Seq<char>, int), Stopped>(
                (host, end),
            ),
        },
    ensures
        DnsRecord::parse(bytes, pos) == Ok::<(RecordView, int), Stopped>(
            (record, end),
        ),
{
    reveal(DnsRecord::parse);
}

/// A plain record that names a host and was written is the record that is
/// read.
proof fn host_record_reads_back(
    record: RecordView,
    domain: Seq<char>,
    preference: Option<u16>,
    host: Seq<char>,
    ttl: u32,
    bytes: Seq<u8>,
    pos: int,
)
    requires
        record == (RecordView::NS { domain, host, ttl }) && preference is None || record
            == (RecordView::CNAME { domain, host, ttl }) && preference is None || preference
            is Some && record == (RecordView::MX {
            domain,
            preference: preference->Some_0,
            host,
            ttl,
        }),
        is_plain_name(domain),
        is_plain_name(host),
        holds_at(bytes, pos, DnsRecord::wire(record).bytes),
        pos + DnsRecord::wire(record).bytes.len() <= CAPACITY,
    ensures
        DnsRecord::wire(record).failure is None,
        DnsRecord::parse(bytes, pos) == Ok::<(RecordView, int), Stopped>(
            (record, pos + DnsRecord::wire(record).bytes.len()),
        ),
{
    let number = host_record_type(record).spec_to_num();
    let head = DnsRecord::preamble(domain, number, ttl);
    let data = DnsRecord::sized(DnsRecord::host_data(preference, host));
    plain_name_is_written(domain);
    plain_name_is_written(host);
    assert(DnsRecord::wire(record) == head.followed_by(data));
    assert(DnsRecord::wire(record).bytes == head.bytes + data.bytes);
    holds_at_both(bytes, pos, head.bytes, data.bytes);
    preamble_reads_back(domain, number, ttl, bytes, pos);
    host_data_reads_back(preference, host, bytes, pos + head.bytes.len());
    let at = pos + name_wire(encode_utf8(domain)).bytes.len();
    assert(at + 8 == pos + head.bytes.len());
    host_record_is_parsed(
        record,
        domain,
        preference,
        host,
        ttl,
        bytes,
        pos,
        at,
        pos + DnsRecord::wire(record).bytes.len(),
    );
}

/// A plain record that was written is the record that is read, and the
/// position is left behind it.
pub proof fn record_reads_back(record: RecordView, bytes: Seq<u8>, pos: int)
    requires
        is_plain_record(record),
        holds_at(bytes, pos, DnsRecord::wire(record).bytes),
        pos + DnsRecord::wire(record).bytes.len() <= CAPACITY,
    ensures
        DnsRecord::wire(record).failure is None,
        DnsRecord::parse(bytes, pos) == Ok::<(RecordView, int), Stopped>(
            (record, pos + DnsRecord::wire(record).bytes.len()),
        ),
{
    match record {
        RecordView::UNHANDLED { .. } => {},
        RecordView::A { domain, addr, ttl } => {
            a_record_reads_back(domain, addr, ttl, bytes, pos);
        },
        RecordView::AAAA { domain, addr, ttl } => {
            aaaa_record_reads_back(domain, addr, ttl, bytes, pos);
        },
        RecordView::NS { domain, host, ttl } => {
            host_record_reads_back(record, domain, None, host, ttl, bytes, pos);
        },
        RecordView::CNAME { domain, host, ttl } => {
            host_record_reads_back(record, domain, None, host, ttl, bytes, pos);
        },
        RecordView::MX { domain, preference, host, ttl } => {
            host_record_reads_back(record, domain, Some(preference), host, ttl, bytes, pos);
        },
    }
}

/// Whether every question of a section is plain.
pub open spec fn are_plain_questions(questions: Seq<QuestionView>) -> bool {
    forall|i: int| 0 <= i < questions.len() ==> is_plain_question(#[trigger] questions[i])
}

/// Whether every record of a section is plain.
pub open spec fn are_plain_records(records: Seq<RecordView>) -> bool {
    forall|i: int| 0 <= i < records.len() ==> is_plain_record(#[trigger] records[i])
}

/// Plain questions that were written in a row are the questions that are
/// read, and the position is left behind them.
pub proof fn questions_read_back(questions: Seq<QuestionView>, bytes: Seq<u8>, pos: int)
    requires
        are_plain_questions(questions),
        holds_at(bytes, pos, Encoding::row(question_wires(questions)).bytes),
        pos + Encoding::row(question_wires(questions)).bytes.len() <= CAPACITY,
    ensures
        Encoding::row(question_wires(questions)).failure is None,
        DnsPacket::take_questions(bytes, pos, questions.len()) == Ok::<(Seq<QuestionView>, int), Stopped>((questions, pos + Encoding::row(question_wires(questions)).bytes.len())),
    decreases questions.len(),
{
    if questions.len() == 0 {
        assert(questions =~= Seq::<QuestionView>::empty());
    } else {
        let earlier = questions.drop_last();
        let last = questions.last();
        let sofar = Encoding::row(question_wires(earlier));
        assert(question_wires(questions).drop_last() =~= question_wires(earlier));
        assert(question_wires(questions).last() == DnsQuestion::wire(last));
        plain_row_of_questions_is_written(earlier);
        plain_name_is_written(last.q_name);
        holds_at_both(bytes, pos, sofar.bytes, DnsQuestion::wire(last).bytes);
        questions_read_back(earlier, bytes, pos);
        question_reads_back(last, bytes, pos + sofar.bytes.len());
        assert(earlier.push(last) =~= questions);
    }
}

/// Plain questions are written whole.
pub proof fn plain_row_of_questions_is_written(questions: Seq<QuestionView>)
    requires
        are_plain_questions(questions),
    ensures
        Encoding::row(question_wires(questions)).failure is None,
        Encoding::row(question_wires(questions)).bytes.len() >= questions.len(),
    decreases questions.len(),
{
    if questions.len() > 0 {
        let earlier = questions.drop_last();
        assert(question_wires(questions).drop_last() =~= question_wires(earlier));
        plain_row_of_questions_is_written(earlier);
        plain_name_is_written(questions.last().q_name);
    }
}

/// A plain record is written whole.
pub proof fn plain_record_is_written(record: RecordView)
    requires
        is_plain_record(record),
    ensures
        DnsRecord::wire(record).failure is None,
        DnsRecord::wire(record).bytes.len() >= 1,
{
    match record {
        RecordView::UNHANDLED { .. } => {},
        RecordView::A { domain, .. } => {
            plain_name_is_written(domain);
        },
        RecordView::AAAA { domain, .. } => {
            plain_name_is_written(domain);
        },
        RecordView::NS { domain, host, .. } => {
            plain_name_is_written(domain);
            plain_name_is_written(host);
        },
        RecordView::CNAME { domain, host, .. } => {
            plain_name_is_written(domain);
            plain_name_is_written(host);
        },
        RecordView::MX { domain, host, .. } => {
            plain_name_is_written(domain);
            plain_name_is_written(host);
        },
    }
}

/// Plain records are written whole.
pub proof fn plain_row_of_records_is_written(records: Seq<RecordView>)
    requires
        are_plain_records(records),
    ensures
        Encoding::row(record_wires(records)).failure is None,
        Encoding::row(record_wires(records)).bytes.len() >= records.len(),
    decreases records.len(),
{
    if records.len() > 0 {
        let earlier = records.drop_last();
        assert(record_wires(records).drop_last() =~= record_wires(earlier));
        plain_row_of_records_is_written(earlier);
        plain_record_is_written(records.last());
    }
}

/// Plain records that were written in a row are the records that are read,
/// and the position is left behind them.
pub proof fn records_read_back(records: Seq<RecordView>, bytes: Seq<u8>, pos: int)
    requires
        are_plain_records(records),
        holds_at(bytes, pos, Encoding::row(record_wires(records)).bytes),
        pos + Encoding::row(record_wires(records)).bytes.len() <= CAPACITY,
    ensures
        Encoding::row(record_wires(records)).failure is None,
        DnsPacket::take_records(bytes, pos, records.len()) == Ok::<(Seq<RecordView>, int), Stopped>((records, pos + Encoding::row(record_wires(records)).bytes.len())),
    decreases records.len(),
{
    if records.len() == 0 {
        assert(records =~= Seq::<RecordView>::empty());
    } else {
        let earlier = records.drop_last();
        let last = records.last();
        let sofar = Encoding::row(record_wires(earlier));
        assert(record_wires(records).drop_last() =~= record_wires(earlier));
        assert(record_wires(records).last() == DnsRecord::wire(last));
        plain_row_of_records_is_written(earlier);
        plain_record_is_written(last);
        holds_at_both(bytes, pos, sofar.bytes, DnsRecord::wire(last).bytes);
        records_read_back(earlier, bytes, pos);
        record_reads_back(last, bytes, pos + sofar.bytes.len());
        assert(earlier.push(last) =~= records);
    }
}

/// Whether a message is one that is written and read as it is: the opcode
/// has no more than four bits, and all questions and records are plain.
pub open spec fn is_plain_packet(packet: PacketView) -> bool {
    &&& packet.header.opcode < 16
    &&& are_plain_questions(packet.questions)
    &&& are_plain_records(packet.answers)
    &&& are_plain_records(packet.authorities)
    &&& are_plain_records(packet.resources)
}

/// A plain message is written whole, as long as it finds room.
pub proof fn plain_packet_is_written(packet: PacketView)
    requires
        is_plain_packet(packet),
    ensures
        DnsPacket::wire(packet).failure is None,
{
    reveal(DnsPacket::wire);
    plain_row_of_questions_is_written(packet.questions);
    plain_row_of_records_is_written(packet.answers);
    plain_row_of_records_is_written(packet.authorities);
    plain_row_of_records_is_written(packet.resources);
}

/// The header and the four sections of a message that is written whole
/// stand in a row.
proof fn packet_parts_hold(packet: PacketView, bytes: Seq<u8>, pos: int)
    requires
        Encoding::row(question_wires(packet.questions)).failure is None,
        Encoding::row(record_wires(packet.answers)).failure is None,
        Encoding::row(record_wires(packet.authorities)).failure is None,
        Encoding::row(record_wires(packet.resources)).failure is None,
        holds_at(bytes, pos, DnsPacket::wire(packet).bytes),
    ensures
        ({
            let head = DnsPacket::counted(packet).wire();
            let first = Encoding::row(question_wires(packet.questions)).bytes;
            let second = Encoding::row(record_wires(packet.answers)).bytes;
            let third = Encoding::row(record_wires(packet.authorities)).bytes;
            let fourth = Encoding::row(record_wires(packet.resources)).bytes;
            &&& head.len() == HEADER_LENGTH
            &&& DnsPacket::wire(packet).bytes.len() == HEADER_LENGTH + first.len() + second.len()
                + third.len() + fourth.len()
            &&& holds_at(bytes, pos, head)
            &&& holds_at(bytes, pos + HEADER_LENGTH, first)
            &&& holds_at(bytes, pos + HEADER_LENGTH + first.len(), second)
            &&& holds_at(bytes, pos + HEADER_LENGTH + first.len() + second.len(), third)
            &&& holds_at(
                bytes,
                pos + HEADER_LENGTH + first.len() + second.len() + third.len(),
                fourth,
            )
        }),
{
    let head = DnsPacket::counted(packet).wire();
    let first = Encoding::row(question_wires(packet.questions)).bytes;
    let second = Encoding::row(record_wires(packet.answers)).bytes;
    let third = Encoding::row(record_wires(packet.authorities)).bytes;
    let fourth = Encoding::row(record_wires(packet.resources)).bytes;
    DnsHeader::wire_length(DnsPacket::counted(packet));
    assert(DnsPacket::wire(packet).bytes == head + first + second + third + fourth) by {
        reveal(DnsPacket::wire);
    }
    holds_at_both(bytes, pos, head + first + second + third, fourth);
    holds_at_both(bytes, pos, head + first + second, third);
    holds_at_both(bytes, pos, head + first, second);
    holds_at_both(bytes, pos, head, first);
}

/// A message is read from its parts: the header, and the sections that it
/// counts.
proof fn packet_is_parsed(
    packet: PacketView,
    bytes: Seq<u8>,
    pos: int,
    first: int,
    second: int,
    third: int,
    end: int,
)
    requires
        pos + HEADER_LENGTH <= CAPACITY,
        DnsHeader::parse(bytes, pos) == packet.header,
        packet.header.questions == packet.questions.len(),
        packet.header.answers == packet.answers.len(),
        packet.header.authoritative_entries == packet.authorities.len(),
        packet.header.resource_entries == packet.resources.len(),
        DnsPacket::take_questions(bytes, pos + HEADER_LENGTH, packet.questions.len()) == Ok::<(Seq<QuestionView>, int), Stopped>((packet.questions, first)),
        DnsPacket::take_records(bytes, first, packet.answers.len()) == Ok::<(Seq<RecordView>, int), Stopped>((packet.answers, second)),
        DnsPacket::take_records(bytes, second, packet.authorities.len()) == Ok::<(Seq<RecordView>, int), Stopped>((packet.authorities, third)),
        DnsPacket::take_records(bytes, third, packet.resources.len()) == Ok::<(Seq<RecordView>, int), Stopped>((packet.resources, end)),
    ensures
        DnsPacket::parse(bytes, pos) == Ok::<(PacketView, int), Stopped>((packet, end)),
{
    reveal(DnsPacket::parse);
}

/// A plain message that was written is the message that is read: where the
/// octets that the message is written as stand in a buffer, reading a
/// message there gives the message, with the counts in its header that say
/// how long its sections are, and leaves the position behind it.
pub proof fn packet_reads_back(packet: PacketView, bytes: Seq<u8>, pos: int)
    requires
        is_plain_packet(packet),
        holds_at(bytes, pos, DnsPacket::wire(packet).bytes),
        pos + DnsPacket::wire(packet).bytes.len() <= CAPACITY,
    ensures
        DnsPacket::wire(packet).failure is None,
        DnsPacket::parse(bytes, pos) == Ok::<(PacketView, int), Stopped>(
            (
                PacketView { header: DnsPacket::counted(packet), ..packet },
                pos + DnsPacket::wire(packet).bytes.len(),
            ),
        ),
{
    let header = DnsPacket::counted(packet);
    let first = pos + HEADER_LENGTH + Encoding::row(question_wires(packet.questions)).bytes.len();
    let second = first + Encoding::row(record_wires(packet.answers)).bytes.len();
    let third = second + Encoding::row(record_wires(packet.authorities)).bytes.len();
    plain_packet_is_written(packet);
    plain_row_of_questions_is_written(packet.questions);
    plain_row_of_records_is_written(packet.answers);
    plain_row_of_records_is_written(packet.authorities);
    plain_row_of_records_is_written(packet.resources);
    packet_parts_hold(packet, bytes, pos);
    holds_at_part(bytes, pos, header.wire());
    assert(packet.questions.len() <= CAPACITY && packet.answers.len() <= CAPACITY
        && packet.authorities.len() <= CAPACITY && packet.resources.len() <= CAPACITY);
    DnsHeader::parse_inverts_wire(header, bytes, pos);
    questions_read_back(packet.questions, bytes, pos + HEADER_LENGTH);
    records_read_back(packet.answers, bytes, first);
    records_read_back(packet.authorities, bytes, second);
    records_read_back(packet.resources, bytes, third);
    packet_is_parsed(
        PacketView { header, ..packet },
        bytes,
        pos,
        first,
        second,
        third,
        pos + DnsPacket::wire(packet).bytes.len(),
    );
}

} // verus!
