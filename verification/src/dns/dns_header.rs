use vstd::prelude::*;
use crate::dns::byte_packet_buffer::BytePacketBuffer;
use crate::dns::byte_packet_buffer_error::BytePacketBufferError;
use crate::dns::result_code::ResultCode;
use crate::dns::wire::{room, u16_at, u16_octets, Encoding, CAPACITY};

verus! {

/// The number of octets that a header takes on the wire.
pub const HEADER_LENGTH: usize = 12;

/// The header of a message.
///
/// On the wire it is twelve octets: the identifier, two octets of flags, and
/// the four section counts. The first flag octet holds, from its lowest bit
/// up, `recursion_desired`, `truncated_message`, `authoritative_answer`, the
/// four bits of `opcode` and `response`. The second holds the four bits of
/// `rescode`, then `checking_disabled`, `authed_data`, `z` and
/// `recursion_available`.
#[derive(Copy, Clone, Debug, PartialEq, Eq)]
pub struct DnsHeader {
    /// The identifier that a reply copies from its query.
    pub id: u16,
    /// Set in a query to ask the server to pursue it recursively.
    pub recursion_desired: bool,
    /// Set in a response by a server that offers recursion.
    pub recursion_available: bool,
    /// Set where the message was cut to fit the transport.
    pub truncated_message: bool,
    /// Set in a response by a server that is an authority for the name.
    pub authoritative_answer: bool,
    /// The kind of query; four bits on the wire.
    pub opcode: u8,
    /// Set in a response, clear in a query.
    pub response: bool,
    /// The outcome that a response reports.
    pub rescode: ResultCode,
    pub checking_disabled: bool,
    pub authed_data: bool,
    /// Reserved; zero in all queries and responses.
    pub z: bool,
    /// The number of entries in the question section.
    pub questions: u16,
    /// The number of records in the answer section.
    pub answers: u16,
    /// The number of records in the authority section.
    pub authoritative_entries: u16,
    /// The number of records in the additional section.
    pub resource_entries: u16,
}

/// A flag as a number: one where it is set, zero where it is not.
pub open spec fn bit(flag: bool) -> int {
    if flag {
        1
    } else {
        0
    }
}

/// A flag as an octet: one where it is set, zero where it is not.
fn flag_bit(flag: bool) -> (octet: u8)
    ensures
        octet == bit(flag),
{
    if flag {
        1
    } else {
        0
    }
}

impl DnsHeader {
    /// The first flag octet. Of `opcode` only the low four bits are written.
    pub open spec fn first_flags(self) -> u8 {
        (bit(self.recursion_desired) + 2 * bit(self.truncated_message) + 4 * bit(
            self.authoritative_answer,
        ) + 8 * (self.opcode % 16) + 128 * bit(self.response)) as u8
    }

    /// The second flag octet.
    pub open spec fn second_flags(self) -> u8 {
        (self.rescode.spec_to_num() + 16 * bit(self.checking_disabled) + 32 * bit(self.authed_data)
            + 64 * bit(self.z) + 128 * bit(self.recursion_available)) as u8
    }

    /// The twelve octets of the header.
    #[verifier::opaque]
    pub open spec fn wire(self) -> Seq<u8> {
        u16_octets(self.id) + seq![self.first_flags(), self.second_flags()] + u16_octets(
            self.questions,
        ) + u16_octets(self.answers) + u16_octets(self.authoritative_entries) + u16_octets(
            self.resource_entries,
        )
    }

    /// The header that the twelve octets from `pos` on stand for.
    #[verifier::opaque]
    pub open spec fn parse(bytes: Seq<u8>, pos: int) -> DnsHeader {
        let a = bytes[pos + 2];
        let b = bytes[pos + 3];
        DnsHeader {
            id: u16_at(bytes, pos),
            recursion_desired: a % 2 == 1,
            truncated_message: (a / 2) % 2 == 1,
            authoritative_answer: (a / 4) % 2 == 1,
            opcode: (a / 8) % 16,
            response: a / 128 == 1,
            rescode: ResultCode::spec_from_num(b % 16),
            checking_disabled: (b / 16) % 2 == 1,
            authed_data: (b / 32) % 2 == 1,
            z: (b / 64) % 2 == 1,
            recursion_available: b / 128 == 1,
            questions: u16_at(bytes, pos + 4),
            answers: u16_at(bytes, pos + 6),
            authoritative_entries: u16_at(bytes, pos + 8),
            resource_entries: u16_at(bytes, pos + 10),
        }
    }

    /// The header with everything clear: a query with identifier zero, no
    /// flag set and all counts zero.
    pub open spec fn cleared() -> DnsHeader {
        DnsHeader {
            id: 0,
            recursion_desired: false,
            truncated_message: false,
            authoritative_answer: false,
            opcode: 0,
            response: false,
            rescode: ResultCode::NOERROR,
            checking_disabled: false,
            authed_data: false,
            z: false,
            recursion_available: false,
            questions: 0,
            answers: 0,
            authoritative_entries: 0,
            resource_entries: 0,
        }
    }

    /// A header with everything clear.
    pub fn new() -> (header: DnsHeader)
        ensures
            header == Self::cleared(),
    {
        DnsHeader {
            id: 0,
            recursion_desired: false,
            truncated_message: false,
            authoritative_answer: false,
            opcode: 0,
            response: false,
            rescode: ResultCode::NOERROR,
            checking_disabled: false,
            authed_data: false,
            z: false,
            recursion_available: false,
            questions: 0,
            answers: 0,
            authoritative_entries: 0,
            resource_entries: 0,
        }
    }

    /// Reads the twelve octets of a header at the position into `self`.
    ///
    /// Where fewer than twelve octets are left, the header stays as it was and
    /// the position stops at the end of the buffer.
    pub fn read(&mut self, buffer: &mut BytePacketBuffer) -> (result: Result<
        (),
        BytePacketBufferError,
    >)
        ensures
            old(buffer).in_bounds() ==> final(buffer).in_bounds(),
            final(buffer).buffer == old(buffer).buffer,
            old(buffer).position + HEADER_LENGTH <= CAPACITY ==> {
                &&& result is Ok
                &&& *final(self) == Self::parse(old(buffer).buffer@, old(buffer).position as int)
                &&& final(buffer).position == old(buffer).position + HEADER_LENGTH
            },
            old(buffer).position + HEADER_LENGTH > CAPACITY ==> {
                &&& result == Err::<(), BytePacketBufferError>(BytePacketBufferError::EndOfBuffer)
                &&& *final(self) == *old(self)
                &&& final(buffer).position == old(buffer).position + room(
                    old(buffer).position as int,
                )
            },
    {
        reveal(DnsHeader::parse);
        let id = buffer.read_u16()?;
        let flags = buffer.read_u16()?;
        let questions = buffer.read_u16()?;
        let answers = buffer.read_u16()?;
        let authoritative_entries = buffer.read_u16()?;
        let resource_entries = buffer.read_u16()?;

        let a = (flags >> 8) as u8;
        let b = (flags & 0xFF) as u8;
        proof {
            let high = old(buffer).buffer@[old(buffer).position + 2];
            let low = old(buffer).buffer@[old(buffer).position + 3];
            assert(flags == high * 256 + low);
            assert((flags >> 8) as u8 == high && (flags & 0xFF) as u8 == low) by (bit_vector)
                requires
                    flags == high * 256 + low,
            ;
            assert({
                &&& ((a & 0x01) > 0) == (a % 2 == 1)
                &&& ((a & 0x02) > 0) == ((a / 2) % 2 == 1)
                &&& ((a & 0x04) > 0) == ((a / 4) % 2 == 1)
                &&& ((a >> 3) & 0x0F) == (a / 8) % 16
                &&& ((a & 0x80) > 0) == (a / 128 == 1)
            }) by (bit_vector);
            assert({
                &&& (b & 0x0F) == b % 16
                &&& ((b & 0x10) > 0) == ((b / 16) % 2 == 1)
                &&& ((b & 0x20) > 0) == ((b / 32) % 2 == 1)
                &&& ((b & 0x40) > 0) == ((b / 64) % 2 == 1)
                &&& ((b & 0x80) > 0) == (b / 128 == 1)
            }) by (bit_vector);
        }
        self.id = id;
        self.recursion_desired = (a & 0x01) > 0;
        self.truncated_message = (a & 0x02) > 0;
        self.authoritative_answer = (a & 0x04) > 0;
        self.opcode = (a >> 3) & 0x0F;
        self.response = (a & 0x80) > 0;

        self.rescode = ResultCode::from_num(b & 0x0F);
        self.checking_disabled = (b & 0x10) > 0;
        self.authed_data = (b & 0x20) > 0;
        self.z = (b & 0x40) > 0;
        self.recursion_available = (b & 0x80) > 0;

        self.questions = questions;
        self.answers = answers;
        self.authoritative_entries = authoritative_entries;
        self.resource_entries = resource_entries;

        Ok(())
    }

    /// The first flag octet.
    fn first_octet(&self) -> (octet: u8)
        ensures
            octet == self.first_flags(),
    {
        let rd = flag_bit(self.recursion_desired);
        let tc = flag_bit(self.truncated_message);
        let aa = flag_bit(self.authoritative_answer);
        let qr = flag_bit(self.response);
        let opcode = self.opcode;
        let octet: u8 = rd | (tc << 1) | (aa << 2) | ((opcode & 0x0F) << 3) | (qr << 7);
        assert(octet == rd + 2 * tc + 4 * aa + 8 * (opcode % 16) + 128 * qr) by (bit_vector)
            requires
                rd <= 1,
                tc <= 1,
                aa <= 1,
                qr <= 1,
                octet == rd | (tc << 1) | (aa << 2) | ((opcode & 0x0F) << 3) | (qr << 7),
        ;
        octet
    }

    /// The second flag octet.
    fn second_octet(&self) -> (octet: u8)
        ensures
            octet == self.second_flags(),
    {
        let code = self.rescode.to_num();
        let cd = flag_bit(self.checking_disabled);
        let ad = flag_bit(self.authed_data);
        let z = flag_bit(self.z);
        let ra = flag_bit(self.recursion_available);
        let octet: u8 = code | (cd << 4) | (ad << 5) | (z << 6) | (ra << 7);
        assert(octet == code + 16 * cd + 32 * ad + 64 * z + 128 * ra) by (bit_vector)
            requires
                code <= 5,
                cd <= 1,
                ad <= 1,
                z <= 1,
                ra <= 1,
                octet == code | (cd << 4) | (ad << 5) | (z << 6) | (ra << 7),
        ;
        octet
    }

    /// Writes the twelve octets of the header at the position, as far as
    /// they find room.
    pub fn write(&self, buffer: &mut BytePacketBuffer) -> (result: Result<
        (),
        BytePacketBufferError,
    >)
        ensures
            old(buffer).in_bounds() ==> final(buffer).in_bounds(),
            BytePacketBuffer::wrote(*old(buffer), *final(buffer), self.wire()),
            result == Encoding::of(self.wire()).outcome(old(buffer).position as int),
    {
        reveal(DnsHeader::wire);
        let ghost start = *buffer;
        let ghost whole = self.wire();
        let ghost done = Seq::<u8>::empty();
        proof {
            BytePacketBuffer::wrote_nothing(start);
        }
        let result = buffer.append_u16(self.id, Ghost(start), Ghost(done), Ghost(whole));
        if result.is_err() {
            return result;
        }
        let ghost done = done + u16_octets(self.id);
        let result = buffer.append_u8(self.first_octet(), Ghost(start), Ghost(done), Ghost(whole));
        if result.is_err() {
            return result;
        }
        let ghost done = done + seq![self.first_flags()];
        let result = buffer.append_u8(self.second_octet(), Ghost(start), Ghost(done), Ghost(whole));
        if result.is_err() {
            return result;
        }
        let ghost done = done + seq![self.second_flags()];
        let result = buffer.append_u16(self.questions, Ghost(start), Ghost(done), Ghost(whole));
        if result.is_err() {
            return result;
        }
        let ghost done = done + u16_octets(self.questions);
        let result = buffer.append_u16(self.answers, Ghost(start), Ghost(done), Ghost(whole));
        if result.is_err() {
            return result;
        }
        let ghost done = done + u16_octets(self.answers);
        let result = buffer.append_u16(
            self.authoritative_entries,
            Ghost(start),
            Ghost(done),
            Ghost(whole),
        );
        if result.is_err() {
            return result;
        }
        let ghost done = done + u16_octets(self.authoritative_entries);
        let result = buffer.append_u16(
            self.resource_entries,
            Ghost(start),
            Ghost(done),
            Ghost(whole),
        );
        assert(done + u16_octets(self.resource_entries) =~= whole);
        result
    }

    /// A header is written as twelve octets.
    pub proof fn wire_length(header: DnsHeader)
        ensures
            header.wire().len() == HEADER_LENGTH,
    {
        Self::wire_octets(header);
    }

    /// The twelve octets of a header, one by one.
    pub proof fn wire_octets(header: DnsHeader)
        ensures
            header.wire().len() == HEADER_LENGTH,
            header.wire()[0] == (header.id / 256) as u8,
            header.wire()[1] == (header.id % 256) as u8,
            header.wire()[2] == header.first_flags(),
            header.wire()[3] == header.second_flags(),
            header.wire()[4] == (header.questions / 256) as u8,
            header.wire()[5] == (header.questions % 256) as u8,
            header.wire()[6] == (header.answers / 256) as u8,
            header.wire()[7] == (header.answers % 256) as u8,
            header.wire()[8] == (header.authoritative_entries / 256) as u8,
            header.wire()[9] == (header.authoritative_entries % 256) as u8,
            header.wire()[10] == (header.resource_entries / 256) as u8,
            header.wire()[11] == (header.resource_entries % 256) as u8,
    {
        reveal(DnsHeader::wire);
        let flat = seq![
            (header.id / 256) as u8,
            (header.id % 256) as u8,
            header.first_flags(),
            header.second_flags(),
            (header.questions / 256) as u8,
            (header.questions % 256) as u8,
            (header.answers / 256) as u8,
            (header.answers % 256) as u8,
            (header.authoritative_entries / 256) as u8,
            (header.authoritative_entries % 256) as u8,
            (header.resource_entries / 256) as u8,
            (header.resource_entries % 256) as u8,
        ];
        let first = u16_octets(header.id) + seq![header.first_flags(), header.second_flags()];
        assert(first =~= flat.subrange(0, 4));
        let second = first + u16_octets(header.questions);
        assert(second =~= flat.subrange(0, 6));
        let third = second + u16_octets(header.answers);
        assert(third =~= flat.subrange(0, 8));
        let fourth = third + u16_octets(header.authoritative_entries);
        assert(fourth =~= flat.subrange(0, 10));
        assert(fourth + u16_octets(header.resource_entries) =~= flat);
    }

    /// The flags of a header can be told from its flag octets, as long as
    /// its opcode has no more than four bits.
    pub proof fn flags_read_back(header: DnsHeader)
        requires
            header.opcode < 16,
        ensures
            ({
                let a = header.first_flags();
                &&& (a % 2 == 1) == header.recursion_desired
                &&& ((a / 2) % 2 == 1) == header.truncated_message
                &&& ((a / 4) % 2 == 1) == header.authoritative_answer
                &&& (a / 8) % 16 == header.opcode
                &&& (a / 128 == 1) == header.response
            }),
            ({
                let b = header.second_flags();
                &&& b % 16 == header.rescode.spec_to_num()
                &&& ((b / 16) % 2 == 1) == header.checking_disabled
                &&& ((b / 32) % 2 == 1) == header.authed_data
                &&& ((b / 64) % 2 == 1) == header.z
                &&& (b / 128 == 1) == header.recursion_available
            }),
    {
        let rd = bit(header.recursion_desired) as u8;
        let tc = bit(header.truncated_message) as u8;
        let aa = bit(header.authoritative_answer) as u8;
        let opcode = header.opcode;
        let qr = bit(header.response) as u8;
        let a = header.first_flags();
        assert(a == rd + 2 * tc + 4 * aa + 8 * opcode + 128 * qr);
        assert(a % 2 == rd && (a / 2) % 2 == tc && (a / 4) % 2 == aa && (a / 8) % 16 == opcode && a
            / 128 == qr) by (bit_vector)
            requires
                rd <= 1,
                tc <= 1,
                aa <= 1,
                qr <= 1,
                opcode < 16,
                a == rd + 2 * tc + 4 * aa + 8 * opcode + 128 * qr,
        ;
        let code = header.rescode.spec_to_num();
        let cd = bit(header.checking_disabled) as u8;
        let ad = bit(header.authed_data) as u8;
        let z = bit(header.z) as u8;
        let ra = bit(header.recursion_available) as u8;
        let b = header.second_flags();
        assert(b == code + 16 * cd + 32 * ad + 64 * z + 128 * ra);
        assert(b % 16 == code && (b / 16) % 2 == cd && (b / 32) % 2 == ad && (b / 64) % 2 == z && b
            / 128 == ra) by (bit_vector)
            requires
                code <= 5,
                cd <= 1,
                ad <= 1,
                z <= 1,
                ra <= 1,
                b == code + 16 * cd + 32 * ad + 64 * z + 128 * ra,
        ;
    }

    /// A 16-bit number can be told from its two octets.
    pub proof fn number_reads_back(value: u16)
        ensures
            ((value / 256) as u8) as int * 256 + ((value % 256) as u8) as int == value,
    {
    }

    /// The octets that a header is written as read as that header again, as
    /// long as its opcode has no more than four bits.
    pub proof fn parse_inverts_wire(header: DnsHeader, bytes: Seq<u8>, pos: int)
        requires
            header.opcode < 16,
            0 <= pos,
            pos + HEADER_LENGTH <= bytes.len(),
            bytes.subrange(pos, pos + HEADER_LENGTH) == header.wire(),
        ensures
            Self::parse(bytes, pos) == header,
    {
        reveal(DnsHeader::parse);
        let wire = header.wire();
        Self::wire_octets(header);
        assert forall|i: int| 0 <= i < 12 implies bytes[pos + i] == wire[i] by {
            assert(bytes.subrange(pos, pos + HEADER_LENGTH)[i] == bytes[pos + i]);
        }
        assert(bytes[pos + 0] == wire[0]);
        assert(bytes[pos + 1] == wire[1]);
        assert(bytes[pos + 2] == wire[2]);
        assert(bytes[pos + 3] == wire[3]);
        assert(bytes[pos + 4] == wire[4]);
        assert(bytes[pos + 5] == wire[5]);
        assert(bytes[pos + 6] == wire[6]);
        assert(bytes[pos + 7] == wire[7]);
        assert(bytes[pos + 8] == wire[8]);
        assert(bytes[pos + 9] == wire[9]);
        assert(bytes[pos + 10] == wire[10]);
        assert(bytes[pos + 11] == wire[11]);
        Self::flags_read_back(header);
        Self::number_reads_back(header.id);
        Self::number_reads_back(header.questions);
        Self::number_reads_back(header.answers);
        Self::number_reads_back(header.authoritative_entries);
        Self::number_reads_back(header.resource_entries);
        ResultCode::from_num_inverts_to_num(header.rescode);
        let parsed = Self::parse(bytes, pos);
        assert(parsed.id == header.id);
        assert(parsed.questions == header.questions);
        assert(parsed.answers == header.answers);
        assert(parsed.authoritative_entries == header.authoritative_entries);
        assert(parsed.resource_entries == header.resource_entries);
        assert(parsed.rescode == header.rescode);
    }

    /// The flag octets of the header that two octets read as are those two
    /// octets, as long as their result code is one of the six that have a
    /// name.
    pub proof fn flags_write_back(bytes: Seq<u8>, pos: int)
        requires
            bytes[pos + 3] % 16 <= 5,
        ensures
            Self::parse(bytes, pos).first_flags() == bytes[pos + 2],
            Self::parse(bytes, pos).second_flags() == bytes[pos + 3],
    {
        reveal(DnsHeader::parse);
        let a = bytes[pos + 2];
        let b = bytes[pos + 3];
        let header = Self::parse(bytes, pos);
        assert(a % 2 + 2 * ((a / 2) % 2) + 4 * ((a / 4) % 2) + 8 * ((a / 8) % 16) + 128 * (a / 128)
            == a) by (bit_vector);
        assert(b % 16 + 16 * ((b / 16) % 2) + 32 * ((b / 32) % 2) + 64 * ((b / 64) % 2) + 128 * (b
            / 128) == b) by (bit_vector);
        assert(bit(header.recursion_desired) == a % 2);
        assert(bit(header.truncated_message) == (a / 2) % 2);
        assert(bit(header.authoritative_answer) == (a / 4) % 2);
        assert(header.opcode % 16 == (a / 8) % 16);
        assert(bit(header.response) == a / 128);
        assert(header.rescode.spec_to_num() == b % 16);
        assert(bit(header.checking_disabled) == (b / 16) % 2);
        assert(bit(header.authed_data) == (b / 32) % 2);
        assert(bit(header.z) == (b / 64) % 2);
        assert(bit(header.recursion_available) == b / 128);
    }

    /// The header that twelve octets read as is written as the same octets,
    /// as long as their result code is one of the six that have a name.
    pub proof fn wire_inverts_parse(bytes: Seq<u8>, pos: int)
        requires
            0 <= pos,
            pos + HEADER_LENGTH <= bytes.len(),
            bytes[pos + 3] % 16 <= 5,
        ensures
            Self::parse(bytes, pos).wire() == bytes.subrange(pos, pos + HEADER_LENGTH),
    {
        reveal(DnsHeader::parse);
        let header = Self::parse(bytes, pos);
        let wire = header.wire();
        let given = bytes.subrange(pos, pos + HEADER_LENGTH);
        Self::wire_octets(header);
        Self::flags_write_back(bytes, pos);
        assert(given[0] == bytes[pos + 0] && given[1] == bytes[pos + 1]);
        assert(given[2] == bytes[pos + 2] && given[3] == bytes[pos + 3]);
        assert(given[4] == bytes[pos + 4] && given[5] == bytes[pos + 5]);
        assert(given[6] == bytes[pos + 6] && given[7] == bytes[pos + 7]);
        assert(given[8] == bytes[pos + 8] && given[9] == bytes[pos + 9]);
        assert(given[10] == bytes[pos + 10] && given[11] == bytes[pos + 11]);
        assert(wire[0] == given[0] && wire[1] == given[1]);
        assert(wire[4] == given[4] && wire[5] == given[5]);
        assert(wire[6] == given[6] && wire[7] == given[7]);
        assert(wire[8] == given[8] && wire[9] == given[9]);
        assert(wire[10] == given[10] && wire[11] == given[11]);
        assert(wire =~= given);
    }
}

} // verus!
