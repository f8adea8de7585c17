use vstd::prelude::*;
use vstd::utf8::encode_utf8;
use crate::dns::address::{Ipv4Address, Ipv6Address};
use crate::dns::byte_packet_buffer::BytePacketBuffer;
use crate::dns::byte_packet_buffer_error::BytePacketBufferError;
use crate::dns::name::{name_wire, take_name, take_name_stays_in_bounds};
use crate::dns::query_class::QueryClass;
use crate::dns::query_type::QueryType;
use crate::dns::wire::{
    overlay, ran_out, room, take_u16, u16_at, u16_octets, u32_at, u32_octets, Encoding, Parsed,
    CAPACITY,
};

verus! {

/// A resource record: an entry of the answer, authority or additional
/// section.
///
/// On the wire a record is the name it belongs to, its type and class, the
/// time it may be kept, the length of its data, and the data, whose form
/// depends on the type.
#[derive(Debug, Clone, PartialEq, Eq, Hash, PartialOrd, Ord)]
#[allow(inconsistent_fields)]
pub enum DnsRecord {
    /// A record of a type whose data is not interpreted. The data itself is
    /// passed over when the record is read; its length is kept.
    UNHANDLED { domain: String, qtype: QueryType, data_len: u16, ttl: u32 },
    /// Type 1: an IPv4 host address.
    A { domain: String, addr: Ipv4Address, ttl: u32 },
    /// Type 2: a host that is an authoritative name server for the domain.
    NS { domain: String, host: String, ttl: u32 },
    /// Type 5: the canonical name of the domain, which is an alias.
    CNAME { domain: String, host: String, ttl: u32 },
    /// Type 15: a host that takes mail for the domain, and its preference
    /// among such hosts; lower values are preferred.
    MX { domain: String, preference: u16, host: String, ttl: u32 },
    /// Type 28: an IPv6 host address.
    AAAA { domain: String, addr: Ipv6Address, ttl: u32 },
}

/// A resource record as a mathematical value. An address is the sequence of
/// its octets or of its 16-bit groups.
#[allow(inconsistent_fields)]
pub enum RecordView {
    UNHANDLED { domain: Seq<char>, qtype: QueryType, data_len: u16, ttl: u32 },
    A { domain: Seq<char>, addr: Seq<u8>, ttl: u32 },
    NS { domain: Seq<char>, host: Seq<char>, ttl: u32 },
    CNAME { domain: Seq<char>, host: Seq<char>, ttl: u32 },
    MX { domain: Seq<char>, preference: u16, host: Seq<char>, ttl: u32 },
    AAAA { domain: Seq<char>, addr: Seq<u16>, ttl: u32 },
}

impl View for DnsRecord {
    type V = RecordView;

    open spec fn view(&self) -> RecordView {
        match *self {
            DnsRecord::UNHANDLED { domain, qtype, data_len, ttl } => RecordView::UNHANDLED {
                domain: domain@,
                qtype,
                data_len,
                ttl,
            },
            DnsRecord::A { domain, addr, ttl } => RecordView::A {
                domain: domain@,
                addr: addr.octets@,
                ttl,
            },
            DnsRecord::NS { domain, host, ttl } => RecordView::NS {
                domain: domain@,
                host: host@,
                ttl,
            },
            DnsRecord::CNAME { domain, host, ttl } => RecordView::CNAME {
                domain: domain@,
                host: host@,
                ttl,
            },
            DnsRecord::MX { domain, preference, host, ttl } => RecordView::MX {
                domain: domain@,
                preference,
                host: host@,
                ttl,
            },
            DnsRecord::AAAA { domain, addr, ttl } => RecordView::AAAA {
                domain: domain@,
                addr: addr.segments@,
                ttl,
            },
        }
    }
}

impl DnsRecord {
    /// The wire form of what all records start with: the name, the type, the
    /// Internet class and the time to live.
    pub open spec fn preamble(domain: Seq<char>, type_number: u16, ttl: u32) -> Encoding {
        name_wire(encode_utf8(domain)).followed_by(Encoding::of(u16_octets(type_number))).followed_by(
            Encoding::of(u16_octets(QueryClass::IN.spec_to_num())),
        ).followed_by(Encoding::of(u32_octets(ttl)))
    }

    /// Data behind its length in octets.
    pub open spec fn sized(data: Encoding) -> Encoding {
        Encoding { bytes: u16_octets(data.bytes.len() as u16) + data.bytes, failure: data.failure }
    }

    /// The data of a record that names a host, behind a preference where the
    /// record has one.
    pub open spec fn host_data(preference: Option<u16>, host: Seq<char>) -> Encoding {
        match preference {
            Some(value) => Encoding::of(u16_octets(value)).followed_by(
                name_wire(encode_utf8(host)),
            ),
            None => name_wire(encode_utf8(host)),
        }
    }

    /// The wire form of a record. A record whose data is not interpreted has
    /// none: it is left out.
    pub open spec fn wire(record: RecordView) -> Encoding {
        match record {
            RecordView::UNHANDLED { .. } => Encoding::of(Seq::empty()),
            RecordView::A { domain, addr, ttl } => Self::preamble(
                domain,
                QueryType::A.spec_to_num(),
                ttl,
            ).followed_by(Encoding::of(u16_octets(4))).followed_by(Encoding::of(addr)),
            RecordView::NS { domain, host, ttl } => Self::preamble(
                domain,
                QueryType::NS.spec_to_num(),
                ttl,
            ).followed_by(Self::sized(Self::host_data(None, host))),
            RecordView::CNAME { domain, host, ttl } => Self::preamble(
                domain,
                QueryType::CNAME.spec_to_num(),
                ttl,
            ).followed_by(Self::sized(Self::host_data(None, host))),
            RecordView::MX { domain, preference, host, ttl } => Self::preamble(
                domain,
                QueryType::MX.spec_to_num(),
                ttl,
            ).followed_by(Self::sized(Self::host_data(Some(preference), host))),
            RecordView::AAAA { domain, addr, ttl } => Self::preamble(
                domain,
                QueryType::AAAA.spec_to_num(),
                ttl,
            ).followed_by(Encoding::of(u16_octets(16))).followed_by(
                Encoding::of(Ipv6Address::groups_wire(addr, 8)),
            ),
        }
    }

    /// Reads the data of a record at `at`, after its name, type, time to live
    /// and data length were read. The data length decides only how much of a
    /// record is passed over whose type is not interpreted; data that would
    /// run beyond the end of the buffer is not passed over, and the reading
    /// fails.
    pub open spec fn parse_data(
        bytes: Seq<u8>,
        at: int,
        domain: Seq<char>,
        qtype: QueryType,
        ttl: u32,
        data_len: u16,
    ) -> Parsed<RecordView> {
        match qtype {
            QueryType::A => if at + 4 > CAPACITY {
                Err(ran_out(at))
            } else {
                Ok((RecordView::A { domain, addr: bytes.subrange(at, at + 4), ttl }, at + 4))
            },
            QueryType::AAAA => if at + 16 > CAPACITY {
                Err(ran_out(at))
            } else {
                Ok(
                    (
                        RecordView::AAAA {
                            domain,
                            addr: Seq::new(8, |i: int| u16_at(bytes, at + 2 * i)),
                            ttl,
                        },
                        at + 16,
                    ),
                )
            },
            QueryType::NS => match take_name(bytes, at) {
                Err(stopped) => Err(stopped),
                Ok((host, end)) => Ok((RecordView::NS { domain, host, ttl }, end)),
            },
            QueryType::CNAME => match take_name(bytes, at) {
                Err(stopped) => Err(stopped),
                Ok((host, end)) => Ok((RecordView::CNAME { domain, host, ttl }, end)),
            },
            QueryType::MX => match take_u16(bytes, at) {
                Err(stopped) => Err(stopped),
                Ok((preference, next)) => match take_name(bytes, next) {
                    Err(stopped) => Err(stopped),
                    Ok((host, end)) => Ok((RecordView::MX { domain, preference, host, ttl }, end)),
                },
            },
            _ => if at + data_len > CAPACITY {
                Err(ran_out(at))
            } else {
                Ok((RecordView::UNHANDLED { domain, qtype, data_len, ttl }, at + data_len))
            },
        }
    }

    /// Reads a record at `pos`: a name, then ten octets that hold the type,
    /// the class, the time to live and the data length, then the data. The
    /// class is passed over.
    #[verifier::opaque]
    pub open spec fn parse(bytes: Seq<u8>, pos: int) -> Parsed<RecordView> {
        match take_name(bytes, pos) {
            Err(stopped) => Err(stopped),
            Ok((domain, at)) => if at + 10 > CAPACITY {
                Err(ran_out(at))
            } else {
                Self::parse_data(
                    bytes,
                    at + 10,
                    domain,
                    QueryType::spec_from_num(u16_at(bytes, at)),
                    u32_at(bytes, at + 4),
                    u16_at(bytes, at + 8),
                )
            },
        }
    }

    /// Reads the four octets of an IPv4 address at the position.
    fn read_ipv4(buffer: &mut BytePacketBuffer) -> (result: Result<
        Ipv4Address,
        BytePacketBufferError,
    >)
        ensures
            old(buffer).in_bounds() ==> final(buffer).in_bounds(),
            final(buffer).buffer == old(buffer).buffer,
            old(buffer).position + 4 <= CAPACITY ==> {
                &&& result is Ok
                &&& result->Ok_0.octets@ == old(buffer).buffer@.subrange(
                    old(buffer).position as int,
                    old(buffer).position + 4,
                )
                &&& final(buffer).position == old(buffer).position + 4
            },
            old(buffer).position + 4 > CAPACITY ==> result == Err::<
                Ipv4Address,
                BytePacketBufferError,
            >(BytePacketBufferError::EndOfBuffer) && final(buffer).position == old(buffer).position + room(old(buffer).position as int),
    {
        let a = buffer.read()?;
        let b = buffer.read()?;
        let c = buffer.read()?;
        let d = buffer.read()?;
        let address = Ipv4Address::new(a, b, c, d);
        assert(address.octets@ =~= old(buffer).buffer@.subrange(
            old(buffer).position as int,
            old(buffer).position + 4,
        ));
        Ok(address)
    }

    /// Reads the eight groups of an IPv6 address at the position.
    fn read_ipv6(buffer: &mut BytePacketBuffer) -> (result: Result<
        Ipv6Address,
        BytePacketBufferError,
    >)
        ensures
            old(buffer).in_bounds() ==> final(buffer).in_bounds(),
            final(buffer).buffer == old(buffer).buffer,
            old(buffer).position + 16 <= CAPACITY ==> {
                &&& result is Ok
                &&& result->Ok_0.segments@ == Seq::new(
                    8,
                    |i: int| u16_at(old(buffer).buffer@, old(buffer).position + 2 * i),
                )
                &&& final(buffer).position == old(buffer).position + 16
            },
            old(buffer).position + 16 > CAPACITY ==> result == Err::<
                Ipv6Address,
                BytePacketBufferError,
            >(BytePacketBufferError::EndOfBuffer) && final(buffer).position == old(buffer).position + room(old(buffer).position as int),
    {
        let a = buffer.read_u16()?;
        let b = buffer.read_u16()?;
        let c = buffer.read_u16()?;
        let d = buffer.read_u16()?;
        let e = buffer.read_u16()?;
        let f = buffer.read_u16()?;
        let g = buffer.read_u16()?;
        let h = buffer.read_u16()?;
        let address = Ipv6Address::new(a, b, c, d, e, f, g, h);
        assert(address.segments@ =~= Seq::new(
            8,
            |i: int| u16_at(old(buffer).buffer@, old(buffer).position + 2 * i),
        ));
        Ok(address)
    }

    /// Reads the data of a record at the position, in the form of its type.
    fn read_data(
        buffer: &mut BytePacketBuffer,
        domain: String,
        qtype: QueryType,
        ttl: u32,
        data_len: u16,
    ) -> (result: Result<DnsRecord, BytePacketBufferError>)
        requires
            old(buffer).position <= CAPACITY,
        ensures
            final(buffer).in_bounds(),
            final(buffer).buffer == old(buffer).buffer,
            match Self::parse_data(
                old(buffer).buffer@,
                old(buffer).position as int,
                domain@,
                qtype,
                ttl,
                data_len,
            ) {
                Ok((record, end)) => {
                    &&& result is Ok
                    &&& result->Ok_0@ == record
                    &&& final(buffer).position == end
                },
                Err(stopped) => result == Err::<DnsRecord, BytePacketBufferError>(stopped.error)
                    && final(buffer).position == stopped.at,
            },
    {
        match qtype {
            QueryType::A => {
                let addr = Self::read_ipv4(buffer)?;
                Ok(DnsRecord::A { domain, addr, ttl })
            },
            QueryType::AAAA => {
                let addr = Self::read_ipv6(buffer)?;
                Ok(DnsRecord::AAAA { domain, addr, ttl })
            },
            QueryType::NS => {
                let host = buffer.read_qname()?;
                Ok(DnsRecord::NS { domain, host, ttl })
            },
            QueryType::CNAME => {
                let host = buffer.read_qname()?;
                Ok(DnsRecord::CNAME { domain, host, ttl })
            },
            QueryType::MX => {
                let preference = buffer.read_u16()?;
                let host = buffer.read_qname()?;
                Ok(DnsRecord::MX { domain, preference, host, ttl })
            },
            _ => {
                let left = CAPACITY - buffer.position();
                if data_len as usize > left {
                    buffer.step(left);
                    return Err(BytePacketBufferError::EndOfBuffer);
                }
                buffer.step(data_len as usize);
                Ok(DnsRecord::UNHANDLED { domain, qtype, data_len, ttl })
            },
        }
    }

    /// Reads a record at the position.
    ///
    /// The data of an `A`, `AAAA`, `NS`, `CNAME` or `MX` record is read in
    /// the form of its type, whatever the data length says. A record of any
    /// other type is kept as `UNHANDLED` and the position moves over its data,
    /// so that the records behind it can still be read.
    pub fn read(buffer: &mut BytePacketBuffer) -> (result: Result<DnsRecord, BytePacketBufferError>)
        ensures
            old(buffer).in_bounds() ==> final(buffer).in_bounds(),
            final(buffer).buffer == old(buffer).buffer,
            match Self::parse(old(buffer).buffer@, old(buffer).position as int) {
                Ok((record, end)) => {
                    &&& result is Ok
                    &&& result->Ok_0@ == record
                    &&& final(buffer).position == end
                },
                Err(stopped) => result == Err::<DnsRecord, BytePacketBufferError>(stopped.error)
                    && final(buffer).position == stopped.at,
            },
    {
        reveal(DnsRecord::parse);
        let domain = buffer.read_qname()?;

        let qtype_num = buffer.read_u16()?;
        let qtype = QueryType::from_num(qtype_num);
        let _ = buffer.read_u16()?;
        let ttl = buffer.read_u32()?;
        let data_len = buffer.read_u16()?;

        Self::read_data(buffer, domain, qtype, ttl, data_len)
    }

    /// Writes what all records start with: the name, the type, the Internet
    /// class and the time to live.
    fn write_preamble(buffer: &mut BytePacketBuffer, domain: &str, type_number: u16, ttl: u32) -> (result:
        Result<(), BytePacketBufferError>)
        ensures
            result == Self::preamble(domain@, type_number, ttl).outcome(old(buffer).position as int),
            result is Ok ==> BytePacketBuffer::wrote(
                *old(buffer),
                *final(buffer),
                Self::preamble(domain@, type_number, ttl).bytes,
            ),
            BytePacketBuffer::kept_prefix(*old(buffer), *final(buffer)),
            BytePacketBuffer::moved(
                *old(buffer),
                *final(buffer),
                Self::preamble(domain@, type_number, ttl).bytes.len() as int,
            ),
    {
        let ghost start = *buffer;
        let ghost name = name_wire(encode_utf8(domain@));
        let result = buffer.write_question_name(domain);
        proof {
            BytePacketBuffer::wrote_kept_prefix(start, *buffer, name.bytes);
        }
        if result.is_err() {
            return result;
        }
        let ghost done = name.bytes;
        let result = buffer.then_u16(type_number, Ghost(start), Ghost(done));
        if result.is_err() {
            return result;
        }
        let ghost done = done + u16_octets(type_number);
        let result = buffer.then_u16(QueryClass::IN.to_num(), Ghost(start), Ghost(done));
        if result.is_err() {
            return result;
        }
        let ghost done = done + u16_octets(QueryClass::IN.spec_to_num());
        buffer.then_u32(ttl, Ghost(start), Ghost(done))
    }

    /// Writes the data of a record that names a host, behind its length. Two
    /// octets are kept free for the length, the data is written, and the
    /// length is then put where it belongs.
    fn write_host_data(
        buffer: &mut BytePacketBuffer,
        preference: Option<u16>,
        host: &str,
        Ghost(start): Ghost<BytePacketBuffer>,
        Ghost(done): Ghost<Seq<u8>>,
    ) -> (result: Result<(), BytePacketBufferError>)
        requires
            BytePacketBuffer::wrote(start, *old(buffer), done),
            done.len() <= room(start.position as int),
        ensures
            result == Self::sized(Self::host_data(preference, host@)).outcome(
                old(buffer).position as int,
            ),
            result is Ok ==> BytePacketBuffer::wrote(
                start,
                *final(buffer),
                done + Self::sized(Self::host_data(preference, host@)).bytes,
            ),
            BytePacketBuffer::kept_prefix(start, *final(buffer)),
            BytePacketBuffer::moved(
                start,
                *final(buffer),
                (done + Self::sized(Self::host_data(preference, host@)).bytes).len() as int,
            ),
    {
        let ghost data = Self::host_data(preference, host@);
        let ghost gap = u16_octets(0);
        let pos = buffer.position();
        let result = buffer.then_u16(0, Ghost(start), Ghost(done));
        if result.is_err() {
            return result;
        }
        let ghost mut sofar = done + gap;
        match preference {
            Some(value) => {
                let result = buffer.then_u16(value, Ghost(start), Ghost(sofar));
                if result.is_err() {
                    return result;
                }
                proof {
                    sofar = sofar + u16_octets(value);
                }
            },
            None => {},
        }
        let result = buffer.then_name(host, Ghost(start), Ghost(sofar));
        if result.is_err() {
            return result;
        }
        proof {
            sofar = sofar + name_wire(encode_utf8(host@)).bytes;
            assert(sofar =~= done + gap + data.bytes);
        }
        let size = buffer.position() - (pos + 2);
        let ghost before = *buffer;
        let result = buffer.set_u16(pos, size as u16);
        proof {
            Self::wrote_patched(start, before, *buffer, done, data.bytes, size as u16);
        }
        result
    }

    /// A length put into the two octets that were kept free for it.
    proof fn wrote_patched(
        start: BytePacketBuffer,
        before: BytePacketBuffer,
        after: BytePacketBuffer,
        done: Seq<u8>,
        data: Seq<u8>,
        length: u16,
    )
        requires
            BytePacketBuffer::wrote(start, before, done + u16_octets(0) + data),
            (done + u16_octets(0) + data).len() <= room(start.position as int),
            after.position == before.position,
            after.buffer@ == overlay(
                before.buffer@,
                start.position + done.len(),
                u16_octets(length),
            ),
        ensures
            BytePacketBuffer::wrote(start, after, done + (u16_octets(length) + data)),
            BytePacketBuffer::kept_prefix(start, after),
    {
        let zeroed = done + u16_octets(0) + data;
        let whole = done + (u16_octets(length) + data);
        assert(zeroed.take(zeroed.len() as int) =~= zeroed);
        assert(whole.take(whole.len() as int) =~= whole);
        assert(after.buffer@ =~= overlay(start.buffer@, start.position as int, whole));
    }

    /// Writes the eight groups of an IPv6 address behind `done`, which has
    /// been written since `start`.
    fn write_groups(
        buffer: &mut BytePacketBuffer,
        segments: &[u16; 8],
        Ghost(start): Ghost<BytePacketBuffer>,
        Ghost(done): Ghost<Seq<u8>>,
    ) -> (result: Result<(), BytePacketBufferError>)
        requires
            BytePacketBuffer::wrote(start, *old(buffer), done),
            done.len() <= room(start.position as int),
        ensures
            result == Encoding::of(Ipv6Address::groups_wire(segments@, 8)).outcome(
                old(buffer).position as int,
            ),
            result is Ok ==> BytePacketBuffer::wrote(
                start,
                *final(buffer),
                done + Ipv6Address::groups_wire(segments@, 8),
            ),
            BytePacketBuffer::kept_prefix(start, *final(buffer)),
            BytePacketBuffer::moved(
                start,
                *final(buffer),
                (done + Ipv6Address::groups_wire(segments@, 8)).len() as int,
            ),
    {
        let ghost before = *buffer;
        let mut i: usize = 0;
        proof {
            BytePacketBuffer::wrote_kept_prefix(start, *buffer, done);
            assert(done + Ipv6Address::groups_wire(segments@, 0) =~= done);
            Self::groups_length(segments@, 8);
        }
        while i < 8
            invariant
                i <= 8,
                before == *old(buffer),
                buffer.position == before.position + 2 * i,
                BytePacketBuffer::wrote(
                    start,
                    *buffer,
                    done + Ipv6Address::groups_wire(segments@, i as int),
                ),
                (done + Ipv6Address::groups_wire(segments@, i as int)).len() <= room(
                    start.position as int,
                ),
                BytePacketBuffer::kept_prefix(start, *buffer),
                Ipv6Address::groups_wire(segments@, 8).len() == 16,
            decreases 8 - i,
        {
            let ghost sofar = done + Ipv6Address::groups_wire(segments@, i as int);
            let result = buffer.then_u16(segments[i], Ghost(start), Ghost(sofar));
            proof {
                Self::groups_length(segments@, i as int);
                Self::groups_length(segments@, i + 1);
                assert(sofar + u16_octets(segments[i as int]) =~= done + Ipv6Address::groups_wire(
                    segments@,
                    i + 1,
                ));
            }
            if result.is_err() {
                return result;
            }
            i += 1;
        }
        Ok(())
    }

    /// Writes the parts of the record one after the other.
    fn write_parts(&self, buffer: &mut BytePacketBuffer) -> (result: Result<
        (),
        BytePacketBufferError,
    >)
        ensures
            result == Self::wire(self@).outcome(old(buffer).position as int),
            result is Ok ==> BytePacketBuffer::wrote(
                *old(buffer),
                *final(buffer),
                Self::wire(self@).bytes,
            ),
            BytePacketBuffer::kept_prefix(*old(buffer), *final(buffer)),
            BytePacketBuffer::moved(
                *old(buffer),
                *final(buffer),
                Self::wire(self@).bytes.len() as int,
            ),
    {
        let ghost start = *buffer;
        proof {
            BytePacketBuffer::wrote_nothing(start);
            BytePacketBuffer::wrote_kept_prefix(start, start, Seq::empty());
        }

        match self {
            DnsRecord::A { domain, addr, ttl } => {
                let ghost head = Self::preamble(domain@, QueryType::A.spec_to_num(), *ttl);
                Self::write_preamble(buffer, domain.as_str(), QueryType::A.to_num(), *ttl)?;
                buffer.then_u16(4, Ghost(start), Ghost(head.bytes))?;
                let octets = addr.octets();
                buffer.then_octets(
                    octets.as_slice(),
                    Ghost(start),
                    Ghost(head.bytes + u16_octets(4)),
                )?;
            },
            DnsRecord::UNHANDLED { .. } => {
                // Left out of what is written.
            },
            DnsRecord::NS { domain, host, ttl } => {
                let ghost head = Self::preamble(domain@, QueryType::NS.spec_to_num(), *ttl);
                Self::write_preamble(buffer, domain.as_str(), QueryType::NS.to_num(), *ttl)?;
                Self::write_host_data(
                    buffer,
                    None,
                    host.as_str(),
                    Ghost(start),
                    Ghost(head.bytes),
                )?;
            },
            DnsRecord::CNAME { domain, host, ttl } => {
                let ghost head = Self::preamble(domain@, QueryType::CNAME.spec_to_num(), *ttl);
                Self::write_preamble(buffer, domain.as_str(), QueryType::CNAME.to_num(), *ttl)?;
                Self::write_host_data(
                    buffer,
                    None,
                    host.as_str(),
                    Ghost(start),
                    Ghost(head.bytes),
                )?;
            },
            DnsRecord::MX { domain, preference, host, ttl } => {
                let ghost head = Self::preamble(domain@, QueryType::MX.spec_to_num(), *ttl);
                Self::write_preamble(buffer, domain.as_str(), QueryType::MX.to_num(), *ttl)?;
                Self::write_host_data(
                    buffer,
                    Some(*preference),
                    host.as_str(),
                    Ghost(start),
                    Ghost(head.bytes),
                )?;
            },
            DnsRecord::AAAA { domain, addr, ttl } => {
                let ghost head = Self::preamble(domain@, QueryType::AAAA.spec_to_num(), *ttl);
                Self::write_preamble(buffer, domain.as_str(), QueryType::AAAA.to_num(), *ttl)?;
                buffer.then_u16(16, Ghost(start), Ghost(head.bytes))?;
                let segments = addr.segments();
                proof {
                    Self::groups_length(segments@, 8);
                }
                Self::write_groups(
                    buffer,
                    &segments,
                    Ghost(start),
                    Ghost(head.bytes + u16_octets(16)),
                )?;
            },
        }

        Ok(())
    }


    /// Writes the record at the position and returns the number of octets
    /// written.
    ///
    /// An `UNHANDLED` record is left out: nothing is written for it. Where
    /// the writing fails, the position is left where it stopped, and the
    /// buffer is unchanged before the position at which it started.
    pub fn write(&self, buffer: &mut BytePacketBuffer) -> (result: Result<
        usize,
        BytePacketBufferError,
    >)
        ensures
            old(buffer).in_bounds() ==> final(buffer).in_bounds(),
            result == match Self::wire(self@).outcome(old(buffer).position as int) {
                Ok(_) => Ok::<usize, BytePacketBufferError>(Self::wire(self@).bytes.len() as usize),
                Err(error) => Err(error),
            },
            result is Ok ==> BytePacketBuffer::wrote(
                *old(buffer),
                *final(buffer),
                Self::wire(self@).bytes,
            ),
            BytePacketBuffer::kept_prefix(*old(buffer), *final(buffer)),
            BytePacketBuffer::moved(
                *old(buffer),
                *final(buffer),
                Self::wire(self@).bytes.len() as int,
            ),
    {
        let start_pos = buffer.position();
        match self.write_parts(buffer) {
            Err(error) => Err(error),
            Ok(_) => Ok(buffer.position() - start_pos),
        }
    }

    /// The octets of `count` groups are twice as many.
    pub proof fn groups_length(groups: Seq<u16>, count: int)
        requires
            0 <= count,
        ensures
            Ipv6Address::groups_wire(groups, count).len() == 2 * count,
        decreases count,
    {
        if count > 0 {
            Self::groups_length(groups, count - 1);
        }
    }

    /// Reading a record within the buffer leaves the position within it,
    /// whether the reading fails or not.
    pub proof fn parse_stays_in_bounds(bytes: Seq<u8>, pos: int)
        requires
            0 <= pos <= CAPACITY,
        ensures
            match Self::parse(bytes, pos) {
                Ok((_, end)) => pos <= end <= CAPACITY,
                Err(stopped) => pos <= stopped.at <= CAPACITY,
            },
    {
        reveal(DnsRecord::parse);
        take_name_stays_in_bounds(bytes, pos);
        match take_name(bytes, pos) {
            Ok((_, at)) => {
                if at + 10 <= CAPACITY {
                    take_name_stays_in_bounds(bytes, at + 10);
                    if at + 12 <= CAPACITY {
                        take_name_stays_in_bounds(bytes, at + 12);
                    }
                }
            },
            Err(_) => {},
        }
    }

    /// The class of a record plays no part in reading it. Two buffers that
    /// differ in nothing but the two class octets of the record at `pos`,
    /// which stand behind its name and its type, read there as the same
    /// record, or fail alike, and leave the position in the same place.
    ///
    /// A name may hold a pointer that leads into the class octets, which then
    /// are part of the name. So this is said of buffers in which the names of
    /// the record read alike.
    pub proof fn class_is_passed_over(first: Seq<u8>, second: Seq<u8>, pos: int)
        requires
            first.len() == CAPACITY,
            second.len() == CAPACITY,
            0 <= pos <= CAPACITY,
            take_name(first, pos) == take_name(second, pos),
            match take_name(first, pos) {
                Ok((_, at)) => {
                    &&& forall|i: int|
                        0 <= i < CAPACITY && i != at + 2 && i != at + 3 ==> first[i] == second[i]
                    &&& take_name(first, at + 10) == take_name(second, at + 10)
                    &&& take_name(first, at + 12) == take_name(second, at + 12)
                },
                Err(_) => true,
            },
        ensures
            Self::parse(first, pos) == Self::parse(second, pos),
    {
        reveal(DnsRecord::parse);
        take_name_stays_in_bounds(first, pos);
        match take_name(first, pos) {
            Ok((domain, at)) => {
                if at + 10 <= CAPACITY {
                    assert(u16_at(first, at) == u16_at(second, at));
                    assert(u32_at(first, at + 4) == u32_at(second, at + 4));
                    assert(u16_at(first, at + 8) == u16_at(second, at + 8));
                    if at + 14 <= CAPACITY {
                        assert(first.subrange(at + 10, at + 14) =~= second.subrange(
                            at + 10,
                            at + 14,
                        ));
                    }
                    if at + 26 <= CAPACITY {
                        assert(Seq::new(8, |i: int| u16_at(first, at + 10 + 2 * i)) =~= Seq::new(
                            8,
                            |i: int| u16_at(second, at + 10 + 2 * i),
                        ));
                    }
                    if at + 12 <= CAPACITY {
                        assert(u16_at(first, at + 10) == u16_at(second, at + 10));
                    }
                }
            },
            Err(_) => {},
        }
    }
}

} // verus!
