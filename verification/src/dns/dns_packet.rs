use vstd::prelude::*;
use vstd::string::StringSliceAdditionalSpecFns;
use vstd::utf8::encode_utf8;
use crate::dns::address::Ipv4Address;
use crate::dns::byte_packet_buffer::BytePacketBuffer;
use crate::dns::byte_packet_buffer_error::BytePacketBufferError;
use crate::dns::dns_header::{DnsHeader, HEADER_LENGTH};
use crate::dns::dns_question::{DnsQuestion, QuestionView};
use crate::dns::dns_record::{DnsRecord, RecordView};
use crate::dns::query_class::QueryClass;
use crate::dns::query_type::QueryType;
use crate::dns::wire::{
    ran_out, room, take_row, take_row_fails_early, Encoding, Parsed, Stopped, CAPACITY,
};

verus! {

/// A message: a header and the four sections behind it.
#[derive(Clone, Debug, PartialEq, Eq)]
pub struct DnsPacket {
    pub header: DnsHeader,
    /// What is being asked.
    pub questions: Vec<DnsQuestion>,
    /// Records that answer the question.
    pub answers: Vec<DnsRecord>,
    /// Records that point toward an authoritative name server.
    pub authorities: Vec<DnsRecord>,
    /// Records that hold additional information, such as the addresses of
    /// the name servers.
    pub resources: Vec<DnsRecord>,
}

/// A message as a mathematical value.
pub struct PacketView {
    pub header: DnsHeader,
    pub questions: Seq<QuestionView>,
    pub answers: Seq<RecordView>,
    pub authorities: Seq<RecordView>,
    pub resources: Seq<RecordView>,
}

/// The questions of a section as mathematical values.
pub open spec fn question_views(questions: Seq<DnsQuestion>) -> Seq<QuestionView> {
    Seq::new(questions.len(), |i: int| questions[i]@)
}

/// The records of a section as mathematical values.
pub open spec fn record_views(records: Seq<DnsRecord>) -> Seq<RecordView> {
    Seq::new(records.len(), |i: int| records[i]@)
}

/// The wire forms of the questions of a section.
pub open spec fn question_wires(questions: Seq<QuestionView>) -> Seq<Encoding> {
    Seq::new(questions.len(), |i: int| DnsQuestion::wire(questions[i]))
}

/// The wire forms of the records of a section.
pub open spec fn record_wires(records: Seq<RecordView>) -> Seq<Encoding> {
    Seq::new(records.len(), |i: int| DnsRecord::wire(records[i]))
}

/// Whether the octets of `suffix` stand at the end of those of `name`.
pub open spec fn ends_with(name: Seq<u8>, suffix: Seq<u8>) -> bool {
    &&& suffix.len() <= name.len()
    &&& name.subrange(name.len() - suffix.len(), name.len() as int) == suffix
}

/// The address of the first `A` record among `records`, if there is one.
pub open spec fn first_address(records: Seq<RecordView>) -> Option<Seq<u8>>
    decreases records.len(),
{
    if records.len() == 0 {
        None
    } else {
        match records[0] {
            RecordView::A { addr, .. } => Some(addr),
            _ => first_address(records.drop_first()),
        }
    }
}

/// The address of the first `A` record among `records` that belongs to
/// `host`, if there is one.
pub open spec fn address_of(host: Seq<char>, records: Seq<RecordView>) -> Option<Seq<u8>>
    decreases records.len(),
{
    if records.len() == 0 {
        None
    } else {
        match records[0] {
            RecordView::A { domain, addr, .. } if domain == host => Some(addr),
            _ => address_of(host, records.drop_first()),
        }
    }
}

/// The name servers that `records` delegate a part of `name` to: for each
/// `NS` record whose domain stands at the end of `name`, the domain and the
/// host, in the order of the records.
pub open spec fn delegations(records: Seq<RecordView>, name: Seq<char>) -> Seq<
    (Seq<char>, Seq<char>),
>
    decreases records.len(),
{
    if records.len() == 0 {
        Seq::empty()
    } else {
        let earlier = delegations(records.drop_last(), name);
        match records.last() {
            RecordView::NS { domain, host, .. } if ends_with(
                encode_utf8(name),
                encode_utf8(domain),
            ) => earlier.push((domain, host)),
            _ => earlier,
        }
    }
}

/// The address of the first of `servers` for which `records` hold one: the
/// first `A` record that belongs to its host.
pub open spec fn first_glue(servers: Seq<(Seq<char>, Seq<char>)>, records: Seq<RecordView>)
    -> Option<Seq<u8>>
    decreases servers.len(),
{
    if servers.len() == 0 {
        None
    } else {
        match address_of(servers[0].1, records) {
            Some(addr) => Some(addr),
            None => first_glue(servers.drop_first(), records),
        }
    }
}

/// The host of the first of `servers` for which `records` hold no address.
pub open spec fn first_without_glue(servers: Seq<(Seq<char>, Seq<char>)>, records: Seq<RecordView>)
    -> Option<Seq<char>>
    decreases servers.len(),
{
    if servers.len() == 0 {
        None
    } else {
        match address_of(servers[0].1, records) {
            None => Some(servers[0].1),
            Some(_) => first_without_glue(servers.drop_first(), records),
        }
    }
}

/// The pairs of names of a vector as mathematical values.
pub open spec fn pair_views(pairs: Seq<(String, String)>) -> Seq<(Seq<char>, Seq<char>)> {
    Seq::new(pairs.len(), |i: int| (pairs[i].0@, pairs[i].1@))
}

/// Whether the octets of `suffix` stand at the end of those of `name`.
fn name_ends_with(name: &str, suffix: &str) -> (found: bool)
    ensures
        found == ends_with(encode_utf8(name@), encode_utf8(suffix@)),
{
    let whole = name.as_bytes();
    let tail = suffix.as_bytes();
    if tail.len() > whole.len() {
        return false;
    }
    let offset = whole.len() - tail.len();
    let mut i: usize = 0;
    while i < tail.len()
        invariant
            i <= tail.len(),
            offset + tail.len() == whole.len(),
            whole@ == encode_utf8(name@),
            tail@ == encode_utf8(suffix@),
            forall|k: int| 0 <= k < i ==> whole@[offset + k] == tail@[k],
        decreases tail.len() - i,
    {
        if whole[offset + i] != tail[i] {
            assert(whole@.subrange(offset as int, whole@.len() as int)[i as int] != tail@[i as int]);
            return false;
        }
        i += 1;
    }
    assert(whole@.subrange(offset as int, whole@.len() as int) =~= tail@);
    true
}

impl View for DnsPacket {
    type V = PacketView;

    open spec fn view(&self) -> PacketView {
        PacketView {
            header: self.header,
            questions: question_views(self.questions@),
            answers: record_views(self.answers@),
            authorities: record_views(self.authorities@),
            resources: record_views(self.resources@),
        }
    }
}

impl DnsPacket {
    /// The header as it is written: with the counts of the sections as they
    /// are, each cut to sixteen bits.
    pub open spec fn counted(packet: PacketView) -> DnsHeader {
        DnsHeader {
            questions: packet.questions.len() as u16,
            answers: packet.answers.len() as u16,
            authoritative_entries: packet.authorities.len() as u16,
            resource_entries: packet.resources.len() as u16,
            ..packet.header
        }
    }

    /// The wire form of a message: the header with the counts of the
    /// sections, then the questions, the answers, the authority records and
    /// the additional records.
    #[verifier::opaque]
    pub open spec fn wire(packet: PacketView) -> Encoding {
        Encoding::of(Self::counted(packet).wire()).followed_by(
            Encoding::row(question_wires(packet.questions)),
        ).followed_by(Encoding::row(record_wires(packet.answers))).followed_by(
            Encoding::row(record_wires(packet.authorities)),
        ).followed_by(Encoding::row(record_wires(packet.resources)))
    }

    /// Reads `count` questions in a row from `pos` on.
    pub open spec fn take_questions(bytes: Seq<u8>, pos: int, count: nat) -> Parsed<
        Seq<QuestionView>,
    > {
        take_row(
            bytes,
            pos,
            count,
            |bytes: Seq<u8>, at: int| DnsQuestion::parse(bytes, at, QueryClass::IN),
        )
    }

    /// Reads `count` records in a row from `pos` on.
    pub open spec fn take_records(bytes: Seq<u8>, pos: int, count: nat) -> Parsed<Seq<RecordView>> {
        take_row(bytes, pos, count, |bytes: Seq<u8>, at: int| DnsRecord::parse(bytes, at))
    }

    /// Reads a message at `pos`: the header, and then as many questions,
    /// answers, authority records and additional records as the header
    /// counts. Every question reads as one of the Internet class.
    #[verifier::opaque]
    pub open spec fn parse(bytes: Seq<u8>, pos: int) -> Parsed<PacketView> {
        if pos + HEADER_LENGTH > CAPACITY {
            Err(ran_out(pos))
        } else {
            let header = DnsHeader::parse(bytes, pos);
            match Self::take_questions(bytes, pos + HEADER_LENGTH, header.questions as nat) {
                Err(stopped) => Err(stopped),
                Ok((questions, first)) => match Self::take_records(
                    bytes,
                    first,
                    header.answers as nat,
                ) {
                    Err(stopped) => Err(stopped),
                    Ok((answers, second)) => match Self::take_records(
                        bytes,
                        second,
                        header.authoritative_entries as nat,
                    ) {
                        Err(stopped) => Err(stopped),
                        Ok((authorities, third)) => match Self::take_records(
                            bytes,
                            third,
                            header.resource_entries as nat,
                        ) {
                            Err(stopped) => Err(stopped),
                            Ok((resources, end)) => Ok(
                                (
                                    PacketView { header, questions, answers, authorities, resources },
                                    end,
                                ),
                            ),
                        },
                    },
                },
            }
        }
    }

    /// A message with a clear header and empty sections.
    pub fn new() -> (packet: DnsPacket)
        ensures
            packet.header == DnsHeader::cleared(),
            packet.questions@.len() == 0,
            packet.answers@.len() == 0,
            packet.authorities@.len() == 0,
            packet.resources@.len() == 0,
    {
        DnsPacket {
            header: DnsHeader::new(),
            questions: Vec::new(),
            answers: Vec::new(),
            authorities: Vec::new(),
            resources: Vec::new(),
        }
    }

    /// The address of the first `A` record among the answers.
    pub fn get_random_a(&self) -> (address: Option<Ipv4Address>)
        ensures
            match address {
                Some(found) => first_address(self@.answers) == Some(found.octets@),
                None => first_address(self@.answers) is None,
            },
    {
        let ghost views = self@.answers;
        let mut i: usize = 0;
        assert(views.skip(0) =~= views);
        while i < self.answers.len()
            invariant
                i <= self.answers.len(),
                views == record_views(self.answers@),
                first_address(views) == first_address(views.skip(i as int)),
            decreases self.answers.len() - i,
        {
            assert(views.skip(i as int).drop_first() =~= views.skip(i + 1));
            match &self.answers[i] {
                DnsRecord::A { addr, .. } => {
                    return Some(*addr);
                },
                _ => {},
            }
            i += 1;
        }
        None
    }

    /// The address of the first `A` record in the additional section that
    /// belongs to `host`.
    pub fn address_of_host(&self, host: &String) -> (address: Option<Ipv4Address>)
        ensures
            match address {
                Some(found) => address_of(host@, self@.resources) == Some(found.octets@),
                None => address_of(host@, self@.resources) is None,
            },
    {
        let ghost views = self@.resources;
        let mut i: usize = 0;
        assert(views.skip(0) =~= views);
        while i < self.resources.len()
            invariant
                i <= self.resources.len(),
                views == record_views(self.resources@),
                address_of(host@, views) == address_of(host@, views.skip(i as int)),
            decreases self.resources.len() - i,
        {
            assert(views.skip(i as int).drop_first() =~= views.skip(i + 1));
            match &self.resources[i] {
                DnsRecord::A { domain, addr, .. } => {
                    if *domain == *host {
                        return Some(*addr);
                    }
                },
                _ => {},
            }
            i += 1;
        }
        None
    }

    /// The name servers that the authority section delegates a part of
    /// `question_name` to, as pairs of domain and host, in the order of the
    /// section. An `NS` record counts when its domain stands at the end of
    /// `question_name`, octet for octet.
    pub fn get_ns(&self, question_name: &str) -> (servers: Vec<(String, String)>)
        ensures
            pair_views(servers@) == delegations(self@.authorities, question_name@),
    {
        let ghost views = self@.authorities;
        let mut servers: Vec<(String, String)> = Vec::new();
        let mut i: usize = 0;
        assert(pair_views(servers@) =~= delegations(views.take(0), question_name@));
        while i < self.authorities.len()
            invariant
                i <= self.authorities.len(),
                views == record_views(self.authorities@),
                pair_views(servers@) == delegations(views.take(i as int), question_name@),
            decreases self.authorities.len() - i,
        {
            let ghost earlier = pair_views(servers@);
            assert(views.take(i + 1).drop_last() =~= views.take(i as int));
            match &self.authorities[i] {
                DnsRecord::NS { domain, host, .. } => {
                    if name_ends_with(question_name, domain.as_str()) {
                        servers.push((domain.clone(), host.clone()));
                        assert(pair_views(servers@) =~= earlier.push((domain@, host@)));
                    }
                },
                _ => {},
            }
            i += 1;
        }
        assert(views.take(i as int) =~= views);
        servers
    }

    /// The address of a name server for `question_name` that the message
    /// itself gives: of the name servers that [`Self::get_ns`] finds, the
    /// first for which the additional section holds an address.
    pub fn get_resolved_ns(&self, question_name: &str) -> (address: Option<Ipv4Address>)
        ensures
            match address {
                Some(found) => first_glue(
                    delegations(self@.authorities, question_name@),
                    self@.resources,
                ) == Some(found.octets@),
                None => first_glue(
                    delegations(self@.authorities, question_name@),
                    self@.resources,
                ) is None,
            },
    {
        let servers = self.get_ns(question_name);
        let ghost all = pair_views(servers@);
        let mut i: usize = 0;
        assert(all.skip(0) =~= all);
        while i < servers.len()
            invariant
                i <= servers.len(),
                all == pair_views(servers@),
                all == delegations(self@.authorities, question_name@),
                first_glue(all, self@.resources) == first_glue(all.skip(i as int), self@.resources),
            decreases servers.len() - i,
        {
            assert(all.skip(i as int).drop_first() =~= all.skip(i + 1));
            assert(all.skip(i as int)[0].1 == servers[i as int].1@);
            match self.address_of_host(&servers[i].1) {
                Some(found) => {
                    return Some(found);
                },
                None => {},
            }
            i += 1;
        }
        None
    }

    /// The host of a name server for `question_name` whose address the
    /// message does not give: of the name servers that [`Self::get_ns`] finds,
    /// the first for which the additional section holds no address.
    pub fn get_unresolved_ns(&self, question_name: &str) -> (host: Option<String>)
        ensures
            match host {
                Some(found) => first_without_glue(
                    delegations(self@.authorities, question_name@),
                    self@.resources,
                ) == Some(found@),
                None => first_without_glue(
                    delegations(self@.authorities, question_name@),
                    self@.resources,
                ) is None,
            },
    {
        let servers = self.get_ns(question_name);
        let ghost all = pair_views(servers@);
        let mut i: usize = 0;
        assert(all.skip(0) =~= all);
        while i < servers.len()
            invariant
                i <= servers.len(),
                all == pair_views(servers@),
                all == delegations(self@.authorities, question_name@),
                first_without_glue(all, self@.resources) == first_without_glue(
                    all.skip(i as int),
                    self@.resources,
                ),
            decreases servers.len() - i,
        {
            assert(all.skip(i as int).drop_first() =~= all.skip(i + 1));
            assert(all.skip(i as int)[0].1 == servers[i as int].1@);
            match self.address_of_host(&servers[i].1) {
                Some(_) => {},
                None => {
                    return Some(servers[i].1.clone());
                },
            }
            i += 1;
        }
        None
    }

    /// Reads `count` questions in a row at the position.
    fn read_questions(buffer: &mut BytePacketBuffer, count: u16) -> (result: Result<
        Vec<DnsQuestion>,
        BytePacketBufferError,
    >)
        ensures
            old(buffer).in_bounds() ==> final(buffer).in_bounds(),
            final(buffer).buffer == old(buffer).buffer,
            match Self::take_questions(
                old(buffer).buffer@,
                old(buffer).position as int,
                count as nat,
            ) {
                Ok((questions, end)) => {
                    &&& result is Ok
                    &&& question_views(result->Ok_0@) == questions
                    &&& final(buffer).position == end
                },
                Err(stopped) => result == Err::<Vec<DnsQuestion>, BytePacketBufferError>(stopped.error)
                    && final(buffer).position == stopped.at,
            },
    {
        let ghost bytes = buffer.buffer@;
        let ghost start = buffer.position as int;
        let ghost one = |bytes: Seq<u8>, at: int| DnsQuestion::parse(bytes, at, QueryClass::IN);
        let mut questions: Vec<DnsQuestion> = Vec::new();
        let mut i: u16 = 0;
        assert(question_views(questions@) =~= Seq::<QuestionView>::empty());
        while i < count
            invariant
                i <= count,
                buffer.buffer == old(buffer).buffer,
                bytes == old(buffer).buffer@,
                start == old(buffer).position,
                one == |bytes: Seq<u8>, at: int| DnsQuestion::parse(bytes, at, QueryClass::IN),
                old(buffer).in_bounds() ==> buffer.in_bounds(),
                take_row(bytes, start, i as nat, one) == Ok::<(Seq<QuestionView>, int), Stopped>(
                    (question_views(questions@), buffer.position as int),
                ),
            decreases count - i,
        {
            let ghost before = question_views(questions@);
            let mut question = DnsQuestion::new(String::new(), QueryType::UNKNOWN(0), QueryClass::IN);
            match question.read(buffer) {
                Err(error) => {
                    proof {
                        assert(take_row(bytes, start, (i + 1) as nat, one) is Err);
                        take_row_fails_early(bytes, start, (i + 1) as nat, count as nat, one);
                    }
                    return Err(error);
                },
                Ok(_) => {},
            }
            questions.push(question);
            assert(question_views(questions@) =~= before.push(question@));
            i += 1;
        }
        Ok(questions)
    }

    /// Reads `count` records in a row at the position.
    fn read_records(buffer: &mut BytePacketBuffer, count: u16) -> (result: Result<
        Vec<DnsRecord>,
        BytePacketBufferError,
    >)
        ensures
            old(buffer).in_bounds() ==> final(buffer).in_bounds(),
            final(buffer).buffer == old(buffer).buffer,
            match Self::take_records(old(buffer).buffer@, old(buffer).position as int, count as nat) {
                Ok((records, end)) => {
                    &&& result is Ok
                    &&& record_views(result->Ok_0@) == records
                    &&& final(buffer).position == end
                },
                Err(stopped) => result == Err::<Vec<DnsRecord>, BytePacketBufferError>(stopped.error)
                    && final(buffer).position == stopped.at,
            },
    {
        let ghost bytes = buffer.buffer@;
        let ghost start = buffer.position as int;
        let ghost one = |bytes: Seq<u8>, at: int| DnsRecord::parse(bytes, at);
        let mut records: Vec<DnsRecord> = Vec::new();
        let mut i: u16 = 0;
        assert(record_views(records@) =~= Seq::<RecordView>::empty());
        while i < count
            invariant
                i <= count,
                buffer.buffer == old(buffer).buffer,
                bytes == old(buffer).buffer@,
                start == old(buffer).position,
                one == |bytes: Seq<u8>, at: int| DnsRecord::parse(bytes, at),
                old(buffer).in_bounds() ==> buffer.in_bounds(),
                take_row(bytes, start, i as nat, one) == Ok::<(Seq<RecordView>, int), Stopped>(
                    (record_views(records@), buffer.position as int),
                ),
            decreases count - i,
        {
            let ghost before = record_views(records@);
            let record = match DnsRecord::read(buffer) {
                Err(error) => {
                    proof {
                        assert(take_row(bytes, start, (i + 1) as nat, one) is Err);
                        take_row_fails_early(bytes, start, (i + 1) as nat, count as nat, one);
                    }
                    return Err(error);
                },
                Ok(record) => record,
            };
            records.push(record);
            assert(record_views(records@) =~= before.push(record@));
            i += 1;
        }
        Ok(records)
    }

    /// Reads a message at the position: the header, and then as many
    /// questions, answers, authority records and additional records as the
    /// header counts.
    ///
    /// The counts are taken as they stand; where the buffer holds less than
    /// they promise, the reading fails at the place where it runs out.
    pub fn from_buffer(buffer: &mut BytePacketBuffer) -> (result: Result<
        DnsPacket,
        BytePacketBufferError,
    >)
        ensures
            old(buffer).in_bounds() ==> final(buffer).in_bounds(),
            final(buffer).buffer == old(buffer).buffer,
            match Self::parse(old(buffer).buffer@, old(buffer).position as int) {
                Ok((packet, end)) => {
                    &&& result is Ok
                    &&& result->Ok_0@ == packet
                    &&& final(buffer).position == end
                },
                Err(stopped) => result == Err::<DnsPacket, BytePacketBufferError>(stopped.error)
                    && final(buffer).position == stopped.at,
            },
    {
        reveal(DnsPacket::parse);
        let mut header = DnsHeader::new();
        header.read(buffer)?;
        let questions = Self::read_questions(buffer, header.questions)?;
        let answers = Self::read_records(buffer, header.answers)?;
        let authorities = Self::read_records(buffer, header.authoritative_entries)?;
        let resources = Self::read_records(buffer, header.resource_entries)?;
        Ok(DnsPacket { header, questions, answers, authorities, resources })
    }

    /// Writes the questions of a section behind `done`, which has been
    /// written since `start`.
    fn write_questions(
        buffer: &mut BytePacketBuffer,
        questions: &Vec<DnsQuestion>,
        Ghost(start): Ghost<BytePacketBuffer>,
        Ghost(done): Ghost<Seq<u8>>,
    ) -> (result: Result<(), BytePacketBufferError>)
        requires
            BytePacketBuffer::wrote(start, *old(buffer), done),
            done.len() <= room(start.position as int),
        ensures
            result == Encoding::row(question_wires(question_views(questions@))).outcome(
                old(buffer).position as int,
            ),
            result is Ok ==> BytePacketBuffer::wrote(
                start,
                *final(buffer),
                done + Encoding::row(question_wires(question_views(questions@))).bytes,
            ),
            BytePacketBuffer::kept_prefix(start, *final(buffer)),
            BytePacketBuffer::moved(
                start,
                *final(buffer),
                (done + Encoding::row(question_wires(question_views(questions@))).bytes).len() as int,
            ),
    {
        let ghost pieces = question_wires(question_views(questions@));
        let ghost from = buffer.position as int;
        let mut i: usize = 0;
        proof {
            BytePacketBuffer::wrote_kept_prefix(start, *buffer, done);
            assert(pieces.take(0) =~= Seq::<Encoding>::empty());
            assert(done + Encoding::row(pieces.take(0)).bytes =~= done);
        }
        while i < questions.len()
            invariant
                i <= questions.len(),
                pieces == question_wires(question_views(questions@)),
                from == old(buffer).position,
                from == start.position + done.len(),
                done.len() <= room(start.position as int),
                Encoding::row(pieces.take(i as int)).fits(from),
                buffer.position == from + Encoding::row(pieces.take(i as int)).bytes.len(),
                BytePacketBuffer::wrote(
                    start,
                    *buffer,
                    done + Encoding::row(pieces.take(i as int)).bytes,
                ),
                BytePacketBuffer::kept_prefix(start, *buffer),
            decreases questions.len() - i,
        {
            let ghost sofar = Encoding::row(pieces.take(i as int));
            let ghost before = *buffer;
            let result = questions[i].write(buffer);
            proof {
                let piece = pieces[i as int];
                Encoding::row_step(pieces, i as int, from);
                BytePacketBuffer::wrote_kept_prefix(before, *buffer, piece.bytes);
                if result is Ok {
                    BytePacketBuffer::wrote_next(
                        start,
                        before,
                        *buffer,
                        done + sofar.bytes,
                        piece.bytes,
                        Seq::empty(),
                    );
                    assert(done + sofar.bytes + piece.bytes =~= done + (sofar.bytes + piece.bytes));
                }
            }
            if result.is_err() {
                return result;
            }
            i += 1;
        }
        assert(pieces.take(i as int) =~= pieces);
        Ok(())
    }

    /// Writes the records of a section behind `done`, which has been written
    /// since `start`.
    fn write_records(
        buffer: &mut BytePacketBuffer,
        records: &Vec<DnsRecord>,
        Ghost(start): Ghost<BytePacketBuffer>,
        Ghost(done): Ghost<Seq<u8>>,
    ) -> (result: Result<(), BytePacketBufferError>)
        requires
            BytePacketBuffer::wrote(start, *old(buffer), done),
            done.len() <= room(start.position as int),
        ensures
            result == Encoding::row(record_wires(record_views(records@))).outcome(
                old(buffer).position as int,
            ),
            result is Ok ==> BytePacketBuffer::wrote(
                start,
                *final(buffer),
                done + Encoding::row(record_wires(record_views(records@))).bytes,
            ),
            BytePacketBuffer::kept_prefix(start, *final(buffer)),
            BytePacketBuffer::moved(
                start,
                *final(buffer),
                (done + Encoding::row(record_wires(record_views(records@))).bytes).len() as int,
            ),
    {
        let ghost pieces = record_wires(record_views(records@));
        let ghost from = buffer.position as int;
        let mut i: usize = 0;
        proof {
            BytePacketBuffer::wrote_kept_prefix(start, *buffer, done);
            assert(pieces.take(0) =~= Seq::<Encoding>::empty());
            assert(done + Encoding::row(pieces.take(0)).bytes =~= done);
        }
        while i < records.len()
            invariant
                i <= records.len(),
                pieces == record_wires(record_views(records@)),
                from == old(buffer).position,
                from == start.position + done.len(),
                done.len() <= room(start.position as int),
                Encoding::row(pieces.take(i as int)).fits(from),
                buffer.position == from + Encoding::row(pieces.take(i as int)).bytes.len(),
                BytePacketBuffer::wrote(
                    start,
                    *buffer,
                    done + Encoding::row(pieces.take(i as int)).bytes,
                ),
                BytePacketBuffer::kept_prefix(start, *buffer),
            decreases records.len() - i,
        {
            let ghost sofar = Encoding::row(pieces.take(i as int));
            let ghost before = *buffer;
            let result = records[i].write(buffer);
            proof {
                let piece = pieces[i as int];
                Encoding::row_step(pieces, i as int, from);
                if result is Ok {
                    BytePacketBuffer::wrote_next(
                        start,
                        before,
                        *buffer,
                        done + sofar.bytes,
                        piece.bytes,
                        Seq::empty(),
                    );
                    assert(done + sofar.bytes + piece.bytes =~= done + (sofar.bytes + piece.bytes));
                }
            }
            match result {
                Err(error) => {
                    return Err(error);
                },
                Ok(_) => {},
            }
            i += 1;
        }
        assert(pieces.take(i as int) =~= pieces);
        Ok(())
    }

    /// Writes the message at the position: the header, then the sections in
    /// their order.
    ///
    /// The four counts of the header are first set to the lengths of the
    /// sections, whatever they held. `UNHANDLED` records are counted but not
    /// written. Where the writing fails, the position is left where it
    /// stopped, and the buffer is unchanged before the position at which it
    /// started.
    pub fn write(&mut self, buffer: &mut BytePacketBuffer) -> (result: Result<
        (),
        BytePacketBufferError,
    >)
        ensures
            old(buffer).in_bounds() ==> final(buffer).in_bounds(),
            final(self).header == Self::counted(old(self)@),
            final(self).questions == old(self).questions,
            final(self).answers == old(self).answers,
            final(self).authorities == old(self).authorities,
            final(self).resources == old(self).resources,
            result == Self::wire(old(self)@).outcome(old(buffer).position as int),
            result is Ok ==> BytePacketBuffer::wrote(
                *old(buffer),
                *final(buffer),
                Self::wire(old(self)@).bytes,
            ),
            BytePacketBuffer::kept_prefix(*old(buffer), *final(buffer)),
            BytePacketBuffer::moved(
                *old(buffer),
                *final(buffer),
                Self::wire(old(self)@).bytes.len() as int,
            ),
    {
        reveal(DnsPacket::wire);
        let ghost start = *buffer;
        let ghost packet = self@;
        self.header.questions = #[verifier::truncate]
        (self.questions.len() as u16);
        self.header.answers = #[verifier::truncate]
        (self.answers.len() as u16);
        self.header.authoritative_entries = #[verifier::truncate]
        (self.authorities.len() as u16);
        self.header.resource_entries = #[verifier::truncate]
        (self.resources.len() as u16);

        let ghost from = start.position as int;
        let ghost head = Encoding::of(self.header.wire());
        let ghost first = Encoding::row(question_wires(packet.questions));
        let ghost second = Encoding::row(record_wires(packet.answers));
        let ghost third = Encoding::row(record_wires(packet.authorities));
        let ghost fourth = Encoding::row(record_wires(packet.resources));
        let ghost one = head.followed_by(first);
        let ghost two = one.followed_by(second);
        let ghost three = two.followed_by(third);
        assert(Self::wire(packet) == three.followed_by(fourth));

        let result = self.header.write(buffer);
        proof {
            BytePacketBuffer::wrote_kept_prefix(start, *buffer, head.bytes);
            if result is Err {
                head.stuck(first, from);
                one.stuck(second, from);
                two.stuck(third, from);
                three.stuck(fourth, from);
            }
        }
        if result.is_err() {
            return result;
        }
        let result = Self::write_questions(buffer, &self.questions, Ghost(start), Ghost(head.bytes));
        proof {
            head.goes_on(first, from);
            if result is Err {
                one.stuck(second, from);
                two.stuck(third, from);
                three.stuck(fourth, from);
            }
        }
        if result.is_err() {
            return result;
        }
        let result = Self::write_records(buffer, &self.answers, Ghost(start), Ghost(one.bytes));
        proof {
            one.goes_on(second, from);
            if result is Err {
                two.stuck(third, from);
                three.stuck(fourth, from);
            }
        }
        if result.is_err() {
            return result;
        }
        let result = Self::write_records(buffer, &self.authorities, Ghost(start), Ghost(two.bytes));
        proof {
            two.goes_on(third, from);
            if result is Err {
                three.stuck(fourth, from);
            }
        }
        if result.is_err() {
            return result;
        }
        let result = Self::write_records(buffer, &self.resources, Ghost(start), Ghost(three.bytes));
        proof {
            three.goes_on(fourth, from);
        }
        result
    }
}

} // verus!
