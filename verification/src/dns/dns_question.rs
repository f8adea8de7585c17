use vstd::prelude::*;
use vstd::string::StringSliceAdditionalSpecFns;
use vstd::utf8::encode_utf8;
use crate::dns::byte_packet_buffer::BytePacketBuffer;
use crate::dns::byte_packet_buffer_error::BytePacketBufferError;
use crate::dns::name::{name_wire, take_name};
use crate::dns::query_class::QueryClass;
use crate::dns::query_type::QueryType;
use crate::dns::wire::{ran_out, room, u16_at, u16_octets, Encoding, Parsed, CAPACITY};

verus! {

/// One entry of the question section: what is being asked.
#[derive(Debug, Clone, PartialEq, Eq)]
pub struct DnsQuestion {
    /// The domain name asked about, in dotted form.
    pub q_name: String,
    /// The type of record asked for.
    pub q_type: QueryType,
    /// The class asked in. Only the Internet class is served: it is the one
    /// written, and the one on the wire is not read.
    pub q_class: QueryClass,
}

/// A question as a mathematical value.
pub struct QuestionView {
    pub q_name: Seq<char>,
    pub q_type: QueryType,
    pub q_class: QueryClass,
}

impl View for DnsQuestion {
    type V = QuestionView;

    open spec fn view(&self) -> QuestionView {
        QuestionView { q_name: self.q_name@, q_type: self.q_type, q_class: self.q_class }
    }
}

impl DnsQuestion {
    /// The wire form of a question: its name, its type, and the Internet
    /// class.
    pub open spec fn wire(question: QuestionView) -> Encoding {
        name_wire(encode_utf8(question.q_name)).followed_by(
            Encoding::of(
                u16_octets(question.q_type.spec_to_num()) + u16_octets(
                    QueryClass::IN.spec_to_num(),
                ),
            ),
        )
    }

    /// Reads a question at `pos`: a name, then a type and a class of two
    /// octets each. The class is passed over, and the question keeps
    /// `q_class`.
    pub open spec fn parse(bytes: Seq<u8>, pos: int, q_class: QueryClass) -> Parsed<QuestionView> {
        match take_name(bytes, pos) {
            Err(stopped) => Err(stopped),
            Ok((q_name, at)) => if at + 4 > CAPACITY {
                Err(ran_out(at))
            } else {
                Ok(
                    (
                        QuestionView {
                            q_name,
                            q_type: QueryType::spec_from_num(u16_at(bytes, at)),
                            q_class,
                        },
                        at + 4,
                    ),
                )
            },
        }
    }

    pub fn new(q_name: String, q_type: QueryType, q_class: QueryClass) -> (question: DnsQuestion)
        ensures
            question@ == (QuestionView { q_name: q_name@, q_type, q_class }),
    {
        DnsQuestion { q_name, q_type, q_class }
    }

    /// Reads a question at the position into `self`. The class on the wire is
    /// passed over. Where the reading fails, `self` stays as it was, and the
    /// position is left where the reading stopped.
    pub fn read(&mut self, buffer: &mut BytePacketBuffer) -> (result: Result<
        (),
        BytePacketBufferError,
    >)
        ensures
            old(buffer).in_bounds() ==> final(buffer).in_bounds(),
            final(buffer).buffer == old(buffer).buffer,
            match Self::parse(old(buffer).buffer@, old(buffer).position as int, old(self).q_class) {
                Ok((question, end)) => {
                    &&& result is Ok
                    &&& final(self)@ == question
                    &&& final(buffer).position == end
                },
                Err(stopped) => {
                    &&& result == Err::<(), BytePacketBufferError>(stopped.error)
                    &&& *final(self) == *old(self)
                    &&& final(buffer).position == stopped.at
                },
            },
    {
        let q_name = buffer.read_qname()?;
        let type_number = buffer.read_u16()?;
        let _ = buffer.read_u16()?;
        self.q_name = q_name;
        self.q_type = QueryType::from_num(type_number);
        Ok(())
    }

    /// Writes the question at the position, as far as it finds room.
    pub fn write(&self, buffer: &mut BytePacketBuffer) -> (result: Result<
        (),
        BytePacketBufferError,
    >)
        ensures
            old(buffer).in_bounds() ==> final(buffer).in_bounds(),
            BytePacketBuffer::wrote(*old(buffer), *final(buffer), Self::wire(self@).bytes),
            result == Self::wire(self@).outcome(old(buffer).position as int),
    {
        let ghost start = *buffer;
        let ghost name = name_wire(encode_utf8(self.q_name@));
        let ghost tail = u16_octets(self.q_type.spec_to_num()) + u16_octets(
            QueryClass::IN.spec_to_num(),
        );
        let ghost whole = Self::wire(self@);
        let result = buffer.write_question_name(self.q_name.as_str());
        proof {
            name.outcome_followed_by(Encoding::of(tail), start.position as int);
            BytePacketBuffer::wrote_nothing(start);
            BytePacketBuffer::wrote_next(start, start, *buffer, Seq::empty(), name.bytes, tail);
            assert(Seq::<u8>::empty() + name.bytes =~= name.bytes);
            assert(Seq::<u8>::empty() + name.bytes + tail =~= name.bytes + tail);
        }
        if result.is_err() {
            return result;
        }
        let type_number = self.q_type.to_num();
        let class_number = QueryClass::IN.to_num();

        let result = buffer.append_u16(type_number, Ghost(start), Ghost(name.bytes), Ghost(whole.bytes));
        if result.is_err() {
            return result;
        }
        let ghost done = name.bytes + u16_octets(type_number);
        let result = buffer.append_u16(class_number, Ghost(start), Ghost(done), Ghost(whole.bytes));
        assert(done + u16_octets(class_number) =~= whole.bytes);
        result
    }
}

} // verus!
