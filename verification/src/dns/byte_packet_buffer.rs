use vstd::prelude::*;
use crate::dns::byte_packet_buffer_error::BytePacketBufferError;
use crate::dns::byte_packet_buffer_error::BytePacketBufferError::{
    EndOfBuffer, ExceededJumpCount, QueryDomainNameLengthExceeded, QueryLabelNameLengthExceeded,
};
use crate::dns::name::{
    dotted_push, label_end, label_end_bounds, label_texts, labels_wire, lowered, name_text,
    name_wire, prepend, split_from, take_name, text_of, utf8_lossy, walk,
    DOT,
    MAX_JUMPS, MAX_LABEL, MAX_NAME, };
use vstd::string::{StringExecFns, StringSliceAdditionalSpecFns};
use vstd::utf8::{decode_utf8, valid_utf8};
use crate::dns::wire::{
    accepted, overlay, room, u16_at, u16_octets, u32_at, u32_octets, u32_octets_are_two_halves,
    Encoding, CAPACITY,
};

verus! {

/// Calls `String::from_utf8_lossy`. The result is named by [`utf8_lossy`].
/// Of valid UTF-8 the conversion changes nothing, so the result is then the
/// characters that the octets encode.
#[verifier::external_body]
fn utf8_lossy_string(bytes: &[u8]) -> (text: String)
    ensures
        text@ == utf8_lossy(bytes@),
        valid_utf8(bytes@) ==> text@ == decode_utf8(bytes@),
{
    String::from_utf8_lossy(bytes).into_owned()
}

/// A copy of the octets with ASCII capital letters turned into small ones.
pub fn ascii_lowercase(bytes: &[u8]) -> (out: Vec<u8>)
    ensures
        out@ == lowered(bytes@),
{
    let mut out: Vec<u8> = Vec::new();
    let mut i: usize = 0;
    while i < bytes.len()
        invariant
            i <= bytes.len(),
            out@ == lowered(bytes@.take(i as int)),
        decreases bytes.len() - i,
    {
        let byte = bytes[i];
        let small = if 0x41 <= byte && byte <= 0x5A {
            byte + 0x20
        } else {
            byte
        };
        out.push(small);
        i += 1;
        assert(out@ =~= lowered(bytes@.take(i as int)));
    }
    assert(bytes@.take(i as int) =~= bytes@);
    out
}

/// Puts one more label behind a name in dotted form: behind a dot, unless
/// the label is the first of the name.
pub fn append_label(name: &mut String, first: bool, label: &str)
    ensures
        final(name)@ == if first {
            old(name)@ + label@
        } else {
            old(name)@ + seq!['.'] + label@
        },
{
    if !first {
        proof {
            reveal_strlit(".");
        }
        name.append(".");
        assert(name@ =~= old(name)@ + seq!['.']);
    }
    name.append(label);
}

/// A message buffer of 512 octets with one position for reading and writing.
///
/// The position lies between the start of the buffer and its end, the end
/// included: no function of the buffer moves it out of these bounds. Every
/// access checks its offsets against the capacity first, so that a position
/// that was put beyond the end through the field is harmless too: reads and
/// writes there fail.
pub struct BytePacketBuffer {
    pub buffer: [u8; 512],
    pub position: usize,
}

impl BytePacketBuffer {
    /// Whether the position lies within the buffer or at its end.
    pub open spec fn in_bounds(&self) -> bool {
        self.position <= CAPACITY
    }

    /// Whether `new` is `old` after `bytes` were written one by one from the
    /// position on, as far as they found room.
    pub open spec fn wrote(old: BytePacketBuffer, new: BytePacketBuffer, bytes: Seq<u8>) -> bool {
        let count = accepted(old.position as int, bytes.len() as int);
        &&& new.position == old.position + count
        &&& new.buffer@ == overlay(old.buffer@, old.position as int, bytes.take(count))
    }

    /// Whether `new` differs from `old` only from `old`'s position on, and its
    /// position has not gone back.
    pub open spec fn kept_prefix(old: BytePacketBuffer, new: BytePacketBuffer) -> bool {
        &&& new.position >= old.position
        &&& forall|i: int| 0 <= i < old.position && i < CAPACITY ==> new.buffer@[i] == old.buffer@[i]
    }

    /// Whether the position of `new` is that of `old` after a run of writes
    /// of `count` octets, as far as they found room.
    pub open spec fn moved(old: BytePacketBuffer, new: BytePacketBuffer, count: int) -> bool {
        new.position == old.position + accepted(old.position as int, count)
    }

    /// Whether `piece` stands in `whole` right behind `done`.
    pub open spec fn continues(done: Seq<u8>, piece: Seq<u8>, whole: Seq<u8>) -> bool {
        &&& done.len() + piece.len() <= whole.len()
        &&& whole.subrange(0, (done.len() + piece.len()) as int) =~= done + piece
    }

    /// A buffer of zeros with the position at the start.
    pub fn new() -> (fresh: BytePacketBuffer)
        ensures
            fresh.position == 0,
            fresh.buffer@ == Seq::new(CAPACITY as nat, |i: int| 0u8),
    {
        let fresh = BytePacketBuffer { buffer: [0; 512], position: 0 };
        assert(fresh.buffer@ =~= Seq::new(CAPACITY as nat, |i: int| 0u8));
        fresh
    }

    /// The current position.
    pub fn position(&self) -> (position: usize)
        ensures
            position == self.position,
    {
        self.position
    }

    /// Moves the position forward by `step`, no further than the end of the
    /// buffer.
    pub fn step(&mut self, step: usize)
        requires
            old(self).position + step <= CAPACITY,
        ensures
            final(self).position == old(self).position + step,
            final(self).buffer == old(self).buffer,
            final(self).in_bounds(),
    {
        self.position += step;
    }

    /// Moves the position to `position`, which lies within the buffer or at
    /// its end.
    pub fn seek(&mut self, position: usize)
        requires
            position <= CAPACITY,
        ensures
            final(self).position == position,
            final(self).buffer == old(self).buffer,
            final(self).in_bounds(),
    {
        self.position = position
    }

    /// Reads the octet at the position and moves one octet forward.
    pub fn read(&mut self) -> (result: Result<u8, BytePacketBufferError>)
        ensures
            old(self).in_bounds() ==> final(self).in_bounds(),
            final(self).buffer == old(self).buffer,
            old(self).position < CAPACITY ==> result == Ok::<u8, BytePacketBufferError>(
                old(self).buffer@[old(self).position as int],
            ) && final(self).position == old(self).position + 1,
            old(self).position >= CAPACITY ==> result == Err::<u8, BytePacketBufferError>(
                EndOfBuffer,
            ) && final(self).position == old(self).position,
    {
        if self.position >= 512 {
            return Err(EndOfBuffer);
        }
        let result = self.buffer[self.position];
        self.step(1);

        Ok(result)
    }

    /// The octet at `position`; the buffer's own position plays no part.
    pub fn get(&self, position: usize) -> (result: Result<u8, BytePacketBufferError>)
        ensures
            position < CAPACITY ==> result == Ok::<u8, BytePacketBufferError>(
                self.buffer@[position as int],
            ),
            position >= CAPACITY ==> result == Err::<u8, BytePacketBufferError>(EndOfBuffer),
    {
        if position >= 512 {
            return Err(EndOfBuffer);
        }
        Ok(self.buffer[position])
    }

    /// The `length` octets from `start` on. A range that reaches the last
    /// octet of the buffer is refused like one that goes beyond it.
    pub fn get_range(&self, start: usize, length: usize) -> (result: Result<
        &[u8],
        BytePacketBufferError,
    >)
        ensures
            start + length < CAPACITY ==> result is Ok && result->Ok_0@ == self.buffer@.subrange(
                start as int,
                start + length,
            ),
            start + length >= CAPACITY ==> result == Err::<&[u8], BytePacketBufferError>(
                EndOfBuffer,
            ),
    {
        if start >= 512 || length >= 512 - start {
            return Err(EndOfBuffer);
        }
        Ok(vstd::slice::slice_subrange(self.buffer.as_slice(), start, start + length))
    }

    /// Reads two octets as a big-endian number and moves past them. Where
    /// fewer than two are left, the position stops at the end of the buffer.
    pub fn read_u16(&mut self) -> (result: Result<u16, BytePacketBufferError>)
        ensures
            old(self).in_bounds() ==> final(self).in_bounds(),
            final(self).buffer == old(self).buffer,
            old(self).position + 2 <= CAPACITY ==> result == Ok::<u16, BytePacketBufferError>(
                u16_at(old(self).buffer@, old(self).position as int),
            ) && final(self).position == old(self).position + 2,
            old(self).position + 2 > CAPACITY ==> result == Err::<u16, BytePacketBufferError>(
                EndOfBuffer,
            ) && final(self).position == old(self).position + room(old(self).position as int),
    {
        let high = self.read()?;
        let low = self.read()?;
        Ok((high as u16) * 256 + (low as u16))
    }

    /// Reads four octets as a big-endian number and moves past them. Where
    /// fewer than four are left, the position stops at the end of the buffer.
    pub fn read_u32(&mut self) -> (result: Result<u32, BytePacketBufferError>)
        ensures
            old(self).in_bounds() ==> final(self).in_bounds(),
            final(self).buffer == old(self).buffer,
            old(self).position + 4 <= CAPACITY ==> result == Ok::<u32, BytePacketBufferError>(
                u32_at(old(self).buffer@, old(self).position as int),
            ) && final(self).position == old(self).position + 4,
            old(self).position + 4 > CAPACITY ==> result == Err::<u32, BytePacketBufferError>(
                EndOfBuffer,
            ) && final(self).position == old(self).position + room(old(self).position as int),
    {
        let first = self.read()?;
        let second = self.read()?;
        let third = self.read()?;
        let fourth = self.read()?;
        Ok(
            (first as u32) * 0x100_0000 + (second as u32) * 0x1_0000 + (third as u32) * 256 + (
            fourth as u32),
        )
    }

    /// Writes one octet at the position and moves one octet forward.
    pub fn write(&mut self, value: u8) -> (result: Result<(), BytePacketBufferError>)
        ensures
            old(self).in_bounds() ==> final(self).in_bounds(),
            Self::wrote(*old(self), *final(self), seq![value]),
            result == Encoding::of(seq![value]).outcome(old(self).position as int),
    {
        if self.position >= 512 {
            assert(self.buffer@ =~= overlay(self.buffer@, self.position as int, seq![value].take(0)));
            return Err(EndOfBuffer);
        }
        self.buffer[self.position] = value;
        self.step(1);
        assert(self.buffer@ =~= overlay(
            old(self).buffer@,
            old(self).position as int,
            seq![value].take(1),
        ));
        Ok(())
    }

    /// Writes one octet at the position and moves one octet forward.
    pub fn write_u8(&mut self, value: u8) -> (result: Result<(), BytePacketBufferError>)
        ensures
            old(self).in_bounds() ==> final(self).in_bounds(),
            Self::wrote(*old(self), *final(self), seq![value]),
            result == Encoding::of(seq![value]).outcome(old(self).position as int),
    {
        self.write(value)
    }

    /// Writes a number as two octets, high octet first.
    pub fn write_u16(&mut self, value: u16) -> (result: Result<(), BytePacketBufferError>)
        ensures
            old(self).in_bounds() ==> final(self).in_bounds(),
            Self::wrote(*old(self), *final(self), u16_octets(value)),
            result == Encoding::of(u16_octets(value)).outcome(old(self).position as int),
    {
        let ghost start = *self;
        let high = (value / 256) as u8;
        let low = (value % 256) as u8;
        let first = self.write(high);
        proof {
            Self::wrote_nothing(start);
            Self::wrote_next(start, start, *self, Seq::empty(), seq![high], seq![low]);
            assert(Seq::<u8>::empty() + seq![high] + seq![low] =~= u16_octets(value));
            assert(Seq::<u8>::empty() + seq![high] =~= seq![high]);
        }
        if first.is_err() {
            return first;
        }
        let ghost middle = *self;
        let second = self.write(low);
        proof {
            Self::wrote_next(start, middle, *self, seq![high], seq![low], Seq::empty());
            assert(seq![high] + seq![low] =~= u16_octets(value));
        }
        second
    }

    /// Writes a number as four octets, high octet first.
    pub fn write_u32(&mut self, value: u32) -> (result: Result<(), BytePacketBufferError>)
        ensures
            old(self).in_bounds() ==> final(self).in_bounds(),
            Self::wrote(*old(self), *final(self), u32_octets(value)),
            result == Encoding::of(u32_octets(value)).outcome(old(self).position as int),
    {
        let ghost start = *self;
        let high = (value / 0x1_0000) as u16;
        let low = (value % 0x1_0000) as u16;
        proof {
            u32_octets_are_two_halves(value);
            Self::wrote_nothing(start);
        }
        let first = self.write_u16(high);
        proof {
            Self::wrote_next(start, start, *self, Seq::empty(), u16_octets(high), u16_octets(low));
            assert(Seq::<u8>::empty() + u16_octets(high) =~= u16_octets(high));
        }
        if first.is_err() {
            return first;
        }
        let ghost middle = *self;
        let second = self.write_u16(low);
        proof {
            Self::wrote_next(
                start,
                middle,
                *self,
                u16_octets(high),
                u16_octets(low),
                Seq::empty(),
            );
        }
        second
    }

    /// Replaces the two octets at `position` by a number, high octet first.
    /// The buffer's own position stays. Nothing is written unless both octets
    /// lie inside the buffer.
    pub fn set_u16(&mut self, position: usize, value: u16) -> (result: Result<
        (),
        BytePacketBufferError,
    >)
        ensures
            old(self).in_bounds() ==> final(self).in_bounds(),
            final(self).position == old(self).position,
            position + 1 < CAPACITY ==> result == Ok::<(), BytePacketBufferError>(()) && final(self).buffer@
                == overlay(
                old(self).buffer@,
                position as int,
                u16_octets(value),
            ),
            position + 1 >= CAPACITY ==> result == Err::<(), BytePacketBufferError>(EndOfBuffer)
                && final(self).buffer == old(self).buffer,
    {
        if position >= 511 {
            return Err(EndOfBuffer);
        }
        self.buffer[position] = (value / 256) as u8;
        self.buffer[position + 1] = (value % 256) as u8;
        assert(self.buffer@ =~= overlay(old(self).buffer@, position as int, u16_octets(value)));
        Ok(())
    }

    /// Reads a domain name from the position on and returns it in dotted
    /// form, ASCII capital letters turned into small ones.
    ///
    /// The name is a chain of labels, each behind its length octet, that ends
    /// with a zero octet. A length octet with its two top bits set is, with
    /// the octet after it, a pointer to the offset where the name goes on.
    /// The position is left behind the zero octet, or behind the first pointer
    /// where there is one; it never leaves the buffer. The reading fails when
    /// it would touch the end of the buffer, and when it has followed more
    /// pointers than `MAX_JUMPS`, so that pointers in a circle end it.
    pub fn read_qname(&mut self) -> (result: Result<String, BytePacketBufferError>)
        ensures
            final(self).buffer == old(self).buffer,
            ({
                let found = walk(old(self).buffer@, old(self).position as int, 0);
                &&& final(self).position == match found.cursor {
                    Some(cursor) => cursor,
                    None => old(self).position as int,
                }
                &&& match found.labels {
                    Ok(labels) => result is Ok && result->Ok_0@ == name_text(labels),
                    Err(error) => result == Err::<String, BytePacketBufferError>(error),
                }
            }),
            match take_name(old(self).buffer@, old(self).position as int) {
                Ok((name, end)) => result is Ok && result->Ok_0@ == name && final(self).position
                    == end,
                Err(stopped) => result == Err::<String, BytePacketBufferError>(stopped.error)
                    && final(self).position == stopped.at,
            },
            old(self).in_bounds() ==> final(self).in_bounds(),
    {
        reveal(take_name);
        let ghost bytes = self.buffer@;
        let ghost start = self.position as int;
        let ghost mut done: Seq<Seq<u8>> = Seq::empty();
        let mut current_position = self.position();
        let mut jumped = false;
        let mut jumps_performed: i32 = 0;
        let mut first = true;
        let mut qname = String::new();
        assert(label_texts(done) =~= Seq::<Seq<char>>::empty());

        loop
            invariant
                self.buffer == old(self).buffer,
                bytes == old(self).buffer@,
                start == old(self).position,
                0 <= jumps_performed <= MAX_JUMPS + 1,
                walk(bytes, start, 0).labels == prepend(
                    done,
                    walk(bytes, current_position as int, jumps_performed as int).labels,
                ),
                qname@ == name_text(done),
                first <==> done.len() == 0,
                !jumped ==> self.position == start && walk(bytes, start, 0).cursor == walk(
                    bytes,
                    current_position as int,
                    jumps_performed as int,
                ).cursor,
                jumped ==> walk(bytes, start, 0).cursor == Some(self.position as int),
                old(self).in_bounds() ==> self.in_bounds(),
            decreases MAX_JUMPS + 1 - jumps_performed, CAPACITY - current_position,
        {
            proof {
                reveal(take_name);
            }
            if jumps_performed > MAX_JUMPS {
                return Err(ExceededJumpCount(MAX_JUMPS));
            }
            let word_length = match self.get(current_position) {
                Ok(octet) => octet,
                Err(error) => {
                    return Err(error);
                },
            };

            if (word_length & 0xC0) == 0xC0 {
                assert(word_length >= 0xC0) by (bit_vector)
                    requires
                        (word_length & 0xC0) == 0xC0,
                ;
                let second_byte = match self.get(current_position + 1) {
                    Ok(octet) => octet,
                    Err(error) => {
                        return Err(error);
                    },
                };
                if !jumped {
                    self.seek(current_position + 2);
                }
                jumped = true;
                let offset: u16 = (((word_length as u16) ^ 0xC0) << 8) | (second_byte as u16);
                assert(offset == (word_length - 0xC0) * 256 + second_byte) by (bit_vector)
                    requires
                        word_length >= 0xC0,
                        offset == (((word_length as u16) ^ 0xC0) << 8) | (second_byte as u16),
                ;
                current_position = offset as usize;
                jumps_performed += 1;
                continue ;
            }
            assert(word_length < 0xC0) by (bit_vector)
                requires
                    (word_length & 0xC0) != 0xC0,
            ;

            if word_length == 0 {
                if !jumped {
                    self.seek(current_position + 1);
                }
                assert(done + Seq::<Seq<u8>>::empty() =~= done);
                return Ok(qname);
            }
            let label = match self.get_range(current_position + 1, word_length as usize) {
                Ok(octets) => octets,
                Err(error) => {
                    return Err(error);
                },
            };
            let small = ascii_lowercase(label);
            let text = utf8_lossy_string(small.as_slice());
            append_label(&mut qname, first, text.as_str());
            proof {
                let grown = done.push(label@);
                assert(text@ == text_of(lowered(label@)));
                assert(label_texts(grown) =~= label_texts(done).push(text@));
                dotted_push(label_texts(done), text@);
                let rest = walk(
                    bytes,
                    current_position + 1 + word_length,
                    jumps_performed as int,
                ).labels;
                match rest {
                    Ok(labels) => {
                        assert(done + (seq![label@] + labels) =~= grown + labels);
                    },
                    Err(_) => {},
                }
                done = grown;
            }
            first = false;
            current_position = current_position + 1 + word_length as usize;
        }
    }

    /// Writes a domain name, given in dotted form, at the position: each
    /// label behind its length, then a zero octet. No pointers are written.
    ///
    /// A name longer than `MAX_NAME` octets is refused before anything is
    /// written. The labels are then written in turn, and the first one longer
    /// than `MAX_LABEL` octets ends the writing, as does the end of the buffer.
    pub fn write_question_name(&mut self, value: &str) -> (result: Result<
        (),
        BytePacketBufferError,
    >)
        ensures
            old(self).in_bounds() ==> final(self).in_bounds(),
            Self::wrote(*old(self), *final(self), name_wire(value.spec_bytes()).bytes),
            result == name_wire(value.spec_bytes()).outcome(old(self).position as int),
    {
        reveal(name_wire);
        let ghost begin = *self;
        let name = value.as_bytes();
        let length = name.len();
        proof {
            Self::wrote_nothing(begin);
        }
        if length > MAX_NAME {
            return Err(QueryDomainNameLengthExceeded(length));
        }
        let ghost whole = name_wire(name@);
        let ghost mut done: Seq<u8> = Seq::empty();
        let mut from: usize = 0;
        let mut index: usize = 0;
        assert(Encoding::of(done).followed_by(labels_wire(split_from(name@, 0), 0)) == whole) by {
            assert(done + labels_wire(split_from(name@, 0), 0).bytes =~= labels_wire(
                split_from(name@, 0),
                0,
            ).bytes);
        }
        loop
            invariant
                name@ == value.spec_bytes(),
                length == name@.len(),
                length <= MAX_NAME,
                from <= length,
                index <= from,
                whole == name_wire(name@),
                whole == Encoding::of(done).followed_by(
                    labels_wire(split_from(name@, from as int), index as int),
                ),
                Self::wrote(begin, *self, done),
                done.len() <= room(begin.position as int),
                begin == *old(self),
            decreases length - from,
        {
            let mut end = from;
            while end < length && name[end] != DOT
                invariant
                    from <= end <= length,
                    length == name@.len(),
                    label_end(name@, from as int) == label_end(name@, end as int),
                decreases length - end,
            {
                end += 1;
            }
            proof {
                label_end_bounds(name@, from as int);
            }
            assert(end == label_end(name@, from as int));
            let ghost label = name@.subrange(from as int, end as int);
            let ghost labels = split_from(name@, from as int);
            let ghost tail = labels_wire(labels.drop_first(), index + 1);
            assert(labels[0] == label);
            let label_length = end - from;
            if label_length > MAX_LABEL {
                assert(whole.bytes =~= done);
                return Err(QueryLabelNameLengthExceeded(index, label_length));
            }
            assert(whole.bytes =~= done + (seq![label_length as u8] + label) + tail.bytes);
            assert(whole.failure == tail.failure);

            let ghost before = *self;
            let wrote_length = self.write_u8(label_length as u8);
            proof {
                Self::wrote_next(
                    begin,
                    before,
                    *self,
                    done,
                    seq![label_length as u8],
                    label + tail.bytes,
                );
                assert(done + seq![label_length as u8] + (label + tail.bytes) =~= whole.bytes);
            }
            if wrote_length.is_err() {
                return wrote_length;
            }
            let ghost mut written = done + seq![label_length as u8];
            let mut at = from;
            while at < end
                invariant
                    name@ == value.spec_bytes(),
                    from <= at <= end <= length,
                    length == name@.len(),
                    label_length <= MAX_LABEL,
                    label == name@.subrange(from as int, end as int),
                    written == done + seq![label_length as u8] + label.take(at - from),
                    whole.bytes == done + (seq![label_length as u8] + label) + tail.bytes,
                    whole == name_wire(name@),
                    Self::wrote(begin, *self, written),
                    written.len() <= room(begin.position as int),
                    begin == *old(self),
                decreases end - at,
            {
                let ghost before = *self;
                let wrote_octet = self.write_u8(name[at]);
                proof {
                    let remaining = label.skip(at - from + 1) + tail.bytes;
                    Self::wrote_next(begin, before, *self, written, seq![name[at as int]], remaining);
                    assert(written + seq![name[at as int]] + remaining =~= whole.bytes);
                    assert(written + seq![name[at as int]] =~= done + seq![label_length as u8]
                        + label.take(at + 1 - from));
                    written = written + seq![name[at as int]];
                }
                if wrote_octet.is_err() {
                    return wrote_octet;
                }
                at += 1;
            }
            proof {
                assert(label.take(end - from) =~= label);
                assert(written =~= done + (seq![label_length as u8] + label));
                done = written;
                assert(whole == Encoding::of(done).followed_by(tail));
            }
            if end == length {
                assert(labels.drop_first() =~= Seq::<Seq<u8>>::empty());
                assert(tail == Encoding::of(seq![0u8]));
                let ghost before = *self;
                let wrote_end = self.write_u8(0);
                proof {
                    Self::wrote_next(begin, before, *self, done, seq![0u8], Seq::empty());
                    assert(done + seq![0u8] =~= whole.bytes);
                }
                return wrote_end;
            }
            assert(labels.drop_first() =~= split_from(name@, end + 1));
            from = end + 1;
            index += 1;
        }
    }

    /// Writes a 16-bit number behind `done`, which has been written since
    /// `start`.
    pub(crate) fn then_u16(
        &mut self,
        value: u16,
        Ghost(start): Ghost<BytePacketBuffer>,
        Ghost(done): Ghost<Seq<u8>>,
    ) -> (result: Result<(), BytePacketBufferError>)
        requires
            Self::wrote(start, *old(self), done),
            done.len() <= room(start.position as int),
        ensures
            Self::wrote(start, *final(self), done + u16_octets(value)),
            Self::kept_prefix(start, *final(self)),
            result == Encoding::of(u16_octets(value)).outcome(old(self).position as int),
    {
        let ghost before = *self;
        let result = self.write_u16(value);
        proof {
            Self::wrote_next(start, before, *self, done, u16_octets(value), Seq::empty());
            Self::wrote_kept_prefix(start, *self, done + u16_octets(value));
        }
        result
    }

    /// Writes a 32-bit number behind `done`, which has been written since
    /// `start`.
    pub(crate) fn then_u32(
        &mut self,
        value: u32,
        Ghost(start): Ghost<BytePacketBuffer>,
        Ghost(done): Ghost<Seq<u8>>,
    ) -> (result: Result<(), BytePacketBufferError>)
        requires
            Self::wrote(start, *old(self), done),
            done.len() <= room(start.position as int),
        ensures
            Self::wrote(start, *final(self), done + u32_octets(value)),
            Self::kept_prefix(start, *final(self)),
            result == Encoding::of(u32_octets(value)).outcome(old(self).position as int),
    {
        let ghost before = *self;
        let result = self.write_u32(value);
        proof {
            Self::wrote_next(start, before, *self, done, u32_octets(value), Seq::empty());
            Self::wrote_kept_prefix(start, *self, done + u32_octets(value));
        }
        result
    }

    /// Writes a name behind `done`, which has been written since `start`.
    pub(crate) fn then_name(
        &mut self,
        value: &str,
        Ghost(start): Ghost<BytePacketBuffer>,
        Ghost(done): Ghost<Seq<u8>>,
    ) -> (result: Result<(), BytePacketBufferError>)
        requires
            Self::wrote(start, *old(self), done),
            done.len() <= room(start.position as int),
        ensures
            Self::wrote(start, *final(self), done + name_wire(value.spec_bytes()).bytes),
            Self::kept_prefix(start, *final(self)),
            result == name_wire(value.spec_bytes()).outcome(old(self).position as int),
    {
        let ghost before = *self;
        let result = self.write_question_name(value);
        proof {
            let name = name_wire(value.spec_bytes()).bytes;
            Self::wrote_next(start, before, *self, done, name, Seq::empty());
            Self::wrote_kept_prefix(start, *self, done + name);
        }
        result
    }

    /// Writes octets behind `done`, which has been written since `start`.
    pub(crate) fn then_octets(
        &mut self,
        octets: &[u8],
        Ghost(start): Ghost<BytePacketBuffer>,
        Ghost(done): Ghost<Seq<u8>>,
    ) -> (result: Result<(), BytePacketBufferError>)
        requires
            Self::wrote(start, *old(self), done),
            done.len() <= room(start.position as int),
        ensures
            Self::kept_prefix(start, *final(self)),
            Self::moved(start, *final(self), (done + octets@).len() as int),
            result == Encoding::of(octets@).outcome(old(self).position as int),
            result is Ok ==> Self::wrote(start, *final(self), done + octets@),
    {
        let ghost before = *self;
        let mut i: usize = 0;
        proof {
            Self::wrote_kept_prefix(start, *self, done);
            assert(done + octets@.take(0) =~= done);
        }
        while i < octets.len()
            invariant
                i <= octets.len(),
                Self::wrote(start, *self, done + octets@.take(i as int)),
                (done + octets@.take(i as int)).len() <= room(start.position as int),
                self.position == before.position + i,
                before == *old(self),
                Self::wrote(start, before, done),
                done.len() <= room(start.position as int),
            decreases octets.len() - i,
        {
            let ghost middle = *self;
            let result = self.write_u8(octets[i]);
            proof {
                let sofar = done + octets@.take(i as int);
                Self::wrote_next(start, middle, *self, sofar, seq![octets[i as int]], Seq::empty());
                Self::wrote_kept_prefix(start, *self, sofar + seq![octets[i as int]]);
                assert(sofar + seq![octets[i as int]] =~= done + octets@.take(i + 1));
            }
            if result.is_err() {
                return result;
            }
            i += 1;
        }
        proof {
            assert(octets@.take(i as int) =~= octets@);
            Self::wrote_kept_prefix(start, *self, done + octets@);
        }
        Ok(())
    }

    /// Writes one octet on the way to writing `whole`, of which `done` has
    /// been written since `start`.
    pub(crate) fn append_u8(
        &mut self,
        value: u8,
        Ghost(start): Ghost<BytePacketBuffer>,
        Ghost(done): Ghost<Seq<u8>>,
        Ghost(whole): Ghost<Seq<u8>>,
    ) -> (result: Result<(), BytePacketBufferError>)
        requires
            Self::wrote(start, *old(self), done),
            done.len() <= room(start.position as int),
            Self::continues(done, seq![value], whole),
        ensures
            Self::wrote(start, *final(self), done + seq![value]),
            result is Ok ==> result == Ok::<(), BytePacketBufferError>(()) && (done + seq![value]).len()
                <= room(start.position as int),
            result is Err ==> result == Err::<(), BytePacketBufferError>(EndOfBuffer)
                && Self::wrote(start, *final(self), whole) && whole.len() > room(
                start.position as int,
            ),
    {
        let ghost before = *self;
        let result = self.write(value);
        proof {
            Self::wrote_towards(start, before, *self, done, seq![value], whole);
        }
        result
    }

    /// Writes a 16-bit number on the way to writing `whole`, of which `done`
    /// has been written since `start`.
    pub(crate) fn append_u16(
        &mut self,
        value: u16,
        Ghost(start): Ghost<BytePacketBuffer>,
        Ghost(done): Ghost<Seq<u8>>,
        Ghost(whole): Ghost<Seq<u8>>,
    ) -> (result: Result<(), BytePacketBufferError>)
        requires
            Self::wrote(start, *old(self), done),
            done.len() <= room(start.position as int),
            Self::continues(done, u16_octets(value), whole),
        ensures
            Self::wrote(start, *final(self), done + u16_octets(value)),
            result is Ok ==> result == Ok::<(), BytePacketBufferError>(()) && (done + u16_octets(value)).len()
                <= room(start.position as int),
            result is Err ==> result == Err::<(), BytePacketBufferError>(EndOfBuffer)
                && Self::wrote(start, *final(self), whole) && whole.len() > room(
                start.position as int,
            ),
    {
        let ghost before = *self;
        let result = self.write_u16(value);
        proof {
            Self::wrote_towards(start, before, *self, done, u16_octets(value), whole);
        }
        result
    }

    /// A buffer is itself after a run of no writes.
    pub proof fn wrote_nothing(buffer: BytePacketBuffer)
        ensures
            Self::wrote(buffer, buffer, Seq::empty()),
    {
        assert(buffer.buffer@ =~= overlay(
            buffer.buffer@,
            buffer.position as int,
            Seq::<u8>::empty().take(0),
        ));
    }

    /// One more write after a run of writes that all found room: the two
    /// together are a run of writes. Where the last write ran out of room, any
    /// octets that were to follow change nothing.
    pub proof fn wrote_next(
        start: BytePacketBuffer,
        middle: BytePacketBuffer,
        end: BytePacketBuffer,
        done: Seq<u8>,
        piece: Seq<u8>,
        rest: Seq<u8>,
    )
        requires
            Self::wrote(start, middle, done),
            done.len() <= room(start.position as int),
            Self::wrote(middle, end, piece),
        ensures
            Self::wrote(start, end, done + piece),
            piece.len() <= room(middle.position as int) <==> (done + piece).len() <= room(
                start.position as int,
            ),
            piece.len() > room(middle.position as int) ==> Self::wrote(
                start,
                end,
                done + piece + rest,
            ) && (done + piece + rest).len() > room(start.position as int),
    {
        let from = start.position as int;
        let count = accepted(middle.position as int, piece.len() as int);
        assert(done.take(done.len() as int) =~= done);
        assert((done + piece).take(done.len() + count) =~= done + piece.take(count));
        assert(end.buffer@ =~= overlay(start.buffer@, from, done + piece.take(count)));
        if piece.len() > room(middle.position as int) {
            assert((done + piece + rest).take(done.len() + count) =~= done + piece.take(count));
        }
    }

    /// One more write on the way to `whole`: where it runs out of room, the
    /// buffer is as if all of `whole` had been tried.
    pub proof fn wrote_towards(
        start: BytePacketBuffer,
        middle: BytePacketBuffer,
        end: BytePacketBuffer,
        done: Seq<u8>,
        piece: Seq<u8>,
        whole: Seq<u8>,
    )
        requires
            Self::wrote(start, middle, done),
            done.len() <= room(start.position as int),
            Self::wrote(middle, end, piece),
            Self::continues(done, piece, whole),
        ensures
            Self::wrote(start, end, done + piece),
            piece.len() <= room(middle.position as int) <==> (done + piece).len() <= room(
                start.position as int,
            ),
            piece.len() > room(middle.position as int) ==> Self::wrote(start, end, whole)
                && whole.len() > room(start.position as int),
    {
        let rest = whole.subrange((done.len() + piece.len()) as int, whole.len() as int);
        assert(done + piece + rest =~= whole) by {
            assert(whole.subrange(0, (done.len() + piece.len()) as int) + rest =~= whole);
        }
        Self::wrote_next(start, middle, end, done, piece, rest);
    }

    /// A run of writes changes nothing before the position it started at.
    pub proof fn wrote_kept_prefix(old: BytePacketBuffer, new: BytePacketBuffer, bytes: Seq<u8>)
        requires
            Self::wrote(old, new, bytes),
        ensures
            Self::kept_prefix(old, new),
    {
    }
}

} // verus!
