//! The mathematical model of the wire: big-endian numbers, what a write does
//! to a buffer's bytes, and encodings that may stop with an error.

use vstd::prelude::*;
use crate::dns::byte_packet_buffer_error::BytePacketBufferError;

verus! {

/// The number of octets that a message buffer holds.
pub const CAPACITY: usize = 512;

/// The two octets of a 16-bit number, high octet first.
pub open spec fn u16_octets(value: u16) -> Seq<u8> {
    seq![(value / 256) as u8, (value % 256) as u8]
}

/// The four octets of a 32-bit number, high octet first.
pub open spec fn u32_octets(value: u32) -> Seq<u8> {
    seq![
        (value / 0x100_0000) as u8,
        ((value / 0x1_0000) % 256) as u8,
        ((value / 256) % 256) as u8,
        (value % 256) as u8,
    ]
}

/// The octets of a 32-bit number are those of its high half and then those
/// of its low half.
pub proof fn u32_octets_are_two_halves(value: u32)
    ensures
        u16_octets((value / 0x1_0000) as u16) + u16_octets((value % 0x1_0000) as u16)
            == u32_octets(value),
{
    let high = (value / 0x1_0000) as u16;
    let low = (value % 0x1_0000) as u16;
    assert(high / 256 == value / 0x100_0000 && high % 256 == (value / 0x1_0000) % 256 && low / 256
        == (value / 256) % 256 && low % 256 == value % 256) by (bit_vector)
        requires
            high == (value / 0x1_0000) as u16,
            low == (value % 0x1_0000) as u16,
    ;
    assert(u16_octets(high) + u16_octets(low) =~= u32_octets(value));
}

/// The 16-bit number whose high octet stands at `pos`.
pub open spec fn u16_at(bytes: Seq<u8>, pos: int) -> u16 {
    (bytes[pos] as int * 256 + bytes[pos + 1] as int) as u16
}

/// The 32-bit number whose high octet stands at `pos`.
pub open spec fn u32_at(bytes: Seq<u8>, pos: int) -> u32 {
    (bytes[pos] as int * 0x100_0000 + bytes[pos + 1] as int * 0x1_0000 + bytes[pos + 2] as int
        * 256 + bytes[pos + 3] as int) as u32
}

/// `bytes` with `data` laid over it from `pos` on.
pub open spec fn overlay(bytes: Seq<u8>, pos: int, data: Seq<u8>) -> Seq<u8> {
    Seq::new(
        bytes.len(),
        |i: int|
            if pos <= i < pos + data.len() {
                data[i - pos]
            } else {
                bytes[i]
            },
    )
}

/// How many octets can still be written from `pos` on.
pub open spec fn room(pos: int) -> int {
    if pos < CAPACITY {
        CAPACITY - pos
    } else {
        0
    }
}

/// How many of `count` octets a run of writes from `pos` on gets through
/// before the buffer is full.
pub open spec fn accepted(pos: int, count: int) -> int {
    if count <= room(pos) {
        count
    } else {
        room(pos)
    }
}

/// The wire form of a value: the octets that writing it emits, one after the
/// other, and the error at which it then stops, if it does.
pub struct Encoding {
    pub bytes: Seq<u8>,
    pub failure: Option<BytePacketBufferError>,
}

impl Encoding {
    /// An encoding that emits `bytes` and succeeds.
    pub open spec fn of(bytes: Seq<u8>) -> Encoding {
        Encoding { bytes, failure: None }
    }

    /// An encoding that emits nothing and stops with `error`.
    pub open spec fn stop(error: BytePacketBufferError) -> Encoding {
        Encoding { bytes: Seq::empty(), failure: Some(error) }
    }

    /// This encoding and then `next`, unless this one has already stopped.
    pub open spec fn followed_by(self, next: Encoding) -> Encoding {
        if self.failure is Some {
            self
        } else {
            Encoding { bytes: self.bytes + next.bytes, failure: next.failure }
        }
    }

    /// What writing this encoding from `pos` on returns. The buffer runs full
    /// before a later error is reached, so running full comes first.
    pub open spec fn outcome(self, pos: int) -> Result<(), BytePacketBufferError> {
        if self.bytes.len() > room(pos) {
            Err(BytePacketBufferError::EndOfBuffer)
        } else {
            match self.failure {
                Some(error) => Err(error),
                None => Ok(()),
            }
        }
    }

    /// Whether writing this encoding from `pos` on succeeds.
    pub open spec fn fits(self, pos: int) -> bool {
        self.failure is None && self.bytes.len() <= room(pos)
    }

    /// The encodings of a sequence of values, one after the other.
    pub open spec fn row(pieces: Seq<Encoding>) -> Encoding
        decreases pieces.len(),
    {
        if pieces.len() == 0 {
            Encoding::of(Seq::empty())
        } else {
            Self::row(pieces.drop_last()).followed_by(pieces.last())
        }
    }

    /// A row of encodings that fails after its first `count` pieces fails in
    /// the same way as a whole.
    pub proof fn row_fails_early(pieces: Seq<Encoding>, count: int, pos: int)
        requires
            0 <= count <= pieces.len(),
            Self::row(pieces.take(count)).outcome(pos) is Err,
        ensures
            Self::row(pieces).outcome(pos) == Self::row(pieces.take(count)).outcome(pos),
            accepted(pos, Self::row(pieces).bytes.len() as int) == accepted(
                pos,
                Self::row(pieces.take(count)).bytes.len() as int,
            ),
        decreases pieces.len() - count,
    {
        if count < pieces.len() {
            let more = pieces.take(count + 1);
            assert(more.drop_last() =~= pieces.take(count));
            Self::row(pieces.take(count)).outcome_followed_by(more.last(), pos);
            Self::row_fails_early(pieces, count + 1, pos);
        } else {
            assert(pieces.take(count) =~= pieces);
        }
    }

    /// The piece behind the first `count` pieces of a row, which all found
    /// room from `pos` on. Where the piece fails, the row fails in the same
    /// way, and gets as far; where it does not, the row has got one piece
    /// further.
    pub proof fn row_step(pieces: Seq<Encoding>, count: int, pos: int)
        requires
            0 <= count < pieces.len(),
            Self::row(pieces.take(count)).fits(pos),
        ensures
            ({
                let sofar = Self::row(pieces.take(count));
                let piece = pieces[count];
                let behind = pos + sofar.bytes.len();
                &&& piece.outcome(behind) is Err ==> {
                    &&& Self::row(pieces).outcome(pos) == piece.outcome(behind)
                    &&& accepted(pos, Self::row(pieces).bytes.len() as int) == sofar.bytes.len()
                        + accepted(behind, piece.bytes.len() as int)
                }
                &&& piece.outcome(behind) is Ok ==> {
                    &&& Self::row(pieces.take(count + 1)).fits(pos)
                    &&& Self::row(pieces.take(count + 1)).bytes == sofar.bytes + piece.bytes
                }
            }),
    {
        let sofar = Self::row(pieces.take(count));
        let piece = pieces[count];
        Self::row_next(pieces, count);
        sofar.outcome_followed_by(piece, pos);
        if piece.outcome(pos + sofar.bytes.len()) is Err {
            Self::row_fails_early(pieces, count + 1, pos);
        }
    }

    /// One more piece behind the first `count` pieces of a row.
    pub proof fn row_next(pieces: Seq<Encoding>, count: int)
        requires
            0 <= count < pieces.len(),
        ensures
            Self::row(pieces.take(count + 1)) == Self::row(pieces.take(count)).followed_by(
                pieces[count],
            ),
    {
        assert(pieces.take(count + 1).drop_last() =~= pieces.take(count));
    }

    /// An encoding that fails is not helped by what follows it: the two fail
    /// in the same way and get as far.
    pub proof fn stuck(self, next: Encoding, pos: int)
        requires
            self.outcome(pos) is Err,
        ensures
            self.followed_by(next).outcome(pos) == self.outcome(pos),
            accepted(pos, self.followed_by(next).bytes.len() as int) == accepted(
                pos,
                self.bytes.len() as int,
            ),
    {
    }

    /// Behind an encoding that finds room, the next one is written as if it
    /// stood alone.
    pub proof fn goes_on(self, next: Encoding, pos: int)
        requires
            self.fits(pos),
        ensures
            self.followed_by(next).outcome(pos) == next.outcome(pos + self.bytes.len()),
            self.followed_by(next).bytes == self.bytes + next.bytes,
            self.followed_by(next).fits(pos) <==> next.fits(pos + self.bytes.len()),
            accepted(pos, self.followed_by(next).bytes.len() as int) == self.bytes.len()
                + accepted(pos + self.bytes.len(), next.bytes.len() as int),
    {
    }

    /// Two encodings in a row fail where the first one fails, and else where
    /// the second one fails behind the first.
    pub proof fn outcome_followed_by(self, next: Encoding, pos: int)
        ensures
            self.followed_by(next).outcome(pos) == match self.outcome(pos) {
                Err(error) => Err(error),
                Ok(_) => next.outcome(pos + self.bytes.len()),
            },
            self.fits(pos) <==> self.outcome(pos) is Ok,
            self.followed_by(next).fits(pos) <==> self.fits(pos) && next.fits(
                pos + self.bytes.len(),
            ),
    {
    }
}

/// How a reading ended that failed: the error, and where the position was
/// left.
pub struct Stopped {
    pub error: BytePacketBufferError,
    pub at: int,
}

/// What reading a value finds: the value and the position behind it, or
/// how the reading failed.
pub type Parsed<T> = Result<(T, int), Stopped>;

/// A reading that touched the end of the buffer while it read octets in a
/// row from `pos` on: the position is left at the end of the buffer, or
/// where it was if that is beyond the end.
pub open spec fn ran_out(pos: int) -> Stopped {
    Stopped { error: BytePacketBufferError::EndOfBuffer, at: pos + room(pos) }
}

/// Reads `count` values in a row from `pos` on, each with `one`.
pub open spec fn take_row<T>(
    bytes: Seq<u8>,
    pos: int,
    count: nat,
    one: spec_fn(Seq<u8>, int) -> Parsed<T>,
) -> Parsed<Seq<T>>
    decreases count,
{
    if count == 0 {
        Ok((Seq::empty(), pos))
    } else {
        match take_row(bytes, pos, (count - 1) as nat, one) {
            Err(stopped) => Err(stopped),
            Ok((values, at)) => match one(bytes, at) {
                Err(stopped) => Err(stopped),
                Ok((value, end)) => Ok((values.push(value), end)),
            },
        }
    }
}

/// A row of values whose reading fails after `fewer` values fails in the same
/// way when more are asked for.
pub proof fn take_row_fails_early<T>(
    bytes: Seq<u8>,
    pos: int,
    fewer: nat,
    more: nat,
    one: spec_fn(Seq<u8>, int) -> Parsed<T>,
)
    requires
        fewer <= more,
        take_row(bytes, pos, fewer, one) is Err,
    ensures
        take_row(bytes, pos, more, one) is Err,
        take_row(bytes, pos, more, one)->Err_0 == take_row(bytes, pos, fewer, one)->Err_0,
    decreases more - fewer,
{
    if fewer < more {
        take_row_fails_early(bytes, pos, fewer, (more - 1) as nat, one);
    }
}

/// Reads a 16-bit number at `pos`.
pub open spec fn take_u16(bytes: Seq<u8>, pos: int) -> Parsed<u16> {
    if pos + 2 <= CAPACITY {
        Ok((u16_at(bytes, pos), pos + 2))
    } else {
        Err(ran_out(pos))
    }
}

} // verus!
