//! The mathematical model of domain names on the wire: how a name is cut into
//! labels and written, and how a chain of labels and compression pointers is
//! walked and read.

use vstd::prelude::*;
use vstd::utf8::{decode_utf8, valid_utf8};
use crate::dns::byte_packet_buffer_error::BytePacketBufferError;
use crate::dns::wire::{Encoding, Parsed, Stopped, CAPACITY};

verus! {

/// How many compression pointers one name may run through.
pub const MAX_JUMPS: i32 = 5;

/// The longest label that can be written, in octets.
pub const MAX_LABEL: usize = 63;

/// The longest name that can be written, in octets of its dotted form.
pub const MAX_NAME: usize = 255;

/// The octet that separates the labels of a dotted name.
pub const DOT: u8 = 0x2E;

/// The first length octet that is a compression pointer: its two top bits
/// are set.
pub const POINTER: u8 = 0xC0;

/// Where the label that starts at `from` ends: at the next dot, or at the end
/// of the name.
pub open spec fn label_end(name: Seq<u8>, from: int) -> int
    decreases name.len() - from,
{
    if 0 <= from < name.len() && name[from] != DOT {
        label_end(name, from + 1)
    } else {
        from
    }
}

/// A label ends no earlier than it starts and no later than the name; it
/// holds no dot, and a dot follows it unless the name ends there.
pub proof fn label_end_bounds(name: Seq<u8>, from: int)
    requires
        0 <= from <= name.len(),
    ensures
        from <= label_end(name, from) <= name.len(),
        forall|i: int| from <= i < label_end(name, from) ==> name[i] != DOT,
        label_end(name, from) < name.len() ==> name[label_end(name, from)] == DOT,
    decreases name.len() - from,
{
    if from < name.len() && name[from] != DOT {
        label_end_bounds(name, from + 1);
    }
}

/// The labels of the part of a dotted name that starts at `from`: the pieces
/// between the dots, empty ones included.
pub open spec fn split_from(name: Seq<u8>, from: int) -> Seq<Seq<u8>>
    decreases name.len() - from,
    when 0 <= from <= name.len()
{
    let end = label_end(name, from);
    if end >= name.len() {
        seq![name.subrange(from, name.len() as int)]
    } else {
        proof {
            label_end_bounds(name, from);
        }
        seq![name.subrange(from, end)] + split_from(name, end + 1)
    }
}

/// The labels of a dotted name. A name without a dot is one label, the empty
/// name is one empty label.
pub open spec fn split(name: Seq<u8>) -> Seq<Seq<u8>> {
    split_from(name, 0)
}

/// The wire form of the labels of a name, the first of which is the
/// `index`-th of the name: each label behind its length, then a zero octet.
/// It stops at the first label that is too long.
pub open spec fn labels_wire(labels: Seq<Seq<u8>>, index: int) -> Encoding
    decreases labels.len(),
{
    if labels.len() == 0 {
        Encoding::of(seq![0u8])
    } else if labels[0].len() > MAX_LABEL {
        Encoding::stop(
            BytePacketBufferError::QueryLabelNameLengthExceeded(
                index as usize,
                labels[0].len() as usize,
            ),
        )
    } else {
        Encoding::of(seq![labels[0].len() as u8] + labels[0]).followed_by(
            labels_wire(labels.drop_first(), index + 1),
        )
    }
}

/// The wire form of a dotted name, given as its octets. A name that is too
/// long stops before anything is written.
#[verifier::opaque]
pub open spec fn name_wire(name: Seq<u8>) -> Encoding {
    if name.len() > MAX_NAME {
        Encoding::stop(BytePacketBufferError::QueryDomainNameLengthExceeded(name.len() as usize))
    } else {
        labels_wire(split(name), 0)
    }
}

/// A name that is longer than `MAX_NAME` octets is refused before anything
/// is written, wherever the writing would start.
pub proof fn long_name_is_refused(name: Seq<u8>, pos: int)
    requires
        name.len() > MAX_NAME,
    ensures
        name_wire(name).bytes.len() == 0,
        name_wire(name).outcome(pos) == Err::<(), BytePacketBufferError>(
            BytePacketBufferError::QueryDomainNameLengthExceeded(name.len() as usize),
        ),
{
    reveal(name_wire);
}

/// The first label that is longer than `MAX_LABEL` octets ends the writing
/// of a name, with its place among the labels and its length.
pub proof fn long_label_is_refused(labels: Seq<Seq<u8>>, index: int, at: int)
    requires
        0 <= at < labels.len(),
        labels[at].len() > MAX_LABEL,
        forall|i: int| 0 <= i < at ==> labels[i].len() <= MAX_LABEL,
    ensures
        labels_wire(labels, index).failure == Some(
            BytePacketBufferError::QueryLabelNameLengthExceeded(
                (index + at) as usize,
                labels[at].len() as usize,
            ),
        ),
    decreases at,
{
    if at > 0 {
        let rest = labels.drop_first();
        assert(rest[at - 1] == labels[at]);
        assert forall|i: int| 0 <= i < at - 1 implies rest[i].len() <= MAX_LABEL by {
            assert(rest[i] == labels[i + 1]);
        }
        long_label_is_refused(rest, index + 1, at - 1);
    }
}

/// An octet with an ASCII capital letter turned into its small letter.
pub open spec fn lower(byte: u8) -> u8 {
    if 0x41 <= byte <= 0x5A {
        (byte + 0x20) as u8
    } else {
        byte
    }
}

/// Octets with their ASCII capital letters turned into small letters.
pub open spec fn lowered(bytes: Seq<u8>) -> Seq<u8> {
    Seq::new(bytes.len(), |i: int| lower(bytes[i]))
}

/// The characters that `String::from_utf8_lossy` makes of the given octets.
pub uninterp spec fn utf8_lossy(bytes: Seq<u8>) -> Seq<char>;

/// The characters that octets read as: what they encode where they are valid
/// UTF-8, and what the lossy conversion makes of them where they are not.
pub open spec fn text_of(bytes: Seq<u8>) -> Seq<char> {
    if valid_utf8(bytes) {
        decode_utf8(bytes)
    } else {
        utf8_lossy(bytes)
    }
}

/// Labels joined by dots.
pub open spec fn dotted(labels: Seq<Seq<char>>) -> Seq<char>
    decreases labels.len(),
{
    if labels.len() == 0 {
        Seq::empty()
    } else if labels.len() == 1 {
        labels[0]
    } else {
        dotted(labels.drop_last()) + seq!['.'] + labels.last()
    }
}

/// The text of each label, small letters for ASCII capitals.
pub open spec fn label_texts(labels: Seq<Seq<u8>>) -> Seq<Seq<char>> {
    Seq::new(labels.len(), |i: int| text_of(lowered(labels[i])))
}

/// The name that a sequence of labels read from the wire stands for.
pub open spec fn name_text(labels: Seq<Seq<u8>>) -> Seq<char> {
    dotted(label_texts(labels))
}

/// Whether a length octet is a compression pointer.
pub open spec fn is_pointer(length: u8) -> bool {
    length >= POINTER
}

/// The offset that a compression pointer names: the low six bits of its
/// first octet and its second octet.
pub open spec fn pointer_target(length: u8, low: u8) -> int {
    (length - POINTER) * 256 + low
}

/// What reading a name finds: its labels, or the error that ended the
/// reading; and where the buffer's position is left, if it is moved at all.
pub struct NameWalk {
    pub labels: Result<Seq<Seq<u8>>, BytePacketBufferError>,
    pub cursor: Option<int>,
}

/// `labels` put in front of what a walk found.
pub open spec fn prepend(labels: Seq<Seq<u8>>, found: Result<Seq<Seq<u8>>, BytePacketBufferError>)
    -> Result<Seq<Seq<u8>>, BytePacketBufferError> {
    match found {
        Ok(rest) => Ok(labels + rest),
        Err(error) => Err(error),
    }
}

/// Reads a name from `pos` on, after `jumps` pointers have been followed.
///
/// A zero octet ends the name, and the position is left behind it. A pointer
/// is followed to the offset it names; the position is left behind the first
/// pointer met, whatever comes after it. A pointer whose second octet lies
/// beyond the buffer is not followed and moves nothing. A label is taken as
/// it stands and the walk goes on behind it. The walk fails where it would
/// touch the end of the buffer, and where more pointers were followed than
/// the limit allows.
pub open spec fn walk(bytes: Seq<u8>, pos: int, jumps: int) -> NameWalk
    decreases MAX_JUMPS + 1 - jumps, CAPACITY - pos,
{
    if jumps > MAX_JUMPS {
        NameWalk { labels: Err(BytePacketBufferError::ExceededJumpCount(MAX_JUMPS)), cursor: None }
    } else if pos < 0 || pos >= CAPACITY {
        NameWalk { labels: Err(BytePacketBufferError::EndOfBuffer), cursor: None }
    } else if is_pointer(bytes[pos]) {
        if pos + 1 >= CAPACITY {
            NameWalk { labels: Err(BytePacketBufferError::EndOfBuffer), cursor: None }
        } else {
            NameWalk {
                labels: walk(bytes, pointer_target(bytes[pos], bytes[pos + 1]), jumps + 1).labels,
                cursor: Some(pos + 2),
            }
        }
    } else if bytes[pos] == 0 {
        NameWalk { labels: Ok(Seq::empty()), cursor: Some(pos + 1) }
    } else if pos + 1 + bytes[pos] >= CAPACITY {
        NameWalk { labels: Err(BytePacketBufferError::EndOfBuffer), cursor: None }
    } else {
        let rest = walk(bytes, pos + 1 + bytes[pos], jumps);
        NameWalk {
            labels: prepend(seq![bytes.subrange(pos + 1, pos + 1 + bytes[pos])], rest.labels),
            cursor: rest.cursor,
        }
    }
}

/// Reads a name at `pos`: its dotted form and the position that the reading
/// leaves behind. A reading that fails leaves the position behind the first
/// pointer it met, or where it was.
#[verifier::opaque]
pub open spec fn take_name(bytes: Seq<u8>, pos: int) -> Parsed<Seq<char>> {
    let found = walk(bytes, pos, 0);
    let end = match found.cursor {
        Some(cursor) => cursor,
        None => pos,
    };
    match found.labels {
        Ok(labels) => Ok((name_text(labels), end)),
        Err(error) => Err(Stopped { error, at: end }),
    }
}

/// A walk that starts within the buffer leaves the position within it:
/// behind where it started, and no further than the end.
pub proof fn walk_stays_in_bounds(bytes: Seq<u8>, pos: int, jumps: int)
    requires
        0 <= pos <= CAPACITY,
    ensures
        match walk(bytes, pos, jumps).cursor {
            Some(cursor) => pos < cursor <= CAPACITY,
            None => true,
        },
    decreases MAX_JUMPS + 1 - jumps, CAPACITY - pos,
{
    if jumps <= MAX_JUMPS && pos < CAPACITY && !is_pointer(bytes[pos]) && bytes[pos] != 0 && pos + 1
        + bytes[pos] < CAPACITY {
        walk_stays_in_bounds(bytes, pos + 1 + bytes[pos], jumps);
    }
}

/// Reading a name within the buffer leaves the position within it, whether
/// the reading fails or not.
pub proof fn take_name_stays_in_bounds(bytes: Seq<u8>, pos: int)
    requires
        0 <= pos <= CAPACITY,
    ensures
        match take_name(bytes, pos) {
            Ok((_, end)) => pos <= end <= CAPACITY,
            Err(stopped) => pos <= stopped.at <= CAPACITY,
        },
{
    reveal(take_name);
    walk_stays_in_bounds(bytes, pos, 0);
}

/// Whether `count` pointers stand in a row from `pos` on, each naming the
/// offset of the next and none cut off by the end of the buffer.
pub open spec fn pointer_run(bytes: Seq<u8>, pos: int, count: nat) -> bool
    decreases count,
{
    count == 0 || {
        &&& 0 <= pos
        &&& pos + 1 < CAPACITY
        &&& is_pointer(bytes[pos])
        &&& pointer_run(bytes, pointer_target(bytes[pos], bytes[pos + 1]), (count - 1) as nat)
    }
}

/// A name that runs through more pointers than the limit allows is not read:
/// the reading fails with `ExceededJumpCount`.
pub proof fn long_pointer_run_fails(bytes: Seq<u8>, pos: int, jumps: int, count: nat)
    requires
        0 <= jumps,
        pointer_run(bytes, pos, count),
        jumps + count > MAX_JUMPS,
    ensures
        walk(bytes, pos, jumps).labels == Err::<Seq<Seq<u8>>, BytePacketBufferError>(
            BytePacketBufferError::ExceededJumpCount(MAX_JUMPS),
        ),
    decreases count,
{
    if jumps <= MAX_JUMPS {
        long_pointer_run_fails(
            bytes,
            pointer_target(bytes[pos], bytes[pos + 1]),
            jumps + 1,
            (count - 1) as nat,
        );
    }
}

/// A pointer that names its own offset stands at the start of a run of
/// pointers of any length.
pub proof fn pointer_to_itself_runs_on(bytes: Seq<u8>, pos: int, count: nat)
    requires
        0 <= pos,
        pos + 1 < CAPACITY,
        is_pointer(bytes[pos]),
        pointer_target(bytes[pos], bytes[pos + 1]) == pos,
    ensures
        pointer_run(bytes, pos, count),
    decreases count,
{
    if count > 0 {
        pointer_to_itself_runs_on(bytes, pos, (count - 1) as nat);
    }
}

/// A pointer that names its own offset is not followed for ever: reading a
/// name there fails with `ExceededJumpCount`.
pub proof fn pointer_to_itself_fails(bytes: Seq<u8>, pos: int)
    requires
        0 <= pos,
        pos + 1 < CAPACITY,
        is_pointer(bytes[pos]),
        pointer_target(bytes[pos], bytes[pos + 1]) == pos,
    ensures
        take_name(bytes, pos) == Err::<(Seq<char>, int), Stopped>(
            Stopped { error: BytePacketBufferError::ExceededJumpCount(MAX_JUMPS), at: pos + 2 },
        ),
{
    reveal(take_name);
    pointer_to_itself_runs_on(bytes, pos, (MAX_JUMPS + 1) as nat);
    long_pointer_run_fails(bytes, pos, 0, (MAX_JUMPS + 1) as nat);
}

/// Two pointers to the same offset read as the same name, or fail with the
/// same error; the position is left behind each.
pub proof fn pointers_to_one_name_read_alike(bytes: Seq<u8>, first: int, second: int)
    requires
        0 <= first,
        first + 1 < CAPACITY,
        0 <= second,
        second + 1 < CAPACITY,
        is_pointer(bytes[first]),
        is_pointer(bytes[second]),
        pointer_target(bytes[first], bytes[first + 1]) == pointer_target(
            bytes[second],
            bytes[second + 1],
        ),
    ensures
        walk(bytes, first, 0).labels == walk(bytes, second, 0).labels,
        walk(bytes, first, 0).cursor == Some(first + 2),
        walk(bytes, second, 0).cursor == Some(second + 2),
        match take_name(bytes, first) {
            Ok((name, end)) => take_name(bytes, second) == Ok::<(Seq<char>, int), Stopped>(
                (name, second + 2),
            ) && end == first + 2,
            Err(stopped) => take_name(bytes, second) == Err::<(Seq<char>, int), Stopped>(
                Stopped { error: stopped.error, at: second + 2 },
            ) && stopped.at == first + 2,
        },
{
    reveal(take_name);
}

/// A name that is read after some pointers were followed is read alike
/// after fewer.
pub proof fn walk_with_fewer_jumps(bytes: Seq<u8>, pos: int, fewer: int, more: int)
    requires
        0 <= fewer <= more,
        walk(bytes, pos, more).labels is Ok,
    ensures
        walk(bytes, pos, fewer) == walk(bytes, pos, more),
    decreases MAX_JUMPS + 1 - fewer, CAPACITY - pos,
{
    if more <= MAX_JUMPS && 0 <= pos < CAPACITY {
        if is_pointer(bytes[pos]) {
            if pos + 1 < CAPACITY {
                walk_with_fewer_jumps(
                    bytes,
                    pointer_target(bytes[pos], bytes[pos + 1]),
                    fewer + 1,
                    more + 1,
                );
            }
        } else if bytes[pos] != 0 && pos + 1 + bytes[pos] < CAPACITY {
            walk_with_fewer_jumps(bytes, pos + 1 + bytes[pos], fewer, more);
        }
    }
}

/// A pointer to a name reads as that name, where the name itself is read
/// with one pointer to spare.
pub proof fn pointer_reads_the_name_it_names(bytes: Seq<u8>, pos: int)
    requires
        0 <= pos,
        pos + 1 < CAPACITY,
        is_pointer(bytes[pos]),
        walk(bytes, pointer_target(bytes[pos], bytes[pos + 1]), 1).labels is Ok,
    ensures
        walk(bytes, pos, 0).labels == walk(
            bytes,
            pointer_target(bytes[pos], bytes[pos + 1]),
            0,
        ).labels,
{
    walk_with_fewer_jumps(bytes, pointer_target(bytes[pos], bytes[pos + 1]), 0, 1);
}

/// Joining one more label to some: a dot and the label follow.
pub proof fn dotted_push(labels: Seq<Seq<char>>, label: Seq<char>)
    ensures
        dotted(labels.push(label)) == if labels.len() == 0 {
            label
        } else {
            dotted(labels) + seq!['.'] + label
        },
{
    assert(labels.push(label).drop_last() =~= labels);
}

} // verus!
