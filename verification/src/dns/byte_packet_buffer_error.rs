use vstd::prelude::*;
use vstd::string::StringExecFns;
use crate::dns::query_type::QueryType;

verus! {

/// What can go wrong while a message is read from or written to a buffer.
#[derive(Debug, Copy, Clone, PartialEq, Eq)]
pub enum BytePacketBufferError {
    /// A name ran through more compression pointers than the limit, which is
    /// carried here. Most likely the pointers form a cycle.
    ExceededJumpCount(i32),
    /// An access touched the end of the buffer or went beyond it.
    EndOfBuffer,
    /// A record type reached a place that cannot interpret it.
    UnhandledDnsQueryType(QueryType),
    /// A label of a name to be written is longer than 63 octets. Carries the
    /// index of the label within the name and its length.
    QueryLabelNameLengthExceeded(usize, usize),
    /// A name to be written is longer than 255 octets. Carries its length.
    QueryDomainNameLengthExceeded(usize),
}

/// The character of a decimal digit.
pub open spec fn digit(value: nat) -> char {
    if value == 0 {
        '0'
    } else if value == 1 {
        '1'
    } else if value == 2 {
        '2'
    } else if value == 3 {
        '3'
    } else if value == 4 {
        '4'
    } else if value == 5 {
        '5'
    } else if value == 6 {
        '6'
    } else if value == 7 {
        '7'
    } else if value == 8 {
        '8'
    } else {
        '9'
    }
}

/// A number in decimal digits, without leading zeros.
pub open spec fn decimal(value: nat) -> Seq<char>
    decreases value,
{
    if value < 10 {
        seq![digit(value)]
    } else {
        decimal(value / 10).push(digit(value % 10))
    }
}

/// A number in decimal digits, behind a minus sign where it is negative.
pub open spec fn signed_decimal(value: int) -> Seq<char> {
    if value < 0 {
        seq!['-'] + decimal((-value) as nat)
    } else {
        decimal(value as nat)
    }
}

/// The name of a query type, with its number in brackets where it has no
/// name of its own.
pub open spec fn query_type_name(qtype: QueryType) -> Seq<char> {
    match qtype {
        QueryType::UNKNOWN(number) => "UNKNOWN("@ + decimal(number as nat) + ")"@,
        QueryType::A => "A"@,
        QueryType::NS => "NS"@,
        QueryType::MD => "MD"@,
        QueryType::MF => "MF"@,
        QueryType::CNAME => "CNAME"@,
        QueryType::SOA => "SOA"@,
        QueryType::MB => "MB"@,
        QueryType::MG => "MG"@,
        QueryType::MR => "MR"@,
        QueryType::NULL => "NULL"@,
        QueryType::WKS => "WKS"@,
        QueryType::PTR => "PTR"@,
        QueryType::HINFO => "HINFO"@,
        QueryType::MINFO => "MINFO"@,
        QueryType::MX => "MX"@,
        QueryType::TXT => "TXT"@,
        QueryType::AAAA => "AAAA"@,
        QueryType::AXFR => "AXFR"@,
        QueryType::MAILB => "MAILB"@,
        QueryType::MAILA => "MAILA"@,
        QueryType::EVERYTHING => "EVERYTHING"@,
    }
}

/// One decimal digit as text.
fn digit_text(value: u64) -> (text: &'static str)
    requires
        value < 10,
    ensures
        text@ == seq![digit(value as nat)],
{
    proof {
        reveal_strlit("0");
        reveal_strlit("1");
        reveal_strlit("2");
        reveal_strlit("3");
        reveal_strlit("4");
        reveal_strlit("5");
        reveal_strlit("6");
        reveal_strlit("7");
        reveal_strlit("8");
        reveal_strlit("9");
    }
    let text = if value == 0 {
        "0"
    } else if value == 1 {
        "1"
    } else if value == 2 {
        "2"
    } else if value == 3 {
        "3"
    } else if value == 4 {
        "4"
    } else if value == 5 {
        "5"
    } else if value == 6 {
        "6"
    } else if value == 7 {
        "7"
    } else if value == 8 {
        "8"
    } else {
        "9"
    };
    assert(text@ =~= seq![digit(value as nat)]);
    text
}

/// A number in decimal digits.
fn decimal_text(value: u64) -> (text: String)
    ensures
        text@ == decimal(value as nat),
    decreases value,
{
    if value < 10 {
        String::from_str(digit_text(value))
    } else {
        let mut text = decimal_text(value / 10);
        text.append(digit_text(value % 10));
        assert(text@ =~= decimal(value as nat));
        text
    }
}

/// The name of a query type.
fn query_type_text(qtype: QueryType) -> (text: String)
    ensures
        text@ == query_type_name(qtype),
{
    match qtype {
        QueryType::UNKNOWN(number) => {
            let mut text = String::from_str("UNKNOWN(");
            text.append(decimal_text(number as u64).as_str());
            text.append(")");
            text
        },
        QueryType::A => String::from_str("A"),
        QueryType::NS => String::from_str("NS"),
        QueryType::MD => String::from_str("MD"),
        QueryType::MF => String::from_str("MF"),
        QueryType::CNAME => String::from_str("CNAME"),
        QueryType::SOA => String::from_str("SOA"),
        QueryType::MB => String::from_str("MB"),
        QueryType::MG => String::from_str("MG"),
        QueryType::MR => String::from_str("MR"),
        QueryType::NULL => String::from_str("NULL"),
        QueryType::WKS => String::from_str("WKS"),
        QueryType::PTR => String::from_str("PTR"),
        QueryType::HINFO => String::from_str("HINFO"),
        QueryType::MINFO => String::from_str("MINFO"),
        QueryType::MX => String::from_str("MX"),
        QueryType::TXT => String::from_str("TXT"),
        QueryType::AAAA => String::from_str("AAAA"),
        QueryType::AXFR => String::from_str("AXFR"),
        QueryType::MAILB => String::from_str("MAILB"),
        QueryType::MAILA => String::from_str("MAILA"),
        QueryType::EVERYTHING => String::from_str("EVERYTHING"),
    }
}

impl BytePacketBufferError {
    /// What the error says, in words.
    pub open spec fn text(self) -> Seq<char> {
        match self {
            BytePacketBufferError::QueryLabelNameLengthExceeded(index, length) =>
                "label in position "@ + decimal(index as nat) + " exceeded 63 characters ("@
                    + decimal(length as nat) + ")"@,
            BytePacketBufferError::QueryDomainNameLengthExceeded(size) =>
                "domain name exceeded 255 characters ("@ + decimal(size as nat) + ")"@,
            BytePacketBufferError::UnhandledDnsQueryType(qtype) => "unhandled dns query type: "@
                + query_type_name(qtype),
            BytePacketBufferError::ExceededJumpCount(jumps) => "exceeded jump count "@
                + signed_decimal(jumps as int),
            BytePacketBufferError::EndOfBuffer => "end of buffer"@,
        }
    }

    /// What the error says, in words.
    pub fn message(&self) -> (message: String)
        ensures
            message@ == self.text(),
    {
        match *self {
            BytePacketBufferError::QueryLabelNameLengthExceeded(index, length) => {
                let mut message = String::from_str("label in position ");
                message.append(decimal_text(index as u64).as_str());
                message.append(" exceeded 63 characters (");
                message.append(decimal_text(length as u64).as_str());
                message.append(")");
                message
            },
            BytePacketBufferError::QueryDomainNameLengthExceeded(size) => {
                let mut message = String::from_str("domain name exceeded 255 characters (");
                message.append(decimal_text(size as u64).as_str());
                message.append(")");
                message
            },
            BytePacketBufferError::UnhandledDnsQueryType(qtype) => {
                let mut message = String::from_str("unhandled dns query type: ");
                message.append(query_type_text(qtype).as_str());
                message
            },
            BytePacketBufferError::ExceededJumpCount(jumps) => {
                let mut message = String::from_str("exceeded jump count ");
                if jumps < 0 {
                    proof {
                        reveal_strlit("-");
                    }
                    message.append("-");
                    message.append(decimal_text((-(jumps as i64)) as u64).as_str());
                    assert(message@ =~= "exceeded jump count "@ + signed_decimal(jumps as int));
                } else {
                    message.append(decimal_text(jumps as u64).as_str());
                }
                message
            },
            BytePacketBufferError::EndOfBuffer => String::from_str("end of buffer"),
        }
    }
}

} // verus!
