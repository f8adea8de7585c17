use vstd::prelude::*;

verus! {

/// The type of a question or of a resource record.
#[derive(Debug, Copy, Clone, PartialEq, Eq, Hash, PartialOrd, Ord)]
pub enum QueryType {
    /// A type that has no name here, kept by its number.
    UNKNOWN(u16),
    /// 1, a host address.
    A,
    /// 2, an authoritative name server.
    NS,
    /// 3, a mail destination (obsolete).
    MD,
    /// 4, a mail forwarder (obsolete).
    MF,
    /// 5, the canonical name for an alias.
    CNAME,
    /// 6, marks the start of a zone of authority.
    SOA,
    /// 7, a mailbox domain name.
    MB,
    /// 8, a mail group member.
    MG,
    /// 9, a mail rename domain name.
    MR,
    /// 10, a null record.
    NULL,
    /// 11, a well known service description.
    WKS,
    /// 12, a domain name pointer.
    PTR,
    /// 13, host information.
    HINFO,
    /// 14, mailbox or mail list information.
    MINFO,
    /// 15, mail exchange.
    MX,
    /// 16, text strings.
    TXT,
    /// 28, an IPv6 host address.
    AAAA,
    /// 252, a request for a transfer of an entire zone.
    AXFR,
    /// 253, a request for mailbox-related records.
    MAILB,
    /// 254, a request for mail agent records (obsolete).
    MAILA,
    /// 255, a request for all records.
    EVERYTHING,
}

impl QueryType {
    /// The number that stands for a type on the wire.
    pub open spec fn spec_to_num(self) -> u16 {
        match self {
            QueryType::UNKNOWN(x) => x,
            QueryType::A => 1,
            QueryType::NS => 2,
            QueryType::MD => 3,
            QueryType::MF => 4,
            QueryType::CNAME => 5,
            QueryType::SOA => 6,
            QueryType::MB => 7,
            QueryType::MG => 8,
            QueryType::MR => 9,
            QueryType::NULL => 10,
            QueryType::WKS => 11,
            QueryType::PTR => 12,
            QueryType::HINFO => 13,
            QueryType::MINFO => 14,
            QueryType::MX => 15,
            QueryType::TXT => 16,
            QueryType::AAAA => 28,
            QueryType::AXFR => 252,
            QueryType::MAILB => 253,
            QueryType::MAILA => 254,
            QueryType::EVERYTHING => 255,
        }
    }

    /// Whether a number has a named type.
    pub open spec fn is_named(num: u16) -> bool {
        1 <= num <= 16 || num == 28 || 252 <= num <= 255
    }

    /// The type that a number stands for.
    pub open spec fn spec_from_num(num: u16) -> QueryType {
        if num == 1 {
            QueryType::A
        } else if num == 2 {
            QueryType::NS
        } else if num == 3 {
            QueryType::MD
        } else if num == 4 {
            QueryType::MF
        } else if num == 5 {
            QueryType::CNAME
        } else if num == 6 {
            QueryType::SOA
        } else if num == 7 {
            QueryType::MB
        } else if num == 8 {
            QueryType::MG
        } else if num == 9 {
            QueryType::MR
        } else if num == 10 {
            QueryType::NULL
        } else if num == 11 {
            QueryType::WKS
        } else if num == 12 {
            QueryType::PTR
        } else if num == 13 {
            QueryType::HINFO
        } else if num == 14 {
            QueryType::MINFO
        } else if num == 15 {
            QueryType::MX
        } else if num == 16 {
            QueryType::TXT
        } else if num == 28 {
            QueryType::AAAA
        } else if num == 252 {
            QueryType::AXFR
        } else if num == 253 {
            QueryType::MAILB
        } else if num == 254 {
            QueryType::MAILA
        } else if num == 255 {
            QueryType::EVERYTHING
        } else {
            QueryType::UNKNOWN(num)
        }
    }

    /// A type is canonical when it is the one that its own number reads as:
    /// every named type is, and `UNKNOWN(x)` is when `x` has no name.
    pub open spec fn is_canonical(self) -> bool {
        match self {
            QueryType::UNKNOWN(x) => !Self::is_named(x),
            _ => true,
        }
    }

    pub fn to_num(&self) -> (num: u16)
        ensures
            num == self.spec_to_num(),
    {
        match *self {
            QueryType::UNKNOWN(x) => x,
            QueryType::A => 1,
            QueryType::NS => 2,
            QueryType::MD => 3,
            QueryType::MF => 4,
            QueryType::CNAME => 5,
            QueryType::SOA => 6,
            QueryType::MB => 7,
            QueryType::MG => 8,
            QueryType::MR => 9,
            QueryType::NULL => 10,
            QueryType::WKS => 11,
            QueryType::PTR => 12,
            QueryType::HINFO => 13,
            QueryType::MINFO => 14,
            QueryType::MX => 15,
            QueryType::TXT => 16,
            QueryType::AAAA => 28,
            QueryType::AXFR => 252,
            QueryType::MAILB => 253,
            QueryType::MAILA => 254,
            QueryType::EVERYTHING => 255,
        }
    }

    pub fn from_num(num: u16) -> (qtype: QueryType)
        ensures
            qtype == Self::spec_from_num(num),
    {
        match num {
            1 => QueryType::A,
            2 => QueryType::NS,
            3 => QueryType::MD,
            4 => QueryType::MF,
            5 => QueryType::CNAME,
            6 => QueryType::SOA,
            7 => QueryType::MB,
            8 => QueryType::MG,
            9 => QueryType::MR,
            10 => QueryType::NULL,
            11 => QueryType::WKS,
            12 => QueryType::PTR,
            13 => QueryType::HINFO,
            14 => QueryType::MINFO,
            15 => QueryType::MX,
            16 => QueryType::TXT,
            28 => QueryType::AAAA,
            252 => QueryType::AXFR,
            253 => QueryType::MAILB,
            254 => QueryType::MAILA,
            255 => QueryType::EVERYTHING,
            _ => QueryType::UNKNOWN(num),
        }
    }

    /// Reading a number and writing the type back gives the number again.
    pub proof fn to_num_inverts_from_num(num: u16)
        ensures
            Self::spec_from_num(num).spec_to_num() == num,
            Self::spec_from_num(num).is_canonical(),
    {
    }

    /// A canonical type survives the trip through its number.
    pub proof fn from_num_inverts_to_num(qtype: QueryType)
        requires
            qtype.is_canonical(),
        ensures
            Self::spec_from_num(qtype.spec_to_num()) == qtype,
    {
    }
}

} // verus!
