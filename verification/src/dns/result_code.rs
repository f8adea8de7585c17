use vstd::prelude::*;

verus! {

/// The four-bit response code carried in the second flag octet of a header.
#[derive(Copy, Clone, Debug, PartialEq, Eq, Structural)]
pub enum ResultCode {
    /// No error condition.
    NOERROR,
    /// Format error: the name server was unable to interpret the query.
    FORMERR,
    /// Server failure: the name server was unable to process this query due to
    /// a problem with the name server.
    SERVFAIL,
    /// Name error: meaningful only for responses from an authoritative name
    /// server, this code signifies that the domain name referenced in the
    /// query does not exist.
    NXDOMAIN,
    /// Not implemented: the name server does not support the requested kind
    /// of query.
    NOTIMP,
    /// Refused: the name server refuses to perform the specified operation for
    /// policy reasons.
    REFUSED,
}

impl ResultCode {
    /// The code that a number stands for; every number without a code of its
    /// own reads as `NOERROR`.
    pub open spec fn spec_from_num(num: u8) -> ResultCode {
        if num == 1 {
            ResultCode::FORMERR
        } else if num == 2 {
            ResultCode::SERVFAIL
        } else if num == 3 {
            ResultCode::NXDOMAIN
        } else if num == 4 {
            ResultCode::NOTIMP
        } else if num == 5 {
            ResultCode::REFUSED
        } else {
            ResultCode::NOERROR
        }
    }

    /// The number that stands for a code on the wire.
    pub open spec fn spec_to_num(self) -> u8 {
        match self {
            ResultCode::NOERROR => 0,
            ResultCode::FORMERR => 1,
            ResultCode::SERVFAIL => 2,
            ResultCode::NXDOMAIN => 3,
            ResultCode::NOTIMP => 4,
            ResultCode::REFUSED => 5,
        }
    }

    pub fn from_num(num: u8) -> (code: ResultCode)
        ensures
            code == Self::spec_from_num(num),
    {
        match num {
            1 => ResultCode::FORMERR,
            2 => ResultCode::SERVFAIL,
            3 => ResultCode::NXDOMAIN,
            4 => ResultCode::NOTIMP,
            5 => ResultCode::REFUSED,
            _ => ResultCode::NOERROR,
        }
    }

    pub fn to_num(&self) -> (num: u8)
        ensures
            num == self.spec_to_num(),
            num <= 5,
    {
        match self {
            ResultCode::NOERROR => 0,
            ResultCode::FORMERR => 1,
            ResultCode::SERVFAIL => 2,
            ResultCode::NXDOMAIN => 3,
            ResultCode::NOTIMP => 4,
            ResultCode::REFUSED => 5,
        }
    }

    /// Every code survives the trip through its number.
    pub proof fn from_num_inverts_to_num(code: ResultCode)
        ensures
            Self::spec_from_num(code.spec_to_num()) == code,
    {
    }
}

} // verus!
