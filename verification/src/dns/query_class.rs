use vstd::prelude::*;

verus! {

/// The class of a question or of a resource record.
#[derive(Debug, Copy, Clone, PartialEq, Eq, Hash, PartialOrd, Ord)]
pub enum QueryClass {
    /// A class that has no name here, kept by its number.
    UNKNOWN(u16),
    /// 1, the Internet.
    IN,
    /// 2, the CSNET class (obsolete).
    CS,
    /// 3, the CHAOS class.
    CH,
    /// 4, Hesiod.
    HS,
}

impl QueryClass {
    /// The number that stands for a class on the wire.
    pub open spec fn spec_to_num(self) -> u16 {
        match self {
            QueryClass::UNKNOWN(x) => x,
            QueryClass::IN => 1,
            QueryClass::CS => 2,
            QueryClass::CH => 3,
            QueryClass::HS => 4,
        }
    }

    /// The class that a number stands for.
    pub open spec fn spec_from_num(num: u16) -> QueryClass {
        if num == 1 {
            QueryClass::IN
        } else if num == 2 {
            QueryClass::CS
        } else if num == 3 {
            QueryClass::CH
        } else if num == 4 {
            QueryClass::HS
        } else {
            QueryClass::UNKNOWN(num)
        }
    }

    /// A class is canonical when it is the one that its own number reads as:
    /// every named class is, and `UNKNOWN(x)` is when `x` has no name.
    pub open spec fn is_canonical(self) -> bool {
        match self {
            QueryClass::UNKNOWN(x) => x == 0 || x > 4,
            _ => true,
        }
    }

    pub fn to_num(&self) -> (num: u16)
        ensures
            num == self.spec_to_num(),
    {
        match *self {
            QueryClass::UNKNOWN(x) => x,
            QueryClass::IN => 1,
            QueryClass::CS => 2,
            QueryClass::CH => 3,
            QueryClass::HS => 4,
        }
    }

    pub fn from_num(num: u16) -> (class: QueryClass)
        ensures
            class == Self::spec_from_num(num),
    {
        match num {
            1 => QueryClass::IN,
            2 => QueryClass::CS,
            3 => QueryClass::CH,
            4 => QueryClass::HS,
            _ => QueryClass::UNKNOWN(num),
        }
    }

    /// Reading a number and writing the class back gives the number again.
    pub proof fn to_num_inverts_from_num(num: u16)
        ensures
            Self::spec_from_num(num).spec_to_num() == num,
            Self::spec_from_num(num).is_canonical(),
    {
    }

    /// A canonical class survives the trip through its number.
    pub proof fn from_num_inverts_to_num(class: QueryClass)
        requires
            class.is_canonical(),
        ensures
            Self::spec_from_num(class.spec_to_num()) == class,
    {
    }
}

} // verus!
