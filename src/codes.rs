//! Wire codes of a DNS message: each is a closed set of named values with a
//! catch-all variant that carries any other integer, so decoding never fails
//! on a reserved or future code.
use vstd::prelude::*;

verus! {

/// The kind of query in a message, a four-bit field of the header.
#[derive(Debug, Clone, Copy, PartialEq, Eq, Structural)]
pub enum Opcode {
    /// a standard query
    Query,
    /// an inverse query
    IQuery,
    /// a server status request
    Status,
    /// any other value (3-15 are reserved)
    Reserved(u8),
}

impl Opcode {
    pub open spec fn spec_value(self) -> u8 {
        match self {
            Opcode::Query => 0,
            Opcode::IQuery => 1,
            Opcode::Status => 2,
            Opcode::Reserved(n) => n,
        }
    }

    pub open spec fn spec_from_value(n: u8) -> Opcode {
        if n == 0 {
            Opcode::Query
        } else if n == 1 {
            Opcode::IQuery
        } else if n == 2 {
            Opcode::Status
        } else {
            Opcode::Reserved(n)
        }
    }

    /// A catch-all value never carries the integer of a named variant.
    pub open spec fn is_canonical(self) -> bool {
        match self {
            Opcode::Reserved(n) => n > 2,
            _ => true,
        }
    }

    pub fn value(&self) -> (r: u8)
        ensures
            r == self.spec_value(),
    {
        match self {
            Opcode::Query => 0,
            Opcode::IQuery => 1,
            Opcode::Status => 2,
            Opcode::Reserved(n) => *n,
        }
    }

    pub fn from_value(value: u8) -> (r: Opcode)
        ensures
            r == Opcode::spec_from_value(value),
            r.is_canonical(),
    {
        match value {
            0 => Opcode::Query,
            1 => Opcode::IQuery,
            2 => Opcode::Status,
            n => Opcode::Reserved(n),
        }
    }
}

/// Decoding the value of a canonical code gives the code back.
pub proof fn lemma_opcode_from_value_of_value(x: Opcode)
    requires
        x.is_canonical(),
    ensures
        Opcode::spec_from_value(x.spec_value()) == x,
{
}

/// Every integer survives decoding and re-encoding.
pub proof fn lemma_opcode_value_of_from_value(n: u8)
    ensures
        Opcode::spec_from_value(n).spec_value() == n,
{
}

/// The status of a response, a four-bit field of the header.
#[derive(Debug, Clone, Copy, PartialEq, Eq, Structural)]
pub enum RCode {
    /// no error condition
    NoError,
    /// the server could not interpret the query
    FormatError,
    /// the server failed while processing the query
    ServerFailure,
    /// the name in the query does not exist
    NameError,
    /// the server does not support the kind of query
    NotImplemented,
    /// the server refuses the operation for policy reasons
    Refused,
    /// any other value (6-15 are reserved)
    Reserved(u8),
}

impl RCode {
    pub open spec fn spec_value(self) -> u8 {
        match self {
            RCode::NoError => 0,
            RCode::FormatError => 1,
            RCode::ServerFailure => 2,
            RCode::NameError => 3,
            RCode::NotImplemented => 4,
            RCode::Refused => 5,
            RCode::Reserved(n) => n,
        }
    }

    pub open spec fn spec_from_value(n: u8) -> RCode {
        if n == 0 {
            RCode::NoError
        } else if n == 1 {
            RCode::FormatError
        } else if n == 2 {
            RCode::ServerFailure
        } else if n == 3 {
            RCode::NameError
        } else if n == 4 {
            RCode::NotImplemented
        } else if n == 5 {
            RCode::Refused
        } else {
            RCode::Reserved(n)
        }
    }

    /// A catch-all value never carries the integer of a named variant.
    pub open spec fn is_canonical(self) -> bool {
        match self {
            RCode::Reserved(n) => RCode::spec_from_value(n) == RCode::Reserved(n),
            _ => true,
        }
    }

    pub fn value(&self) -> (r: u8)
        ensures
            r == self.spec_value(),
    {
        match self {
            RCode::NoError => 0,
            RCode::FormatError => 1,
            RCode::ServerFailure => 2,
            RCode::NameError => 3,
            RCode::NotImplemented => 4,
            RCode::Refused => 5,
            RCode::Reserved(n) => *n,
        }
    }

    pub fn from_value(value: u8) -> (r: RCode)
        ensures
            r == RCode::spec_from_value(value),
            r.is_canonical(),
    {
        match value {
            0 => RCode::NoError,
            1 => RCode::FormatError,
            2 => RCode::ServerFailure,
            3 => RCode::NameError,
            4 => RCode::NotImplemented,
            5 => RCode::Refused,
            n => RCode::Reserved(n),
        }
    }
}

/// Decoding the value of a canonical code gives the code back.
pub proof fn lemma_rcode_from_value_of_value(x: RCode)
    requires
        x.is_canonical(),
    ensures
        RCode::spec_from_value(x.spec_value()) == x,
{
}

/// Every integer survives decoding and re-encoding.
pub proof fn lemma_rcode_value_of_from_value(n: u8)
    ensures
        RCode::spec_from_value(n).spec_value() == n,
{
}

/// The type of a question or of a resource record.
#[derive(Debug, Clone, Copy, PartialEq, Eq, Structural)]
pub enum QType {
    /// a host address
    A,
    /// an authoritative name server
    NS,
    /// a mail destination (obsolete)
    MD,
    /// a mail forwarder (obsolete)
    MF,
    /// the canonical name for an alias
    CNAME,
    /// marks the start of a zone of authority
    SOA,
    /// a mailbox domain name
    MB,
    /// a mail group member
    MG,
    /// a mail rename domain name
    MR,
    /// a null record
    NULL,
    /// a well known service description
    WKS,
    /// a domain name pointer
    PTR,
    /// host information
    HINFO,
    /// mailbox or mail list information
    MINFO,
    /// mail exchange
    MX,
    /// text strings
    TXT,
    /// a request for a transfer of an entire zone
    AXFR,
    /// a request for mailbox-related records
    MAILB,
    /// a request for mail agent records (obsolete)
    MAILA,
    /// a request for all records
    ANY,
    /// any other value
    Reserved(u16),
}

impl QType {
    pub open spec fn spec_value(self) -> u16 {
        match self {
            QType::A => 1,
            QType::NS => 2,
            QType::MD => 3,
            QType::MF => 4,
            QType::CNAME => 5,
            QType::SOA => 6,
            QType::MB => 7,
            QType::MG => 8,
            QType::MR => 9,
            QType::NULL => 10,
            QType::WKS => 11,
            QType::PTR => 12,
            QType::HINFO => 13,
            QType::MINFO => 14,
            QType::MX => 15,
            QType::TXT => 16,
            QType::AXFR => 252,
            QType::MAILB => 253,
            QType::MAILA => 254,
            QType::ANY => 255,
            QType::Reserved(n) => n,
        }
    }

    pub open spec fn spec_from_value(n: u16) -> QType {
        if n == 1 {
            QType::A
        } else if n == 2 {
            QType::NS
        } else if n == 3 {
            QType::MD
        } else if n == 4 {
            QType::MF
        } else if n == 5 {
            QType::CNAME
        } else if n == 6 {
            QType::SOA
        } else if n == 7 {
            QType::MB
        } else if n == 8 {
            QType::MG
        } else if n == 9 {
            QType::MR
        } else if n == 10 {
            QType::NULL
        } else if n == 11 {
            QType::WKS
        } else if n == 12 {
            QType::PTR
        } else if n == 13 {
            QType::HINFO
        } else if n == 14 {
            QType::MINFO
        } else if n == 15 {
            QType::MX
        } else if n == 16 {
            QType::TXT
        } else if n == 252 {
            QType::AXFR
        } else if n == 253 {
            QType::MAILB
        } else if n == 254 {
            QType::MAILA
        } else if n == 255 {
            QType::ANY
        } else {
            QType::Reserved(n)
        }
    }

    /// A catch-all value never carries the integer of a named variant.
    pub open spec fn is_canonical(self) -> bool {
        match self {
            QType::Reserved(n) => QType::spec_from_value(n) == QType::Reserved(n),
            _ => true,
        }
    }

    pub fn value(&self) -> (r: u16)
        ensures
            r == self.spec_value(),
    {
        match self {
            QType::A => 1,
            QType::NS => 2,
            QType::MD => 3,
            QType::MF => 4,
            QType::CNAME => 5,
            QType::SOA => 6,
            QType::MB => 7,
            QType::MG => 8,
            QType::MR => 9,
            QType::NULL => 10,
            QType::WKS => 11,
            QType::PTR => 12,
            QType::HINFO => 13,
            QType::MINFO => 14,
            QType::MX => 15,
            QType::TXT => 16,
            QType::AXFR => 252,
            QType::MAILB => 253,
            QType::MAILA => 254,
            QType::ANY => 255,
            QType::Reserved(n) => *n,
        }
    }

    pub fn from_value(value: u16) -> (r: QType)
        ensures
            r == QType::spec_from_value(value),
            r.is_canonical(),
    {
        match value {
            1 => QType::A,
            2 => QType::NS,
            3 => QType::MD,
            4 => QType::MF,
            5 => QType::CNAME,
            6 => QType::SOA,
            7 => QType::MB,
            8 => QType::MG,
            9 => QType::MR,
            10 => QType::NULL,
            11 => QType::WKS,
            12 => QType::PTR,
            13 => QType::HINFO,
            14 => QType::MINFO,
            15 => QType::MX,
            16 => QType::TXT,
            252 => QType::AXFR,
            253 => QType::MAILB,
            254 => QType::MAILA,
            255 => QType::ANY,
            n => QType::Reserved(n),
        }
    }
}

/// Decoding the value of a canonical code gives the code back.
pub proof fn lemma_qtype_from_value_of_value(x: QType)
    requires
        x.is_canonical(),
    ensures
        QType::spec_from_value(x.spec_value()) == x,
{
}

/// Every integer survives decoding and re-encoding.
pub proof fn lemma_qtype_value_of_from_value(n: u16)
    ensures
        QType::spec_from_value(n).spec_value() == n,
{
}

/// The class of a question or of a resource record.
#[derive(Debug, Clone, Copy, PartialEq, Eq, Structural)]
pub enum QClass {
    /// the Internet
    IN,
    /// the CSNET class (obsolete)
    CS,
    /// the CHAOS class
    CH,
    /// Hesiod
    HS,
    /// any class
    Any,
    /// any other value
    Reserved(u16),
}

impl QClass {
    pub open spec fn spec_value(self) -> u16 {
        match self {
            QClass::IN => 1,
            QClass::CS => 2,
            QClass::CH => 3,
            QClass::HS => 4,
            QClass::Any => 255,
            QClass::Reserved(n) => n,
        }
    }

    pub open spec fn spec_from_value(n: u16) -> QClass {
        if n == 1 {
            QClass::IN
        } else if n == 2 {
            QClass::CS
        } else if n == 3 {
            QClass::CH
        } else if n == 4 {
            QClass::HS
        } else if n == 255 {
            QClass::Any
        } else {
            QClass::Reserved(n)
        }
    }

    /// A catch-all value never carries the integer of a named variant.
    pub open spec fn is_canonical(self) -> bool {
        match self {
            QClass::Reserved(n) => QClass::spec_from_value(n) == QClass::Reserved(n),
            _ => true,
        }
    }

    pub fn value(&self) -> (r: u16)
        ensures
            r == self.spec_value(),
    {
        match self {
            QClass::IN => 1,
            QClass::CS => 2,
            QClass::CH => 3,
            QClass::HS => 4,
            QClass::Any => 255,
            QClass::Reserved(n) => *n,
        }
    }

    pub fn from_value(value: u16) -> (r: QClass)
        ensures
            r == QClass::spec_from_value(value),
            r.is_canonical(),
    {
        match value {
            1 => QClass::IN,
            2 => QClass::CS,
            3 => QClass::CH,
            4 => QClass::HS,
            255 => QClass::Any,
            n => QClass::Reserved(n),
        }
    }
}

/// Decoding the value of a canonical code gives the code back.
pub proof fn lemma_qclass_from_value_of_value(x: QClass)
    requires
        x.is_canonical(),
    ensures
        QClass::spec_from_value(x.spec_value()) == x,
{
}

/// Every integer survives decoding and re-encoding.
pub proof fn lemma_qclass_value_of_from_value(n: u16)
    ensures
        QClass::spec_from_value(n).spec_value() == n,
{
}

} // verus!
