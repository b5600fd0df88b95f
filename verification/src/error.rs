//! What can go wrong when addresses are queued or a scan is started.

use vstd::prelude::*;

verus! {

/// Why a text is not a number from 0 to 255.
#[derive(Clone, Copy, Debug, PartialEq, Eq, Structural)]
pub enum OctetError {
    /// The text is empty.
    Empty,
    /// A character that is no digit comes before the number gets too large.
    InvalidDigit,
    /// The number gets too large before a character that is no digit comes.
    TooLarge,
}

/// Why a factory refused a request.
#[derive(Debug)]
pub enum FactoryError {
    /// An octet range does not have exactly one `-`.
    RangeFormat { text: String },
    /// An octet range starts above its end.
    RangeOrder { text: String },
    /// An octet is no number from 0 to 255.
    Octet { cause: OctetError },
    /// A range string does not have exactly four octets.
    RangeParts,
    /// A subnet is not in CIDR notation.
    Subnet,
    /// There is nothing to scan.
    NoAddresses,
    /// A firmware driver panicked while a host was identified.
    DiscoveryPanic { message: String },
}

/// A [`FactoryError`] with its texts as sequences of characters.
pub enum ErrorModel {
    RangeFormat { text: Seq<char> },
    RangeOrder { text: Seq<char> },
    Octet { cause: OctetError },
    RangeParts,
    Subnet,
    NoAddresses,
    DiscoveryPanic { message: Seq<char> },
}

impl View for FactoryError {
    type V = ErrorModel;

    open spec fn view(&self) -> ErrorModel {
        match self {
            FactoryError::RangeFormat { text } => ErrorModel::RangeFormat { text: text@ },
            FactoryError::RangeOrder { text } => ErrorModel::RangeOrder { text: text@ },
            FactoryError::Octet { cause } => ErrorModel::Octet { cause: *cause },
            FactoryError::RangeParts => ErrorModel::RangeParts,
            FactoryError::Subnet => ErrorModel::Subnet,
            FactoryError::NoAddresses => ErrorModel::NoAddresses,
            FactoryError::DiscoveryPanic { message } => ErrorModel::DiscoveryPanic {
                message: message@,
            },
        }
    }
}

impl ErrorModel {
    /// The message for people.
    pub open spec fn message(self) -> Seq<char> {
        match self {
            ErrorModel::RangeFormat { text } => "Invalid range format: "@ + text,
            ErrorModel::RangeOrder { text } => "Invalid range: start > end in "@ + text,
            ErrorModel::Octet { cause: OctetError::Empty } =>
                "cannot parse integer from empty string"@,
            ErrorModel::Octet { cause: OctetError::InvalidDigit } =>
                "invalid digit found in string"@,
            ErrorModel::Octet { cause: OctetError::TooLarge } =>
                "number too large to fit in target type"@,
            ErrorModel::RangeParts =>
                "Invalid IP range format. Expected format: 10.1-199.0.1-199"@,
            ErrorModel::Subnet => "invalid IP address syntax"@,
            ErrorModel::NoAddresses =>
                "No IPs to scan. Use with_subnet, with_octets, or with_range to set IPs."@,
            ErrorModel::DiscoveryPanic { message } =>
                "internal panic during miner discovery: "@ + message,
        }
    }
}

impl FactoryError {
    /// The message for people.
    pub fn message(&self) -> (message: String)
        ensures
            message@ == self@.message(),
            match self {
                FactoryError::RangeFormat { text } => message@ == "Invalid range format: "@ + text@,
                FactoryError::RangeOrder { text } => message@ == "Invalid range: start > end in "@
                    + text@,
                FactoryError::Octet { cause: OctetError::Empty } => message@
                    == "cannot parse integer from empty string"@,
                FactoryError::Octet { cause: OctetError::InvalidDigit } => message@
                    == "invalid digit found in string"@,
                FactoryError::Octet { cause: OctetError::TooLarge } => message@
                    == "number too large to fit in target type"@,
                FactoryError::RangeParts => message@
                    == "Invalid IP range format. Expected format: 10.1-199.0.1-199"@,
                FactoryError::Subnet => message@ == "invalid IP address syntax"@,
                FactoryError::NoAddresses => message@
                    == "No IPs to scan. Use with_subnet, with_octets, or with_range to set IPs."@,
                FactoryError::DiscoveryPanic { message: text } => message@
                    == "internal panic during miner discovery: "@ + text@,
            },
    {
        match self {
            FactoryError::RangeFormat { text } => "Invalid range format: ".to_owned().concat(
                text.as_str(),
            ),
            FactoryError::RangeOrder { text } => "Invalid range: start > end in ".to_owned().concat(
                text.as_str(),
            ),
            FactoryError::Octet { cause: OctetError::Empty } =>
                "cannot parse integer from empty string".to_owned(),
            FactoryError::Octet { cause: OctetError::InvalidDigit } =>
                "invalid digit found in string".to_owned(),
            FactoryError::Octet { cause: OctetError::TooLarge } =>
                "number too large to fit in target type".to_owned(),
            FactoryError::RangeParts =>
                "Invalid IP range format. Expected format: 10.1-199.0.1-199".to_owned(),
            FactoryError::Subnet => "invalid IP address syntax".to_owned(),
            FactoryError::NoAddresses =>
                "No IPs to scan. Use with_subnet, with_octets, or with_range to set IPs.".to_owned(),
            FactoryError::DiscoveryPanic { message } =>
                "internal panic during miner discovery: ".to_owned().concat(message.as_str()),
        }
    }
}

/// Errors are told apart by their kind and by the texts that they carry.
pub proof fn law_errors_are_told_apart(a: FactoryError, b: FactoryError)
    ensures
        a@ == b@ <==> match (a, b) {
            (FactoryError::RangeFormat { text: s }, FactoryError::RangeFormat { text: t }) => s@
                == t@,
            (FactoryError::RangeOrder { text: s }, FactoryError::RangeOrder { text: t }) => s@
                == t@,
            (FactoryError::Octet { cause: s }, FactoryError::Octet { cause: t }) => s == t,
            (
                FactoryError::DiscoveryPanic { message: s },
                FactoryError::DiscoveryPanic { message: t },
            ) => s@ == t@,
            (FactoryError::RangeParts, FactoryError::RangeParts) => true,
            (FactoryError::Subnet, FactoryError::Subnet) => true,
            (FactoryError::NoAddresses, FactoryError::NoAddresses) => true,
            _ => false,
        },
        a@ is RangeFormat <==> a is RangeFormat,
        a@ is RangeOrder <==> a is RangeOrder,
        a@ is Octet <==> a is Octet,
        a@ is RangeParts <==> a is RangeParts,
        a@ is Subnet <==> a is Subnet,
        a@ is NoAddresses <==> a is NoAddresses,
        a@ is DiscoveryPanic <==> a is DiscoveryPanic,
        a@ matches ErrorModel::RangeFormat { text } ==> a->RangeFormat_text@ == text,
        a@ matches ErrorModel::RangeOrder { text } ==> a->RangeOrder_text@ == text,
        a@ matches ErrorModel::Octet { cause } ==> a->cause == cause,
        a@ matches ErrorModel::DiscoveryPanic { message } ==> a->message@ == message,
{
}

} // verus!
