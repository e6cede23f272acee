//! DNS record types.

use vstd::prelude::*;

verus! {

/// The kinds a DNS record can have.
#[derive(Debug, Clone, Copy, PartialEq, Eq)]
pub enum Type {
    A,
    Mx,
    Cname,
    Alias,
    Txt,
    Ns,
    Aaaa,
    Srv,
    Tlsa,
    Caa,
    Https,
    Svcb,
}

impl Type {
    /// The name of the record type on the wire, in upper case.
    pub fn as_str(&self) -> (r: &'static str)
        ensures
            match self {
                Type::A => r@ == "A"@,
                Type::Mx => r@ == "MX"@,
                Type::Cname => r@ == "CNAME"@,
                Type::Alias => r@ == "ALIAS"@,
                Type::Txt => r@ == "TXT"@,
                Type::Ns => r@ == "NS"@,
                Type::Aaaa => r@ == "AAAA"@,
                Type::Srv => r@ == "SRV"@,
                Type::Tlsa => r@ == "TLSA"@,
                Type::Caa => r@ == "CAA"@,
                Type::Https => r@ == "HTTPS"@,
                Type::Svcb => r@ == "SVCB"@,
            },
    {
        match self {
            Type::A => "A",
            Type::Mx => "MX",
            Type::Cname => "CNAME",
            Type::Alias => "ALIAS",
            Type::Txt => "TXT",
            Type::Ns => "NS",
            Type::Aaaa => "AAAA",
            Type::Srv => "SRV",
            Type::Tlsa => "TLSA",
            Type::Caa => "CAA",
            Type::Https => "HTTPS",
            Type::Svcb => "SVCB",
        }
    }
}

} // verus!
