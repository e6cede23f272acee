use hamsando::record::Type;

#[test]
fn type_names_are_uppercase() {
    assert_eq!(Type::A.as_str(), "A");
    assert_eq!(Type::Mx.as_str(), "MX");
    assert_eq!(Type::Cname.as_str(), "CNAME");
    assert_eq!(Type::Alias.as_str(), "ALIAS");
    assert_eq!(Type::Txt.as_str(), "TXT");
    assert_eq!(Type::Ns.as_str(), "NS");
    assert_eq!(Type::Aaaa.as_str(), "AAAA");
    assert_eq!(Type::Srv.as_str(), "SRV");
    assert_eq!(Type::Tlsa.as_str(), "TLSA");
    assert_eq!(Type::Caa.as_str(), "CAA");
    assert_eq!(Type::Https.as_str(), "HTTPS");
    assert_eq!(Type::Svcb.as_str(), "SVCB");
}
