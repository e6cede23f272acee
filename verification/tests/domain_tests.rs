use hamsando::domain::{Domain, DomainCreateError, DomainParseError, Root};

#[test]
fn root_parsing() {
    // Valid cases
    assert_eq!(Root::parse("example.com").unwrap().as_str(), "example.com");
    assert_eq!(
        Root::parse("example.co.uk").unwrap().as_str(),
        "example.co.uk"
    );
    assert_eq!(Root::parse("example.org").unwrap().as_str(), "example.org");
    assert_eq!(
        Root::parse("example.com.").unwrap().as_str(),
        "example.com."
    ); // trailing dot
    assert_eq!(
        Root::parse("example.com.").unwrap().not_fqdn().as_str(),
        "example.com"
    ); // remove trailing dot

    // Invalid cases
    assert_eq!(
        Root::parse("www.example.com"),
        Err(DomainCreateError::Parse(DomainParseError::HasPrefix {
            domain: "www.example.com".to_string(),
            prefix: "www".to_string(),
        }))
    );
    assert_eq!(
        Root::parse(".example.com"),
        Err(DomainCreateError::Parse(DomainParseError::EmptyLabel {
            domain: ".example.com".to_string()
        }))
    );
    assert_eq!(
        Root::parse("com"),
        Err(DomainCreateError::Parse(DomainParseError::MissingRoot {
            domain: "com".to_string()
        }))
    );
    assert_eq!(
        Root::parse(""),
        Err(DomainCreateError::Parse(DomainParseError::Empty))
    );

    // Test for overly long domain
    let too_long_domain = "a.".repeat(254) + ".com";
    assert_eq!(
        Root::parse(&too_long_domain),
        Err(DomainCreateError::Parse(DomainParseError::TooLong {
            domain: too_long_domain.to_string()
        }))
    );

    // Test for overly long label
    let too_long_label = "a".repeat(64) + ".com";
    assert_eq!(
        Root::parse(&too_long_label),
        Err(DomainCreateError::Parse(DomainParseError::TooLongLabel {
            domain: too_long_label.to_string(),
            label: "a".repeat(64)
        }))
    );
}

#[test]
fn root_methods() {
    let root = Root::parse("example.com").unwrap();
    assert_eq!(root.as_str(), "example.com");
    assert_eq!(root.suffix(), "com");

    let root_with_complex_suffix = Root::parse("example.co.uk").unwrap();
    assert_eq!(root_with_complex_suffix.as_str(), "example.co.uk");
    assert_eq!(root_with_complex_suffix.suffix(), "co.uk");
}

#[test]
fn domain_parsing() {
    // Valid cases
    let domain = Domain::parse("example.com").unwrap();
    assert_eq!(domain.as_str(), "example.com");
    assert_eq!(domain.prefix(), None);
    assert_eq!(domain.root().as_str(), "example.com");
    assert_eq!(domain.suffix(), "com");

    let domain_with_prefix = Domain::parse("www.example.com").unwrap();
    assert_eq!(domain_with_prefix.as_str(), "www.example.com");
    assert_eq!(domain_with_prefix.prefix(), Some("www"));
    assert_eq!(domain_with_prefix.root().as_str(), "example.com");
    assert_eq!(domain_with_prefix.suffix(), "com");

    let domain_with_complex_suffix = Domain::parse("blog.example.co.uk").unwrap();
    assert_eq!(domain_with_complex_suffix.as_str(), "blog.example.co.uk");
    assert_eq!(domain_with_complex_suffix.prefix(), Some("blog"));
    assert_eq!(domain_with_complex_suffix.root().as_str(), "example.co.uk");
    assert_eq!(domain_with_complex_suffix.suffix(), "co.uk");

    // Multiple level prefixes
    let multi_prefix = Domain::parse("dev.api.example.org").unwrap();
    assert_eq!(multi_prefix.as_str(), "dev.api.example.org");
    assert_eq!(multi_prefix.prefix(), Some("dev.api"));
    assert_eq!(multi_prefix.root().as_str(), "example.org");
    assert_eq!(multi_prefix.suffix(), "org");

    // Invalid cases
    assert_eq!(
        Domain::parse(""),
        Err(DomainCreateError::Parse(DomainParseError::Empty))
    );

    // Test for unknown suffix
    let invalid_domain = "example.invalid";
    assert_eq!(
        Domain::parse(invalid_domain),
        Err(DomainCreateError::Parse(DomainParseError::UnknownSuffix {
            domain: invalid_domain.to_string(),
            suffix: "invalid".to_string()
        }))
    );

    // Test for trailing dot
    let domain_with_trailing_dot = Domain::parse("example.com.").unwrap();
    assert_eq!(domain_with_trailing_dot.as_str(), "example.com.");
}

#[test]
fn error_handling() {
    // Test empty domains
    assert_eq!(
        Domain::parse(""),
        Err(DomainCreateError::Parse(DomainParseError::Empty))
    );

    // Test too long domains
    let too_long = "a".repeat(254) + ".com";
    assert_eq!(
        Domain::parse(&too_long),
        Err(DomainCreateError::Parse(DomainParseError::TooLong {
            domain: too_long.to_string()
        }))
    );

    // Test label errors
    let domain_with_empty_label = "example..com";
    assert_eq!(
        Domain::parse(domain_with_empty_label),
        Err(DomainCreateError::Parse(DomainParseError::EmptyLabel {
            domain: domain_with_empty_label.to_string()
        }))
    );

    let too_long_label = "a".repeat(64) + ".com";
    assert_eq!(
        Domain::parse(&too_long_label),
        Err(DomainCreateError::Parse(DomainParseError::TooLongLabel {
            domain: too_long_label.to_string(),
            label: "a".repeat(64)
        }))
    );

    // Test invalid suffix
    let domain_with_invalid_suffix = "example.notarealsuffix";
    assert_eq!(
        Domain::parse(domain_with_invalid_suffix),
        Err(DomainCreateError::Parse(DomainParseError::UnknownSuffix {
            domain: domain_with_invalid_suffix.to_string(),
            suffix: "notarealsuffix".to_string()
        }))
    );

    // Test TLD with no root
    let tld_only = "com";
    assert_eq!(
        Domain::parse(tld_only),
        Err(DomainCreateError::Parse(DomainParseError::MissingRoot {
            domain: tld_only.to_string()
        }))
    );
}

#[test]
fn not_fqdn_is_idempotent() {
    let domain = Domain::parse("www.example.com.").unwrap();
    let once = domain.not_fqdn();
    let twice = once.not_fqdn();
    assert_eq!(once, twice);
    assert_eq!(once.as_str(), "www.example.com");

    let plain = Domain::parse("example.org").unwrap();
    assert_eq!(plain.not_fqdn().as_str(), plain.as_str());

    let root = Root::parse("example.com.").unwrap();
    assert_eq!(root.not_fqdn(), root.not_fqdn().not_fqdn());
}

#[test]
fn fqdn_flag_follows_trailing_dot() {
    assert!(Domain::parse("example.com.").unwrap().is_fqdn());
    assert!(!Domain::parse("example.com").unwrap().is_fqdn());
    assert!(Root::parse("example.com.").unwrap().is_fqdn());
    assert!(!Root::parse("example.com").unwrap().is_fqdn());
}

#[test]
fn fqdn_accessors_keep_trailing_dot() {
    let fqdn = Domain::parse("www.example.com.").unwrap();
    assert_eq!(fqdn.as_str(), "www.example.com.");
    assert_eq!(fqdn.prefix(), Some("www"));
    assert_eq!(fqdn.root_str(), "example.com.");
    assert_eq!(fqdn.suffix(), "com.");
    let trimmed = fqdn.not_fqdn();
    assert_eq!(trimmed.root_str(), "example.com");
    assert_eq!(trimmed.suffix(), "com");
}

#[test]
fn get_not_fqdn_trims_one_dot() {
    assert_eq!(hamsando::domain::get_not_fqdn("example.com."), "example.com");
    assert_eq!(hamsando::domain::get_not_fqdn("example.com"), "example.com");
    assert_eq!(hamsando::domain::get_not_fqdn(""), "");
    assert_eq!(hamsando::domain::get_not_fqdn("."), "");
}

#[test]
fn root_str_equals_root_as_str() {
    let d = Domain::parse("dev.api.example.org").unwrap();
    assert_eq!(d.root_str(), d.root().as_str());
}
