use fastmail_cli::carddav::{
    build_contact_href, decode_qp, escape_value, fold_line, parse_vcard, serialize_vcard,
    unescape_value, unfold_vcard, Contact, ContactEmail, ContactPhone,
};

#[test]
fn test_unfold_vcard_lines() {
    let input = "FN:John\n  Doe\nEMAIL:john@example.com";
    let result = unfold_vcard(input);
    assert_eq!(result, "FN:John Doe\nEMAIL:john@example.com");
}

#[test]
fn test_unfold_tab_continuation() {
    let input = "FN:John\n\tDoe";
    let result = unfold_vcard(input);
    assert_eq!(result, "FN:JohnDoe");
}

#[test]
fn test_decode_qp_basic() {
    assert_eq!(decode_qp("hello=20world"), "hello world");
    assert_eq!(decode_qp("caf=C3=A9"), "café");
}

#[test]
fn test_decode_qp_soft_linebreak() {
    assert_eq!(decode_qp("hello=\nworld"), "helloworld");
}

#[test]
fn test_parse_vcard_basic() {
    let vcard = "BEGIN:VCARD\nVERSION:3.0\nUID:abc123\nFN:Alice Smith\nEMAIL:alice@example.com\nEND:VCARD";
    let contact = parse_vcard(vcard, None, None).unwrap();
    assert_eq!(contact.id, "abc123");
    assert_eq!(contact.name, "Alice Smith");
    assert_eq!(contact.emails.len(), 1);
    assert_eq!(contact.emails[0].email, "alice@example.com");
}

#[test]
fn test_parse_vcard_with_line_folding() {
    let vcard = "BEGIN:VCARD\nFN:Very Long Na\n me Here\nEMAIL:test@example.com\nEND:VCARD";
    let contact = parse_vcard(vcard, None, None).unwrap();
    assert_eq!(contact.name, "Very Long Name Here");
}

#[test]
fn test_parse_vcard_with_params() {
    let vcard = "BEGIN:VCARD\nFN:Bob\nEMAIL;TYPE=work:bob@work.com\nTEL;TYPE=cell:+1234567890\nORG:Acme Inc\nTITLE:Engineer\nEND:VCARD";
    let contact = parse_vcard(vcard, None, None).unwrap();
    assert_eq!(contact.emails[0].email, "bob@work.com");
    assert_eq!(contact.emails[0].label, Some("work".to_string()));
    assert_eq!(contact.phones[0].number, "+1234567890");
    assert_eq!(contact.organization, Some("Acme Inc".to_string()));
    assert_eq!(contact.title, Some("Engineer".to_string()));
}

#[test]
fn test_parse_vcard_generates_id_when_missing() {
    let vcard = "BEGIN:VCARD\nFN:No UID\nEND:VCARD";
    let contact = parse_vcard(vcard, None, None).unwrap();
    assert!(!contact.id.is_empty());
}

#[test]
fn test_parse_vcard_returns_none_without_name() {
    let vcard = "BEGIN:VCARD\nUID:abc\nEMAIL:test@example.com\nEND:VCARD";
    assert!(parse_vcard(vcard, None, None).is_none());
}

#[test]
fn test_parse_vcard_with_href_etag() {
    let vcard = "BEGIN:VCARD\nVERSION:3.0\nUID:abc123\nFN:Test Contact\nEND:VCARD";
    let contact = parse_vcard(
        vcard,
        Some("/dav/abc.vcf".to_string()),
        Some("\"etag123\"".to_string()),
    )
    .unwrap();
    assert_eq!(contact.href, Some("/dav/abc.vcf".to_string()));
    assert_eq!(contact.etag, Some("\"etag123\"".to_string()));
}

#[test]
fn test_contact_address_some() {
    let c = Contact {
        id: "id1".to_string(),
        name: "Test".to_string(),
        emails: vec![],
        phones: vec![],
        organization: None,
        title: None,
        notes: None,
        address: Some("123 Main St".to_string()),
        href: None,
        etag: None,
    };
    assert_eq!(c.address, Some("123 Main St".to_string()));
}

#[test]
fn test_contact_address_none() {
    let c = Contact {
        id: "id2".to_string(),
        name: "Test".to_string(),
        emails: vec![],
        phones: vec![],
        organization: None,
        title: None,
        notes: None,
        address: None,
        href: None,
        etag: None,
    };
    assert!(c.address.is_none());
}

#[test]
fn test_parse_vcard_address_adr() {
    let vcard = "BEGIN:VCARD\nVERSION:3.0\nUID:abc\nFN:Alice\nADR:;;123 Main St;;;;;\nEND:VCARD";
    let contact = parse_vcard(vcard, None, None).unwrap();
    assert_eq!(contact.address, Some("123 Main St".to_string()));
}

#[test]
fn test_parse_vcard_address_none_when_no_adr() {
    let vcard = "BEGIN:VCARD\nVERSION:3.0\nUID:abc\nFN:Alice\nEND:VCARD";
    let contact = parse_vcard(vcard, None, None).unwrap();
    assert!(contact.address.is_none());
}

#[test]
fn test_escape_value_backslash() {
    assert_eq!(escape_value("a\\b"), "a\\\\b");
}

#[test]
fn test_escape_value_semicolon() {
    assert_eq!(escape_value("a;b"), "a\\;b");
}

#[test]
fn test_escape_value_comma() {
    assert_eq!(escape_value("a,b"), "a\\,b");
}

#[test]
fn test_escape_value_newline() {
    assert_eq!(escape_value("line1\nline2"), "line1\\nline2");
}

#[test]
fn test_escape_value_combined() {
    assert_eq!(escape_value("a\\;b,c\nd"), "a\\\\\\;b\\,c\\nd");
}

#[test]
fn test_escape_value_no_special() {
    assert_eq!(escape_value("hello world"), "hello world");
}

#[test]
fn test_fold_line_short() {
    assert_eq!(fold_line("FN:Alice"), "FN:Alice\r\n");
}

#[test]
fn test_fold_line_exactly_75() {
    let line = "X".repeat(75);
    let result = fold_line(&line);
    assert!(result.ends_with("\r\n"));
    assert!(!result.contains("\r\n "));
}

#[test]
fn test_fold_line_76_bytes() {
    let line = "X".repeat(76);
    let result = fold_line(&line);
    assert!(result.contains("\r\n "));
    let lines: Vec<&str> = result.split("\r\n").collect();
    assert!(lines.len() >= 2);
    assert_eq!(lines[0].len(), 75);
}

#[test]
fn test_fold_line_long() {
    let line = "X".repeat(200);
    let result = fold_line(&line);
    assert!(result.ends_with("\r\n"));
    let mut unfolded = String::new();
    for (i, physical) in result
        .split("\r\n")
        .filter(|s: &&str| !s.is_empty())
        .enumerate()
    {
        if i == 0 {
            unfolded.push_str(physical);
        } else {
            unfolded.push_str(&physical[1..]);
        }
    }
    assert_eq!(unfolded, line);
}

#[test]
fn test_fold_line_utf8_boundary() {
    let prefix = "A".repeat(74);
    let suffix = "é";
    let line = format!("{}{}", prefix, suffix);
    let result = fold_line(&line);
    assert!(std::str::from_utf8(result.as_bytes()).is_ok());
    assert!(result.ends_with("\r\n"));
}

fn make_basic_contact() -> Contact {
    Contact {
        id: "test-uid-001".to_string(),
        name: "Alice Smith".to_string(),
        emails: vec![ContactEmail {
            email: "alice@example.com".to_string(),
            label: None,
        }],
        phones: vec![],
        organization: None,
        title: None,
        notes: None,
        address: None,
        href: None,
        etag: None,
    }
}

fn named_contact(id: &str, name: &str) -> Contact {
    Contact {
        id: id.to_string(),
        name: name.to_string(),
        emails: vec![],
        phones: vec![],
        organization: None,
        title: None,
        notes: None,
        address: None,
        href: None,
        etag: None,
    }
}

#[test]
fn test_build_contact_href_appends_vcf() {
    assert_eq!(
        build_contact_href("/dav/addressbooks/user/test/Default/", "abc-123"),
        "/dav/addressbooks/user/test/Default/abc-123.vcf"
    );
}

#[test]
fn test_serialize_vcard_basic() {
    let contact = make_basic_contact();
    let output = serialize_vcard(&contact);
    assert!(output.contains("BEGIN:VCARD"));
    assert!(output.contains("VERSION:3.0"));
    assert!(output.contains("FN:Alice Smith"));
    assert!(output.contains("N:Smith;Alice;;;"));
    assert!(output.contains("EMAIL:alice@example.com"));
    assert!(output.contains("END:VCARD"));
}

#[test]
fn test_serialize_vcard_full_contact() {
    let contact = Contact {
        id: "uid-full".to_string(),
        name: "John Q Smith".to_string(),
        emails: vec![
            ContactEmail {
                email: "john@work.com".to_string(),
                label: Some("work".to_string()),
            },
            ContactEmail {
                email: "john@home.com".to_string(),
                label: None,
            },
        ],
        phones: vec![ContactPhone {
            number: "+15551234567".to_string(),
            label: Some("cell".to_string()),
        }],
        organization: Some("Acme Corp".to_string()),
        title: Some("Engineer".to_string()),
        notes: Some("Test notes".to_string()),
        address: Some("456 Oak Ave".to_string()),
        href: None,
        etag: None,
    };
    let output = serialize_vcard(&contact);
    assert!(output.contains("FN:John Q Smith"));
    assert!(output.contains("N:Smith;John;Q;;"));
    assert!(output.contains("EMAIL;TYPE=work:john@work.com"));
    assert!(output.contains("EMAIL:john@home.com"));
    assert!(output.contains("TEL;TYPE=cell:+15551234567"));
    assert!(output.contains("ORG:Acme Corp"));
    assert!(output.contains("TITLE:Engineer"));
    assert!(output.contains("ADR:;;456 Oak Ave;;;;;"));
    assert!(output.contains("NOTE:Test notes"));
}

#[test]
fn test_serialize_vcard_single_name() {
    let output = serialize_vcard(&named_contact("uid-single", "Alice"));
    assert!(output.contains("N:;Alice;;;"));
}

#[test]
fn test_serialize_vcard_three_part_name() {
    let output = serialize_vcard(&named_contact("uid-three", "John Q Smith"));
    assert!(output.contains("N:Smith;John;Q;;"));
}

#[test]
fn test_serialize_vcard_four_part_name() {
    let output = serialize_vcard(&named_contact("uid-four", "John Q R Smith"));
    assert!(output.contains("N:Smith;John;Q R;;"));
}

#[test]
fn test_serialize_vcard_address() {
    let mut contact = named_contact("uid-addr", "Test");
    contact.address = Some("123 Main St".to_string());
    let output = serialize_vcard(&contact);
    assert!(output.contains("ADR:;;123 Main St;;;;;"));
}

#[test]
fn test_serialize_vcard_optional_fields_none() {
    let output = serialize_vcard(&named_contact("uid-min", "Minimal"));
    assert!(!output.contains("ORG:"));
    assert!(!output.contains("TITLE:"));
    assert!(!output.contains("ADR:"));
    assert!(!output.contains("NOTE:"));
}

#[test]
fn test_serialize_vcard_email_with_label() {
    let mut contact = named_contact("uid-email", "Test");
    contact.emails = vec![ContactEmail {
        email: "user@example.com".to_string(),
        label: Some("work".to_string()),
    }];
    let output = serialize_vcard(&contact);
    assert!(output.contains("EMAIL;TYPE=work:user@example.com"));
}

#[test]
fn test_serialize_vcard_email_without_label() {
    let mut contact = named_contact("uid-email-nolabel", "Test");
    contact.emails = vec![ContactEmail {
        email: "user@example.com".to_string(),
        label: None,
    }];
    let output = serialize_vcard(&contact);
    assert!(output.contains("EMAIL:user@example.com"));
}

#[test]
fn test_serialize_vcard_phone_with_label() {
    let mut contact = named_contact("uid-phone", "Test");
    contact.phones = vec![ContactPhone {
        number: "+1234567890".to_string(),
        label: Some("cell".to_string()),
    }];
    let output = serialize_vcard(&contact);
    assert!(output.contains("TEL;TYPE=cell:+1234567890"));
}

#[test]
fn test_serialize_vcard_escaping_in_values() {
    let output = serialize_vcard(&named_contact("uid-escape", "Alice;Bob"));
    assert!(output.contains("FN:Alice\\;Bob"));
}

#[test]
fn test_serialize_vcard_crlf_line_endings() {
    let contact = make_basic_contact();
    let output = serialize_vcard(&contact);
    for line in output.split('\n') {
        let line: &str = line;
        if !line.is_empty() {
            assert!(line.ends_with('\r'), "Line missing CR: {:?}", line);
        }
    }
}

#[test]
fn test_serialize_vcard_uid_present() {
    let contact = make_basic_contact();
    let output = serialize_vcard(&contact);
    assert!(output.contains("UID:test-uid-001"));
}

#[test]
fn test_serialize_vcard_round_trip() {
    let contact = Contact {
        id: "uid-roundtrip".to_string(),
        name: "Bob Builder".to_string(),
        emails: vec![ContactEmail {
            email: "bob@example.com".to_string(),
            label: Some("work".to_string()),
        }],
        phones: vec![ContactPhone {
            number: "+9876543210".to_string(),
            label: Some("cell".to_string()),
        }],
        organization: Some("Build It Ltd".to_string()),
        title: Some("Builder".to_string()),
        notes: Some("Test notes".to_string()),
        address: Some("99 Builder St".to_string()),
        href: None,
        etag: None,
    };
    let serialized = serialize_vcard(&contact);
    let parsed = parse_vcard(&serialized, None, None).unwrap();
    assert_eq!(parsed.name, contact.name);
    assert_eq!(parsed.emails.len(), contact.emails.len());
    assert_eq!(parsed.emails[0].email, contact.emails[0].email);
    assert_eq!(parsed.phones.len(), contact.phones.len());
    assert_eq!(parsed.phones[0].number, contact.phones[0].number);
    assert_eq!(parsed.organization, contact.organization);
    assert_eq!(parsed.title, contact.title);
    assert_eq!(parsed.notes, contact.notes);
    assert_eq!(parsed.address, contact.address);
}

#[test]
fn test_serialize_vcard_round_trip_special_chars() {
    let contact = Contact {
        id: "uid-special".to_string(),
        name: "O'Brien".to_string(),
        emails: vec![ContactEmail {
            email: "obrien@example.com".to_string(),
            label: None,
        }],
        phones: vec![],
        organization: Some("Comma, Inc".to_string()),
        title: None,
        notes: None,
        address: None,
        href: None,
        etag: None,
    };
    let serialized = serialize_vcard(&contact);
    let parsed = parse_vcard(&serialized, None, None).unwrap();
    assert_eq!(parsed.name, contact.name);
    assert_eq!(parsed.organization, contact.organization);
}

// ----- further cases -----

#[test]
fn unescape_value_reverses_escape_value() {
    let original = "a\\b;c,d\ne";
    assert_eq!(unescape_value(&escape_value(original)), original);
}

#[test]
fn unescape_value_keeps_unknown_escapes() {
    assert_eq!(unescape_value("a\\xb"), "a\\xb");
    assert_eq!(unescape_value("a\\Nb"), "a\\Nb");
}

#[test]
fn decode_qp_keeps_invalid_escape() {
    assert_eq!(decode_qp("a=ZZb"), "a=ZZb");
}

#[test]
fn parse_vcard_decodes_quoted_printable_name() {
    let vcard = "BEGIN:VCARD\nFN;ENCODING=QUOTED-PRINTABLE:Caf=C3=A9\nEND:VCARD";
    let contact = parse_vcard(vcard, None, None).unwrap();
    assert_eq!(contact.name, "Café");
}

#[test]
fn parse_vcard_missing_uid_uses_hash_of_name() {
    let vcard = "BEGIN:VCARD\nFN:Same Name\nEND:VCARD";
    let a = parse_vcard(vcard, None, None).unwrap();
    let b = parse_vcard(vcard, None, None).unwrap();
    assert_eq!(a.id, b.id);
    assert!(a.id.chars().all(|c| c.is_ascii_hexdigit()));
}

#[test]
fn serialize_vcard_folds_long_notes() {
    let mut contact = named_contact("uid-long", "Long");
    contact.notes = Some("n".repeat(150));
    let output = serialize_vcard(&contact);
    assert!(output.contains("\r\n "));
    let parsed = parse_vcard(&output, None, None).unwrap();
    assert_eq!(parsed.notes, contact.notes);
}

#[test]
fn vcard_read_back_keeps_every_field() {
    let contact = Contact {
        id: "uid-read-back".to_string(),
        name: "Zoë Ångström-Łukasiewicz de la Fontaine, Jr. ".repeat(3).trim_end().to_string(),
        emails: vec![
            ContactEmail { email: "zoe@example.com".to_string(), label: Some("work".to_string()) },
            ContactEmail { email: "z@example.org".to_string(), label: None },
        ],
        phones: vec![ContactPhone { number: "+44 20 7946 0000".to_string(), label: Some("home".to_string()) }],
        organization: Some("Back\\slash; Semi, Comma".to_string()),
        title: Some(String::new()),
        notes: Some("first line\nsecond line\n".to_string()),
        address: Some("1 Long Road, Flat 2".to_string()),
        href: None,
        etag: None,
    };
    let written = serialize_vcard(&contact);
    assert!(written.contains("\r\n "));
    let read = parse_vcard(&written, Some("/a/b.vcf".to_string()), Some("\"e\"".to_string())).unwrap();
    assert_eq!(read.name, contact.name);
    assert_eq!(read.emails, contact.emails);
    assert_eq!(read.phones, contact.phones);
    assert_eq!(read.organization, contact.organization);
    assert_eq!(read.title, contact.title);
    assert_eq!(read.notes, contact.notes);
    assert_eq!(read.address, contact.address);
    assert_eq!(read.href.as_deref(), Some("/a/b.vcf"));
    assert_eq!(read.etag.as_deref(), Some("\"e\""));
}
