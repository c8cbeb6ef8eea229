use rpsl_ingest::addr::{AddressRange, Family};
use rpsl_ingest::class::{classify, classify_key, ObjectClass};
use rpsl_ingest::entry::{Attribute, RawEntry};
use rpsl_ingest::error::{ParseError, ParseReason};
use rpsl_ingest::parse::{parse_all, parse_entry, parse_entry_as};
use rpsl_ingest::record::{
    MntnerRecord, ParseOutcome, ParsedRecord, PersonRecord, RangeRecord, RoleRecord, RouteRecord,
};
use rpsl_ingest::schema::{check_rule, check_schema, schema, AttrRule, ValueKind};

fn entry(offset: u64, pairs: &[(&str, &str)]) -> RawEntry {
    RawEntry {
        offset,
        attributes: pairs
            .iter()
            .map(|(k, v)| Attribute { key: k.as_bytes().to_vec(), value: v.as_bytes().to_vec() })
            .collect(),
    }
}

fn text(s: &str) -> Vec<u8> {
    s.as_bytes().to_vec()
}

fn texts(s: &[&str]) -> Vec<Vec<u8>> {
    s.iter().map(|t| t.as_bytes().to_vec()).collect()
}

fn refused(class: ObjectClass, offset: u64, reason: ParseReason, attribute: &str) -> ParseOutcome {
    ParseOutcome::Error(ParseError { class, offset, reason, attribute: text(attribute) })
}

#[test]
fn class_follows_the_first_key() {
    assert_eq!(classify_key(b"inetnum"), ObjectClass::Inetnum);
    assert_eq!(classify_key(b"inet6num"), ObjectClass::Inet6num);
    assert_eq!(classify_key(b"mntner"), ObjectClass::Mntner);
    assert_eq!(classify_key(b"role"), ObjectClass::Role);
    assert_eq!(classify_key(b"person"), ObjectClass::Person);
    assert_eq!(classify_key(b"route"), ObjectClass::Route);
    assert_eq!(classify_key(b"route6"), ObjectClass::Unknown);
    assert_eq!(classify_key(b"Inetnum"), ObjectClass::Unknown);
    assert_eq!(classify_key(b""), ObjectClass::Unknown);
    assert_eq!(classify(&entry(0, &[("person", "P"), ("inetnum", "x")])), ObjectClass::Person);
    assert_eq!(classify(&entry(0, &[("netname", "N"), ("inetnum", "x")])), ObjectClass::Unknown);
    assert_eq!(classify(&entry(0, &[])), ObjectClass::Unknown);
    assert_eq!(ObjectClass::Inetnum.family(), Some(Family::V4));
    assert_eq!(ObjectClass::Inet6num.family(), Some(Family::V6));
    assert_eq!(ObjectClass::Route.family(), None);
}

#[test]
fn unknown_blocks_become_errors() {
    assert_eq!(
        parse_entry(&entry(7, &[("as-set", "AS-X"), ("descr", "d")])),
        refused(ObjectClass::Unknown, 7, ParseReason::UnknownClass, "")
    );
    assert_eq!(parse_entry(&entry(9, &[])), refused(ObjectClass::Unknown, 9, ParseReason::UnknownClass, ""));
}

#[test]
fn inetnum_block_becomes_a_range_record() {
    let block = entry(
        3,
        &[
            ("inetnum", "10.0.0.0 - 10.0.0.255"),
            ("netname", "TEST-NET"),
            ("descr", "first"),
            ("descr", "second"),
            ("country", "NL"),
            ("admin-c", "AA1-TEST"),
            ("tech-c", "TT1-TEST"),
            ("tech-c", "TT2-TEST"),
            ("status", "ASSIGNED PA"),
            ("mnt-by", "TEST-MNT"),
            ("notify", "someone@example.net"),
            ("created", "2002-08-05T09:42:07Z"),
            ("last-modified", "yesterday"),
            ("source", "TEST"),
        ],
    );
    let expected = RangeRecord {
        range: AddressRange::new(Family::V4, 167772160, 167772415).unwrap(),
        netname: Some(text("TEST-NET")),
        descr: texts(&["first", "second"]),
        country: texts(&["NL"]),
        language: Vec::new(),
        org: None,
        admin_c: texts(&["AA1-TEST"]),
        tech_c: texts(&["TT1-TEST", "TT2-TEST"]),
        status: Some(text("ASSIGNED PA")),
        mnt_by: texts(&["TEST-MNT"]),
        source: Some(text("TEST")),
        remarks: Vec::new(),
        created: Some(1028540527),
        last_modified: None,
    };
    match parse_entry(&block) {
        ParseOutcome::Record(ParsedRecord::Inetnum(r)) => {
            assert_eq!(r.range_from(), 167772160);
            assert_eq!(r.range_to(), 167772415);
            assert_eq!(r, expected);
        }
        other => panic!("{:?}", other),
    }
}

#[test]
fn inet6num_block_becomes_a_range_record() {
    let block = entry(0, &[("inet6num", "2001:db8::/32"), ("netname", "V6"), ("org", "ORG-1")]);
    match parse_entry(&block) {
        ParseOutcome::Record(ParsedRecord::Inet6num(r)) => {
            assert_eq!(r.range.family(), Family::V6);
            assert_eq!(r.range_from(), 42540766411282592856903984951653826560);
            assert_eq!(r.range_to(), 42540766490510755371168322545197776895);
            assert_eq!(r.netname, Some(text("V6")));
            assert_eq!(r.org, Some(text("ORG-1")));
            assert_eq!(r.created, None);
        }
        other => panic!("{:?}", other),
    }
}

#[test]
fn inetnum_without_its_class_key_is_an_error() {
    let block = entry(11, &[("netname", "N"), ("country", "NL"), ("source", "TEST")]);
    assert_eq!(
        parse_entry_as(ObjectClass::Inetnum, &block),
        refused(ObjectClass::Inetnum, 11, ParseReason::MissingAttribute, "inetnum")
    );
    assert_eq!(
        parse_entry_as(ObjectClass::Inet6num, &block),
        refused(ObjectClass::Inet6num, 11, ParseReason::MissingAttribute, "inet6num")
    );
    assert_eq!(
        parse_entry_as(ObjectClass::Inetnum, &entry(12, &[])),
        refused(ObjectClass::Inetnum, 12, ParseReason::MissingAttribute, "inetnum")
    );
}

#[test]
fn repeated_single_valued_attributes_are_errors() {
    assert_eq!(
        parse_entry(&entry(1, &[("inetnum", "10.0.0.0/8"), ("inetnum", "11.0.0.0/8")])),
        refused(ObjectClass::Inetnum, 1, ParseReason::RepeatedAttribute, "inetnum")
    );
    assert_eq!(
        parse_entry(&entry(2, &[("inetnum", "10.0.0.0/8"), ("source", "A"), ("netname", "N"), ("source", "B")])),
        refused(ObjectClass::Inetnum, 2, ParseReason::RepeatedAttribute, "source")
    );
    assert_eq!(
        parse_entry(&entry(
            3,
            &[("inetnum", "10.0.0.0/8"), ("status", "A"), ("status", "B"), ("netname", "N"), ("netname", "M")]
        )),
        refused(ObjectClass::Inetnum, 3, ParseReason::RepeatedAttribute, "netname")
    );
}

#[test]
fn unreadable_ranges_are_errors() {
    assert_eq!(
        parse_entry(&entry(4, &[("inetnum", "10.0.0.0 to 10.0.0.255")])),
        refused(ObjectClass::Inetnum, 4, ParseReason::MalformedRange, "inetnum")
    );
    assert_eq!(
        parse_entry(&entry(5, &[("inetnum", "10.0.0.9 - 10.0.0.1")])),
        refused(ObjectClass::Inetnum, 5, ParseReason::InvertedRange, "inetnum")
    );
    assert_eq!(
        parse_entry(&entry(6, &[("inet6num", "")])),
        refused(ObjectClass::Inet6num, 6, ParseReason::MalformedRange, "inet6num")
    );
    assert_eq!(
        parse_entry(&entry(8, &[("inet6num", "2001:db8::2 - 2001:db8::1")])),
        refused(ObjectClass::Inet6num, 8, ParseReason::InvertedRange, "inet6num")
    );
}

#[test]
fn mntner_block() {
    let pairs = [
        ("mntner", "TEST-MNT"),
        ("descr", "a maintainer"),
        ("auth", "MD5-PW x"),
        ("auth", "PGPKEY-1"),
        ("upd-to", "u@example.net"),
        ("tech-c", "T1"),
        ("mnt-by", "TEST-MNT"),
        ("changed", "u@example.net 20020805"),
        ("source", "TEST"),
    ];
    assert_eq!(
        parse_entry(&entry(0, &pairs)),
        ParseOutcome::Record(ParsedRecord::Mntner(MntnerRecord {
            mntner: text("TEST-MNT"),
            descr: text("a maintainer"),
            auth: texts(&["MD5-PW x", "PGPKEY-1"]),
            upd_to: texts(&["u@example.net"]),
            mnt_nfy: Vec::new(),
            tech_c: texts(&["T1"]),
            admin_c: Vec::new(),
            remarks: Vec::new(),
            notify: Vec::new(),
            mnt_by: texts(&["TEST-MNT"]),
            changed: texts(&["u@example.net 20020805"]),
            source: text("TEST"),
        }))
    );
    let without_auth: Vec<(&str, &str)> = pairs.iter().filter(|p| p.0 != "auth").cloned().collect();
    assert_eq!(
        parse_entry(&entry(0, &without_auth)),
        refused(ObjectClass::Mntner, 0, ParseReason::MissingAttribute, "auth")
    );
    let without_two: Vec<(&str, &str)> =
        pairs.iter().filter(|p| p.0 != "source" && p.0 != "tech-c").cloned().collect();
    assert_eq!(
        parse_entry(&entry(0, &without_two)),
        refused(ObjectClass::Mntner, 0, ParseReason::MissingAttribute, "tech-c")
    );
}

#[test]
fn person_and_role_blocks() {
    let person = [
        ("person", "Some One"),
        ("address", "Street 1"),
        ("address", "Town"),
        ("phone", "+31 20 000 0000"),
        ("e-mail", "one@example.net"),
        ("nic-hdl", "SO1-TEST"),
    ];
    assert_eq!(
        parse_entry(&entry(0, &person)),
        ParseOutcome::Record(ParsedRecord::Person(PersonRecord {
            person: text("Some One"),
            nic_hdl: text("SO1-TEST"),
            address: texts(&["Street 1", "Town"]),
            phone: texts(&["+31 20 000 0000"]),
            fax_no: Vec::new(),
            e_mail: texts(&["one@example.net"]),
        }))
    );
    assert_eq!(
        parse_entry(&entry(5, &person[..5])),
        refused(ObjectClass::Person, 5, ParseReason::MissingAttribute, "nic-hdl")
    );
    let role = [
        ("role", "Operations"),
        ("nic-hdl", "OP1-TEST"),
        ("trouble", "call us"),
        ("address", "Street 1"),
        ("phone", "+31 20 000 0000"),
        ("fax-no", "+31 20 000 0001"),
        ("e-mail", "ops@example.net"),
    ];
    assert_eq!(
        parse_entry(&entry(0, &role)),
        ParseOutcome::Record(ParsedRecord::Role(RoleRecord {
            role: text("Operations"),
            nic_hdl: text("OP1-TEST"),
            trouble: texts(&["call us"]),
            address: texts(&["Street 1"]),
            phone: texts(&["+31 20 000 0000"]),
            fax_no: texts(&["+31 20 000 0001"]),
            e_mail: texts(&["ops@example.net"]),
        }))
    );
    let twice = [("role", "R"), ("nic-hdl", "A"), ("nic-hdl", "B"), ("address", "x"), ("phone", "1"), ("e-mail", "e")];
    assert_eq!(
        parse_entry(&entry(0, &twice)),
        refused(ObjectClass::Role, 0, ParseReason::RepeatedAttribute, "nic-hdl")
    );
}

#[test]
fn route_block() {
    let route = [("route", "193.0.0.0/21"), ("origin", "AS3333"), ("member-of", "RS-X"), ("holes", "193.0.1.0/24")];
    assert_eq!(
        parse_entry(&entry(0, &route)),
        ParseOutcome::Record(ParsedRecord::Route(RouteRecord {
            route: text("193.0.0.0/21"),
            origin: text("AS3333"),
            member_of: texts(&["RS-X"]),
            inject: Vec::new(),
            components: None,
            aggr_bndry: None,
            aggr_mtd: None,
            export_comps: None,
            holes: texts(&["193.0.1.0/24"]),
        }))
    );
    assert_eq!(
        parse_entry(&entry(0, &route[..1])),
        refused(ObjectClass::Route, 0, ParseReason::MissingAttribute, "origin")
    );
}

#[test]
fn record_knows_its_class() {
    let outcome = parse_entry(&entry(0, &[("route", "193.0.0.0/21"), ("origin", "AS3333")]));
    match outcome {
        ParseOutcome::Record(r) => assert_eq!(r.class(), ObjectClass::Route),
        other => panic!("{:?}", other),
    }
}

#[test]
fn schema_tables_start_with_the_class_key() {
    for (class, key, len) in [
        (ObjectClass::Inetnum, "inetnum", 14),
        (ObjectClass::Inet6num, "inet6num", 14),
        (ObjectClass::Mntner, "mntner", 12),
        (ObjectClass::Person, "person", 6),
        (ObjectClass::Role, "role", 7),
        (ObjectClass::Route, "route", 9),
    ] {
        let rules = schema(class);
        assert_eq!(rules.len(), len);
        assert_eq!(rules[0], AttrRule { key, mandatory: true, multiple: false, kind: ValueKind::Text });
    }
    assert_eq!(schema(ObjectClass::Unknown), Vec::new());
    let range = schema(ObjectClass::Inetnum);
    assert_eq!(range[12], AttrRule { key: "created", mandatory: false, multiple: false, kind: ValueKind::Timestamp });
    assert_eq!(range[2], AttrRule { key: "descr", mandatory: false, multiple: true, kind: ValueKind::Text });
}

#[test]
fn first_broken_rule_is_reported() {
    let rules = vec![AttrRule::one("a"), AttrRule::need_many("b"), AttrRule::need_one("c")];
    assert_eq!(check_schema(&entry(0, &[("b", "1"), ("c", "2")]), &rules), None);
    assert_eq!(check_schema(&entry(0, &[("b", "1"), ("b", "2"), ("c", "3"), ("d", "4")]), &rules), None);
    assert_eq!(check_schema(&entry(0, &[]), &rules), Some((1, ParseReason::MissingAttribute)));
    assert_eq!(
        check_schema(&entry(0, &[("a", "1"), ("a", "2")]), &rules),
        Some((0, ParseReason::RepeatedAttribute))
    );
    assert_eq!(
        check_schema(&entry(0, &[("b", "1"), ("c", "1"), ("c", "2")]), &rules),
        Some((2, ParseReason::RepeatedAttribute))
    );
    assert_eq!(check_schema(&entry(0, &[]), &Vec::new()), None);
}

#[test]
fn unreadable_date_is_an_error_only_where_it_is_mandatory() {
    let needed = AttrRule { key: "created", mandatory: true, multiple: false, kind: ValueKind::Timestamp };
    let optional = AttrRule::moment("created");
    let bad = entry(0, &[("created", "long ago")]);
    let good = entry(0, &[("created", "2002-08-05T09:42:07Z")]);
    assert_eq!(check_rule(&bad, &needed), Some(ParseReason::MalformedDate));
    assert_eq!(check_rule(&bad, &optional), None);
    assert_eq!(check_rule(&good, &needed), None);
    assert_eq!(check_rule(&entry(0, &[]), &needed), Some(ParseReason::MissingAttribute));
    assert_eq!(check_rule(&entry(0, &[]), &optional), None);
    assert_eq!(bad.moment("created"), None);
    assert_eq!(good.moment("created"), Some(1028540527));
    match parse_entry(&entry(0, &[("inetnum", "10.0.0.0/8"), ("created", "long ago")])) {
        ParseOutcome::Record(ParsedRecord::Inetnum(r)) => assert_eq!(r.created, None),
        other => panic!("{:?}", other),
    }
}

#[test]
fn every_block_has_one_outcome() {
    let blocks = vec![
        entry(0, &[("inetnum", "10.0.0.0 - 10.0.0.255")]),
        entry(1, &[]),
        entry(2, &[("person", "P")]),
        entry(3, &[("route", "10.0.0.0/8"), ("origin", "AS1")]),
    ];
    let outcomes = parse_all(&blocks);
    assert_eq!(outcomes.len(), blocks.len());
    for (block, outcome) in blocks.iter().zip(outcomes.iter()) {
        assert_eq!(&parse_entry(block), outcome);
    }
    assert!(matches!(outcomes[0], ParseOutcome::Record(ParsedRecord::Inetnum(_))));
    assert!(matches!(outcomes[1], ParseOutcome::Error(_)));
    assert!(matches!(outcomes[2], ParseOutcome::Error(_)));
    assert!(matches!(outcomes[3], ParseOutcome::Record(ParsedRecord::Route(_))));
    assert_eq!(parse_all(&Vec::new()), Vec::new());
}
