use dns_rebinder::{
    encode, normalize, resolve, resolve_query, respond, AnswerRecord, Ipv4, Query, QueryType,
    Resolution, ServerConfig, Warning,
};

fn config(ns: &[&str], public: Option<Ipv4>) -> ServerConfig {
    ServerConfig::new(
        "rebnd.icu",
        ns.iter().map(|h| String::from(*h)).collect(),
        public,
        Ipv4::new(0, 0, 0, 0),
        2053,
    )
}

fn query(name: &str, query_type: QueryType) -> Query {
    Query { name: String::from(name), query_type }
}

fn a_record(name: &str, address: Ipv4, ttl: u32) -> AnswerRecord {
    AnswerRecord::A { name: String::from(name), address, ttl }
}

#[test]
fn config_normalizes_root_domain() {
    let c = ServerConfig::new("ReBnD.ICU.", Vec::new(), None, Ipv4::new(0, 0, 0, 0), 53);
    assert_eq!(c.root_domain, "rebnd.icu");
    assert_eq!(c.bind_port, 53);
    let c = ServerConfig::new("Rebnd.icu..", Vec::new(), None, Ipv4::new(0, 0, 0, 0), 53);
    assert_eq!(c.root_domain, "rebnd.icu");
}

#[test]
fn normalize_strips_one_dot_and_lowers() {
    assert_eq!(normalize("NS1.Rebnd.ICU."), Some(String::from("ns1.rebnd.icu")));
    assert_eq!(normalize("a.."), Some(String::from("a.")));
    assert_eq!(normalize("rebnd.icu"), None);
    assert_eq!(normalize(""), None);
}

#[test]
fn encoded_name_answers_with_either_address() {
    let c = config(&[], None);
    let primary = Ipv4::new(127, 0, 0, 1);
    let secondary = Ipv4::new(192, 168, 1, 1);
    let name = encode(primary, secondary, "rebnd.icu");
    assert_eq!(name, "7f000001.c0a80101.rebnd.icu");
    let fqdn = format!("{}.", name);
    let q = query(&fqdn, QueryType::A);
    assert_eq!(resolve(&q, &c, false), vec![a_record(&fqdn, primary, 1)]);
    assert_eq!(resolve(&q, &c, true), vec![a_record(&fqdn, secondary, 1)]);
}

#[test]
fn rebinding_alternates_between_two_addresses() {
    let c = config(&[], None);
    let p = Ipv4::new(10, 0, 0, 1);
    let s = Ipv4::new(10, 0, 0, 2);
    let fqdn = format!("{}.", encode(p, s, "rebnd.icu"));
    let q = query(&fqdn, QueryType::A);
    let mut seen_p = 0;
    let mut seen_s = 0;
    for i in 0..64 {
        let answers = resolve(&q, &c, i % 3 == 0);
        assert_eq!(answers.len(), 1);
        match &answers[0] {
            AnswerRecord::A { address, ttl, .. } => {
                assert_eq!(*ttl, 1);
                if *address == p {
                    seen_p += 1;
                } else if *address == s {
                    seen_s += 1;
                } else {
                    panic!("a third address came back");
                }
            }
            other => panic!("unexpected record {:?}", other),
        }
    }
    assert!(seen_p > 0 && seen_s > 0);
}

#[test]
fn loopback_pair_is_answered() {
    let c = config(&[], None);
    let lo = Ipv4::localhost();
    let fqdn = format!("{}.", encode(lo, lo, "rebnd.icu"));
    let q = query(&fqdn, QueryType::A);
    for coin in [false, true] {
        assert_eq!(resolve(&q, &c, coin), vec![a_record(&fqdn, lo, 1)]);
    }
}

#[test]
fn identical_pair_is_refused() {
    let c = config(&[], None);
    let a = Ipv4::new(192, 168, 1, 1);
    let fqdn = format!("{}.", encode(a, a, "rebnd.icu"));
    let q = query(&fqdn, QueryType::A);
    for coin in [false, true] {
        assert_eq!(resolve_query(&q, &c, coin), Resolution::Refused);
        assert!(resolve(&q, &c, coin).is_empty());
    }
}

#[test]
fn foreign_names_are_not_answered() {
    let c = config(&["ns1.rebnd.icu"], Some(Ipv4::new(49, 12, 76, 13)));
    for t in [QueryType::A, QueryType::NS, QueryType::SOA, QueryType::AAAA] {
        let q = query("7f000001.c0a80101.example.com.", t);
        assert_eq!(resolve_query(&q, &c, false), Resolution::NotAuthoritative);
        let q = query("ns1.evilrebnd.icu.", t);
        assert!(resolve(&q, &c, true).is_empty());
    }
}

#[test]
fn ns_names_resolve_to_public_address() {
    let public = Ipv4::new(49, 12, 76, 13);
    let c = config(&["ns1.rebnd.icu", "ns2.rebnd.icu"], Some(public));
    for name in ["ns1.rebnd.icu.", "ns2.rebnd.icu."] {
        let q = query(name, QueryType::A);
        assert_eq!(resolve(&q, &c, false), vec![a_record(name, public, 600)]);
    }
}

#[test]
fn ns_names_without_public_address_are_malformed() {
    let c = config(&["ns1.rebnd.icu"], None);
    let q = query("ns1.rebnd.icu.", QueryType::A);
    assert_eq!(resolve_query(&q, &c, false), Resolution::Malformed);
}

#[test]
fn short_names_are_not_answered() {
    let c = config(&[], None);
    let q = query("rebnd.icu.", QueryType::A);
    assert_eq!(resolve_query(&q, &c, false), Resolution::NoData);
    let q = query("7f000001.rebnd.icu.", QueryType::A);
    assert_eq!(resolve_query(&q, &c, false), Resolution::Malformed);
    let q = query("7f000001.c0a80101.extra.rebnd.icu.", QueryType::A);
    assert_eq!(resolve_query(&q, &c, false), Resolution::Malformed);
    let q = query("zz000001.c0a80101.rebnd.icu.", QueryType::A);
    assert_eq!(resolve_query(&q, &c, false), Resolution::Malformed);
    let q = query("7f000001.c0a80101.rebnd.icu", QueryType::A);
    assert_eq!(resolve_query(&q, &c, false), Resolution::Malformed);
}

#[test]
fn address_labels_must_be_eight_hex_digits() {
    let c = config(&[], None);
    for name in [
        "1.2.rebnd.icu.",
        "7f000001.c0a8011.rebnd.icu.",
        "07f000001.c0a80101.rebnd.icu.",
        "+7f00001.c0a80101.rebnd.icu.",
    ] {
        let q = query(name, QueryType::A);
        assert_eq!(resolve_query(&q, &c, false), Resolution::Malformed);
    }
}

#[test]
fn upper_case_query_is_normalized() {
    let c = config(&[], None);
    let q = query("7F000001.C0A80101.REBND.ICU.", QueryType::A);
    assert_eq!(
        resolve(&q, &c, true),
        vec![a_record("7F000001.C0A80101.REBND.ICU.", Ipv4::new(192, 168, 1, 1), 1)]
    );
}

#[test]
fn ns_query_lists_hosts_in_order() {
    let c = config(&["ns1.rebnd.icu", "ns2.rebnd.icu"], Some(Ipv4::new(49, 12, 76, 13)));
    let q = query("rebnd.icu.", QueryType::NS);
    assert_eq!(
        resolve(&q, &c, false),
        vec![
            AnswerRecord::Ns {
                name: String::from("rebnd.icu."),
                host: String::from("ns1.rebnd.icu"),
                ttl: 600
            },
            AnswerRecord::Ns {
                name: String::from("rebnd.icu."),
                host: String::from("ns2.rebnd.icu"),
                ttl: 600
            },
        ]
    );
}

#[test]
fn ns_query_without_hosts_is_empty() {
    let c = config(&[], None);
    let q = query("rebnd.icu.", QueryType::NS);
    assert_eq!(resolve_query(&q, &c, false), Resolution::NoData);
}

#[test]
fn soa_query_names_first_ns() {
    let c = config(&["ns1.rebnd.icu"], None);
    let q = query("rebnd.icu.", QueryType::SOA);
    assert_eq!(
        resolve(&q, &c, false),
        vec![AnswerRecord::Soa {
            name: String::from("rebnd.icu"),
            primary_ns: String::from("ns1.rebnd.icu"),
            mailbox: String::new(),
            serial: 1,
            refresh: 86400,
            retry: 7200,
            expire: 4000000,
            minimum: 600,
            ttl: 600,
        }]
    );
}

#[test]
fn soa_query_without_ns_is_a_configuration_fault() {
    let c = config(&[], None);
    let q = query("rebnd.icu.", QueryType::SOA);
    assert_eq!(resolve_query(&q, &c, false), Resolution::MissingNsForSoa);
    assert!(resolve(&q, &c, false).is_empty());
}

#[test]
fn other_types_get_empty_answers() {
    let c = config(&["ns1.rebnd.icu"], Some(Ipv4::new(49, 12, 76, 13)));
    for t in [QueryType::AAAA, QueryType::ANY, QueryType::AXFR, QueryType::CNAME, QueryType::Other] {
        let q = query("7f000001.c0a80101.rebnd.icu.", t);
        assert_eq!(resolve_query(&q, &c, false), Resolution::NoData);
    }
}

#[test]
fn respond_answers_single_question() {
    let c = config(&[], None);
    let q = query("7f000001.c0a80101.rebnd.icu.", QueryType::A);
    let r = respond(0x1234, true, vec![q.clone()], &c, false);
    assert_eq!(r.id, 0x1234);
    assert!(r.recursion_desired);
    assert!(!r.recursion_available);
    assert!(r.is_response);
    assert_eq!(r.question, Some(q));
    assert_eq!(
        r.answers,
        vec![a_record("7f000001.c0a80101.rebnd.icu.", Ipv4::localhost(), 1)]
    );
    assert_eq!(r.warning, None);
}

#[test]
fn respond_warns_of_abuse_and_missing_ns() {
    let c = config(&[], None);
    let q = query("c0a80101.c0a80101.rebnd.icu.", QueryType::A);
    let r = respond(1, false, vec![q], &c, false);
    assert!(r.answers.is_empty());
    assert_eq!(r.warning, Some(Warning::Abuse));
    let q = query("rebnd.icu.", QueryType::SOA);
    let r = respond(2, false, vec![q], &c, false);
    assert!(r.answers.is_empty());
    assert_eq!(r.warning, Some(Warning::MissingNsForSoa));
}

#[test]
fn respond_to_wrong_question_count_is_empty() {
    let c = config(&[], None);
    let q = query("7f000001.c0a80101.rebnd.icu.", QueryType::A);
    for questions in [Vec::new(), vec![q.clone(), q.clone()]] {
        let r = respond(7, false, questions, &c, true);
        assert_eq!(r.id, 7);
        assert!(!r.recursion_desired);
        assert!(!r.recursion_available);
        assert!(r.is_response);
        assert_eq!(r.question, None);
        assert!(r.answers.is_empty());
        assert_eq!(r.warning, None);
    }
}
