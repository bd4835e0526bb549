use fips_browser::dns::{
    answer_question, extract_fips_label, handle_dns_packet, resolve_fips_query, ANSWER_TTL,
    CLASS_INTERNET, FLAG_AUTHORITATIVE, RCODE_NAME_ERROR, RCODE_NO_ERROR,
};
use fips_browser::identity::Identity;
use fips_browser::ipv6;
use simple_dns::rdata::RData;
use simple_dns::{Name, Packet, PacketFlag, Question, CLASS, QCLASS, QTYPE, RCODE, TYPE};

#[test]
fn resolves_valid_npub() {
    let identity = Identity::generate();
    let query = format!("{}.fips", identity.npub());
    let resolved = resolve_fips_query(&query).unwrap();
    assert_eq!(resolved.npub, identity.npub());
    assert_eq!(resolved.node_addr_hex, identity.node_addr_hex());
    assert_eq!(
        resolved.ipv6,
        ipv6::format_ipv6(&ipv6::ipv6_from_node_addr(identity.node_addr()))
    );
}

#[test]
fn resolves_trailing_dot() {
    let identity = Identity::generate();
    let query = format!("{}.fips.", identity.npub());
    assert!(resolve_fips_query(&query).is_ok());
}

#[test]
fn resolves_case_insensitive_suffix() {
    let identity = Identity::generate();
    let query = format!("{}.Fips", identity.npub());
    assert!(resolve_fips_query(&query).is_ok());
}

#[test]
fn rejects_missing_suffix() {
    let identity = Identity::generate();
    assert!(resolve_fips_query(&identity.npub()).is_err());
}

#[test]
fn rejects_invalid_npub() {
    assert!(resolve_fips_query("not-a-valid-npub.fips").is_err());
}

#[test]
fn rejects_empty_label() {
    assert!(resolve_fips_query(".fips").is_err());
}

// --- handle_dns_packet tests ---

fn build_test_query(name: &str, rtype: TYPE) -> Vec<u8> {
    let mut packet = Packet::new_query(0x1234);
    let question = Question::new(
        Name::new_unchecked(name).into_owned(),
        QTYPE::TYPE(rtype),
        QCLASS::CLASS(CLASS::IN),
        false,
    );
    packet.questions.push(question);
    packet.build_bytes_vec().unwrap()
}

#[test]
fn dns_packet_aaaa_resolves() {
    let identity = Identity::generate();
    let query_name = format!("{}.fips", identity.npub());
    let query_bytes = build_test_query(&query_name, TYPE::AAAA);

    let response_bytes = handle_dns_packet(&query_bytes).unwrap();
    let response = Packet::parse(&response_bytes).unwrap();
    assert_eq!(response.answers.len(), 1);

    let expected_ipv6_bytes = ipv6::ipv6_from_node_addr(identity.node_addr());
    let expected_ipv6 = u128::from_be_bytes(expected_ipv6_bytes);
    if let RData::AAAA(aaaa) = &response.answers[0].rdata {
        assert_eq!(aaaa.address, expected_ipv6);
    } else {
        panic!("expected AAAA record");
    }
}

#[test]
fn dns_packet_nxdomain_for_unknown() {
    let query_bytes = build_test_query("unknown.fips", TYPE::AAAA);
    let response_bytes = handle_dns_packet(&query_bytes).unwrap();
    let response = Packet::parse(&response_bytes).unwrap();
    assert_eq!(response.rcode(), RCODE::NameError);
    assert!(response.answers.is_empty());
}

#[test]
fn dns_packet_noerror_for_a_query() {
    let identity = Identity::generate();
    let query_name = format!("{}.fips", identity.npub());
    let query_bytes = build_test_query(&query_name, TYPE::A);

    let response_bytes = handle_dns_packet(&query_bytes).unwrap();
    let response = Packet::parse(&response_bytes).unwrap();
    assert_eq!(response.rcode(), RCODE::NoError);
    assert!(response.answers.is_empty());
}

const NPUB: &str = "npub1sjlh2c3x9w7kjsqg2ay080n2lff2uvt325vpan33ke34rn8l5jcqawh57m";

#[test]
fn a_known_name_resolves_to_known_values() {
    let resolved = resolve_fips_query(&format!("{NPUB}.fips.")).unwrap();
    assert_eq!(resolved.name, format!("{NPUB}.fips."));
    assert_eq!(resolved.npub, NPUB);
    assert_eq!(resolved.node_addr_hex, "69e08d65cc3a6b9c2c2ac4bd405e4b0e");
    assert_eq!(resolved.ipv6, "fd69:e08d:65cc:3a6b:9c2c:2ac4:bd40:5e4b");
}

#[test]
fn errors_of_names() {
    assert_eq!(
        resolve_fips_query("example.com").err().unwrap(),
        "name must end with .fips"
    );
    assert_eq!(
        resolve_fips_query(".fips").err().unwrap(),
        "name must end with .fips"
    );
}

#[test]
fn labels() {
    assert_eq!(extract_fips_label("abc.fips"), Some("abc"));
    assert_eq!(extract_fips_label("abc.FIPS."), Some("abc"));
    assert_eq!(extract_fips_label("a.b.fips"), Some("a.b"));
    assert_eq!(extract_fips_label("fips"), None);
    assert_eq!(extract_fips_label("abc"), None);
    assert_eq!(extract_fips_label(""), None);
}

#[test]
fn answers_to_questions() {
    let name = format!("{NPUB}.fips");
    let reply = answer_question(&name, true);
    assert_eq!(reply.flags, FLAG_AUTHORITATIVE);
    assert_eq!(reply.rcode, RCODE_NO_ERROR);
    assert_eq!(reply.answers.len(), 1);
    assert_eq!(reply.answers[0].name, name);
    assert_eq!(reply.answers[0].class, CLASS_INTERNET);
    assert_eq!(reply.answers[0].ttl, ANSWER_TTL);
    assert_eq!(
        reply.answers[0].address,
        [
            0xfd, 0x69, 0xe0, 0x8d, 0x65, 0xcc, 0x3a, 0x6b, 0x9c, 0x2c, 0x2a, 0xc4, 0xbd, 0x40,
            0x5e, 0x4b
        ]
    );
    let other = answer_question(&name, false);
    assert_eq!(other.rcode, RCODE_NO_ERROR);
    assert!(other.answers.is_empty());
    let unknown = answer_question("example.com", true);
    assert_eq!(unknown.rcode, RCODE_NAME_ERROR);
    assert!(unknown.answers.is_empty());
}

#[test]
fn response_keeps_the_identifier_and_is_authoritative() {
    let query = build_test_query(&format!("{NPUB}.fips"), TYPE::AAAA);
    let bytes = handle_dns_packet(&query).unwrap();
    assert_eq!(bytes[..2], [0x12, 0x34]);
    assert!(bytes[2] >= 0x80);
    let response = Packet::parse(&bytes).unwrap();
    assert_eq!(response.id(), 0x1234);
    assert!(response.has_flags(PacketFlag::RESPONSE));
    assert!(response.has_flags(PacketFlag::AUTHORITATIVE_ANSWER));
    assert_eq!(response.questions.len(), 1);
    assert_eq!(response.answers[0].class, CLASS::IN);
    assert_eq!(response.answers[0].ttl, 300);
    assert_eq!(response.answers[0].name.to_string(), format!("{NPUB}.fips"));
}

#[test]
fn garbage_gets_no_response() {
    assert!(handle_dns_packet(&[]).is_none());
    assert!(handle_dns_packet(&[1, 2, 3]).is_none());
    let empty = Packet::new_query(7).build_bytes_vec().unwrap();
    assert!(handle_dns_packet(&empty).is_none());
}
