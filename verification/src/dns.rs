//! Local `.fips` name resolution for the browser node.
//!
//! Supports direct `<npub>.fips` names. Resolution is pure computation:
//! npub, x-only public key, node address, FIPS IPv6 address.
//!
//! [`handle_dns_packet`] answers raw DNS wire queries, such as those that a guest in the browser
//! sends to UDP port 53.

use crate::crypto;
use crate::identity;
use crate::ipv6;
use crate::text;
use simple_dns::rdata::{RData, AAAA};
use simple_dns::{Name, Packet, PacketFlag, ResourceRecord, CLASS, QTYPE, RCODE, TYPE};
use vstd::prelude::*;

verus! {

/// Time to live of our answers: 5 minutes.
pub const ANSWER_TTL: u32 = 300;

/// DNS record class: the Internet.
pub const CLASS_INTERNET: u16 = 1;

/// DNS header flag: authoritative answer.
pub const FLAG_AUTHORITATIVE: u16 = 0x0400;

/// DNS response code: no error.
pub const RCODE_NO_ERROR: u16 = 0;

/// DNS response code: no such name.
pub const RCODE_NAME_ERROR: u16 = 3;

/// Resolved `.fips` name information.
pub struct ResolvedFipsName {
    pub name: String,
    pub npub: String,
    pub node_addr_hex: String,
    pub ipv6: String,
}

/// What a `.fips` name resolves to.
#[verifier::ext_equal]
pub struct ResolvedModel {
    pub name: Seq<char>,
    pub npub: Seq<char>,
    pub node_addr_hex: Seq<char>,
    pub ipv6: Seq<char>,
}

impl View for ResolvedFipsName {
    type V = ResolvedModel;

    open spec fn view(&self) -> ResolvedModel {
        ResolvedModel {
            name: self.name@,
            npub: self.npub@,
            node_addr_hex: self.node_addr_hex@,
            ipv6: self.ipv6@,
        }
    }
}

/// A name without its trailing dot, if it has one.
pub open spec fn without_dot(name: Seq<char>) -> Seq<char> {
    if name.len() > 0 && name.last() == '.' {
        name.drop_last()
    } else {
        name
    }
}

/// The label before `.fips`, in any case and with or without a trailing dot.
pub open spec fn fips_label(name: Seq<char>) -> Option<Seq<char>> {
    let trimmed = without_dot(name);
    let n = trimmed.len() - 5;
    if n > 0 && text::ascii_lower_text(trimmed.skip(n)) == ".fips"@ {
        Some(trimmed.take(n))
    } else {
        None
    }
}

/// Extract the label before `.fips`, handling trailing dot and case-insensitive suffixes.
pub fn extract_fips_label(name: &str) -> (r: Option<&str>)
    ensures
        match r {
            Some(label) => fips_label(name@) == Some(label@),
            None => fips_label(name@) is None,
        },
{
    let mut n: usize = name.unicode_len();
    if n > 0 && name.get_char(n - 1) == '.' {
        n = n - 1;
    }
    assert(without_dot(name@) =~= name@.take(n as int));
    if n <= 5 {
        return None;
    }
    let suffix = name.substring_char(n - 5, n);
    proof {
        reveal_strlit(".fips");
        assert(text::ascii_lower_text(".fips"@) =~= ".fips"@);
        assert(suffix@ =~= without_dot(name@).skip(n - 5));
    }
    if !text::same_ignoring_case(suffix, ".fips") {
        return None;
    }
    let label = name.substring_char(0, n - 5);
    assert(label@ =~= without_dot(name@).take(n - 5));
    Some(label)
}

/// What a direct `<npub>.fips` name resolves to, or why it does not.
pub open spec fn resolved(name: Seq<char>) -> Result<ResolvedModel, Seq<char>> {
    match fips_label(name) {
        None => Err("name must end with .fips"@),
        Some(npub) => match identity::decoded_npub(npub) {
            Err(e) => Err(e),
            Ok(x) => Ok(
                ResolvedModel {
                    name,
                    npub,
                    node_addr_hex: text::hex_text(identity::node_addr_of(x)),
                    ipv6: ipv6::ipv6_text(ipv6::ipv6_of(identity::node_addr_of(x))),
                },
            ),
        },
    }
}

/// Resolve a direct `<npub>.fips` name to structured info.
pub fn resolve_fips_query(name: &str) -> (r: Result<ResolvedFipsName, String>)
    ensures
        match r {
            Ok(v) => resolved(name@) == Ok::<ResolvedModel, Seq<char>>(v@),
            Err(e) => resolved(name@) == Err::<ResolvedModel, Seq<char>>(e@),
        },
{
    let npub = match extract_fips_label(name) {
        Some(label) => label,
        None => return Err("name must end with .fips".to_string()),
    };
    let x_only = match identity::decode_npub(npub) {
        Ok(x) => x,
        Err(e) => return Err(e),
    };
    let node_addr = identity::node_addr_from_x_only(&x_only);
    let ipv6_bytes = ipv6::ipv6_from_node_addr(&node_addr);
    Ok(
        ResolvedFipsName {
            name: name.to_string(),
            npub: npub.to_string(),
            node_addr_hex: crypto::hex_encode(&node_addr),
            ipv6: ipv6::format_ipv6(&ipv6_bytes),
        },
    )
}

/// The IPv6 address of a `.fips` name, if its label is an npub.
pub open spec fn address_of_name(name: Seq<char>) -> Option<Seq<u8>> {
    match fips_label(name) {
        None => None,
        Some(label) => match identity::decoded_npub(label) {
            Err(_) => None,
            Ok(x) => Some(ipv6::ipv6_of(identity::node_addr_of(x))),
        },
    }
}

/// Resolve a `.fips` label to an IPv6 address.
fn resolve_label_to_ipv6(label: &str) -> (r: Option<[u8; 16]>)
    ensures
        match r {
            Some(a) => identity::decoded_npub(label@) is Ok && a@ == ipv6::ipv6_of(
                identity::node_addr_of(identity::decoded_npub(label@)->Ok_0),
            ),
            None => identity::decoded_npub(label@) is Err,
        },
{
    match identity::decode_npub(label) {
        Ok(x_only) => {
            let node_addr = identity::node_addr_from_x_only(&x_only);
            Some(ipv6::ipv6_from_node_addr(&node_addr))
        },
        Err(_) => None,
    }
}

// ============================================================================
// DNS packets
// ============================================================================

/// An AAAA record of an answer.
pub struct AddressRecord {
    pub name: String,
    pub class: u16,
    pub ttl: u32,
    pub address: [u8; 16],
}

/// An AAAA record as values: name, class, time to live, address.
pub open spec fn record_value(r: AddressRecord) -> (Seq<char>, nat, nat, Seq<u8>) {
    (r.name@, r.class as nat, r.ttl as nat, r.address@)
}

/// AAAA records as values.
pub open spec fn record_values(list: Seq<AddressRecord>) -> Seq<(Seq<char>, nat, nat, Seq<u8>)> {
    list.map_values(|r: AddressRecord| record_value(r))
}

/// What a reply says beyond what it repeats of the query: flags, response code and answers.
pub struct DnsReply {
    pub flags: u16,
    pub rcode: u16,
    pub answers: Vec<AddressRecord>,
}

/// The first question of a DNS query: its name as text, and whether it asks for AAAA records.
/// Nothing, if the query does not parse or asks nothing.
pub uninterp spec fn dns_question(query: Seq<u8>) -> Option<(Seq<char>, bool)>;

/// The reply to a query, in wire format, with given flags, response code and AAAA records.
/// Nothing, if the query does not parse, a record has a class that is none, or the reply cannot
/// be written.
pub uninterp spec fn dns_reply_bytes(
    query: Seq<u8>,
    flags: nat,
    rcode: nat,
    answers: Seq<(Seq<char>, nat, nat, Seq<u8>)>,
) -> Option<Seq<u8>>;

/// `simple_dns::Packet::parse` and the first of its questions.
#[verifier::external_body]
fn first_question(query: &[u8]) -> (r: Option<(String, bool)>)
    ensures
        r matches Some(q) ==> dns_question(query@) matches Some(v) && v.0 == q.0@ && v.1 == q.1,
        (r is None) == (dns_question(query@) is None),
{
    let packet = Packet::parse(query).ok()?;
    let question = packet.questions.first()?;
    Some((question.qname.to_string(), matches!(question.qtype, QTYPE::TYPE(TYPE::AAAA))))
}

/// `simple_dns::Packet::into_reply` and `build_bytes_vec_compressed` on a parsed query, after
/// setting flags, response code and answers. A reply keeps the identifier of its query, is
/// marked as a response, and shows the response code in the low half of its fourth byte.
#[verifier::external_body]
fn encode_reply(query: &[u8], reply: &DnsReply) -> (r: Option<Vec<u8>>)
    requires
        reply.rcode <= 10,
    ensures
        r matches Some(b) ==> dns_reply_bytes(
            query@,
            reply.flags as nat,
            reply.rcode as nat,
            record_values(reply.answers@),
        ) == Some(b@),
        (r is None) == (dns_reply_bytes(
            query@,
            reply.flags as nat,
            reply.rcode as nat,
            record_values(reply.answers@),
        ) is None),
        r matches Some(b) ==> b@.len() >= 12 && b@.take(2) == query@.take(2),
        r matches Some(b) ==> b@[2] >= 128 && b@[3] % 16 == reply.rcode,
{
    let mut packet = Packet::parse(query).ok()?.into_reply();
    packet.set_flags(PacketFlag::from_bits_truncate(reply.flags));
    *packet.rcode_mut() = RCODE::from(reply.rcode);
    for a in &reply.answers {
        let data = RData::AAAA(AAAA { address: u128::from_be_bytes(a.address) });
        let name = Name::new_unchecked(&a.name).into_owned();
        let class = CLASS::try_from(a.class).ok()?;
        packet.answers.push(ResourceRecord::new(name, class, a.ttl, data));
    }
    packet.build_bytes_vec_compressed().ok()
}

/// What is answered to a question: an AAAA question for a `.fips` name gets the computed
/// address, another question for such a name gets an empty answer, and any other name does not
/// exist. All answers are authoritative.
pub fn answer_question(qname: &str, is_aaaa: bool) -> (r: DnsReply)
    ensures
        r.flags == FLAG_AUTHORITATIVE,
        r.rcode == (if address_of_name(qname@) is Some {
            RCODE_NO_ERROR
        } else {
            RCODE_NAME_ERROR
        }),
        record_values(r.answers@) == answers_for(qname@, is_aaaa),
{
    let address = match extract_fips_label(qname) {
        Some(label) => resolve_label_to_ipv6(label),
        None => None,
    };
    let mut answers: Vec<AddressRecord> = Vec::new();
    assert(record_values(answers@) =~= Seq::empty());
    match address {
        Some(address) => {
            if is_aaaa {
                answers.push(
                    AddressRecord {
                        name: qname.to_string(),
                        class: CLASS_INTERNET,
                        ttl: ANSWER_TTL,
                        address,
                    },
                );
                assert(record_values(answers@) =~= answers_for(qname@, is_aaaa));
            }
            DnsReply { flags: FLAG_AUTHORITATIVE, rcode: RCODE_NO_ERROR, answers }
        },
        None => DnsReply { flags: FLAG_AUTHORITATIVE, rcode: RCODE_NAME_ERROR, answers },
    }
}

/// The answer records to a question: one with the address of the name, if there is one and it is
/// asked for.
pub open spec fn answers_for(qname: Seq<char>, is_aaaa: bool) -> Seq<
    (Seq<char>, nat, nat, Seq<u8>),
> {
    match address_of_name(qname) {
        Some(address) => if is_aaaa {
            seq![(qname, CLASS_INTERNET as nat, ANSWER_TTL as nat, address)]
        } else {
            Seq::empty()
        },
        None => Seq::empty(),
    }
}

/// The response to a raw DNS query, if it can be read and answered.
pub open spec fn dns_response(query: Seq<u8>) -> Option<Seq<u8>> {
    match dns_question(query) {
        None => None,
        Some((qname, is_aaaa)) => {
            let rcode = if address_of_name(qname) is Some {
                RCODE_NO_ERROR
            } else {
                RCODE_NAME_ERROR
            };
            dns_reply_bytes(
                query,
                FLAG_AUTHORITATIVE as nat,
                rcode as nat,
                answers_for(qname, is_aaaa),
            )
        },
    }
}

/// Handle a raw DNS query packet and produce a raw DNS response.
///
/// Returns `Some(response_bytes)` on success, `None` if the query is unparseable. For `.fips`
/// AAAA queries the response contains the computed IPv6 address. Non-AAAA queries for valid
/// `.fips` names get NOERROR with empty answers; unknown names get NXDOMAIN.
pub fn handle_dns_packet(query_bytes: &[u8]) -> (r: Option<Vec<u8>>)
    ensures
        match r {
            Some(response) => dns_response(query_bytes@) == Some(response@),
            None => dns_response(query_bytes@) is None,
        },
        r matches Some(response) ==> response@.len() >= 12 && response@.take(2)
            == query_bytes@.take(2) && response@[2] >= 128,
        r matches Some(response) ==> dns_question(query_bytes@) is Some && response@[3] % 16 == (
        if address_of_name((dns_question(query_bytes@)->0).0) is Some {
            RCODE_NO_ERROR
        } else {
            RCODE_NAME_ERROR
        }),
{
    let (qname, is_aaaa) = match first_question(query_bytes) {
        Some(q) => q,
        None => return None,
    };
    let reply = answer_question(qname.as_str(), is_aaaa);
    encode_reply(query_bytes, &reply)
}

/// The name of every identity resolves to its own node address.
pub proof fn law_identity_resolves(secret: Seq<u8>, npub: Seq<char>)
    requires
        identity::decoded_npub(npub) == Ok::<Seq<u8>, Seq<char>>(identity::identity_x_only(secret)),
        npub.len() > 0,
    ensures
        fips_label(npub + ".fips"@) == Some(npub),
        fips_label(npub + ".fips."@) == Some(npub),
        fips_label(npub + ".Fips"@) == Some(npub),
        address_of_name(npub + ".fips"@) == Some(
            ipv6::ipv6_of(identity::identity_addr(secret)),
        ),
        resolved(npub + ".fips"@) is Ok,
        resolved(npub + ".fips"@)->Ok_0.npub == npub,
        resolved(npub + ".fips"@)->Ok_0.node_addr_hex == text::hex_text(
            identity::identity_addr(secret),
        ),
        resolved(npub + ".fips"@)->Ok_0.ipv6 == ipv6::ipv6_text(
            ipv6::ipv6_of(identity::identity_addr(secret)),
        ),
{
    reveal_strlit(".fips");
    reveal_strlit(".fips.");
    reveal_strlit(".Fips");
    let a = npub + ".fips"@;
    let b = npub + ".fips."@;
    let c = npub + ".Fips"@;
    let n = npub.len() as int;
    assert(a.take(n) =~= npub);
    assert(text::ascii_lower_text(a.skip(n)) =~= ".fips"@);
    assert(without_dot(b) =~= a);
    assert(c.take(n) =~= npub);
    assert(text::ascii_lower_text(c.skip(n)) =~= ".fips"@);
}

/// The trailing dot and the case of the suffix do not matter.
pub proof fn law_label_ignores_dot(name: Seq<char>)
    requires
        name.len() > 0,
        name.last() != '.',
    ensures
        fips_label(name.push('.')) == fips_label(name),
{
    assert(name.push('.').drop_last() =~= name);
}

/// Whether five characters are `.fips`, in either case.
pub open spec fn spells_fips(s: Seq<char>) -> bool {
    &&& s.len() == 5
    &&& s[0] == '.'
    &&& s[1] == 'f' || s[1] == 'F'
    &&& s[2] == 'i' || s[2] == 'I'
    &&& s[3] == 'p' || s[3] == 'P'
    &&& s[4] == 's' || s[4] == 'S'
}

proof fn lemma_spells_fips(s: Seq<char>)
    ensures
        text::ascii_lower_text(s) == ".fips"@ <==> spells_fips(s),
{
    reveal_strlit(".fips");
    let l = text::ascii_lower_text(s);
    if spells_fips(s) {
        assert(l =~= ".fips"@);
    }
    if l == ".fips"@ {
        assert(l.len() == 5);
        assert(l[0] == text::ascii_lower(s[0]) && l[1] == text::ascii_lower(s[1]) && l[2]
            == text::ascii_lower(s[2]) && l[3] == text::ascii_lower(s[3]) && l[4]
            == text::ascii_lower(s[4]));
    }
}

/// Every name that ends in `.fips`, in either case and with or without a dot behind, has what
/// stands before as its label, unless that is nothing.
pub proof fn law_fips_names_have_labels(label: Seq<char>, suffix: Seq<char>)
    requires
        label.len() > 0,
        spells_fips(suffix),
    ensures
        fips_label(label + suffix) == Some(label),
        fips_label(label + suffix + seq!['.']) == Some(label),
{
    let a = label + suffix;
    let b = a + seq!['.'];
    let n = label.len() as int;
    lemma_spells_fips(suffix);
    assert(a.skip(n) =~= suffix);
    assert(a.take(n) =~= label);
    assert(a.last() == suffix[4]);
    assert(b.drop_last() =~= a);
}

/// A name that has a label is that label, `.fips` in either case, and at most a dot behind.
pub proof fn law_only_fips_names_have_labels(name: Seq<char>)
    ensures
        fips_label(name) matches Some(label) ==> {
            let n = label.len() as int;
            &&& n > 0
            &&& name.len() == n + 5 || name.len() == n + 6 && name[n + 5] == '.'
            &&& label == name.subrange(0, n)
            &&& spells_fips(name.subrange(n, n + 5))
        },
{
    if let Some(label) = fips_label(name) {
        let trimmed = without_dot(name);
        let n = trimmed.len() - 5;
        lemma_spells_fips(trimmed.skip(n));
        assert(label =~= name.subrange(0, n));
        assert(trimmed.skip(n) =~= name.subrange(n, n + 5));
    }
}

/// A name resolves if and only if its label is an npub. The address is `fd` and the first 15 bytes
/// of the digest of the key, and what is shown of the node is the first 16 bytes of that digest.
pub proof fn law_name_resolves_by_digest(name: Seq<char>)
    ensures
        ({
            let label = fips_label(name);
            let key = identity::decoded_npub(label->0);
            let digest = crypto::sha256(key->Ok_0)@;
            let address = seq![0xfdu8] + digest.subrange(0, 15);
            let r = resolved(name);
            &&& r is Ok <==> label is Some && key is Ok
            &&& r is Ok ==> {
                &&& r->Ok_0.name == name
                &&& r->Ok_0.npub == label->0
                &&& r->Ok_0.node_addr_hex == text::hex_text(digest.subrange(0, 16))
                &&& r->Ok_0.ipv6 == ipv6::ipv6_text(address)
            }
            &&& label is None ==> r->Err_0 == "name must end with .fips"@
            &&& label is Some && key is Err ==> r->Err_0 == key->Err_0
            &&& address_of_name(name) is Some <==> label is Some && key is Ok
            &&& address_of_name(name) is Some ==> address_of_name(name)->0 == address
        }),
{
    if let Some(label) = fips_label(name) {
        if let Ok(x) = identity::decoded_npub(label) {
            let digest = crypto::sha256(x)@;
            assert(digest.take(16) =~= digest.subrange(0, 16));
            assert(digest.take(16).take(15) =~= digest.subrange(0, 15));
        }
    }
}

/// A question about a name that has an address is answered without error, and with that address,
/// for 300 seconds and in the Internet class, if AAAA records are asked for; any other name does
/// not exist. All answers are authoritative.
pub proof fn law_questions_are_answered(query: Seq<u8>, qname: Seq<char>, is_aaaa: bool)
    ensures
        address_of_name(qname) is Some && is_aaaa ==> answers_for(qname, is_aaaa) == seq![
            (qname, 1nat, 300nat, address_of_name(qname)->0),
        ],
        address_of_name(qname) is None || !is_aaaa ==> answers_for(qname, is_aaaa).len() == 0,
        dns_question(query) is None ==> dns_response(query) is None,
        dns_question(query) == Some((qname, is_aaaa)) ==> dns_response(query) == dns_reply_bytes(
            query,
            0x0400,
            if address_of_name(qname) is Some {
                0
            } else {
                3
            },
            answers_for(qname, is_aaaa),
        ),
{
}

} // verus!
