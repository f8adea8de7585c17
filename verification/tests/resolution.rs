use dns_resolver::dns::address::Ipv4Address;
use dns_resolver::dns::byte_packet_buffer::BytePacketBuffer;
use dns_resolver::dns::dns_packet::DnsPacket;
use dns_resolver::dns::dns_question::DnsQuestion;
use dns_resolver::dns::dns_record::DnsRecord;
use dns_resolver::dns::query_class::QueryClass;
use dns_resolver::dns::query_type::QueryType;
use dns_resolver::dns::result_code::ResultCode;
use dns_resolver::resolver::{build_query, build_response, root_server, Query, Resolver};

fn ns(domain: &str, host: &str) -> DnsRecord {
    DnsRecord::NS { domain: domain.to_string(), host: host.to_string(), ttl: 3600 }
}

fn a(domain: &str, addr: Ipv4Address) -> DnsRecord {
    DnsRecord::A { domain: domain.to_string(), addr, ttl: 3600 }
}

fn query(server: Ipv4Address, name: &str, qtype: QueryType) -> Option<Query> {
    Some(Query { server, name: name.to_string(), qtype })
}

#[test]
fn root_server_address() {
    assert_eq!(root_server(), Ipv4Address::new(198, 41, 0, 4));
}

#[test]
fn query_packet_asks_one_question_without_recursion() {
    let packet = build_query(6666, "google.com", QueryType::MX);
    assert_eq!(packet.header.id, 6666);
    assert_eq!(packet.header.questions, 1);
    assert!(!packet.header.recursion_desired);
    assert!(!packet.header.response);
    assert_eq!(
        packet.questions,
        vec![DnsQuestion::new("google.com".to_string(), QueryType::MX, QueryClass::IN)]
    );
    assert!(packet.answers.is_empty());
    assert!(packet.authorities.is_empty());
    assert!(packet.resources.is_empty());

    let mut packet = packet;
    let mut buffer = BytePacketBuffer::new();
    packet.write(&mut buffer).unwrap();
    assert_eq!(
        &buffer.buffer[0..buffer.position()],
        b"\x1A\x0A\x00\x00\x00\x01\x00\x00\x00\x00\x00\x00\x06google\x03com\x00\x00\x0F\x00\x01"
    );
}

#[test]
fn response_without_a_question_is_a_format_error() {
    let packet = build_response(17, None, None);
    assert_eq!(packet.header.id, 17);
    assert!(packet.header.response);
    assert!(packet.header.recursion_desired);
    assert!(packet.header.recursion_available);
    assert_eq!(packet.header.rescode, ResultCode::FORMERR);
    assert!(packet.questions.is_empty() && packet.answers.is_empty());

    let mut found = DnsPacket::new();
    found.answers.push(a("x", Ipv4Address::new(1, 1, 1, 1)));
    let packet = build_response(17, None, Some(found));
    assert_eq!(packet.header.rescode, ResultCode::FORMERR);
    assert!(packet.answers.is_empty());
}

#[test]
fn response_to_a_failed_resolution_is_a_server_failure() {
    let question = DnsQuestion::new("x.org".to_string(), QueryType::A, QueryClass::IN);
    let packet = build_response(18, Some(question), None);
    assert_eq!(packet.header.id, 18);
    assert!(packet.header.response);
    assert_eq!(packet.header.rescode, ResultCode::SERVFAIL);
    assert!(packet.questions.is_empty());
    assert!(packet.answers.is_empty());
}

#[test]
fn response_carries_the_question_and_the_records_found() {
    let question = DnsQuestion::new("x.org".to_string(), QueryType::A, QueryClass::IN);
    let mut found = DnsPacket::new();
    found.header.id = 6666;
    found.header.rescode = ResultCode::NXDOMAIN;
    found.header.authoritative_answer = true;
    found.questions.push(DnsQuestion::new("other".to_string(), QueryType::A, QueryClass::IN));
    found.answers.push(a("x.org", Ipv4Address::new(1, 2, 3, 4)));
    found.authorities.push(ns("org", "ns.org"));
    found.resources.push(a("ns.org", Ipv4Address::new(4, 3, 2, 1)));
    let packet = build_response(19, Some(question.clone()), Some(found));
    assert_eq!(packet.header.id, 19);
    assert!(packet.header.response);
    assert!(packet.header.recursion_desired);
    assert!(packet.header.recursion_available);
    assert!(!packet.header.authoritative_answer);
    assert_eq!(packet.header.rescode, ResultCode::NXDOMAIN);
    assert_eq!(packet.questions, vec![question]);
    assert_eq!(packet.answers, vec![a("x.org", Ipv4Address::new(1, 2, 3, 4))]);
    assert_eq!(packet.authorities, vec![ns("org", "ns.org")]);
    assert_eq!(packet.resources, vec![a("ns.org", Ipv4Address::new(4, 3, 2, 1))]);
}

#[test]
fn resolution_starts_at_the_root_server() {
    let resolver = Resolver::new("www.example.com".to_string(), QueryType::AAAA);
    assert_eq!(resolver.depth(), 1);
    assert_eq!(
        resolver.next_query(),
        query(Ipv4Address::new(198, 41, 0, 4), "www.example.com", QueryType::AAAA)
    );
}

#[test]
fn answer_ends_the_resolution() {
    let mut resolver = Resolver::new("www.example.com".to_string(), QueryType::A);
    let mut response = DnsPacket::new();
    response.answers.push(a("www.example.com", Ipv4Address::new(7, 7, 7, 7)));
    response.authorities.push(ns("com", "ns.com"));
    assert_eq!(resolver.advance(response.clone()), Some(response.clone()));
    assert_eq!(resolver.depth(), 0);
    assert_eq!(resolver.next_query(), None);
    // after the end a response is handed back
    assert_eq!(resolver.advance(response.clone()), Some(response));
}

#[test]
fn answer_with_an_error_code_does_not_end_the_resolution() {
    let mut resolver = Resolver::new("www.example.com".to_string(), QueryType::A);
    let mut response = DnsPacket::new();
    response.header.rescode = ResultCode::SERVFAIL;
    response.answers.push(a("www.example.com", Ipv4Address::new(7, 7, 7, 7)));
    response.authorities.push(ns("com", "ns.com"));
    response.resources.push(a("ns.com", Ipv4Address::new(2, 2, 2, 2)));
    assert_eq!(resolver.advance(response), None);
    assert_eq!(
        resolver.next_query(),
        query(Ipv4Address::new(2, 2, 2, 2), "www.example.com", QueryType::A)
    );
}

#[test]
fn name_error_returns_immediately_whatever_the_authority_section_holds() {
    let mut resolver = Resolver::new("nope.example.com".to_string(), QueryType::A);
    let mut response = DnsPacket::new();
    response.header.rescode = ResultCode::NXDOMAIN;
    response.authorities.push(ns("com", "ns.com"));
    response.authorities.push(ns("example.com", "ns2.com"));
    response.resources.push(a("ns.com", Ipv4Address::new(2, 2, 2, 2)));
    assert_eq!(resolver.advance(response.clone()), Some(response));
    assert_eq!(resolver.depth(), 0);
}

#[test]
fn response_without_servers_is_returned_as_it_is() {
    let mut resolver = Resolver::new("www.example.com".to_string(), QueryType::A);
    let mut response = DnsPacket::new();
    response.header.rescode = ResultCode::REFUSED;
    response.authorities.push(ns("org", "ns.org"));
    response.resources.push(a("ns.org", Ipv4Address::new(2, 2, 2, 2)));
    assert_eq!(resolver.advance(response.clone()), Some(response));
}

#[test]
fn referrals_are_followed_from_root_to_server2_to_server3() {
    let server2 = Ipv4Address::new(192, 5, 6, 30);
    let server3 = Ipv4Address::new(203, 0, 113, 53);
    let mut resolver = Resolver::new("www.example.com".to_string(), QueryType::A);
    assert_eq!(resolver.next_query(), query(root_server(), "www.example.com", QueryType::A));

    // the root server refers to server2 and gives its address
    let mut first = DnsPacket::new();
    first.authorities.push(ns("com", "a.gtld-servers.net"));
    first.resources.push(a("a.gtld-servers.net", server2));
    assert_eq!(resolver.advance(first), None);
    assert_eq!(resolver.depth(), 1);
    assert_eq!(resolver.next_query(), query(server2, "www.example.com", QueryType::A));

    // server2 refers to ns.example.net and gives no address
    let mut second = DnsPacket::new();
    second.authorities.push(ns("example.com", "ns.example.net"));
    assert_eq!(resolver.advance(second), None);
    assert_eq!(resolver.depth(), 2);
    assert_eq!(resolver.next_query(), query(root_server(), "ns.example.net", QueryType::A));

    // the nested resolution finds the address of ns.example.net: server3
    let mut nested = DnsPacket::new();
    nested.answers.push(a("ns.example.net", server3));
    assert_eq!(resolver.advance(nested), None);
    assert_eq!(resolver.depth(), 1);
    assert_eq!(resolver.next_query(), query(server3, "www.example.com", QueryType::A));

    // server3 answers
    let mut answer = DnsPacket::new();
    answer.header.authoritative_answer = true;
    answer.answers.push(a("www.example.com", Ipv4Address::new(93, 184, 216, 34)));
    assert_eq!(resolver.advance(answer.clone()), Some(answer));
    assert_eq!(resolver.depth(), 0);
    assert_eq!(resolver.next_query(), None);
}

#[test]
fn failed_nested_resolution_returns_the_last_response() {
    let mut resolver = Resolver::new("www.example.com".to_string(), QueryType::A);
    let mut referral = DnsPacket::new();
    referral.header.id = 5;
    referral.authorities.push(ns("example.com", "ns.example.net"));
    assert_eq!(resolver.advance(referral.clone()), None);
    assert_eq!(resolver.depth(), 2);

    // the name server's own name does not exist
    let mut missing = DnsPacket::new();
    missing.header.rescode = ResultCode::NXDOMAIN;
    assert_eq!(resolver.advance(missing), Some(referral));
    assert_eq!(resolver.depth(), 0);
}

#[test]
fn nested_resolutions_unwind_together() {
    let mut resolver = Resolver::new("www.example.com".to_string(), QueryType::A);
    let mut outer = DnsPacket::new();
    outer.header.id = 1;
    outer.authorities.push(ns("example.com", "ns.example.net"));
    assert_eq!(resolver.advance(outer.clone()), None);
    let mut inner = DnsPacket::new();
    inner.header.id = 2;
    inner.authorities.push(ns("net", "ns.nic.org"));
    assert_eq!(resolver.advance(inner), None);
    assert_eq!(resolver.depth(), 3);
    assert_eq!(resolver.next_query(), query(root_server(), "ns.nic.org", QueryType::A));

    // nothing is known of ns.nic.org: its lookup ends with this response,
    // the lookup of ns.example.net with the response it held, and the
    // first lookup with the response it held
    let mut nothing = DnsPacket::new();
    nothing.header.id = 3;
    nothing.header.rescode = ResultCode::REFUSED;
    assert_eq!(resolver.advance(nothing), Some(outer));
    assert_eq!(resolver.depth(), 0);
}

#[test]
fn nested_resolution_that_succeeds_resumes_its_parent_only() {
    let mut resolver = Resolver::new("www.example.com".to_string(), QueryType::A);
    let mut outer = DnsPacket::new();
    outer.authorities.push(ns("example.com", "ns.example.net"));
    assert_eq!(resolver.advance(outer), None);
    let mut inner = DnsPacket::new();
    inner.authorities.push(ns("net", "ns.nic.org"));
    assert_eq!(resolver.advance(inner), None);
    assert_eq!(resolver.depth(), 3);

    let mut found = DnsPacket::new();
    found.answers.push(a("ns.nic.org", Ipv4Address::new(4, 4, 4, 4)));
    assert_eq!(resolver.advance(found), None);
    assert_eq!(resolver.depth(), 2);
    assert_eq!(
        resolver.next_query(),
        query(Ipv4Address::new(4, 4, 4, 4), "ns.example.net", QueryType::A)
    );
}

#[test]
fn nested_resolution_of_several_rounds_ends_at_server3() {
    let server2 = Ipv4Address::new(192, 5, 6, 30);
    let server3 = Ipv4Address::new(203, 0, 113, 53);
    let net_server = Ipv4Address::new(192, 33, 14, 30);
    let mut resolver = Resolver::new("www.example.com".to_string(), QueryType::MX);
    let mut asked = Vec::new();

    asked.push(resolver.next_query().unwrap());
    let mut first = DnsPacket::new();
    first.authorities.push(ns("com", "a.gtld-servers.net"));
    first.resources.push(a("a.gtld-servers.net", server2));
    assert_eq!(resolver.advance(first), None);

    asked.push(resolver.next_query().unwrap());
    let mut second = DnsPacket::new();
    second.authorities.push(ns("example.com", "ns.example.net"));
    assert_eq!(resolver.advance(second), None);

    // the nested resolution takes a referral of its own before it finds the address
    asked.push(resolver.next_query().unwrap());
    let mut nested_referral = DnsPacket::new();
    nested_referral.authorities.push(ns("net", "b.gtld-servers.net"));
    nested_referral.resources.push(a("b.gtld-servers.net", net_server));
    assert_eq!(resolver.advance(nested_referral), None);
    assert_eq!(resolver.depth(), 2);

    asked.push(resolver.next_query().unwrap());
    let mut nested_answer = DnsPacket::new();
    nested_answer.answers.push(a("ns.example.net", server3));
    assert_eq!(resolver.advance(nested_answer), None);
    assert_eq!(resolver.depth(), 1);

    asked.push(resolver.next_query().unwrap());
    let mut answer = DnsPacket::new();
    answer.answers.push(DnsRecord::MX {
        domain: "www.example.com".to_string(),
        preference: 10,
        host: "mail.example.com".to_string(),
        ttl: 60,
    });
    assert_eq!(resolver.advance(answer.clone()), Some(answer));
    assert_eq!(resolver.next_query(), None);

    assert_eq!(
        asked,
        vec![
            Query { server: root_server(), name: "www.example.com".to_string(), qtype: QueryType::MX },
            Query { server: server2, name: "www.example.com".to_string(), qtype: QueryType::MX },
            Query { server: root_server(), name: "ns.example.net".to_string(), qtype: QueryType::A },
            Query { server: net_server, name: "ns.example.net".to_string(), qtype: QueryType::A },
            Query { server: server3, name: "www.example.com".to_string(), qtype: QueryType::MX },
        ]
    );
}
