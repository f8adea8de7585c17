//! The decisions of an iterative resolver.
//!
//! Resolving a name is a walk down the delegation chain: a query is sent to
//! a name server, and its response is an answer, a referral to another name
//! server, or neither. Sending and receiving is the caller's part. This
//! module builds the query, says after each response what comes next, and
//! builds the reply to the client.

use vstd::prelude::*;
use crate::dns::address::Ipv4Address;
use crate::dns::dns_header::DnsHeader;
use crate::dns::dns_packet::{
    delegations, first_address, first_glue, first_without_glue, DnsPacket, PacketView,
};
use crate::dns::dns_question::{DnsQuestion, QuestionView};
use crate::dns::query_class::QueryClass;
use crate::dns::query_type::QueryType;
use crate::dns::result_code::ResultCode;

verus! {

/// The octets of the address of the root name server at which every
/// resolution starts, `198.41.0.4`.
pub open spec fn root_octets() -> Seq<u8> {
    seq![198u8, 41u8, 0u8, 4u8]
}

/// The address of the root name server at which every resolution starts.
pub fn root_server() -> (address: Ipv4Address)
    ensures
        address.octets@ == root_octets(),
{
    Ipv4Address::new(198, 41, 0, 4)
}

/// The header of a query: `id`, one question, and no flag set, so that the
/// server asked does not resolve the name itself.
pub open spec fn query_header(id: u16) -> DnsHeader {
    DnsHeader { id, questions: 1, ..DnsHeader::cleared() }
}

/// A query for the records of type `question_type` of `question_name`, to be
/// sent to a name server: one question of the Internet class, recursion not
/// desired.
pub fn build_query(id: u16, question_name: &str, question_type: QueryType) -> (packet: DnsPacket)
    ensures
        packet@ == (PacketView {
            header: query_header(id),
            questions: seq![
                QuestionView {
                    q_name: question_name@,
                    q_type: question_type,
                    q_class: QueryClass::IN,
                },
            ],
            answers: Seq::empty(),
            authorities: Seq::empty(),
            resources: Seq::empty(),
        }),
{
    let mut packet = DnsPacket::new();
    packet.header.id = id;
    packet.header.questions = 1;
    packet.header.recursion_desired = false;
    let question = DnsQuestion::new(question_name.to_owned(), question_type, QueryClass::IN);
    packet.questions.push(question);
    assert(packet@.questions =~= seq![question@]);
    assert(packet@.answers =~= Seq::empty());
    assert(packet@.authorities =~= Seq::empty());
    assert(packet@.resources =~= Seq::empty());
    packet
}

/// The header of a reply to a client: a response to the query `id` from a
/// server that resolves names itself, with the given result code.
pub open spec fn response_header(id: u16, rescode: ResultCode) -> DnsHeader {
    DnsHeader {
        id,
        recursion_desired: true,
        recursion_available: true,
        response: true,
        rescode,
        ..DnsHeader::cleared()
    }
}

/// The reply to a client. Without a question it reports a format error and
/// holds nothing. With a question whose resolution failed it reports a
/// server failure and holds nothing. Else it holds the question and the
/// records of the resolution, and reports its result code.
pub open spec fn response_to(
    id: u16,
    question: Option<QuestionView>,
    outcome: Option<PacketView>,
) -> PacketView {
    match (question, outcome) {
        (Some(asked), Some(found)) => PacketView {
            header: response_header(id, found.header.rescode),
            questions: seq![asked],
            answers: found.answers,
            authorities: found.authorities,
            resources: found.resources,
        },
        (Some(_), None) => PacketView {
            header: response_header(id, ResultCode::SERVFAIL),
            questions: Seq::empty(),
            answers: Seq::empty(),
            authorities: Seq::empty(),
            resources: Seq::empty(),
        },
        (None, _) => PacketView {
            header: response_header(id, ResultCode::FORMERR),
            questions: Seq::empty(),
            answers: Seq::empty(),
            authorities: Seq::empty(),
            resources: Seq::empty(),
        },
    }
}

/// The view of a question that may be missing.
pub open spec fn question_view(question: Option<DnsQuestion>) -> Option<QuestionView> {
    match question {
        Some(asked) => Some(asked@),
        None => None,
    }
}

/// The view of a message that may be missing.
pub open spec fn packet_view(packet: Option<DnsPacket>) -> Option<PacketView> {
    match packet {
        Some(found) => Some(found@),
        None => None,
    }
}

/// Builds the reply to the client's query `id`. `question` is the question
/// the client asked, if it asked one, and `outcome` is what resolving it
/// gave, if it gave anything.
pub fn build_response(id: u16, question: Option<DnsQuestion>, outcome: Option<DnsPacket>) -> (packet:
    DnsPacket)
    ensures
        packet@ == response_to(id, question_view(question), packet_view(outcome)),
{
    let mut packet = DnsPacket::new();
    packet.header.id = id;
    packet.header.recursion_desired = true;
    packet.header.recursion_available = true;
    packet.header.response = true;
    assert(packet@.questions =~= Seq::empty());
    assert(packet@.answers =~= Seq::empty());
    assert(packet@.authorities =~= Seq::empty());
    assert(packet@.resources =~= Seq::empty());

    match question {
        Some(asked) => match outcome {
            Some(found) => {
                packet.questions.push(asked);
                packet.header.rescode = found.header.rescode;
                packet.answers = found.answers;
                packet.authorities = found.authorities;
                packet.resources = found.resources;
                assert(packet@.questions =~= seq![asked@]);
            },
            None => {
                packet.header.rescode = ResultCode::SERVFAIL;
            },
        },
        None => {
            packet.header.rescode = ResultCode::FORMERR;
        },
    }
    packet
}

/// What a resolver does after a response.
pub enum Decision {
    /// The response ends the lookup: it is what the lookup gives.
    Finish,
    /// The lookup goes on at the name server with this address.
    Switch(Seq<u8>),
    /// The lookup waits until the address of this host is resolved.
    Resolve(Seq<char>),
}

/// What comes after `response` in a lookup of `name`.
///
/// A response with answers and no error ends the lookup, and so does one
/// that says that the name does not exist. Else the authority section is
/// searched for name servers of a part of `name`. Where the response gives
/// the address of one, the lookup goes on there. Where it names one without
/// an address, that host is resolved first. Where it names none, the
/// response is all there is, and ends the lookup.
pub open spec fn decide(name: Seq<char>, response: PacketView) -> Decision {
    let servers = delegations(response.authorities, name);
    if response.answers.len() > 0 && response.header.rescode == ResultCode::NOERROR {
        Decision::Finish
    } else if response.header.rescode == ResultCode::NXDOMAIN {
        Decision::Finish
    } else {
        match first_glue(servers, response.resources) {
            Some(address) => Decision::Switch(address),
            None => match first_without_glue(servers, response.resources) {
                Some(host) => Decision::Resolve(host),
                None => Decision::Finish,
            },
        }
    }
}

/// One lookup of a resolution as a mathematical value: the name and type
/// asked for, the address of the name server to ask, and, while the lookup
/// waits for the address of a name server to be resolved, the response that
/// named that server.
pub struct LookupView {
    pub name: Seq<char>,
    pub qtype: QueryType,
    pub server: Seq<u8>,
    pub held: Option<PacketView>,
}

/// A lookup that starts at the root name server.
pub open spec fn fresh_lookup(name: Seq<char>, qtype: QueryType) -> LookupView {
    LookupView { name, qtype, server: root_octets(), held: None }
}

/// What the end of a lookup with `result` means to the lookups that wait for
/// it, innermost last: the lookups that are left, and the result of the
/// whole resolution if it has ended.
///
/// A lookup that waits goes on at the first address among the answers of
/// `result`. Where there is none, it ends itself, with the response that it
/// held.
pub open spec fn resume(waiting: Seq<LookupView>, result: PacketView) -> (
    Seq<LookupView>,
    Option<PacketView>,
)
    decreases waiting.len(),
{
    if waiting.len() == 0 {
        (waiting, Some(result))
    } else {
        let parent = waiting.last();
        match (first_address(result.answers), parent.held) {
            (Some(address), _) => (
                waiting.drop_last().push(LookupView { server: address, held: None, ..parent }),
                None,
            ),
            (None, Some(held)) => resume(waiting.drop_last(), held),
            (None, None) => resume(waiting.drop_last(), result),
        }
    }
}

/// What `response` to the innermost of `lookups` leads to: the lookups that
/// are left, and the result of the whole resolution if it has ended.
pub open spec fn step(lookups: Seq<LookupView>, response: PacketView) -> (
    Seq<LookupView>,
    Option<PacketView>,
) {
    let current = lookups.last();
    let waiting = lookups.drop_last();
    match decide(current.name, response) {
        Decision::Finish => resume(waiting, response),
        Decision::Switch(address) => (
            waiting.push(LookupView { server: address, ..current }),
            None,
        ),
        Decision::Resolve(host) => (
            waiting.push(LookupView { held: Some(response), ..current }).push(
                fresh_lookup(host, QueryType::A),
            ),
            None,
        ),
    }
}

/// Whether lookups stand as a resolution leaves them: each lookup but the
/// innermost waits, and holds the response that made it wait.
pub open spec fn is_waiting_chain(lookups: Seq<LookupView>) -> bool {
    forall|i: int|
        0 <= i < lookups.len() ==> ((#[trigger] lookups[i]).held is Some <==> i + 1
            < lookups.len())
}

/// What is left of a chain of waiting lookups when the innermost has ended
/// is such a chain again.
pub proof fn resume_keeps_the_chain(waiting: Seq<LookupView>, result: PacketView)
    requires
        forall|i: int| 0 <= i < waiting.len() ==> (#[trigger] waiting[i]).held is Some,
    ensures
        is_waiting_chain(resume(waiting, result).0),
    decreases waiting.len(),
{
    if waiting.len() > 0 {
        let parent = waiting.last();
        let earlier = waiting.drop_last();
        assert forall|i: int| 0 <= i < earlier.len() implies (#[trigger] earlier[i]).held
            is Some by {
            assert(earlier[i] == waiting[i]);
        }
        match first_address(result.answers) {
            Some(address) => {
                let left = earlier.push(LookupView { server: address, held: None, ..parent });
                assert forall|i: int| 0 <= i < left.len() implies ((#[trigger] left[i]).held
                    is Some <==> i + 1 < left.len()) by {
                    if i < earlier.len() {
                        assert(left[i] == earlier[i]);
                    }
                }
            },
            None => {
                resume_keeps_the_chain(earlier, parent.held->Some_0);
            },
        }
    }
}

/// A step of a resolution leaves its lookups as it found them: each but the
/// innermost waits, and holds the response that made it wait.
pub proof fn step_keeps_the_chain(lookups: Seq<LookupView>, response: PacketView)
    requires
        lookups.len() > 0,
        is_waiting_chain(lookups),
    ensures
        is_waiting_chain(step(lookups, response).0),
{
    let current = lookups.last();
    let waiting = lookups.drop_last();
    assert forall|i: int| 0 <= i < waiting.len() implies (#[trigger] waiting[i]).held is Some by {
        assert(waiting[i] == lookups[i]);
    }
    assert(current.held is None);
    match decide(current.name, response) {
        Decision::Finish => {
            resume_keeps_the_chain(waiting, response);
        },
        Decision::Switch(address) => {
            let left = waiting.push(LookupView { server: address, ..current });
            assert forall|i: int| 0 <= i < left.len() implies ((#[trigger] left[i]).held is Some
                <==> i + 1 < left.len()) by {
                if i < waiting.len() {
                    assert(left[i] == waiting[i]);
                }
            }
        },
        Decision::Resolve(host) => {
            let left = waiting.push(LookupView { held: Some(response), ..current }).push(
                fresh_lookup(host, QueryType::A),
            );
            assert forall|i: int| 0 <= i < left.len() implies ((#[trigger] left[i]).held is Some
                <==> i + 1 < left.len()) by {
                if i < waiting.len() {
                    assert(left[i] == waiting[i]);
                }
            }
        },
    }
}

/// A response that says that the name does not exist ends the lookup,
/// whatever name servers its authority section names.
pub proof fn name_error_ends_the_lookup(name: Seq<char>, response: PacketView)
    requires
        response.header.rescode == ResultCode::NXDOMAIN,
    ensures
        decide(name, response) == Decision::Finish,
{
}

/// A response that says that the name asked for does not exist is the
/// result of the resolution, whatever name servers its authority section
/// names.
pub proof fn name_error_is_the_result(asked: LookupView, response: PacketView)
    requires
        response.header.rescode == ResultCode::NXDOMAIN,
    ensures
        step(seq![asked], response) == (Seq::<LookupView>::empty(), Some(response)),
{
    assert(seq![asked].drop_last() =~= Seq::<LookupView>::empty());
}

/// A response with answers and no error is the result of the resolution of
/// the name asked for.
pub proof fn answer_is_the_result(asked: LookupView, response: PacketView)
    requires
        response.answers.len() > 0,
        response.header.rescode == ResultCode::NOERROR,
    ensures
        step(seq![asked], response) == (Seq::<LookupView>::empty(), Some(response)),
{
    assert(seq![asked].drop_last() =~= Seq::<LookupView>::empty());
}

/// The query that a lookup wants sent, as a mathematical value: the address
/// of the name server, the name and the type.
pub struct QueryView {
    pub server: Seq<u8>,
    pub name: Seq<char>,
    pub qtype: QueryType,
}

/// The query that a lookup wants sent.
pub open spec fn query_of(lookup: LookupView) -> QueryView {
    QueryView { server: lookup.server, name: lookup.name, qtype: lookup.qtype }
}

/// What a run of responses leads to, each handed to the resolution in its
/// turn until the resolution ends or the responses do.
pub open spec fn run(lookups: Seq<LookupView>, responses: Seq<PacketView>) -> (
    Seq<LookupView>,
    Option<PacketView>,
)
    decreases responses.len(),
{
    if responses.len() == 0 || lookups.len() == 0 {
        (lookups, None)
    } else {
        let next = step(lookups, responses.first());
        match next.1 {
            Some(_) => next,
            None => run(next.0, responses.drop_first()),
        }
    }
}

/// The queries that are sent in a run of responses, in their order: before
/// each response, the query of the innermost lookup.
pub open spec fn asked(lookups: Seq<LookupView>, responses: Seq<PacketView>) -> Seq<QueryView>
    decreases responses.len(),
{
    if responses.len() == 0 || lookups.len() == 0 {
        Seq::empty()
    } else {
        let next = step(lookups, responses.first());
        seq![query_of(lookups.last())] + match next.1 {
            Some(_) => Seq::empty(),
            None => asked(next.0, responses.drop_first()),
        }
    }
}

/// Whether a resolution takes just these responses, all of them, and ends
/// with `found`.
pub open spec fn ends_with(
    lookups: Seq<LookupView>,
    responses: Seq<PacketView>,
    found: PacketView,
) -> bool
    decreases responses.len(),
{
    lookups.len() > 0 && responses.len() > 0 && {
        let next = step(lookups, responses.first());
        if responses.len() == 1 {
            next == (Seq::<LookupView>::empty(), Some(found))
        } else {
            next.1 is None && ends_with(next.0, responses.drop_first(), found)
        }
    }
}

/// Lookups that wait below others are not touched until those have ended:
/// what the end of a lookup means to the lookups above `base` is what it
/// means to them alone, and `base` hears of it only when none of them is
/// left.
pub proof fn resume_above(base: Seq<LookupView>, waiting: Seq<LookupView>, result: PacketView)
    ensures
        resume(base + waiting, result) == match resume(waiting, result).1 {
            None => (base + resume(waiting, result).0, None::<PacketView>),
            Some(found) => resume(base, found),
        },
    decreases waiting.len(),
{
    if waiting.len() == 0 {
        assert(base + waiting =~= base);
    } else {
        let parent = waiting.last();
        let earlier = waiting.drop_last();
        assert((base + waiting).last() == parent);
        assert((base + waiting).drop_last() =~= base + earlier);
        match (first_address(result.answers), parent.held) {
            (Some(address), _) => {
                let resumed = LookupView { server: address, held: None, ..parent };
                assert((base + earlier).push(resumed) =~= base + earlier.push(resumed));
            },
            (None, Some(held)) => {
                resume_above(base, earlier, held);
            },
            (None, None) => {
                resume_above(base, earlier, result);
            },
        }
    }
}

/// A step of the lookups above `base` is the step that they would take
/// alone; `base` hears of it only when they have ended.
pub proof fn step_above(base: Seq<LookupView>, inner: Seq<LookupView>, response: PacketView)
    requires
        inner.len() > 0,
    ensures
        step(base + inner, response) == match step(inner, response).1 {
            None => (base + step(inner, response).0, None::<PacketView>),
            Some(found) => resume(base, found),
        },
{
    let current = inner.last();
    let waiting = inner.drop_last();
    assert((base + inner).last() == current);
    assert((base + inner).drop_last() =~= base + waiting);
    match decide(current.name, response) {
        Decision::Finish => {
            resume_above(base, waiting, response);
        },
        Decision::Switch(address) => {
            let moved = LookupView { server: address, ..current };
            assert((base + waiting).push(moved) =~= base + waiting.push(moved));
        },
        Decision::Resolve(host) => {
            let held = LookupView { held: Some(response), ..current };
            let nested = fresh_lookup(host, QueryType::A);
            assert((base + waiting).push(held).push(nested) =~= base + waiting.push(held).push(
                nested,
            ));
        },
    }
}

/// A resolution that is nested in another runs as it would run alone. When
/// it has ended, the lookups below it go on with what it found, and with the
/// responses that are left.
pub proof fn run_above(
    base: Seq<LookupView>,
    inner: Seq<LookupView>,
    responses: Seq<PacketView>,
    found: PacketView,
    more: Seq<PacketView>,
)
    requires
        ends_with(inner, responses, found),
    ensures
        run(base + inner, responses + more) == match resume(base, found).1 {
            Some(_) => resume(base, found),
            None => run(resume(base, found).0, more),
        },
        asked(base + inner, responses + more) == asked(inner, responses) + match resume(
            base,
            found,
        ).1 {
            Some(_) => Seq::<QueryView>::empty(),
            None => asked(resume(base, found).0, more),
        },
    decreases responses.len(),
{
    let all = responses + more;
    let first = responses.first();
    assert(all.first() == first);
    assert(all.drop_first() =~= responses.drop_first() + more);
    assert((base + inner).last() == inner.last());
    step_above(base, inner, first);
    let next = step(inner, first);
    if responses.len() == 1 {
        assert(responses.drop_first() =~= Seq::<PacketView>::empty());
        assert(all.drop_first() =~= more);
        let tail = match resume(base, found).1 {
            Some(_) => Seq::<QueryView>::empty(),
            None => asked(resume(base, found).0, more),
        };
        assert(asked(inner, responses) =~= seq![query_of(inner.last())]);
        assert(asked(base + inner, all) =~= seq![query_of(inner.last())] + tail);
    } else {
        run_above(base, next.0, responses.drop_first(), found, more);
        let tail = match resume(base, found).1 {
            Some(_) => Seq::<QueryView>::empty(),
            None => asked(resume(base, found).0, more),
        };
        let inside = asked(next.0, responses.drop_first());
        assert(asked(inner, responses) =~= seq![query_of(inner.last())] + inside);
        assert(seq![query_of(inner.last())] + (inside + tail) =~= seq![query_of(inner.last())]
            + inside + tail);
    }
}

/// A response without an answer that gives the address of a name server
/// for the name sends the lookup there.
pub proof fn referral_with_address_switches(
    name: Seq<char>,
    response: PacketView,
    address: Seq<u8>,
)
    requires
        response.answers.len() == 0,
        response.header.rescode == ResultCode::NOERROR,
        first_glue(delegations(response.authorities, name), response.resources) == Some(address),
    ensures
        decide(name, response) == Decision::Switch(address),
{
}

/// A response without an answer that names a name server for the name but
/// gives the address of none has the lookup wait for the address of the
/// first of them.
pub proof fn referral_without_address_resolves(
    name: Seq<char>,
    response: PacketView,
    host: Seq<char>,
)
    requires
        response.answers.len() == 0,
        response.header.rescode == ResultCode::NOERROR,
        first_glue(delegations(response.authorities, name), response.resources) is None,
        first_without_glue(delegations(response.authorities, name), response.resources) == Some(
            host,
        ),
    ensures
        decide(name, response) == Decision::Resolve(host),
{
}

/// A resolution that follows two referrals, the second of which names a
/// name server without giving its address.
///
/// The root name server refers to a name server and gives its address
/// `second`. That server refers to the host `host` and gives no address for
/// it. Resolving `host`, with however many responses `nested` it takes, finds
/// the address `third`, and the server there answers with `answer`. Then
/// `answer` is the result of the resolution, unchanged. The queries for the
/// name go to the root name server, to `second` and to `third`, in this
/// order and once each; between the last two, the only queries are those of
/// the resolution of `host`, which asks for its address and starts at the
/// root name server.
pub proof fn referrals_lead_to_the_answer(
    name: Seq<char>,
    qtype: QueryType,
    referral: PacketView,
    second: Seq<u8>,
    bare_referral: PacketView,
    host: Seq<char>,
    nested: Seq<PacketView>,
    found: PacketView,
    third: Seq<u8>,
    answer: PacketView,
)
    requires
        decide(name, referral) == Decision::Switch(second),
        decide(name, bare_referral) == Decision::Resolve(host),
        ends_with(seq![fresh_lookup(host, QueryType::A)], nested, found),
        first_address(found.answers) == Some(third),
        answer.answers.len() > 0,
        answer.header.rescode == ResultCode::NOERROR,
    ensures
        run(
            seq![fresh_lookup(name, qtype)],
            seq![referral, bare_referral] + nested + seq![answer],
        ) == (Seq::<LookupView>::empty(), Some(answer)),
        asked(
            seq![fresh_lookup(name, qtype)],
            seq![referral, bare_referral] + nested + seq![answer],
        ) == seq![
            QueryView { server: root_octets(), name, qtype },
            QueryView { server: second, name, qtype },
        ] + asked(seq![fresh_lookup(host, QueryType::A)], nested) + seq![
            QueryView { server: third, name, qtype },
        ],
        asked(seq![fresh_lookup(host, QueryType::A)], nested).len() > 0,
        asked(seq![fresh_lookup(host, QueryType::A)], nested)[0] == (QueryView {
            server: root_octets(),
            name: host,
            qtype: QueryType::A,
        }),
{
    let start = fresh_lookup(name, qtype);
    let at_second = LookupView { server: second, ..start };
    let holding = LookupView { held: Some(bare_referral), ..at_second };
    let at_third = LookupView { server: third, held: None, ..holding };
    let inner = seq![fresh_lookup(host, QueryType::A)];
    let all = seq![referral, bare_referral] + nested + seq![answer];
    let none = Seq::<LookupView>::empty();

    // the first referral
    assert(seq![start].drop_last() =~= none);
    assert(step(seq![start], referral) == (none.push(at_second), None::<PacketView>));
    assert(none.push(at_second) =~= seq![at_second]);
    assert(all.first() == referral);
    let after_first = seq![bare_referral] + nested + seq![answer];
    assert(all.drop_first() =~= after_first);

    // the second referral
    assert(seq![at_second].drop_last() =~= none);
    assert(step(seq![at_second], bare_referral) == (
        none.push(holding).push(fresh_lookup(host, QueryType::A)),
        None::<PacketView>,
    ));
    assert(none.push(holding).push(fresh_lookup(host, QueryType::A)) =~= seq![holding] + inner);
    assert(after_first.first() == bare_referral);
    assert(after_first.drop_first() =~= nested + seq![answer]);

    // the nested resolution
    run_above(seq![holding], inner, nested, found, seq![answer]);
    assert(seq![holding].drop_last() =~= none);
    assert(resume(seq![holding], found) == (none.push(at_third), None::<PacketView>));
    assert(none.push(at_third) =~= seq![at_third]);

    // the answer
    assert(seq![at_third].drop_last() =~= none);
    assert(step(seq![at_third], answer) == (none, Some(answer)));
    assert(seq![answer].first() == answer);
    assert(run(seq![at_third], seq![answer]) == (none, Some(answer)));
    assert(asked(seq![at_third], seq![answer]) =~= seq![query_of(at_third)]);

    assert(run(seq![holding] + inner, nested + seq![answer]) == (none, Some(answer)));
    assert(run(seq![at_second], after_first) == (none, Some(answer)));
    assert(run(seq![start], all) == (none, Some(answer)));

    let inside = asked(inner, nested);
    assert(asked(seq![holding] + inner, nested + seq![answer]) == inside + seq![
        query_of(at_third),
    ]);
    assert(asked(seq![at_second], after_first) =~= seq![query_of(at_second)] + (inside + seq![
        query_of(at_third),
    ]));
    assert(asked(seq![start], all) =~= seq![query_of(start)] + (seq![query_of(at_second)] + (inside
        + seq![query_of(at_third)])));
    assert(seq![query_of(start)] + (seq![query_of(at_second)] + (inside + seq![
        query_of(at_third),
    ])) =~= seq![query_of(start), query_of(at_second)] + inside + seq![query_of(at_third)]);
    assert(inner.last() == fresh_lookup(host, QueryType::A));
}

/// One lookup of a resolution.
#[derive(Debug)]
struct Lookup {
    name: String,
    qtype: QueryType,
    server: Ipv4Address,
    held: Option<DnsPacket>,
}

impl View for Lookup {
    type V = LookupView;

    closed spec fn view(&self) -> LookupView {
        LookupView {
            name: self.name@,
            qtype: self.qtype,
            server: self.server.octets@,
            held: packet_view(self.held),
        }
    }
}

/// The query that a resolution wants sent next.
#[derive(Debug, Clone, PartialEq, Eq)]
pub struct Query {
    /// The address of the name server to ask.
    pub server: Ipv4Address,
    /// The name to ask about.
    pub name: String,
    /// The type of record to ask for.
    pub qtype: QueryType,
}

/// A resolution under way: the lookup of the name that was asked for, and
/// above it the lookups of the name servers whose addresses had to be
/// resolved on the way, innermost last.
///
/// The caller sends the query that [`Resolver::next_query`] gives to the
/// name server it names and hands the response to [`Resolver::advance`],
/// until that returns the result.
#[derive(Debug)]
pub struct Resolver {
    lookups: Vec<Lookup>,
}

impl View for Resolver {
    type V = Seq<LookupView>;

    closed spec fn view(&self) -> Seq<LookupView> {
        Seq::new(self.lookups@.len(), |i: int| self.lookups@[i]@)
    }
}

impl Resolver {
    /// Starts the resolution of the records of type `qtype` of `name`, at
    /// the root name server.
    pub fn new(name: String, qtype: QueryType) -> (resolver: Resolver)
        ensures
            resolver@ == seq![fresh_lookup(name@, qtype)],
    {
        let mut lookups: Vec<Lookup> = Vec::new();
        let lookup = Lookup { name, qtype, server: root_server(), held: None };
        lookups.push(lookup);
        let resolver = Resolver { lookups };
        assert(resolver@ =~= seq![fresh_lookup(name@, qtype)]);
        resolver
    }

    /// How many lookups are under way: one for the name asked for, and one
    /// for each name server whose address is being resolved on the way.
    /// Zero once the resolution has ended.
    pub fn depth(&self) -> (depth: usize)
        ensures
            depth == self@.len(),
    {
        self.lookups.len()
    }

    /// The query to send next: that of the innermost lookup. `None` once the
    /// resolution has ended.
    pub fn next_query(&self) -> (query: Option<Query>)
        ensures
            self@.len() == 0 ==> query is None,
            self@.len() > 0 ==> query is Some && query->Some_0.server.octets@ == self@.last().server
                && query->Some_0.name@ == self@.last().name && query->Some_0.qtype
                == self@.last().qtype,
    {
        let count = self.lookups.len();
        if count == 0 {
            return None;
        }
        let current = &self.lookups[count - 1];
        Some(Query { server: current.server, name: current.name.clone(), qtype: current.qtype })
    }

    /// Takes the response to the query that [`Self::next_query`] gave, and
    /// returns the result of the resolution if the response ends it. After
    /// the end, a response is handed back as it is.
    pub fn advance(&mut self, response: DnsPacket) -> (result: Option<DnsPacket>)
        ensures
            old(self)@.len() > 0 ==> final(self)@ == step(old(self)@, response@).0 && packet_view(
                result,
            ) == step(old(self)@, response@).1,
            old(self)@.len() == 0 ==> final(self)@ == old(self)@ && packet_view(result) == Some(
                response@,
            ),
    {
        let ghost before = self@;
        let mut current = match self.lookups.pop() {
            Some(lookup) => lookup,
            None => {
                assert(self@ =~= before);
                return Some(response);
            },
        };
        let ghost waiting = self@;
        assert(waiting =~= before.drop_last());
        assert(current@ == before.last());

        if !response.answers.is_empty() && response.header.rescode == ResultCode::NOERROR {
            return self.resume(response);
        }
        if response.header.rescode == ResultCode::NXDOMAIN {
            return self.resume(response);
        }
        match response.get_resolved_ns(current.name.as_str()) {
            Some(address) => {
                current.server = address;
                self.lookups.push(current);
                assert(self@ =~= waiting.push(current@));
                return None;
            },
            None => {},
        }
        let host = match response.get_unresolved_ns(current.name.as_str()) {
            Some(host) => host,
            None => {
                return self.resume(response);
            },
        };
        current.held = Some(response);
        let nested = Lookup { name: host, qtype: QueryType::A, server: root_server(), held: None };
        self.lookups.push(current);
        self.lookups.push(nested);
        assert(self@ =~= waiting.push(current@).push(nested@));
        None
    }

    /// Ends the innermost lookup with `result` and lets the lookups that
    /// wait for it go on or end in their turn.
    fn resume(&mut self, result: DnsPacket) -> (ended: Option<DnsPacket>)
        ensures
            final(self)@ == resume(old(self)@, result@).0,
            packet_view(ended) == resume(old(self)@, result@).1,
    {
        let ghost given = result@;
        let mut latest = result;
        loop
            invariant
                given == result@,
                resume(old(self)@, given) == resume(self@, latest@),
            decreases self.lookups.len(),
        {
            let ghost before = self@;
            let mut parent = match self.lookups.pop() {
                Some(lookup) => lookup,
                None => {
                    assert(self@ =~= before);
                    return Some(latest);
                },
            };
            assert(self@ =~= before.drop_last());
            assert(parent@ == before.last());
            match latest.get_random_a() {
                Some(address) => {
                    parent.server = address;
                    parent.held = None;
                    self.lookups.push(parent);
                    assert(self@ =~= before.drop_last().push(parent@));
                    return None;
                },
                None => {},
            }
            match parent.held {
                Some(held) => {
                    latest = held;
                },
                None => {},
            }
        }
    }
}

} // verus!
