//! Answers from cached responses.

use vstd::prelude::*;

use crate::cache::item::CacheItem;
use crate::proto::message::{
    lemma_aged_record, lemma_all_aged, message_subnet, option_views, question_views, record_views,
    with_aged_ttls, with_ttl, ClientSubnet, Edns, EdnsOption, EdnsOptionView, EdnsView, Message,
    MessageType, MessageView, Opcode, Question, Record, RecordView,
};

verus! {

/// The subnet option of an answer: the request's subnet with the scope that the cached
/// response has.
pub open spec fn restored_subnet(request: MessageView, cached: MessageView) -> Seq<EdnsOptionView> {
    match (message_subnet(request), message_subnet(cached)) {
        (Some(asked), Some(answered)) => seq![
            EdnsOptionView::Subnet(
                ClientSubnet {
                    addr: asked.addr,
                    source_prefix: asked.source_prefix,
                    scope_prefix: answered.scope_prefix,
                },
            ),
        ],
        _ => Seq::empty(),
    }
}

/// The EDNS part of an answer follows the request.
pub open spec fn restored_edns(request: MessageView, cached: MessageView) -> Option<EdnsView> {
    match request.edns {
        Some(e) => Some(
            EdnsView {
                udp_payload_size: e.udp_payload_size,
                ext_rcode: 0,
                version: e.version,
                dnssec_ok: e.dnssec_ok,
                z: e.z,
                options: restored_subnet(request, cached),
            },
        ),
        None => None,
    }
}

/// The answer to a request from a cached response whose identifier and TTLs are set.
pub open spec fn restored(cached: MessageView, request: MessageView, response: MessageView) -> MessageView {
    MessageView {
        questions: seq![request.questions[0]],
        recursion_desired: request.recursion_desired,
        checking_disabled: request.checking_disabled,
        authentic_data: cached.authentic_data,
        message_type: MessageType::Response,
        opcode: Opcode::Query,
        signature: Seq::empty(),
        edns: restored_edns(request, cached),
        ..response
    }
}

pub open spec fn age_in_secs(cache_age_ms: u64) -> u32 {
    if cache_age_ms / 1000 > u32::MAX {
        u32::MAX
    } else {
        (cache_age_ms / 1000) as u32
    }
}

/// The answer from a fresh response: each TTL has aged, none is longer than the entry
/// stays fresh, and records that have run out are gone.
pub open spec fn fresh_answer(
    cached: MessageView,
    request: MessageView,
    cache_age_ms: u64,
    remaining_ttl: u32,
) -> MessageView {
    let age = age_in_secs(cache_age_ms);
    restored(
        cached,
        request,
        MessageView {
            id: request.id,
            answers: with_aged_ttls(cached.answers, age, remaining_ttl),
            authorities: with_aged_ttls(cached.authorities, age, remaining_ttl),
            additionals: with_aged_ttls(cached.additionals, age, remaining_ttl),
            ..cached
        },
    )
}

/// A stale cached response as the answer to a request, as it was when it was cached but
/// for its TTLs.
pub open spec fn stale_restored(cached: MessageView, request: MessageView, stale_ttl: u32) -> MessageView {
    restored(
        cached,
        request,
        MessageView {
            id: request.id,
            answers: with_ttl(cached.answers, stale_ttl),
            authorities: with_ttl(cached.authorities, stale_ttl),
            additionals: with_ttl(cached.additionals, stale_ttl),
            ..cached
        },
    )
}

/// The answer to a request with a stale cached response. That the response was
/// authentic is not vouched for any more.
pub open spec fn stale_answer(cached: MessageView, request: MessageView, stale_ttl: u32) -> MessageView {
    MessageView { authentic_data: false, ..stale_restored(cached, request, stale_ttl) }
}

/// Makes a copy of a cached response into the answer to a request.
pub fn restore_cached_message(item: &CacheItem, request: &Message, response: Message) -> (r: Message)
    requires
        request.questions@.len() > 0,
    ensures
        r@ == restored(item@.resp, request@, response@),
{
    let mut r = response;
    let mut questions: Vec<Question> = Vec::new();
    questions.push(request.questions[0].copy());
    assert(question_views(questions@) =~= seq![request@.questions[0]]);
    r.questions = questions;
    r.recursion_desired = request.recursion_desired;
    r.checking_disabled = request.checking_disabled;
    r.authentic_data = item.resp.authentic_data;
    r.message_type = MessageType::Response;
    r.opcode = Opcode::Query;
    let signature: Vec<Record> = Vec::new();
    assert(record_views(signature@) =~= Seq::empty());
    r.signature = signature;
    r.edns = match &request.edns {
        Some(asked) => {
            let mut options: Vec<EdnsOption> = Vec::new();
            if let (Some(request_subnet), Some(response_subnet)) = (
                asked.subnet(),
                item.resp.subnet(),
            ) {
                options.push(
                    EdnsOption::Subnet(
                        ClientSubnet::new(
                            request_subnet.addr,
                            request_subnet.source_prefix,
                            response_subnet.scope_prefix,
                        ),
                    ),
                );
            }
            assert(option_views(options@) =~= restored_subnet(request@, item@.resp));
            Some(
                Edns {
                    udp_payload_size: asked.udp_payload_size,
                    ext_rcode: 0,
                    version: asked.version,
                    dnssec_ok: asked.dnssec_ok,
                    z: asked.z,
                    options,
                },
            )
        },
        None => None,
    };
    r
}

/// The answer to a request from a fresh response.
pub fn restore_fresh_cached_message(
    item: &CacheItem,
    request: &Message,
    cache_age_ms: u64,
    remaining_ttl: u32,
) -> (r: Message)
    requires
        request.questions@.len() > 0,
    ensures
        r@ == fresh_answer(item@.resp, request@, cache_age_ms, remaining_ttl),
{
    let secs: u64 = cache_age_ms / 1000;
    let cache_age_secs: u32 = if secs > u32::MAX as u64 {
        u32::MAX
    } else {
        secs as u32
    };
    let response = item.resp.clone_with_id_and_aged_record_ttls(
        request.id,
        cache_age_secs,
        remaining_ttl,
    );
    restore_cached_message(item, request, response)
}

/// The answer to a request from a stale response.
pub fn restore_stale_cached_message(item: &CacheItem, request: &Message, stale_ttl: u32) -> (r:
    Message)
    requires
        request.questions@.len() > 0,
    ensures
        r@ == stale_restored(item@.resp, request@, stale_ttl),
{
    let response = item.resp.clone_with_id_and_record_ttl(request.id, stale_ttl);
    restore_cached_message(item, request, response)
}

/// Whether a record stands in an answer as a cached one that has aged.
pub open spec fn is_aged(
    record: RecordView,
    cached: Seq<RecordView>,
    age: u32,
    remaining_ttl: u32,
    j: int,
) -> bool {
    &&& 0 <= j < cached.len()
    &&& age < cached[j].ttl
    &&& record == (RecordView { ttl: record.ttl, ..cached[j] })
    &&& record.ttl <= remaining_ttl
    &&& record.ttl <= cached[j].ttl - age
}

pub open spec fn has_aged(
    record: RecordView,
    cached: Seq<RecordView>,
    age: u32,
    remaining_ttl: u32,
) -> bool {
    exists|j: int| is_aged(record, cached, age, remaining_ttl, j)
}

/// Whether all records stand in an answer as cached ones that have aged.
pub open spec fn all_aged(
    records: Seq<RecordView>,
    cached: Seq<RecordView>,
    age: u32,
    remaining_ttl: u32,
) -> bool {
    forall|i: int|
        0 <= i < records.len() ==> has_aged(#[trigger] records[i], cached, age, remaining_ttl)
}

proof fn lemma_aged_records(cached: Seq<RecordView>, age: u32, remaining_ttl: u32)
    ensures
        all_aged(with_aged_ttls(cached, age, remaining_ttl), cached, age, remaining_ttl),
{
    let records = with_aged_ttls(cached, age, remaining_ttl);
    assert forall|i: int| 0 <= i < records.len() implies has_aged(
        #[trigger] records[i],
        cached,
        age,
        remaining_ttl,
    ) by {
        let j = lemma_aged_record(cached, age, remaining_ttl, i);
        assert(is_aged(records[i], cached, age, remaining_ttl, j));
    }
}

/// No record of a fresh answer has a TTL that goes beyond the time for which the entry
/// stays fresh, or beyond what is left of the TTL that it came with. None has run out.
pub proof fn law_fresh_answer_ttls(
    cached: MessageView,
    request: MessageView,
    cache_age_ms: u64,
    remaining_ttl: u32,
)
    ensures
        ({
            let r = fresh_answer(cached, request, cache_age_ms, remaining_ttl);
            let age = age_in_secs(cache_age_ms);
            &&& all_aged(r.answers, cached.answers, age, remaining_ttl)
            &&& all_aged(r.authorities, cached.authorities, age, remaining_ttl)
            &&& all_aged(r.additionals, cached.additionals, age, remaining_ttl)
        }),
{
    let age = age_in_secs(cache_age_ms);
    lemma_aged_records(cached.answers, age, remaining_ttl);
    lemma_aged_records(cached.authorities, age, remaining_ttl);
    lemma_aged_records(cached.additionals, age, remaining_ttl);
}

/// An answer carries the question and identifier of the request, and all the answers of
/// the cached response, as long as none of these has run out.
pub proof fn law_answer_fits_request(
    cached: MessageView,
    request: MessageView,
    cache_age_ms: u64,
    remaining_ttl: u32,
)
    requires
        request.questions.len() == 1,
        forall|i: int|
            0 <= i < cached.answers.len() ==> (#[trigger] cached.answers[i]).ttl > age_in_secs(
                cache_age_ms,
            ),
    ensures
        ({
            let r = fresh_answer(cached, request, cache_age_ms, remaining_ttl);
            &&& r.id == request.id
            &&& r.questions == request.questions
            &&& r.rcode == cached.rcode
            &&& r.message_type == MessageType::Response
            &&& r.answers.len() == cached.answers.len()
            &&& forall|i: int|
                0 <= i < cached.answers.len() ==> (#[trigger] r.answers[i]).data
                    == cached.answers[i].data && r.answers[i].name == cached.answers[i].name
        }),
{
    assert(seq![request.questions[0]] =~= request.questions);
    lemma_all_aged(cached.answers, age_in_secs(cache_age_ms), remaining_ttl);
}

} // verus!
