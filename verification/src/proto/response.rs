//! What a response says about the question it answers.

use vstd::prelude::*;

use crate::proto::message::{
    DNSClass, Message, MessageView, Question, QuestionView, RData, RDataView, Rcode, Record,
    RecordType, RecordView, record_views,
};
use crate::proto::name::{lower_wire, Name};

verus! {

/// The two ways in which a response denies.
#[derive(Debug, Clone, Copy, PartialEq, Eq, Structural)]
pub enum NegativeResponseKind {
    NxDomain,
    NoData,
}

/// What a response says about its question.
#[derive(Debug, Clone, Copy, PartialEq, Eq, Structural)]
pub enum ResponseDisposition {
    /// The requested records are there, directly or behind aliases.
    CompletePositive,
    /// The name or the requested records do not exist.
    DefinitiveNegative(NegativeResponseKind),
    /// An alias without the records it leads to.
    IncompleteAlias,
    /// Anything else.
    Other,
}

impl ResponseDisposition {
    pub open spec fn spec_is_complete_positive(self) -> bool {
        self == ResponseDisposition::CompletePositive
    }

    /// Whether the question is answered in full.
    pub fn is_complete_positive(self) -> (r: bool)
        ensures
            r == self.spec_is_complete_positive(),
    {
        match self {
            ResponseDisposition::CompletePositive => true,
            _ => false,
        }
    }

    /// What is denied, where something is.
    pub fn negative_kind(self) -> (r: Option<NegativeResponseKind>)
        ensures
            r == (match self {
                ResponseDisposition::DefinitiveNegative(kind) => Some(kind),
                _ => None::<NegativeResponseKind>,
            }),
    {
        match self {
            ResponseDisposition::DefinitiveNegative(kind) => Some(kind),
            _ => None,
        }
    }
}

/// Whether `r` is a record of the given type and class owned by `owner`, a
/// name in lower case.
pub open spec fn is_record_of(r: RecordView, owner: Seq<u8>, rtype: RecordType, class: DNSClass) -> bool {
    lower_wire(r.name) == owner && r.class == class && r.data.rtype() == rtype
}

/// Whether `records` holds a record of the given owner, type and class.
pub open spec fn has_record(
    records: Seq<RecordView>,
    owner: Seq<u8>,
    rtype: RecordType,
    class: DNSClass,
) -> bool {
    exists|i: int| 0 <= i < records.len() && is_record_of(#[trigger] records[i], owner, rtype, class)
}

/// The target of the first alias of `owner` in `records`.
pub open spec fn alias_of(records: Seq<RecordView>, owner: Seq<u8>, class: DNSClass) -> Option<Seq<u8>>
    decreases records.len(),
{
    if records.len() == 0 {
        None
    } else {
        match records[0].data {
            RDataView::CNAME(target) if lower_wire(records[0].name) == owner && records[0].class
                == class => Some(target),
            _ => alias_of(records.skip(1), owner, class),
        }
    }
}

/// Whether following at most `hops` aliases from `owner` leads to a record of
/// the given type and class.
pub open spec fn leads_to_record(
    records: Seq<RecordView>,
    owner: Seq<u8>,
    rtype: RecordType,
    class: DNSClass,
    hops: nat,
) -> bool
    decreases hops,
{
    has_record(records, owner, rtype, class) || (hops > 0 && match alias_of(records, owner, class) {
        Some(target) => leads_to_record(records, lower_wire(target), rtype, class, (hops - 1) as nat),
        None => false,
    })
}

/// Whether `records` holds a start-of-authority record of the class.
pub open spec fn has_soa(records: Seq<RecordView>, class: DNSClass) -> bool {
    exists|i: int| 0 <= i < records.len() && (#[trigger] records[i]).class == class && records[i].data is SOA
}

/// What a response without error says about `q`.
pub open spec fn noerror_disposition(m: MessageView, q: QuestionView) -> ResponseDisposition {
    let owner = lower_wire(q.name);
    if m.answers.len() == 0 {
        ResponseDisposition::DefinitiveNegative(NegativeResponseKind::NoData)
    } else if q.qtype == RecordType::ANY {
        ResponseDisposition::CompletePositive
    } else if leads_to_record(m.answers, owner, q.qtype, q.qclass, m.answers.len()) {
        ResponseDisposition::CompletePositive
    } else if has_soa(m.authorities, q.qclass) {
        ResponseDisposition::DefinitiveNegative(NegativeResponseKind::NoData)
    } else if alias_of(m.answers, owner, q.qclass) is Some {
        ResponseDisposition::IncompleteAlias
    } else {
        ResponseDisposition::Other
    }
}

/// What the response `m` says about the question, when one is given.
pub open spec fn disposition(m: MessageView, q: Option<QuestionView>) -> ResponseDisposition {
    if m.rcode == Rcode::NXDomain {
        ResponseDisposition::DefinitiveNegative(NegativeResponseKind::NxDomain)
    } else if m.rcode != Rcode::NoError {
        ResponseDisposition::Other
    } else {
        match q {
            Some(q) => noerror_disposition(m, q),
            None => if m.answers.len() == 0 {
                ResponseDisposition::DefinitiveNegative(NegativeResponseKind::NoData)
            } else {
                ResponseDisposition::CompletePositive
            },
        }
    }
}

/// The view of an optional question.
pub open spec fn optional_question(q: Option<&Question>) -> Option<QuestionView> {
    match q {
        Some(q) => Some(q@),
        None => None,
    }
}

fn find_record(records: &Vec<Record>, owner: &Name, rtype: RecordType, class: DNSClass) -> (r: bool)
    requires
        lower_wire(owner@) == owner@,
    ensures
        r == has_record(record_views(records@), owner@, rtype, class),
{
    let mut i: usize = 0;
    while i < records.len()
        invariant
            i <= records@.len(),
            lower_wire(owner@) == owner@,
            forall|k: int|
                0 <= k < i ==> !is_record_of(#[trigger] record_views(records@)[k], owner@, rtype, class),
        decreases records@.len() - i,
    {
        let rec = &records[i];
        if rec.class == class && rec.data.rtype() == rtype && rec.name.same_ignoring_case(owner) {
            assert(is_record_of(record_views(records@)[i as int], owner@, rtype, class));
            return true;
        }
        i = i + 1;
    }
    false
}

fn find_alias(records: &Vec<Record>, owner: &Name, class: DNSClass) -> (r: Option<Name>)
    requires
        lower_wire(owner@) == owner@,
    ensures
        match r {
            Some(target) => alias_of(record_views(records@), owner@, class) == Some(target@),
            None => alias_of(record_views(records@), owner@, class) is None,
        },
{
    let ghost all = record_views(records@);
    let mut i: usize = 0;
    assert(all.skip(0) =~= all);
    while i < records.len()
        invariant
            i <= records@.len(),
            all == record_views(records@),
            lower_wire(owner@) == owner@,
            alias_of(all, owner@, class) == alias_of(all.skip(i as int), owner@, class),
        decreases records@.len() - i,
    {
        let rec = &records[i];
        assert(all.skip(i as int)[0] == rec@);
        assert(all.skip(i as int).skip(1) =~= all.skip(i + 1));
        if let RData::CNAME(target) = &rec.data {
            if rec.class == class && rec.name.same_ignoring_case(owner) {
                return Some(target.copy());
            }
        }
        i = i + 1;
    }
    None
}

fn find_soa(records: &Vec<Record>, class: DNSClass) -> (r: bool)
    ensures
        r == has_soa(record_views(records@), class),
{
    let mut i: usize = 0;
    while i < records.len()
        invariant
            i <= records@.len(),
            forall|k: int|
                0 <= k < i ==> !((#[trigger] record_views(records@)[k]).class == class && record_views(
                    records@,
                )[k].data is SOA),
        decreases records@.len() - i,
    {
        if let RData::SOA(_) = &records[i].data {
            if records[i].class == class {
                assert(record_views(records@)[i as int].data is SOA);
                return true;
            }
        }
        i = i + 1;
    }
    false
}

/// What `response` says about `question`.
pub fn classify_response(response: &Message, question: Option<&Question>) -> (r: ResponseDisposition)
    ensures
        r == disposition(response@, optional_question(question)),
{
    match response.rcode {
        Rcode::NXDomain => {
            return ResponseDisposition::DefinitiveNegative(NegativeResponseKind::NxDomain);
        },
        Rcode::NoError => {},
        _ => {
            return ResponseDisposition::Other;
        },
    }
    if response.answers.len() == 0 {
        return ResponseDisposition::DefinitiveNegative(NegativeResponseKind::NoData);
    }
    let q = match question {
        Some(q) => q,
        None => {
            return ResponseDisposition::CompletePositive;
        },
    };
    if q.qtype == RecordType::ANY {
        return ResponseDisposition::CompletePositive;
    }
    let ghost all = response@.answers;
    let mut owner = q.name.to_lowercase();
    assert(lower_wire(owner@) =~= owner@);
    let ghost start = owner@;
    let aliased = find_alias(&response.answers, &owner, q.qclass).is_some();
    let mut hops: usize = response.answers.len();
    let mut open = true;
    while open
        invariant
            all == record_views(response.answers@),
            lower_wire(owner@) == owner@,
            open ==> leads_to_record(all, start, q.qtype, q.qclass, all.len()) == leads_to_record(
                all,
                owner@,
                q.qtype,
                q.qclass,
                hops as nat,
            ),
            !open ==> !leads_to_record(all, start, q.qtype, q.qclass, all.len()),
            start == lower_wire(q.name@),
            response@.rcode == Rcode::NoError,
            response@.answers == all,
            all.len() > 0,
            q.qtype != RecordType::ANY,
            optional_question(question) == Some(q@),
        decreases hops + (if open { 1int } else { 0int }),
    {
        if find_record(&response.answers, &owner, q.qtype, q.qclass) {
            return ResponseDisposition::CompletePositive;
        }
        match find_alias(&response.answers, &owner, q.qclass) {
            Some(target) if hops > 0 => {
                owner = target.to_lowercase();
                assert(lower_wire(owner@) =~= owner@);
                hops = hops - 1;
            },
            _ => {
                open = false;
            },
        }
    }
    if find_soa(&response.authorities, q.qclass) {
        ResponseDisposition::DefinitiveNegative(NegativeResponseKind::NoData)
    } else if aliased {
        ResponseDisposition::IncompleteAlias
    } else {
        ResponseDisposition::Other
    }
}

} // verus!
