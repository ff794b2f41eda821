//! What holds of records and of what responses say.

use vstd::prelude::*;

use crate::proto::message::{
    first_subnet, min_ttl, record_addr, DNSClass, EdnsOptionView, IpAddr, MessageView, QuestionView,
    RDataView, Rcode, RecordType, RecordView,
};
use crate::proto::name::{
    dotted_text, fqdn_text, label_text, lower_wire, name_text, next_octet, octet_text, parse_labels,
};
use crate::proto::response::{
    alias_of, disposition, has_record, is_record_of, leads_to_record, NegativeResponseKind,
    ResponseDisposition,
};

verus! {

/// Whether a TTL is the smallest of some records: no record has a smaller one, and one of
/// them has it.
pub open spec fn is_smallest_ttl(records: Seq<RecordView>, t: u32) -> bool {
    &&& forall|i: int| 0 <= i < records.len() ==> t <= (#[trigger] records[i]).ttl
    &&& exists|i: int| 0 <= i < records.len() && (#[trigger] records[i]).ttl == t
}

/// The smallest TTL of records is one that some record has and that no record undercuts;
/// there is one wherever there are records.
pub proof fn law_smallest_ttl(records: Seq<RecordView>)
    ensures
        min_ttl(records) is None <==> records.len() == 0,
        min_ttl(records) matches Some(t) ==> is_smallest_ttl(records, t),
    decreases records.len(),
{
    if records.len() > 0 {
        let init = records.drop_last();
        law_smallest_ttl(init);
        let t = min_ttl(records)->0;
        assert forall|i: int| 0 <= i < records.len() implies t <= (#[trigger] records[i]).ttl by {
            if i < init.len() {
                assert(init[i] == records[i]);
            }
        }
        if init.len() > 0 {
            let k = choose|k: int|
                0 <= k < init.len() && (#[trigger] init[k]).ttl == min_ttl(init)->0;
            assert(records[k] == init[k]);
        }
        let last = records.len() - 1;
        assert(records[last] == records.last());
        assert(exists|i: int| 0 <= i < records.len() && (#[trigger] records[i]).ttl == t);
    }
}

/// A response denies the name exactly where its code says so. A response with another code
/// than success says nothing else.
pub proof fn law_codes_of_responses(m: MessageView, q: Option<QuestionView>)
    ensures
        disposition(m, q) == ResponseDisposition::DefinitiveNegative(NegativeResponseKind::NxDomain)
            <==> m.rcode == Rcode::NXDomain,
        m.rcode != Rcode::NXDomain && m.rcode != Rcode::NoError ==> disposition(m, q)
            == ResponseDisposition::Other,
{
}

/// A response without error and without answers denies the records, and only an answer or
/// the start of a zone's authority can decide otherwise: a positive response has answers.
pub proof fn law_empty_response_denies(m: MessageView, q: Option<QuestionView>)
    ensures
        m.rcode == Rcode::NoError && m.answers.len() == 0 ==> disposition(m, q)
            == ResponseDisposition::DefinitiveNegative(NegativeResponseKind::NoData),
        disposition(m, q) == ResponseDisposition::CompletePositive ==> m.rcode == Rcode::NoError
            && m.answers.len() > 0,
        disposition(m, q) == ResponseDisposition::IncompleteAlias ==> m.rcode == Rcode::NoError
            && m.answers.len() > 0 && q is Some,
{
}

/// A record of the name, type and class that are asked for answers a question, whatever
/// the case of the letters and whatever else is in the response.
pub proof fn law_record_answers(m: MessageView, q: QuestionView, i: int)
    requires
        m.rcode == Rcode::NoError,
        0 <= i < m.answers.len(),
        lower_wire(m.answers[i].name) == lower_wire(q.name),
        m.answers[i].class == q.qclass,
        m.answers[i].data.rtype() == q.qtype,
    ensures
        disposition(m, Some(q)) == ResponseDisposition::CompletePositive,
{
    assert(is_record_of(m.answers[i], lower_wire(q.name), q.qtype, q.qclass));
}

/// Whether a record is an alias from one name to another, in lower case.
pub open spec fn is_alias(r: RecordView, from: Seq<u8>, to: Seq<u8>, class: DNSClass) -> bool {
    &&& r.class == class
    &&& lower_wire(r.name) == from
    &&& match r.data {
        RDataView::CNAME(target) => lower_wire(target) == to,
        _ => false,
    }
}

/// Whether some record is an alias from one name to another, in lower case.
pub open spec fn has_alias(
    records: Seq<RecordView>,
    from: Seq<u8>,
    to: Seq<u8>,
    class: DNSClass,
) -> bool {
    exists|i: int| 0 <= i < records.len() && is_alias(#[trigger] records[i], from, to, class)
}

/// Whether names are a chain of aliases in some records.
pub open spec fn is_chain(records: Seq<RecordView>, names: Seq<Seq<u8>>, class: DNSClass) -> bool {
    &&& names.len() > 0
    &&& forall|k: int|
        0 <= k < names.len() - 1 ==> has_alias(
            records,
            #[trigger] names[k],
            names[k + 1],
            class,
        )
}

/// Whether a record of the type and class is behind a chain of aliases from the name.
pub open spec fn behind_chain(
    records: Seq<RecordView>,
    names: Seq<Seq<u8>>,
    q: QuestionView,
) -> bool {
    &&& is_chain(records, names, q.qclass)
    &&& names[0] == lower_wire(q.name)
    &&& exists|i: int|
        0 <= i < records.len() && lower_wire((#[trigger] records[i]).name) == names.last()
            && records[i].class == q.qclass && records[i].data.rtype() == q.qtype
}

proof fn lemma_alias_is_there(records: Seq<RecordView>, owner: Seq<u8>, class: DNSClass)
    ensures
        alias_of(records, owner, class) matches Some(t) ==> has_alias(
            records,
            owner,
            lower_wire(t),
            class,
        ),
        alias_of(records, owner, class) is None ==> forall|to: Seq<u8>|
            !has_alias(records, owner, to, class),
    decreases records.len(),
{
    if records.len() > 0 {
        let rest = records.skip(1);
        lemma_alias_is_there(rest, owner, class);
        let found = match records[0].data {
            RDataView::CNAME(_) => lower_wire(records[0].name) == owner && records[0].class
                == class,
            _ => false,
        };
        if found {
            let t = alias_of(records, owner, class)->0;
            assert(is_alias(records[0], owner, lower_wire(t), class));
        } else {
            if let Some(t) = alias_of(rest, owner, class) {
                let i = choose|i: int|
                    0 <= i < rest.len() && is_alias(
                        #[trigger] rest[i],
                        owner,
                        lower_wire(t),
                        class,
                    );
                assert(records[i + 1] == rest[i]);
            } else {
                assert forall|to: Seq<u8>| !has_alias(records, owner, to, class) by {
                    if has_alias(records, owner, to, class) {
                        let i = choose|i: int|
                            0 <= i < records.len() && is_alias(
                                #[trigger] records[i],
                                owner,
                                to,
                                class,
                            );
                        assert(rest[i - 1] == records[i]);
                        assert(has_alias(rest, owner, to, class));
                    }
                }
            }
        }
    }
}

proof fn lemma_chain_found(
    records: Seq<RecordView>,
    owner: Seq<u8>,
    rtype: RecordType,
    class: DNSClass,
    hops: nat,
) -> (names: Seq<Seq<u8>>)
    requires
        leads_to_record(records, owner, rtype, class, hops),
    ensures
        is_chain(records, names, class),
        names[0] == owner,
        has_record(records, names.last(), rtype, class),
    decreases hops,
{
    if has_record(records, owner, rtype, class) {
        seq![owner]
    } else {
        lemma_alias_is_there(records, owner, class);
        let target = lower_wire(alias_of(records, owner, class)->0);
        let rest = lemma_chain_found(records, target, rtype, class, (hops - 1) as nat);
        let names = seq![owner] + rest;
        assert forall|k: int| 0 <= k < names.len() - 1 implies has_alias(
            records,
            #[trigger] names[k],
            names[k + 1],
            class,
        ) by {
            if k > 0 {
                assert(names[k] == rest[k - 1]);
                assert(names[k + 1] == rest[k]);
            } else {
                assert(names[1] == rest[0]);
            }
        }
        assert(names.last() == rest.last());
        names
    }
}

/// A positive response to a question of one type holds a record of that type: under the
/// name itself or behind a chain of aliases from it.
pub proof fn law_positive_response_answers(m: MessageView, q: QuestionView)
    requires
        q.qtype != RecordType::ANY,
        disposition(m, Some(q)) == ResponseDisposition::CompletePositive,
    ensures
        exists|names: Seq<Seq<u8>>| behind_chain(m.answers, names, q),
{
    let names = lemma_chain_found(
        m.answers,
        lower_wire(q.name),
        q.qtype,
        q.qclass,
        m.answers.len(),
    );
    let i = choose|i: int|
        0 <= i < m.answers.len() && is_record_of(
            #[trigger] m.answers[i],
            names.last(),
            q.qtype,
            q.qclass,
        );
    assert(lower_wire(m.answers[i].name) == names.last());
    assert(behind_chain(m.answers, names, q));
}

/// Whether no name has two aliases.
pub open spec fn aliases_unique(records: Seq<RecordView>, class: DNSClass) -> bool {
    forall|from: Seq<u8>, a: Seq<u8>, b: Seq<u8>|
        #![trigger has_alias(records, from, a, class), has_alias(records, from, b, class)]
        has_alias(records, from, a, class) && has_alias(records, from, b, class) ==> a == b
}

proof fn lemma_chain_leads(
    records: Seq<RecordView>,
    names: Seq<Seq<u8>>,
    rtype: RecordType,
    class: DNSClass,
    hops: nat,
)
    requires
        aliases_unique(records, class),
        is_chain(records, names, class),
        names.len() <= hops + 1,
        has_record(records, names.last(), rtype, class),
    ensures
        leads_to_record(records, names[0], rtype, class, hops),
    decreases names.len(),
{
    if names.len() > 1 {
        lemma_alias_is_there(records, names[0], class);
        assert(has_alias(records, names[0], names[1], class));
        let target = alias_of(records, names[0], class)->0;
        assert(has_alias(records, names[0], lower_wire(target), class));
        let rest = names.skip(1);
        assert forall|k: int| 0 <= k < rest.len() - 1 implies has_alias(
            records,
            #[trigger] rest[k],
            rest[k + 1],
            class,
        ) by {
            assert(rest[k] == names[k + 1]);
            assert(rest[k + 1] == names[k + 2]);
        }
        assert(rest.last() == names.last());
        lemma_chain_leads(records, rest, rtype, class, (hops - 1) as nat);
    }
}

/// A record of the type that is asked for behind a chain of aliases answers the question,
/// where no name has two aliases.
pub proof fn law_chain_answers(m: MessageView, q: QuestionView, names: Seq<Seq<u8>>)
    requires
        m.rcode == Rcode::NoError,
        aliases_unique(m.answers, q.qclass),
        behind_chain(m.answers, names, q),
        names.len() <= m.answers.len() + 1,
    ensures
        disposition(m, Some(q)) == ResponseDisposition::CompletePositive,
{
    let i = choose|i: int|
        0 <= i < m.answers.len() && lower_wire((#[trigger] m.answers[i]).name) == names.last()
            && m.answers[i].class == q.qclass && m.answers[i].data.rtype() == q.qtype;
    assert(is_record_of(m.answers[i], names.last(), q.qtype, q.qclass));
    lemma_chain_leads(m.answers, names, q.qtype, q.qclass, m.answers.len());
}

/// What a response without error says where it has answers and they do not answer the
/// question: a start of authority denies the records, and without one an alias of the name
/// is an incomplete answer.
pub proof fn law_unanswered_question(m: MessageView, q: QuestionView)
    requires
        m.rcode == Rcode::NoError,
        m.answers.len() > 0,
        disposition(m, Some(q)) != ResponseDisposition::CompletePositive,
    ensures
        ({
            let soa = exists|i: int|
                0 <= i < m.authorities.len() && (#[trigger] m.authorities[i]).class == q.qclass
                    && m.authorities[i].data is SOA;
            let alias = exists|to: Seq<u8>|
                has_alias(m.answers, lower_wire(q.name), to, q.qclass);
            &&& soa ==> disposition(m, Some(q)) == ResponseDisposition::DefinitiveNegative(
                NegativeResponseKind::NoData,
            )
            &&& !soa && alias ==> disposition(m, Some(q)) == ResponseDisposition::IncompleteAlias
            &&& !soa && !alias ==> disposition(m, Some(q)) == ResponseDisposition::Other
        }),
{
    lemma_alias_is_there(m.answers, lower_wire(q.name), q.qclass);
}

/// The address of a record is that of its data: four octets or sixteen. No other record has
/// one.
pub proof fn law_address_of_record(r: RecordView)
    ensures
        match record_addr(r) {
            Some(IpAddr::V4(a)) => r.data == RDataView::A(a) && r.data.rtype() == RecordType::A,
            Some(IpAddr::V6(a)) => r.data == RDataView::AAAA(a) && r.data.rtype()
                == RecordType::AAAA,
            None => !(r.data is A) && !(r.data is AAAA),
        },
{
}

/// An octet of a label is written as the character that it is where that can be seen, with a
/// backslash before it where it would part labels or mark others, and else as a backslash and
/// three digits.
pub proof fn law_octet_in_text(b: u8)
    ensures
        33 <= b <= 126 && b != 46 && b != 92 ==> octet_text(b) == seq![b as char],
        b == 46 ==> octet_text(b) == seq!['\\', '.'],
        b == 92 ==> octet_text(b) == seq!['\\', '\\'],
        b < 33 || b > 126 ==> ({
            let t = octet_text(b);
            &&& t.len() == 4
            &&& t[0] == '\\'
            &&& '0' <= t[1] <= '9' && '0' <= t[2] <= '9' && '0' <= t[3] <= '9'
            &&& (t[1] as int - 48) * 100 + (t[2] as int - 48) * 10 + (t[3] as int - 48) == b
        }),
{
}

/// A name in text is read octet by octet, and a dot closes a label of up to sixty-three octets;
/// none may be empty.
pub proof fn law_dot_closes_label(rest: Seq<char>, label: Seq<u8>)
    ensures
        1 <= label.len() <= 63 && parse_labels(rest, Seq::empty()) is Some ==> parse_labels(
            seq!['.'] + rest,
            label,
        ) == Some(seq![label.len() as u8] + label + parse_labels(rest, Seq::empty())->0),
        label.len() == 0 || label.len() > 63 ==> parse_labels(seq!['.'] + rest, label) is None,
{
    let all = seq!['.'] + rest;
    assert(all[0] == '.');
    assert(all.skip(1) =~= rest);
}

/// Where all types are asked for, or nothing that is known, any record answers.
pub proof fn law_any_record_answers(m: MessageView, q: QuestionView)
    requires
        m.rcode == Rcode::NoError,
        m.answers.len() > 0,
    ensures
        disposition(m, None) == ResponseDisposition::CompletePositive,
        q.qtype == RecordType::ANY ==> disposition(m, Some(q))
            == ResponseDisposition::CompletePositive,
{
}

/// Three digits behind a backslash spell the octet with that number, and nothing where no octet
/// has it; another sign behind a backslash, and one without it, stands for itself.
pub proof fn law_octets_are_read(a: char, b: char, c: char, rest: Seq<char>)
    ensures
        '0' <= a <= '9' && '0' <= b <= '9' && '0' <= c <= '9' ==> ({
            let n = 100 * (a as int - 48) + 10 * (b as int - 48) + (c as int - 48);
            let read = next_octet(seq!['\\', a, b, c] + rest);
            &&& n <= 255 ==> read == Some((n as u8, 4int))
            &&& n > 255 ==> read is None
        }),
        !('0' <= a <= '9') && (a as int) < 128 ==> next_octet(seq!['\\', a] + rest) == Some(
            (a as u8, 2int),
        ),
        a != '\\' && (a as int) < 128 ==> next_octet(seq![a] + rest) == Some((a as u8, 1int)),
        a as int >= 128 ==> next_octet(seq![a] + rest) is None && next_octet(
            seq!['\\', a] + rest,
        ) is None,
        next_octet(Seq::empty()) is None,
        next_octet(seq!['\\']) is None,
{
    let numbered = seq!['\\', a, b, c] + rest;
    assert(numbered[0] == '\\' && numbered[1] == a && numbered[2] == b && numbered[3] == c);
    let marked = seq!['\\', a] + rest;
    assert(marked[0] == '\\' && marked[1] == a);
    let plain = seq![a] + rest;
    assert(plain[0] == a);
}

/// A name is written label by label with a dot behind each; the last dot is left off where the
/// name is not written in full, and the root is a dot or nothing.
pub proof fn law_labels_in_text(label: Seq<u8>, rest: Seq<u8>)
    requires
        1 <= label.len() <= 63,
    ensures
        fqdn_text(seq![label.len() as u8] + label) == label_text(label) + seq!['.'],
        name_text(seq![label.len() as u8] + label) == label_text(label),
        rest.len() > 0 ==> fqdn_text(seq![label.len() as u8] + label + rest) == label_text(label)
            + seq!['.'] + fqdn_text(rest),
        fqdn_text(Seq::empty()) == seq!['.'],
        name_text(Seq::empty()) == Seq::<char>::empty(),
        name_text(seq![label.len() as u8] + label + rest) == fqdn_text(
            seq![label.len() as u8] + label + rest,
        ).drop_last(),
{
    reveal_with_fuel(dotted_text, 2);
    let one = seq![label.len() as u8] + label;
    assert(one.subrange(1, 1 + one[0]) =~= label);
    assert(one.skip(1 + one[0] as int).len() == 0);
    assert(dotted_text(one) =~= label_text(label) + seq!['.']);
    assert((label_text(label) + seq!['.']).drop_last() =~= label_text(label));
    let all = one + rest;
    assert(all.subrange(1, 1 + all[0]) =~= label);
    assert(all.skip(1 + all[0] as int) =~= rest);
}

/// The text of a label is that of its octets, one behind the other.
pub proof fn law_octets_in_text(label: Seq<u8>, b: u8)
    ensures
        label_text(label.push(b)) == label_text(label) + octet_text(b),
        label_text(Seq::empty()) == Seq::<char>::empty(),
{
    assert(label.push(b).drop_last() =~= label);
}

/// The subnet of a request is that of its first option that gives one.
pub proof fn law_first_subnet(options: Seq<EdnsOptionView>, i: int)
    requires
        forall|j: int| 0 <= j < i && j < options.len() ==> (#[trigger] options[j]) is Other,
    ensures
        0 <= i < options.len() ==> (options[i] matches EdnsOptionView::Subnet(s) ==> first_subnet(
            options,
        ) == Some(s)),
        i >= options.len() ==> first_subnet(options) is None,
    decreases options.len(),
{
    if options.len() > 0 && i > 0 {
        let rest = options.skip(1);
        assert(options[0] is Other);
        assert forall|j: int|
            0 <= j < i - 1 && j < rest.len() implies (#[trigger] rest[j]) is Other by {
            assert(rest[j] == options[j + 1]);
        }
        law_first_subnet(rest, i - 1);
        if i < options.len() {
            assert(rest[i - 1] == options[i]);
        }
    }
}

} // verus!
