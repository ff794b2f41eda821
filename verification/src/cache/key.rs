//! Cache keys.
//!
//! A key is the question of a request together with the flags that change its
//! answer and, when keying by client subnet is enabled, the subnet. A key for
//! one request carries `(source, scope = 0)`; a key that requests share carries
//! `(source = scope)`.

use vstd::prelude::*;

use crate::proto::ecs_bits::{high_mask, kept_octet, truncate_bits, truncated};
use crate::proto::message::{
    message_subnet, ClientSubnet, DNSClass, EdnsOption, IpAddr, Message, MessageType, MessageView,
    Opcode, Question, QuestionView, RecordType,
};
use crate::proto::name::{
    dotted_text, fqdn_text, is_name, label_text, lemma_final_dot_name, lemma_fqdn_ends_with_dot,
    lemma_lower_wire_is_label_run, lemma_name_text_reads_back, lemma_name_text_start,
    lemma_parse_labels_run, lemma_root_text, lemma_same_lower_at, lemma_same_lower_char,
    lemma_same_lower_name, lower_wire, name_text, octet_text, parse_name, Name,
};
use crate::proto::wire::{addr_bits, addr_octets, family_of, octets_of};
use crate::text::{is_white, lower_text, same_text, trim, trim_end, trim_start, trimmed};

verus! {

/// The subnet part of a key. The first `network_len` octets of `network` hold
/// the significant bits of the address.
#[derive(Debug, Clone, Copy, PartialEq, Eq, Hash)]
pub struct EcsScopeDigest {
    pub family: u16,
    pub source_prefix: u8,
    pub scope_prefix: u8,
    pub network_len: u8,
    pub network: [u8; 16],
}

/// The mathematical content of an [`EcsScopeDigest`].
#[verifier::ext_equal]
pub struct EcsScopeView {
    pub family: u16,
    pub source_prefix: u8,
    pub scope_prefix: u8,
    pub network_len: u8,
    pub network: Seq<u8>,
}

impl View for EcsScopeDigest {
    type V = EcsScopeView;

    open spec fn view(&self) -> EcsScopeView {
        EcsScopeView {
            family: self.family,
            source_prefix: self.source_prefix,
            scope_prefix: self.scope_prefix,
            network_len: self.network_len,
            network: self.network@,
        }
    }
}

impl EcsScopeView {
    /// The octets that carry significant bits.
    pub open spec fn significant(self) -> Seq<u8> {
        self.network.take(self.network_len as int)
    }

    pub open spec fn wf(self) -> bool {
        self.network.len() == 16 && self.network_len <= 16
    }
}

/// A cache key.
#[derive(Debug, PartialEq, Eq, Hash)]
pub struct CacheKey {
    pub domain: String,
    pub record_type: RecordType,
    pub dns_class: DNSClass,
    pub do_bit: bool,
    pub cd_bit: bool,
    pub ecs_scope: Option<EcsScopeDigest>,
}

/// The mathematical content of a [`CacheKey`].
#[verifier::ext_equal]
pub struct CacheKeyView {
    pub domain: Seq<char>,
    pub record_type: RecordType,
    pub dns_class: DNSClass,
    pub do_bit: bool,
    pub cd_bit: bool,
    pub ecs_scope: Option<EcsScopeView>,
}

/// The view of an optional subnet part.
pub open spec fn scope_view(s: Option<EcsScopeDigest>) -> Option<EcsScopeView> {
    match s {
        Some(d) => Some(d@),
        None => None,
    }
}

impl View for CacheKey {
    type V = CacheKeyView;

    open spec fn view(&self) -> CacheKeyView {
        CacheKeyView {
            domain: self.domain@,
            record_type: self.record_type,
            dns_class: self.dns_class,
            do_bit: self.do_bit,
            cd_bit: self.cd_bit,
            ecs_scope: scope_view(self.ecs_scope),
        }
    }
}

/// The key without its subnet part: what partitions the prefix index.
#[derive(Debug, PartialEq, Eq, Hash)]
pub struct EcsBaseKey {
    pub domain: String,
    pub record_type: RecordType,
    pub dns_class: DNSClass,
    pub do_bit: bool,
    pub cd_bit: bool,
}

/// The mathematical content of an [`EcsBaseKey`].
pub struct EcsBaseView {
    pub domain: Seq<char>,
    pub record_type: RecordType,
    pub dns_class: DNSClass,
    pub do_bit: bool,
    pub cd_bit: bool,
}

impl View for EcsBaseKey {
    type V = EcsBaseView;

    open spec fn view(&self) -> EcsBaseView {
        EcsBaseView {
            domain: self.domain@,
            record_type: self.record_type,
            dns_class: self.dns_class,
            do_bit: self.do_bit,
            cd_bit: self.cd_bit,
        }
    }
}

impl EcsBaseKey {
    /// A key without its subnet part.
    pub fn from_cache_key(key: &CacheKey) -> (r: EcsBaseKey)
        ensures
            r@ == key@.base(),
    {
        EcsBaseKey {
            domain: key.domain.clone(),
            record_type: key.record_type,
            dns_class: key.dns_class,
            do_bit: key.do_bit,
            cd_bit: key.cd_bit,
        }
    }
}

/// `significant` followed by zero octets, sixteen octets in all.
pub open spec fn padded16(significant: Seq<u8>) -> Seq<u8> {
    Seq::new(
        16,
        |i: int|
            if i < significant.len() {
                significant[i]
            } else {
                0u8
            },
    )
}

/// The smaller of two prefix lengths.
pub open spec fn min_u8(a: u8, b: u8) -> u8 {
    if a <= b {
        a
    } else {
        b
    }
}

/// The subnet part that requests within the first `prefix` bits share.
pub open spec fn scoped_ecs(e: EcsScopeView, prefix: u8) -> EcsScopeView {
    let p = min_u8(prefix, e.source_prefix);
    let cut = truncated(e.significant(), p);
    EcsScopeView {
        family: e.family,
        source_prefix: p,
        scope_prefix: p,
        network_len: cut.len() as u8,
        network: padded16(cut),
    }
}

impl CacheKeyView {
    pub open spec fn wf(self) -> bool {
        self.ecs_scope matches Some(e) ==> e.wf()
    }

    /// The key without its subnet part.
    pub open spec fn base(self) -> EcsBaseView {
        EcsBaseView {
            domain: self.domain,
            record_type: self.record_type,
            dns_class: self.dns_class,
            do_bit: self.do_bit,
            cd_bit: self.cd_bit,
        }
    }

    /// The key that requests within the first `prefix` bits of the subnet share.
    pub open spec fn scoped(self, prefix: u8) -> CacheKeyView {
        match self.ecs_scope {
            Some(e) => CacheKeyView { ecs_scope: Some(scoped_ecs(e, prefix)), ..self },
            None => self,
        }
    }

    /// Whether the key is shared by all requests within its subnet.
    pub open spec fn reusable(self) -> bool {
        self.ecs_scope matches Some(e) && e.source_prefix == e.scope_prefix
    }
}

/// The text of a name in a key: lower case, without the final dot; `.` for the
/// root.
pub open spec fn domain_text(w: Seq<u8>) -> Seq<char> {
    if w.len() == 0 {
        seq!['.']
    } else {
        name_text(lower_wire(w))
    }
}

/// The key text that the given text stands for, when it is a name.
pub open spec fn canonical_domain(raw: Seq<char>) -> Option<Seq<char>> {
    let t = trim(raw);
    if t.len() == 0 {
        None
    } else {
        match parse_name(t) {
            Some(w) => Some(domain_text(w)),
            None => None,
        }
    }
}

/// The normalized form of a text that need not be a name.
pub open spec fn normalized_domain(raw: Seq<char>) -> Seq<char> {
    match canonical_domain(raw) {
        Some(d) => d,
        None => lower_text(trim(raw)),
    }
}

/// The question that a key stands for.
pub open spec fn key_question(k: CacheKeyView) -> Option<QuestionView> {
    match parse_name(k.domain) {
        Some(w) => Some(QuestionView { name: w, qtype: k.record_type, qclass: k.dns_class }),
        None => None,
    }
}

/// Whether the prefixes of a subnet fit its address family.
pub open spec fn ecs_prefixes_valid(s: ClientSubnet) -> bool {
    s.source_prefix <= addr_bits(s.addr) && s.scope_prefix <= addr_bits(s.addr)
}

/// Whether a subnet may stand in a request.
pub open spec fn request_ecs_valid(s: ClientSubnet) -> bool {
    ecs_prefixes_valid(s) && s.scope_prefix == 0
}

/// The longest prefix of an address family, as a prefix length.
pub open spec fn max_prefix(a: IpAddr) -> u8 {
    match a {
        IpAddr::V4(_) => 32,
        IpAddr::V6(_) => 128,
    }
}

/// The subnet part that a client subnet stands for.
pub open spec fn digest_of(s: ClientSubnet) -> EcsScopeView {
    let source = min_u8(s.source_prefix, max_prefix(s.addr));
    let cut = truncated(addr_octets(s.addr), source);
    EcsScopeView {
        family: family_of(s.addr),
        source_prefix: source,
        scope_prefix: min_u8(s.scope_prefix, max_prefix(s.addr)),
        network_len: cut.len() as u8,
        network: padded16(cut),
    }
}

/// Whether a request may be answered from the cache: an ordinary unsigned query
/// with one question and no EDNS option but a client subnet.
pub open spec fn cacheable_request(m: MessageView) -> bool {
    &&& m.message_type == MessageType::Query
    &&& m.opcode == Opcode::Query
    &&& m.questions.len() == 1
    &&& m.signature.len() == 0
    &&& match m.edns {
        None => true,
        Some(e) => e.version == 0 && forall|i: int|
            0 <= i < e.options.len() ==> (#[trigger] e.options[i]) is Subnet,
    }
}

/// Whether a request carries a subnet that a request may not carry.
pub open spec fn has_invalid_ecs(m: MessageView) -> bool {
    message_subnet(m) matches Some(s) && !request_ecs_valid(s)
}

/// The key of a request. A request with a subnet that it may not carry has none, whether or
/// not subnets are part of keys. Where they are not, a request with a valid subnet has the
/// key of one without.
pub open spec fn request_key(m: MessageView, ecs_in_key: bool) -> Option<CacheKeyView> {
    if !cacheable_request(m) || has_invalid_ecs(m) {
        None
    } else {
        Some(
            CacheKeyView {
                domain: domain_text(m.questions[0].name),
                record_type: m.questions[0].qtype,
                dns_class: m.questions[0].qclass,
                do_bit: m.edns matches Some(e) && e.dnssec_ok,
                cd_bit: m.checking_disabled,
                ecs_scope: match message_subnet(m) {
                    Some(s) if ecs_in_key => Some(digest_of(s)),
                    _ => None,
                },
            },
        )
    }
}

/// Whether a response subnet answers the subnet of the key: same family, same
/// source prefix, same significant octets.
pub open spec fn same_source(request: EcsScopeView, response: EcsScopeView) -> bool {
    response.family == request.family && response.source_prefix == request.source_prefix
        && response.network_len == request.network_len && response.significant()
        == request.significant()
}

/// The key under which a response to `key` is stored.
pub open spec fn response_key(key: CacheKeyView, m: MessageView) -> Option<CacheKeyView> {
    match (key.ecs_scope, message_subnet(m)) {
        (None, None) => Some(key),
        (None, Some(_)) => None,
        (Some(_), None) => Some(key),
        (Some(request), Some(s)) => {
            let response = digest_of(s);
            if !ecs_prefixes_valid(s) || !same_source(request, response) {
                None
            } else if response.scope_prefix > request.source_prefix {
                if request.source_prefix == 0 {
                    None
                } else {
                    Some(key)
                }
            } else {
                Some(key.scoped(response.scope_prefix))
            }
        },
    }
}

/// Whether the first `prefix` bits of two networks agree.
pub open spec fn same_prefix(a: Seq<u8>, b: Seq<u8>, prefix: u8) -> bool {
    truncated(a, prefix) == truncated(b, prefix)
}

/// Whether a stored key and the subnet of its response belong together.
pub open spec fn stored_key_matches(key: CacheKeyView, m: MessageView) -> bool {
    match (key.ecs_scope, message_subnet(m)) {
        (None, None) => true,
        (None, Some(_)) => false,
        (Some(k), None) => k.scope_prefix == 0,
        (Some(k), Some(s)) => {
            let response = digest_of(s);
            &&& ecs_prefixes_valid(s)
            &&& response.family == k.family
            &&& if k.source_prefix == 0 && k.scope_prefix == 0 && k.network_len == 0
                && response.scope_prefix == 0 {
                true
            } else if k.scope_prefix == 0 {
                &&& k.source_prefix != 0
                &&& response.source_prefix == k.source_prefix
                &&& response.scope_prefix > k.source_prefix
                &&& same_prefix(k.network, response.network, k.source_prefix)
            } else {
                &&& response.scope_prefix == k.scope_prefix
                &&& k.source_prefix == k.scope_prefix
                &&& response.source_prefix >= k.source_prefix
                &&& same_prefix(k.network, response.network, k.source_prefix)
            }
        },
    }
}

/// Whether the fields are those of a key's subnet part: the prefixes fit the
/// family, the scope is zero or the source, and the network holds exactly the
/// source bits.
pub open spec fn canonical_ecs(family: u16, source: u8, scope: u8, network: Seq<u8>) -> bool {
    &&& family == 1 && source <= 32 || family == 2 && source <= 128
    &&& scope == 0 || scope == source
    &&& network.len() == (source + 7) / 8
    &&& truncated(network, source) == network
}

// ---------------------------------------------------------------------------
// Laws

proof fn lemma_octet_text_visible(b: u8)
    ensures
        forall|i: int| 0 <= i < octet_text(b).len() ==> !is_white(#[trigger] octet_text(b)[i]),
        octet_text(b).len() > 0,
{
}

proof fn lemma_label_text_visible(label: Seq<u8>)
    ensures
        forall|i: int| 0 <= i < label_text(label).len() ==> !is_white(#[trigger] label_text(label)[i]),
        label.len() > 0 ==> label_text(label).len() > 0,
    decreases label.len(),
{
    if label.len() > 0 {
        let init = label_text(label.drop_last());
        let last = octet_text(label.last());
        lemma_label_text_visible(label.drop_last());
        lemma_octet_text_visible(label.last());
        assert forall|i: int| 0 <= i < label_text(label).len() implies !is_white(
            #[trigger] label_text(label)[i],
        ) by {
            if i < init.len() {
                assert(label_text(label)[i] == init[i]);
            } else {
                assert(label_text(label)[i] == last[i - init.len()]);
            }
        }
    }
}

proof fn lemma_dotted_text_visible(w: Seq<u8>)
    ensures
        forall|i: int| 0 <= i < dotted_text(w).len() ==> !is_white(#[trigger] dotted_text(w)[i]),
    decreases w.len(),
{
    if w.len() == 0 || 1 + w[0] > w.len() {
    } else {
        let head = label_text(w.subrange(1, 1 + w[0]));
        let tail = dotted_text(w.skip(1 + w[0] as int));
        lemma_label_text_visible(w.subrange(1, 1 + w[0]));
        lemma_dotted_text_visible(w.skip(1 + w[0] as int));
        assert forall|i: int| 0 <= i < dotted_text(w).len() implies !is_white(
            #[trigger] dotted_text(w)[i],
        ) by {
            if i < head.len() {
                assert(dotted_text(w)[i] == head[i]);
            } else if i == head.len() {
                assert(dotted_text(w)[i] == '.');
            } else {
                assert(dotted_text(w)[i] == tail[i - head.len() - 1]);
            }
        }
    }
}

/// Normalizing a key text gives that text again.
pub proof fn law_canonical_domain_idempotent(w: Seq<u8>)
    requires
        is_name(w),
    ensures
        canonical_domain(domain_text(w)) == Some(domain_text(w)),
{
    let d = domain_text(w);
    let l = lower_wire(w);
    if w.len() == 0 {
        assert(trim_start(d) =~= d);
        assert(trim_end(d) =~= d);
    } else {
        lemma_lower_wire_is_label_run(w);
        lemma_name_text_reads_back(l);
        lemma_dotted_text_visible(l);
        assert(parse_name(d) == Some(l));
        assert(d.len() > 0) by {
            if d.len() == 0 {
                assert(d =~= Seq::empty());
            }
        }
        assert(d[0] == dotted_text(l)[0]);
        assert(d.last() == dotted_text(l)[d.len() - 1]);
        assert(trim_start(d) == d);
        assert(trim_end(d) == d);
        assert(lower_wire(l) =~= l);
    }
}

proof fn lemma_trim_start_all(before: Seq<char>, s: Seq<char>)
    requires
        forall|i: int| 0 <= i < before.len() ==> is_white(#[trigger] before[i]),
    ensures
        trim_start(before + s) == trim_start(s),
    decreases before.len(),
{
    if before.len() > 0 {
        assert((before + s)[0] == before[0]);
        assert((before + s).skip(1) =~= before.skip(1) + s);
        lemma_trim_start_all(before.skip(1), s);
    } else {
        assert(before + s =~= s);
    }
}

proof fn lemma_trim_end_all(s: Seq<char>, behind: Seq<char>)
    requires
        forall|i: int| 0 <= i < behind.len() ==> is_white(#[trigger] behind[i]),
    ensures
        trim_end(s + behind) == trim_end(s),
    decreases behind.len(),
{
    if behind.len() > 0 {
        assert((s + behind).last() == behind.last());
        assert((s + behind).drop_last() =~= s + behind.drop_last());
        lemma_trim_end_all(s, behind.drop_last());
    } else {
        assert(s + behind =~= s);
    }
}

/// Blanks behind a text that is not all blank do not matter to its start.
proof fn lemma_trim_start_behind(s: Seq<char>, behind: Seq<char>)
    requires
        forall|i: int| 0 <= i < behind.len() ==> is_white(#[trigger] behind[i]),
    ensures
        trim_start(s).len() > 0 ==> trim_start(s + behind) == trim_start(s) + behind,
        trim_start(s).len() == 0 ==> trim_start(s + behind).len() == 0,
    decreases s.len(),
{
    if s.len() == 0 {
        assert(s + behind =~= behind + Seq::<char>::empty());
        lemma_trim_start_all(behind, Seq::empty());
    } else {
        assert((s + behind)[0] == s[0]);
        if is_white(s[0]) {
            assert((s + behind).skip(1) =~= s.skip(1) + behind);
            lemma_trim_start_behind(s.skip(1), behind);
        }
    }
}

proof fn lemma_trim_around(before: Seq<char>, raw: Seq<char>, behind: Seq<char>)
    requires
        forall|i: int| 0 <= i < before.len() ==> is_white(#[trigger] before[i]),
        forall|i: int| 0 <= i < behind.len() ==> is_white(#[trigger] behind[i]),
    ensures
        trim(before + raw + behind) == trim(raw),
{
    assert(before + raw + behind =~= before + (raw + behind));
    lemma_trim_start_all(before, raw + behind);
    lemma_trim_start_behind(raw, behind);
    if trim_start(raw).len() > 0 {
        lemma_trim_end_all(trim_start(raw), behind);
    } else {
        assert(trim_start(raw + behind) =~= trim_start(raw));
    }
}

proof fn lemma_lower_trim_start(a: Seq<char>, b: Seq<char>)
    requires
        lower_text(a) == lower_text(b),
    ensures
        lower_text(trim_start(a)) == lower_text(trim_start(b)),
    decreases a.len(),
{
    assert(a.len() == lower_text(a).len() && b.len() == lower_text(b).len());
    if a.len() > 0 {
        lemma_same_lower_at(a, b, 0);
        lemma_same_lower_char(a[0], b[0]);
        assert(lower_text(a.skip(1)) =~= lower_text(a).skip(1));
        assert(lower_text(b.skip(1)) =~= lower_text(b).skip(1));
        lemma_lower_trim_start(a.skip(1), b.skip(1));
    }
}

proof fn lemma_lower_trim_end(a: Seq<char>, b: Seq<char>)
    requires
        lower_text(a) == lower_text(b),
    ensures
        lower_text(trim_end(a)) == lower_text(trim_end(b)),
    decreases a.len(),
{
    assert(a.len() == lower_text(a).len() && b.len() == lower_text(b).len());
    if a.len() > 0 {
        lemma_same_lower_at(a, b, a.len() - 1);
        lemma_same_lower_char(a.last(), b.last());
        assert(lower_text(a.drop_last()) =~= lower_text(a).drop_last());
        assert(lower_text(b.drop_last()) =~= lower_text(b).drop_last());
        lemma_lower_trim_end(a.drop_last(), b.drop_last());
    }
}

proof fn lemma_lower_trim(a: Seq<char>, b: Seq<char>)
    requires
        lower_text(a) == lower_text(b),
    ensures
        lower_text(trim(a)) == lower_text(trim(b)),
{
    lemma_lower_trim_start(a, b);
    lemma_lower_trim_end(trim_start(a), trim_start(b));
}

/// A trimmed text does not begin with a blank.
proof fn lemma_trimmed_start(raw: Seq<char>)
    ensures
        trim(raw).len() > 0 ==> !is_white(trim(raw)[0]),
{
    lemma_start_visible(raw);
    lemma_end_is_prefix(trim_start(raw));
}

proof fn lemma_start_visible(s: Seq<char>)
    ensures
        trim_start(s).len() > 0 ==> !is_white(trim_start(s)[0]),
    decreases s.len(),
{
    if s.len() > 0 && is_white(s[0]) {
        lemma_start_visible(s.skip(1));
    }
}

proof fn lemma_end_is_prefix(s: Seq<char>)
    ensures
        trim_end(s).len() <= s.len(),
        trim_end(s) == s.take(trim_end(s).len() as int),
    decreases s.len(),
{
    if s.len() > 0 && is_white(s.last()) {
        lemma_end_is_prefix(s.drop_last());
        let n = trim_end(s).len() as int;
        assert(s.drop_last().take(n) =~= s.take(n));
    } else {
        assert(s.take(s.len() as int) =~= s);
    }
}

/// A text that begins visibly stays as it is with a visible character behind it.
proof fn lemma_trim_visible_end(s: Seq<char>, c: char)
    requires
        !is_white(c),
    ensures
        s.len() > 0 && !is_white(s[0]) ==> trim(s.push(c)) == s.push(c),
{
    if s.len() > 0 && !is_white(s[0]) {
        assert(s.push(c)[0] == s[0]);
        assert(s.push(c).last() == c);
    }
}

/// What a text spells where it is not blank is a name.
proof fn lemma_spelled(raw: Seq<char>)
    ensures
        canonical_domain(raw) is Some ==> parse_name(trim(raw)) is Some && is_name(
            parse_name(trim(raw))->0,
        ) && canonical_domain(raw) == Some(domain_text(parse_name(trim(raw))->0)),
{
    lemma_parse_labels_run(trim(raw), Seq::empty());
}

/// The key text of a text is its own key text.
pub proof fn law_canonical_domain_stable(raw: Seq<char>)
    ensures
        canonical_domain(raw) matches Some(d) ==> canonical_domain(d) == Some(d),
{
    lemma_spelled(raw);
    if canonical_domain(raw) is Some {
        law_canonical_domain_idempotent(parse_name(trim(raw))->0);
    }
}

/// Blanks around a text make no difference to its key text.
pub proof fn law_canonical_domain_without_blanks(
    before: Seq<char>,
    raw: Seq<char>,
    behind: Seq<char>,
)
    requires
        forall|i: int| 0 <= i < before.len() ==> is_white(#[trigger] before[i]),
        forall|i: int| 0 <= i < behind.len() ==> is_white(#[trigger] behind[i]),
    ensures
        canonical_domain(before + raw + behind) == canonical_domain(raw),
{
    lemma_trim_around(before, raw, behind);
}

/// ASCII case makes no difference to the key text of a text.
pub proof fn law_canonical_domain_without_case(a: Seq<char>, b: Seq<char>)
    requires
        lower_text(a) == lower_text(b),
    ensures
        canonical_domain(a) == canonical_domain(b),
{
    lemma_lower_trim(a, b);
    let s = trim(a);
    let t = trim(b);
    assert(s.len() == lower_text(s).len() && t.len() == lower_text(t).len());
    lemma_same_lower_name(s, t);
    if let Some(x) = parse_name(s) {
        let y = parse_name(t)->0;
        assert(lower_wire(x).len() == x.len() && lower_wire(y).len() == y.len());
    }
}

/// The key text `.` is that of the root alone, which only a lone dot spells.
pub proof fn law_canonical_domain_of_root(raw: Seq<char>)
    ensures
        canonical_domain(raw) == Some(seq!['.']) <==> trim(raw) == seq!['.'],
{
    lemma_spelled(raw);
    lemma_root_text(trim(raw));
    if canonical_domain(raw) is Some {
        let w = parse_name(trim(raw))->0;
        if w.len() > 0 {
            let l = lower_wire(w);
            lemma_lower_wire_is_label_run(w);
            lemma_name_text_start(l);
            assert(seq!['.'][0] == '.');
        } else {
            assert(w =~= Seq::empty());
        }
    }
}

/// A final dot makes no difference: the key text of a name other than the root may have one
/// more dot, and where a text has a key text with one more dot and without, it is the same.
pub proof fn law_canonical_domain_without_final_dot(raw: Seq<char>)
    ensures
        (canonical_domain(raw) matches Some(d) && d != seq!['.']) ==> canonical_domain(
            (canonical_domain(raw)->0).push('.'),
        ) == canonical_domain(raw),
        (canonical_domain(raw) is Some && canonical_domain(trim(raw).push('.')) is Some)
            ==> canonical_domain(trim(raw).push('.')) == canonical_domain(raw),
{
    lemma_spelled(raw);
    if canonical_domain(raw) is Some {
        let d = canonical_domain(raw)->0;
        let w = parse_name(trim(raw))->0;
        let l = lower_wire(w);
        lemma_lower_wire_is_label_run(w);
        lemma_trim_visible_end(trim(raw), '.');
        lemma_trimmed_start(raw);
        lemma_final_dot_name(trim(raw));
        if d != seq!['.'] {
            assert(w.len() > 0);
            lemma_name_text_start(l);
            lemma_name_text_reads_back(l);
            lemma_dotted_text_visible(l);
            assert(d.push('.') =~= dotted_text(l)) by {
                lemma_fqdn_ends_with_dot(l);
            }
            assert(fqdn_text(l) == dotted_text(l));
            let t = dotted_text(l);
            assert(trim_start(t) == t);
            assert(trim_end(t) == t);
            assert(lower_wire(l) =~= l);
        }
    }
}

/// Two requests within the same scope share the scoped key.
pub proof fn law_scoped_key_shared(a: CacheKeyView, b: CacheKeyView, prefix: u8)
    requires
        a.base() == b.base(),
        a.ecs_scope is Some,
        b.ecs_scope is Some,
        a.ecs_scope->0.family == b.ecs_scope->0.family,
        prefix <= a.ecs_scope->0.source_prefix,
        prefix <= b.ecs_scope->0.source_prefix,
        truncated(a.ecs_scope->0.significant(), prefix) == truncated(
            b.ecs_scope->0.significant(),
            prefix,
        ),
    ensures
        a.scoped(prefix) == b.scoped(prefix),
{
}

/// Requests that differ in a bit of the scope do not share the scoped key.
pub proof fn law_scoped_key_separates(a: CacheKeyView, b: CacheKeyView, prefix: u8)
    requires
        a.wf(),
        b.wf(),
        a.ecs_scope is Some,
        b.ecs_scope is Some,
        prefix <= a.ecs_scope->0.source_prefix,
        prefix <= b.ecs_scope->0.source_prefix,
        a.scoped(prefix) == b.scoped(prefix),
    ensures
        a.base() == b.base(),
        a.ecs_scope->0.family == b.ecs_scope->0.family,
        truncated(a.ecs_scope->0.significant(), prefix) == truncated(
            b.ecs_scope->0.significant(),
            prefix,
        ),
{
    let x = truncated(a.ecs_scope->0.significant(), prefix);
    let y = truncated(b.ecs_scope->0.significant(), prefix);
    assert(x.len() <= 16 && y.len() <= 16);
    assert(x.len() == y.len());
    assert forall|i: int| 0 <= i < x.len() implies x[i] == y[i] by {
        assert(padded16(x)[i] == padded16(y)[i]);
    }
    assert(x =~= y);
}

proof fn lemma_mask_twice(x: u8, p: int, q: int)
    requires
        0 <= p <= q < 8,
        p > 0,
    ensures
        (x & high_mask(q)) & high_mask(p) == x & high_mask(p),
{
    let mp = high_mask(p);
    let mq = high_mask(q);
    assert(mq & mp == mp) by {
        assert(0x80u8 & 0x80 == 0x80 && 0xC0u8 & 0x80 == 0x80 && 0xE0u8 & 0x80 == 0x80 && 0xF0u8
            & 0x80 == 0x80 && 0xF8u8 & 0x80 == 0x80 && 0xFCu8 & 0x80 == 0x80 && 0xFEu8 & 0x80
            == 0x80 && 0xC0u8 & 0xC0 == 0xC0 && 0xE0u8 & 0xC0 == 0xC0 && 0xF0u8 & 0xC0 == 0xC0
            && 0xF8u8 & 0xC0 == 0xC0 && 0xFCu8 & 0xC0 == 0xC0 && 0xFEu8 & 0xC0 == 0xC0 && 0xE0u8
            & 0xE0 == 0xE0 && 0xF0u8 & 0xE0 == 0xE0 && 0xF8u8 & 0xE0 == 0xE0 && 0xFCu8 & 0xE0
            == 0xE0 && 0xFEu8 & 0xE0 == 0xE0 && 0xF0u8 & 0xF0 == 0xF0 && 0xF8u8 & 0xF0 == 0xF0
            && 0xFCu8 & 0xF0 == 0xF0 && 0xFEu8 & 0xF0 == 0xF0 && 0xF8u8 & 0xF8 == 0xF8 && 0xFCu8
            & 0xF8 == 0xF8 && 0xFEu8 & 0xF8 == 0xF8 && 0xFCu8 & 0xFC == 0xFC && 0xFEu8 & 0xFC
            == 0xFC && 0xFEu8 & 0xFE == 0xFE) by (bit_vector);
    }
    assert((x & mq) & mp == x & (mq & mp)) by (bit_vector);
}

/// Cutting to a prefix and then to a shorter one is cutting to the shorter one,
/// also when the first cut was padded with zero octets.
proof fn lemma_truncated_twice(src: Seq<u8>, long: u8, short: u8)
    requires
        src.len() <= 16,
        short <= long,
        long <= src.len() * 8,
    ensures
        truncated(truncated(src, long), short) == truncated(src, short),
        truncated(padded16(truncated(src, long)), short) == truncated(src, short),
{
    let cut = truncated(src, long);
    let pad = padded16(cut);
    let want = truncated(src, short);
    assert(cut.len() == (long + 7) / 8);
    assert forall|i: int| 0 <= i < want.len() implies truncated(cut, short)[i] == want[i]
        && truncated(pad, short)[i] == want[i] by {
        assert(cut[i] == kept_octet(src, long as int, i));
        if (i + 1) * 8 <= short {
        } else {
            if (i + 1) * 8 <= long {
            } else {
                assert(long / 8 == i && short / 8 == i);
                lemma_mask_twice(src[i], (short % 8) as int, (long % 8) as int);
            }
        }
    }
    assert(truncated(cut, short) =~= want);
    assert(truncated(pad, short) =~= want);
}

/// What admission stores, loading a dump accepts: the key under which a response
/// to a request is stored matches that response.
pub proof fn law_stored_key_matches_response(request: MessageView, response: MessageView, ecs_in_key: bool)
    requires
        request_key(request, ecs_in_key) is Some,
        response_key(request_key(request, ecs_in_key)->0, response) is Some,
    ensures
        stored_key_matches(
            response_key(request_key(request, ecs_in_key)->0, response)->0,
            response,
        ),
{
    let key = request_key(request, ecs_in_key)->0;
    match (key.ecs_scope, message_subnet(response)) {
        (Some(k), Some(s)) => {
            let rs = message_subnet(request)->0;
            let r = digest_of(s);
            let octets = addr_octets(s.addr);
            lemma_octets_len(s.addr);
            lemma_octets_len(rs.addr);
            let cut = truncated(octets, s.source_prefix);
            let kcut = truncated(addr_octets(rs.addr), rs.source_prefix);
            assert(r.significant() =~= cut);
            assert(k.significant() =~= kcut);
            assert(cut == kcut);
            if r.scope_prefix <= k.source_prefix {
                let p = r.scope_prefix;
                lemma_truncated_twice(octets, s.source_prefix, p);
                let stored = scoped_ecs(k, p);
                let scut = truncated(kcut, p);
                assert(scut == truncated(octets, p));
                lemma_truncated_twice(octets, p, p);
                assert(stored.network == padded16(scut));
                assert(same_prefix(stored.network, r.network, p));
            }
        },
        _ => {},
    }
}

proof fn lemma_octets_len(a: IpAddr)
    ensures
        addr_octets(a).len() * 8 == addr_bits(a),
        max_prefix(a) == addr_bits(a),
{
    match a {
        IpAddr::V4(v) => crate::bytes::lemma_be_len(v as nat, 4),
        IpAddr::V6(v) => crate::bytes::lemma_be_len(v as nat, 16),
    }
}

/// The subnet part of a valid request or response subnet is canonical in its
/// address.
pub proof fn law_digest_canonical(s: ClientSubnet)
    requires
        ecs_prefixes_valid(s),
    ensures
        digest_of(s).wf(),
        canonical_ecs(
            digest_of(s).family,
            digest_of(s).source_prefix,
            0,
            digest_of(s).significant(),
        ),
{
    lemma_octets_len(s.addr);
    let octets = addr_octets(s.addr);
    lemma_truncated_twice(octets, s.source_prefix, s.source_prefix);
    assert(digest_of(s).significant() =~= truncated(octets, s.source_prefix));
}

/// A scoped key has a canonical subnet part.
pub proof fn law_scoped_canonical(e: EcsScopeView, prefix: u8)
    requires
        e.wf(),
        canonical_ecs(e.family, e.source_prefix, 0, e.significant()),
        prefix <= e.source_prefix,
    ensures
        scoped_ecs(e, prefix).wf(),
        canonical_ecs(
            scoped_ecs(e, prefix).family,
            prefix,
            prefix,
            scoped_ecs(e, prefix).significant(),
        ),
{
    let cut = truncated(e.significant(), prefix);
    lemma_truncated_twice(e.significant(), prefix, prefix);
    assert(scoped_ecs(e, prefix).significant() =~= cut);
}

// ---------------------------------------------------------------------------
// Functions

/// The first `prefix` bits of `src`, written to the front of `out`; the number
/// of octets written.
pub fn write_truncated_prefix(src: &[u8], prefix: u8, out: &mut [u8; 16]) -> (r: u8)
    requires
        src@.len() <= 16,
    ensures
        r == truncated(src@, prefix).len(),
        final(out)@ == Seq::new(
            16,
            |i: int|
                if i < r {
                    truncated(src@, prefix)[i]
                } else {
                    old(out)@[i]
                },
        ),
{
    let cut = truncate_bits(src, prefix);
    let ghost before = out@;
    let mut i: usize = 0;
    while i < cut.len()
        invariant
            i <= cut@.len() <= 16,
            before.len() == 16,
            out@.len() == 16,
            forall|k: int| 0 <= k < 16 ==> #[trigger] out@[k] == (if k < i {
                cut@[k]
            } else {
                before[k]
            }),
        decreases cut@.len() - i,
    {
        out[i] = cut[i];
        i = i + 1;
    }
    let r: u8 = cut.len() as u8;
    assert(out@ =~= Seq::new(
        16,
        |i: int|
            if i < r {
                truncated(src@, prefix)[i]
            } else {
                before[i]
            },
    ));
    r
}

/// Whether two subnet parts are equal.
pub fn same_scope(a: &EcsScopeDigest, b: &EcsScopeDigest) -> (r: bool)
    ensures
        r == (a@ == b@),
{
    if a.family != b.family || a.source_prefix != b.source_prefix || a.scope_prefix != b.scope_prefix
        || a.network_len != b.network_len {
        return false;
    }
    let r = crate::bytes::same_bytes(a.network.as_slice(), b.network.as_slice());
    assert(r == (a.network@ == b.network@));
    r
}

impl CacheKey {
    /// The same key once more.
    pub fn copy(&self) -> (r: CacheKey)
        ensures
            r@ == self@,
    {
        CacheKey {
            domain: self.domain.clone(),
            record_type: self.record_type,
            dns_class: self.dns_class,
            do_bit: self.do_bit,
            cd_bit: self.cd_bit,
            ecs_scope: self.ecs_scope,
        }
    }

    /// Whether two keys are equal.
    pub fn same(&self, other: &CacheKey) -> (r: bool)
        ensures
            r == (self@ == other@),
    {
        if self.record_type != other.record_type || self.dns_class != other.dns_class || self.do_bit
            != other.do_bit || self.cd_bit != other.cd_bit {
            return false;
        }
        let scopes = match (&self.ecs_scope, &other.ecs_scope) {
            (None, None) => true,
            (Some(a), Some(b)) => same_scope(a, b),
            _ => false,
        };
        scopes && same_text(self.domain.as_str(), other.domain.as_str())
    }

    /// The question that the key stands for.
    pub fn question(&self) -> (r: Option<Question>)
        ensures
            match r {
                Some(q) => key_question(self@) == Some(q@),
                None => key_question(self@) is None,
            },
    {
        match Name::from_ascii(self.domain.as_str()) {
            Ok(name) => Some(Question::new(name, self.record_type, self.dns_class)),
            Err(_) => None,
        }
    }

    /// The key that requests within the first `scope_prefix` bits share.
    pub fn with_ecs_scope_prefix(&self, scope_prefix: u8) -> (r: CacheKey)
        requires
            self@.wf(),
        ensures
            r@ == self@.scoped(scope_prefix),
            r@.wf(),
    {
        match &self.ecs_scope {
            None => self.copy(),
            Some(ecs) => {
                let p: u8 = if scope_prefix <= ecs.source_prefix {
                    scope_prefix
                } else {
                    ecs.source_prefix
                };
                let significant = crate::bytes::slice_bytes(
                    ecs.network.as_slice(),
                    0,
                    ecs.network_len as usize,
                );
                assert(significant@ =~= ecs@.significant());
                let mut network: [u8; 16] = [0u8;16];
                let network_len: u8 = write_truncated_prefix(significant.as_slice(), p, &mut network);
                assert(network@ =~= padded16(truncated(ecs@.significant(), p)));
                CacheKey {
                    domain: self.domain.clone(),
                    record_type: self.record_type,
                    dns_class: self.dns_class,
                    do_bit: self.do_bit,
                    cd_bit: self.cd_bit,
                    ecs_scope: Some(
                        EcsScopeDigest {
                            family: ecs.family,
                            source_prefix: p,
                            scope_prefix: p,
                            network_len,
                            network,
                        },
                    ),
                }
            },
        }
    }
}

/// The key text that `raw` stands for, when it is a name.
pub fn canonical_domain_from_text(raw: &str) -> (r: Option<String>)
    ensures
        match r {
            Some(d) => canonical_domain(raw@) == Some(d@),
            None => canonical_domain(raw@) is None,
        },
{
    let t = trimmed(raw);
    if t.len() == 0 {
        return None;
    }
    let text = crate::text::string_from(t.as_slice(), 0, t.len());
    assert(text@ =~= t@);
    match Name::from_ascii(text.as_str()) {
        Ok(name) => Some(cache_domain_from_name(&name)),
        Err(_) => None,
    }
}

/// The normalized form of a domain text.
pub fn normalize_domain_key(raw: &str) -> (r: String)
    ensures
        r@ == normalized_domain(raw@),
{
    match canonical_domain_from_text(raw) {
        Some(d) => d,
        None => crate::text::lower_chars(trimmed(raw).as_slice()),
    }
}

/// The normalized form of the domain of a stored key. Text that is empty or is
/// no name has none.
pub fn normalize_cache_key_domain(raw: &str) -> (r: Option<String>)
    ensures
        match r {
            Some(d) => canonical_domain(raw@) == Some(d@),
            None => canonical_domain(raw@) is None,
        },
{
    canonical_domain_from_text(raw)
}

/// The key text of a name.
pub fn cache_domain_from_name(name: &Name) -> (r: String)
    ensures
        r@ == domain_text(name@),
{
    if name.is_root() {
        let mut dot = String::new();
        dot.push('.');
        assert(dot@ =~= seq!['.']);
        dot
    } else {
        name.normalized()
    }
}

/// Whether `domain` is the key text of `name`.
pub fn cache_domain_matches_name(domain: &str, name: &Name) -> (r: bool)
    ensures
        r == (domain@ == domain_text(name@)),
{
    same_text(domain, cache_domain_from_name(name).as_str())
}

/// The subnet part with the given fields, when they are canonical.
pub fn canonical_ecs_key_digest(family: u16, source_prefix: u8, scope_prefix: u8, network: &[u8]) -> (r:
    Option<EcsScopeDigest>)
    ensures
        r is Some <==> canonical_ecs(family, source_prefix, scope_prefix, network@),
        r matches Some(d) ==> d@ == (EcsScopeView {
            family,
            source_prefix,
            scope_prefix,
            network_len: network@.len() as u8,
            network: padded16(network@),
        }) && d@.wf(),
{
    let longest: u8 = match family {
        1 => 32,
        2 => 128,
        _ => {
            return None;
        },
    };
    if source_prefix > longest || scope_prefix > longest || (scope_prefix != 0 && scope_prefix
        != source_prefix) {
        return None;
    }
    let required: usize = (source_prefix as usize + 7) / 8;
    if network.len() != required {
        return None;
    }
    let cut = truncate_bits(network, source_prefix);
    if !crate::bytes::same_bytes(cut.as_slice(), network) {
        return None;
    }
    let mut digest: [u8; 16] = [0u8;16];
    let network_len: u8 = write_truncated_prefix(network, source_prefix, &mut digest);
    assert(digest@ =~= padded16(network@));
    Some(EcsScopeDigest { family, source_prefix, scope_prefix, network_len, network: digest })
}

/// Whether a subnet may stand in a request.
pub fn request_ecs_is_valid(subnet: &ClientSubnet) -> (r: bool)
    ensures
        r == request_ecs_valid(*subnet),
{
    ecs_prefixes_are_valid(subnet) && subnet.scope_prefix == 0
}

/// Whether the prefixes of a subnet fit its address family.
pub fn ecs_prefixes_are_valid(subnet: &ClientSubnet) -> (r: bool)
    ensures
        r == ecs_prefixes_valid(*subnet),
{
    let longest: u8 = match subnet.addr {
        IpAddr::V4(_) => 32,
        IpAddr::V6(_) => 128,
    };
    subnet.source_prefix <= longest && subnet.scope_prefix <= longest
}

/// The client subnet of a message.
pub fn extract_ecs(message: &Message) -> (r: Option<ClientSubnet>)
    ensures
        r == message_subnet(message@),
{
    message.subnet()
}

/// The subnet part that a client subnet stands for.
pub fn build_ecs_scope_digest(subnet: &ClientSubnet) -> (r: EcsScopeDigest)
    ensures
        r@ == digest_of(*subnet),
        r@.wf(),
{
    let octets = octets_of(&subnet.addr);
    let (family, longest): (u16, u8) = match subnet.addr {
        IpAddr::V4(_) => (1, 32),
        IpAddr::V6(_) => (2, 128),
    };
    let source_prefix: u8 = if subnet.source_prefix <= longest {
        subnet.source_prefix
    } else {
        longest
    };
    let scope_prefix: u8 = if subnet.scope_prefix <= longest {
        subnet.scope_prefix
    } else {
        longest
    };
    let mut network: [u8; 16] = [0u8;16];
    let network_len: u8 = write_truncated_prefix(octets.as_slice(), source_prefix, &mut network);
    assert(network@ =~= padded16(truncated(octets@, source_prefix)));
    EcsScopeDigest { family, source_prefix, scope_prefix, network_len, network }
}

/// Whether a request may be answered from the cache.
pub fn is_cacheable_request(request: &Message) -> (r: bool)
    ensures
        r == cacheable_request(request@),
{
    if request.message_type != MessageType::Query || request.opcode != Opcode::Query
        || request.questions.len() != 1 || request.signature.len() != 0 {
        return false;
    }
    match &request.edns {
        None => true,
        Some(e) => {
            if e.version != 0 {
                return false;
            }
            let mut i: usize = 0;
            while i < e.options.len()
                invariant
                    i <= e.options@.len(),
                    forall|k: int| 0 <= k < i ==> (#[trigger] e@.options[k]) is Subnet,
                    request@.edns == Some(e@),
                decreases e.options@.len() - i,
            {
                match &e.options[i] {
                    EdnsOption::Subnet(_) => {
                        assert(e@.options[i as int] is Subnet);
                    },
                    EdnsOption::Other(_, _) => {
                        assert(!(e@.options[i as int] is Subnet));
                        return false;
                    },
                }
                i = i + 1;
            }
            true
        },
    }
}

/// The key of a request. A request whose client subnet is invalid has none,
/// whether or not subnets are part of keys.
pub fn build_cache_key(request: &Message, ecs_in_key: bool) -> (r: Option<CacheKey>)
    ensures
        match r {
            Some(k) => request_key(request@, ecs_in_key) == Some(k@) && k@.wf(),
            None => request_key(request@, ecs_in_key) is None,
        },
{
    if !is_cacheable_request(request) {
        return None;
    }
    let question = &request.questions[0];
    assert(request@.questions[0] == question@);
    let subnet = extract_ecs(request);
    if let Some(s) = subnet {
        if !request_ecs_is_valid(&s) {
            return None;
        }
    }
    let do_bit = match &request.edns {
        Some(e) => e.dnssec_ok,
        None => false,
    };
    let ecs_scope = match subnet {
        Some(s) => if ecs_in_key {
            Some(build_ecs_scope_digest(&s))
        } else {
            None
        },
        None => None,
    };
    Some(
        CacheKey {
            domain: cache_domain_from_name(&question.name),
            record_type: question.qtype,
            dns_class: question.qclass,
            do_bit,
            cd_bit: request.checking_disabled,
            ecs_scope,
        },
    )
}

/// The key under which a response to `key` is stored. A response whose subnet
/// does not answer the subnet of the key is not stored. A scope longer than the
/// source keeps the key of the request: the request did not carry enough bits
/// to name the narrower scope. With no source bits at all that key would be the
/// one that everybody shares, so the response is then not stored.
pub fn cache_key_for_response_ecs_scope(key: &CacheKey, response: &Message) -> (r: Option<CacheKey>)
    requires
        key@.wf(),
    ensures
        match r {
            Some(k) => response_key(key@, response@) == Some(k@) && k@.wf(),
            None => response_key(key@, response@) is None,
        },
{
    let response_subnet = extract_ecs(response);
    let request_ecs = match &key.ecs_scope {
        None => {
            return if response_subnet.is_none() {
                Some(key.copy())
            } else {
                None
            };
        },
        Some(e) => e,
    };
    let subnet = match response_subnet {
        None => {
            return Some(key.copy());
        },
        Some(s) => s,
    };
    if !ecs_prefixes_are_valid(&subnet) {
        return None;
    }
    let response_ecs = build_ecs_scope_digest(&subnet);
    let mine = crate::bytes::slice_bytes(
        request_ecs.network.as_slice(),
        0,
        request_ecs.network_len as usize,
    );
    let theirs = crate::bytes::slice_bytes(
        response_ecs.network.as_slice(),
        0,
        response_ecs.network_len as usize,
    );
    assert(mine@ =~= request_ecs@.significant());
    assert(theirs@ =~= response_ecs@.significant());
    if response_ecs.family != request_ecs.family || response_ecs.source_prefix
        != request_ecs.source_prefix || response_ecs.network_len != request_ecs.network_len
        || !crate::bytes::same_bytes(theirs.as_slice(), mine.as_slice()) {
        return None;
    }
    if response_ecs.scope_prefix > request_ecs.source_prefix {
        if request_ecs.source_prefix == 0 {
            return None;
        }
        return Some(key.copy());
    }
    Some(key.with_ecs_scope_prefix(response_ecs.scope_prefix))
}

/// Whether the first `prefix` bits of the networks of two subnet parts agree.
pub fn ecs_network_prefix_matches(left: &EcsScopeDigest, right: &EcsScopeDigest, prefix: u8) -> (r:
    bool)
    requires
        prefix <= 128,
    ensures
        r == same_prefix(left@.network, right@.network, prefix),
{
    let a = truncate_bits(left.network.as_slice(), prefix);
    let b = truncate_bits(right.network.as_slice(), prefix);
    crate::bytes::same_bytes(a.as_slice(), b.as_slice())
}

/// Whether a stored key and the subnet of its response belong together.
pub fn persisted_ecs_key_matches_response(key: &CacheKey, response: &Message) -> (r: bool)
    requires
        key@.ecs_scope matches Some(e) ==> e.source_prefix <= 128,
    ensures
        r == stored_key_matches(key@, response@),
{
    let response_subnet = extract_ecs(response);
    let key_ecs = match &key.ecs_scope {
        None => {
            return response_subnet.is_none();
        },
        Some(e) => e,
    };
    let subnet = match response_subnet {
        None => {
            return key_ecs.scope_prefix == 0;
        },
        Some(s) => s,
    };
    if !ecs_prefixes_are_valid(&subnet) {
        return false;
    }
    let response_ecs = build_ecs_scope_digest(&subnet);
    if response_ecs.family != key_ecs.family {
        return false;
    }
    if key_ecs.source_prefix == 0 && key_ecs.scope_prefix == 0 && key_ecs.network_len == 0
        && response_ecs.scope_prefix == 0 {
        return true;
    }
    if key_ecs.scope_prefix == 0 {
        if key_ecs.source_prefix == 0 {
            return false;
        }
        return response_ecs.source_prefix == key_ecs.source_prefix && response_ecs.scope_prefix
            > key_ecs.source_prefix && ecs_network_prefix_matches(
            key_ecs,
            &response_ecs,
            key_ecs.source_prefix,
        );
    }
    response_ecs.scope_prefix == key_ecs.scope_prefix && key_ecs.source_prefix
        == key_ecs.scope_prefix && response_ecs.source_prefix >= key_ecs.source_prefix
        && ecs_network_prefix_matches(key_ecs, &response_ecs, key_ecs.source_prefix)
}

} // verus!
