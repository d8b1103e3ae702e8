//! Content-derived interface identity: a tagged SHA-256 digest of the
//! interface's canonical encoding.
use commit_verify::DigestExt;
use vstd::prelude::*;

use crate::encode::{
    enc_bytes, enc_entries, enc_extension, enc_extensions, enc_ids, enc_modifier, enc_opt_text,
    enc_table, enc_text, enc_transition, enc_transitions, enc_u64, CanonicalEncode,
};
use crate::fieldmap::{
    bytes_lt, compare_bytes, lemma_name_bytes_injective, lemma_sorted_same_elements, name_bytes,
    strictly_sorted,
};
use crate::iface::{ExtensionIface, GenesisIface, Iface, IfaceId, TransitionIface};

verus! {

/// Domain-separation tag of interface identifiers.
pub const IFACE_ID_TAG: &'static str = "urn:lnp-bp:rgb:interface#2024-02-04";

/// The tagged SHA-256 digest of `data` under `tag`: SHA-256 over the double
/// SHA-256 of the tag followed by `data`.
pub uninterp spec fn tagged_sha256(tag: Seq<u8>, data: Seq<u8>) -> Seq<u8>;

/// Relies on commit_verify's `DigestExt for Sha256`: `from_tag` primes the
/// engine with the tag's digest twice, `input_raw` feeds `data`, and `finish`
/// yields the 32-byte digest, which depends on `tag` and `data` alone.
#[verifier::external_body]
fn tagged_digest(tag: &[u8], data: &[u8]) -> (r: [u8; 32])
    ensures
        r@ == tagged_sha256(tag@, data@),
{
    let mut engine = commit_verify::Sha256::from_tag(tag);
    engine.input_raw(data);
    engine.finish()
}

/// Bytes of the domain-separation tag.
pub open spec fn iface_id_tag() -> Seq<u8> {
    name_bytes(IFACE_ID_TAG@)
}

/// The identifier an interface has: the tagged digest of its encoding.
pub open spec fn spec_iface_id(i: &Iface) -> Seq<u8> {
    tagged_sha256(iface_id_tag(), i.encoding())
}

impl Iface {
    /// The interface's identifier, derived from all of its content.
    pub fn iface_id(&self) -> (r: IfaceId)
        requires
            self.wf(),
        ensures
            r.0@ == spec_iface_id(self),
    {
        let bytes = self.encode();
        IfaceId(tagged_digest(IFACE_ID_TAG.as_bytes(), bytes.as_slice()))
    }

    /// Whether two interfaces are the same interface: their identifiers agree.
    pub fn same_interface(&self, other: &Iface) -> (r: bool)
        requires
            self.wf(),
            other.wf(),
        ensures
            r == (spec_iface_id(self) == spec_iface_id(other)),
    {
        let a = self.iface_id();
        let b = other.iface_id();
        compare_bytes(a.0.as_slice(), b.0.as_slice()) == 0
    }

    /// Orders interfaces by their identifiers' bytes: negative, zero or positive.
    pub fn cmp_by_id(&self, other: &Iface) -> (r: i8)
        requires
            self.wf(),
            other.wf(),
        ensures
            (r < 0) == bytes_lt(spec_iface_id(self), spec_iface_id(other)),
            (r == 0) == (spec_iface_id(self) == spec_iface_id(other)),
            (r > 0) == bytes_lt(spec_iface_id(other), spec_iface_id(self)),
    {
        let a = self.iface_id();
        let b = other.iface_id();
        compare_bytes(a.0.as_slice(), b.0.as_slice())
    }
}

/// An optional text as a mathematical value.
pub open spec fn opt_text_view(o: Option<String>) -> Option<Seq<char>> {
    match o {
        Some(s) => Some(s@),
        None => None,
    }
}

impl GenesisIface {
    /// Same fields, and tables with the same contents.
    pub open spec fn same_content(&self, o: &GenesisIface) -> bool {
        &&& self.modifier == o.modifier
        &&& self.metadata == o.metadata
        &&& self.globals.as_map() == o.globals.as_map()
        &&& self.assignments.as_map() == o.assignments.as_map()
        &&& self.valencies.as_map() == o.valencies.as_map()
        &&& forall|t: u8| #![trigger self.errors.has(t)] #![trigger o.errors.has(t)] self.errors.has(t) == o.errors.has(t)
    }
}

impl TransitionIface {
    /// Same fields, and tables with the same contents.
    pub open spec fn same_content(&self, o: &TransitionIface) -> bool {
        &&& self.modifier == o.modifier
        &&& self.optional == o.optional
        &&& self.metadata == o.metadata
        &&& self.globals.as_map() == o.globals.as_map()
        &&& self.inputs.as_map() == o.inputs.as_map()
        &&& self.assignments.as_map() == o.assignments.as_map()
        &&& self.valencies.as_map() == o.valencies.as_map()
        &&& forall|t: u8| #![trigger self.errors.has(t)] #![trigger o.errors.has(t)] self.errors.has(t) == o.errors.has(t)
        &&& opt_text_view(self.default_assignment) == opt_text_view(o.default_assignment)
    }
}

impl ExtensionIface {
    /// Same fields, and tables with the same contents.
    pub open spec fn same_content(&self, o: &ExtensionIface) -> bool {
        &&& self.modifier == o.modifier
        &&& self.optional == o.optional
        &&& self.metadata == o.metadata
        &&& self.globals.as_map() == o.globals.as_map()
        &&& self.assignments.as_map() == o.assignments.as_map()
        &&& self.redeems.as_map() == o.redeems.as_map()
        &&& self.valencies.as_map() == o.valencies.as_map()
        &&& forall|t: u8| #![trigger self.errors.has(t)] #![trigger o.errors.has(t)] self.errors.has(t) == o.errors.has(t)
        &&& opt_text_view(self.default_assignment) == opt_text_view(o.default_assignment)
    }
}

impl Iface {
    /// Same fields, and tables with the same contents, whatever order they
    /// were filled in.
    pub open spec fn same_content(&self, o: &Iface) -> bool {
        &&& self.version == o.version
        &&& self.name@ == o.name@
        &&& forall|x: Seq<u8>| #![trigger self.inherits@.contains(x)] #![trigger o.inherits@.contains(x)]
            self.inherits@.contains(x) == o.inherits@.contains(x)
        &&& self.global_state.as_map() == o.global_state.as_map()
        &&& self.assignments.as_map() == o.assignments.as_map()
        &&& self.valencies.as_map() == o.valencies.as_map()
        &&& self.genesis.same_content(&o.genesis)
        &&& forall|k: Seq<char>| #![trigger self.transitions.contains(k)] #![trigger o.transitions.contains(k)]
            self.transitions.contains(k) == o.transitions.contains(k)
        &&& forall|k: Seq<char>| #[trigger] self.transitions.contains(k)
            ==> self.transitions.lookup(k).same_content(&o.transitions.lookup(k))
        &&& forall|k: Seq<char>| #![trigger self.extensions.contains(k)] #![trigger o.extensions.contains(k)]
            self.extensions.contains(k) == o.extensions.contains(k)
        &&& forall|k: Seq<char>| #[trigger] self.extensions.contains(k)
            ==> self.extensions.lookup(k).same_content(&o.extensions.lookup(k))
        &&& opt_text_view(self.default_operation) == opt_text_view(o.default_operation)
        &&& forall|k: Seq<char>| #![trigger self.errors.contains(k)] #![trigger o.errors.contains(k)]
            self.errors.contains(k) == o.errors.contains(k)
        &&& forall|k: Seq<char>| #[trigger] self.errors.contains(k) ==> {
            &&& self.errors.lookup(k).tag == o.errors.lookup(k).tag
            &&& self.errors.lookup(k).message@ == o.errors.lookup(k).message@
        }
        &&& self.types@ == o.types@
    }
}

proof fn lemma_opt_text_enc(a: Option<String>, b: Option<String>)
    requires
        opt_text_view(a) == opt_text_view(b),
    ensures
        enc_opt_text(a) == enc_opt_text(b),
{
}

proof fn lemma_genesis_enc(a: &GenesisIface, b: &GenesisIface)
    requires
        a.wf(),
        b.wf(),
        a.same_content(b),
    ensures
        a.spec_encode() == b.spec_encode(),
{
    a.globals.lemma_same_map_same_entries(&b.globals);
    a.assignments.lemma_same_map_same_entries(&b.assignments);
    a.valencies.lemma_same_map_same_entries(&b.valencies);
    a.errors.lemma_same_tags_same_order(&b.errors);
}

proof fn lemma_transition_enc(a: &TransitionIface, b: &TransitionIface)
    requires
        a.wf(),
        b.wf(),
        a.same_content(b),
    ensures
        enc_transition(*a) == enc_transition(*b),
{
    a.globals.lemma_same_map_same_entries(&b.globals);
    a.inputs.lemma_same_map_same_entries(&b.inputs);
    a.assignments.lemma_same_map_same_entries(&b.assignments);
    a.valencies.lemma_same_map_same_entries(&b.valencies);
    a.errors.lemma_same_tags_same_order(&b.errors);
    lemma_opt_text_enc(a.default_assignment, b.default_assignment);
}

proof fn lemma_extension_enc(a: &ExtensionIface, b: &ExtensionIface)
    requires
        a.wf(),
        b.wf(),
        a.same_content(b),
    ensures
        enc_extension(*a) == enc_extension(*b),
{
    a.globals.lemma_same_map_same_entries(&b.globals);
    a.assignments.lemma_same_map_same_entries(&b.assignments);
    a.redeems.lemma_same_map_same_entries(&b.redeems);
    a.valencies.lemma_same_map_same_entries(&b.valencies);
    a.errors.lemma_same_tags_same_order(&b.errors);
    lemma_opt_text_enc(a.default_assignment, b.default_assignment);
}

proof fn lemma_enc_transitions_eq(s1: Seq<(Seq<char>, TransitionIface)>, s2: Seq<(Seq<char>, TransitionIface)>)
    requires
        s1.len() == s2.len(),
        forall|i: int| 0 <= i < s1.len() ==> #[trigger] s1[i].0 == s2[i].0 && enc_transition(s1[i].1) == enc_transition(s2[i].1),
    ensures
        enc_transitions(s1) == enc_transitions(s2),
    decreases s1.len(),
{
    if s1.len() > 0 {
        let n = s1.len() - 1;
        assert(s1[n].0 == s2[n].0);
        lemma_enc_transitions_eq(s1.drop_last(), s2.drop_last());
    }
}

proof fn lemma_enc_extensions_eq(s1: Seq<(Seq<char>, ExtensionIface)>, s2: Seq<(Seq<char>, ExtensionIface)>)
    requires
        s1.len() == s2.len(),
        forall|i: int| 0 <= i < s1.len() ==> #[trigger] s1[i].0 == s2[i].0 && enc_extension(s1[i].1) == enc_extension(s2[i].1),
    ensures
        enc_extensions(s1) == enc_extensions(s2),
    decreases s1.len(),
{
    if s1.len() > 0 {
        let n = s1.len() - 1;
        assert(s1[n].0 == s2[n].0);
        lemma_enc_extensions_eq(s1.drop_last(), s2.drop_last());
    }
}

proof fn lemma_enc_entries_eq<V: CanonicalEncode>(s1: Seq<(Seq<char>, V)>, s2: Seq<(Seq<char>, V)>)
    requires
        s1.len() == s2.len(),
        forall|i: int| 0 <= i < s1.len() ==> #[trigger] s1[i].0 == s2[i].0 && s1[i].1.spec_encode() == s2[i].1.spec_encode(),
    ensures
        enc_entries(s1) == enc_entries(s2),
    decreases s1.len(),
{
    if s1.len() > 0 {
        let n = s1.len() - 1;
        assert(s1[n].0 == s2[n].0);
        lemma_enc_entries_eq(s1.drop_last(), s2.drop_last());
    }
}

/// Two interfaces with the same content have the same identifier, whatever
/// order their tables were filled in.
pub proof fn lemma_identity_deterministic(a: &Iface, b: &Iface)
    requires
        a.wf(),
        b.wf(),
        a.same_content(b),
    ensures
        a.encoding() == b.encoding(),
        spec_iface_id(a) == spec_iface_id(b),
{
    reveal(Iface::encoding_body);
    assert(strictly_sorted(a.inherits@));
    assert(strictly_sorted(b.inherits@));
    lemma_sorted_same_elements(a.inherits@, b.inherits@);
    a.global_state.lemma_same_map_same_entries(&b.global_state);
    a.assignments.lemma_same_map_same_entries(&b.assignments);
    a.valencies.lemma_same_map_same_entries(&b.valencies);
    lemma_genesis_enc(&a.genesis, &b.genesis);
    a.transitions.lemma_same_names_same_order(&b.transitions);
    assert forall|i: int| 0 <= i < a.transitions@.len() implies #[trigger] a.transitions@[i].0 == b.transitions@[i].0
        && enc_transition(a.transitions@[i].1) == enc_transition(b.transitions@[i].1) by {
        a.transitions.lemma_lookup_at(i);
        b.transitions.lemma_lookup_at(i);
        assert(a.transitions@[i].1.wf());
        assert(b.transitions@[i].1.wf());
        lemma_transition_enc(&a.transitions@[i].1, &b.transitions@[i].1);
    }
    lemma_enc_transitions_eq(a.transitions@, b.transitions@);
    a.extensions.lemma_same_names_same_order(&b.extensions);
    assert forall|i: int| 0 <= i < a.extensions@.len() implies #[trigger] a.extensions@[i].0 == b.extensions@[i].0
        && enc_extension(a.extensions@[i].1) == enc_extension(b.extensions@[i].1) by {
        a.extensions.lemma_lookup_at(i);
        b.extensions.lemma_lookup_at(i);
        assert(a.extensions@[i].1.wf());
        assert(b.extensions@[i].1.wf());
        lemma_extension_enc(&a.extensions@[i].1, &b.extensions@[i].1);
    }
    lemma_enc_extensions_eq(a.extensions@, b.extensions@);
    lemma_opt_text_enc(a.default_operation, b.default_operation);
    a.errors.lemma_same_names_same_order(&b.errors);
    assert forall|i: int| 0 <= i < a.errors@.len() implies #[trigger] a.errors@[i].0 == b.errors@[i].0
        && a.errors@[i].1.spec_encode() == b.errors@[i].1.spec_encode() by {
        a.errors.lemma_lookup_at(i);
        b.errors.lemma_lookup_at(i);
    }
    lemma_enc_entries_eq(a.errors@, b.errors@);
}

proof fn lemma_enc_u64_injective(x: u64, y: u64)
    requires
        enc_u64(x) == enc_u64(y),
    ensures
        x == y,
{
    let ex = enc_u64(x);
    let ey = enc_u64(y);
    assert(ex[0] == ey[0] && ex[1] == ey[1] && ex[2] == ey[2] && ex[3] == ey[3]);
    assert(ex[4] == ey[4] && ex[5] == ey[5] && ex[6] == ey[6] && ex[7] == ey[7]);
    assert((x as u8 == y as u8 && (x >> 8u64) as u8 == (y >> 8u64) as u8 && (x >> 16u64) as u8 == (y >> 16u64) as u8
        && (x >> 24u64) as u8 == (y >> 24u64) as u8 && (x >> 32u64) as u8 == (y >> 32u64) as u8
        && (x >> 40u64) as u8 == (y >> 40u64) as u8 && (x >> 48u64) as u8 == (y >> 48u64) as u8
        && (x >> 56u64) as u8 == (y >> 56u64) as u8) ==> x == y) by (bit_vector);
}

/// Interfaces with different names have different encodings, whatever
/// their other fields hold (names whose UTF-8 form has fewer than 2^64
/// bytes).
pub proof fn lemma_encoding_sensitive_to_name(a: &Iface, b: &Iface)
    requires
        a.name@ != b.name@,
        name_bytes(a.name@).len() <= u64::MAX,
        name_bytes(b.name@).len() <= u64::MAX,
    ensures
        a.encoding() != b.encoding(),
{
    let na = name_bytes(a.name@);
    let nb = name_bytes(b.name@);
    let ha = seq![1u8] + enc_text(a.name@);
    let hb = seq![1u8] + enc_text(b.name@);
    if a.encoding() == b.encoding() {
        let ea = a.encoding();
        let eb = b.encoding();
        assert(ea.subrange(0, ha.len() as int) =~= ha);
        assert(eb.subrange(0, hb.len() as int) =~= hb);
        assert(ha.subrange(1, 9) =~= enc_u64(na.len() as u64));
        assert(hb.subrange(1, 9) =~= enc_u64(nb.len() as u64));
        assert(ea.subrange(1, 9) =~= ha.subrange(1, 9));
        assert(eb.subrange(1, 9) =~= hb.subrange(1, 9));
        lemma_enc_u64_injective(na.len() as u64, nb.len() as u64);
        assert(ha.subrange(9, 9 + na.len() as int) =~= na);
        assert(hb.subrange(9, 9 + nb.len() as int) =~= nb);
        assert(ea.subrange(9, 9 + na.len() as int) =~= ha.subrange(9, 9 + na.len() as int));
        assert(eb.subrange(9, 9 + nb.len() as int) =~= hb.subrange(9, 9 + nb.len() as int));
        lemma_name_bytes_injective(a.name@, b.name@);
    }
}

/// The genesis encoding starts right after the declaration tables.
proof fn lemma_body_at_genesis(a: &Iface, k: int)
    requires
        k == (enc_ids(a.inherits) + enc_table(a.global_state) + enc_table(a.assignments) + enc_table(a.valencies)).len(),
    ensures
        0 <= k < a.encoding_body().len(),
        a.encoding_body()[k] == a.genesis.spec_encode()[0],
{
    reveal(Iface::encoding_body);
    let q = enc_ids(a.inherits) + enc_table(a.global_state) + enc_table(a.assignments) + enc_table(a.valencies);
    let g = a.genesis.spec_encode();
    assert(g.len() > 0);
    let l1 = q + g;
    let l2 = l1 + seq![a.transitions@.len() as u8];
    let l3 = l2 + enc_transitions(a.transitions@);
    let l4 = l3 + seq![a.extensions@.len() as u8];
    let l5 = l4 + enc_extensions(a.extensions@);
    let l6 = l5 + enc_opt_text(a.default_operation);
    let l7 = l6 + enc_table(a.errors);
    let body = l7 + enc_bytes(a.types@);
    assert(body == a.encoding_body());
    assert(l1[k] == g[0]);
    assert(l2[k] == l1[k]);
    assert(l3[k] == l2[k]);
    assert(l4[k] == l3[k]);
    assert(l5[k] == l4[k]);
    assert(l6[k] == l5[k]);
    assert(l7[k] == l6[k]);
    assert(body[k] == l7[k]);
}

/// Interfaces that agree on their name, inherited identifiers and
/// declaration tables but not on the genesis modifier have different
/// encodings, whatever their later fields hold.
pub proof fn lemma_encoding_sensitive_to_genesis_modifier(a: &Iface, b: &Iface)
    requires
        a.name@ == b.name@,
        a.inherits@ == b.inherits@,
        a.global_state@ == b.global_state@,
        a.assignments@ == b.assignments@,
        a.valencies@ == b.valencies@,
        a.genesis.modifier != b.genesis.modifier,
    ensures
        a.encoding() != b.encoding(),
{
    let h = seq![1u8] + enc_text(a.name@);
    let q = enc_ids(a.inherits) + enc_table(a.global_state) + enc_table(a.assignments) + enc_table(a.valencies);
    let ga = a.genesis.spec_encode();
    let gb = b.genesis.spec_encode();
    assert(ga[0] == enc_modifier(a.genesis.modifier)[0]);
    assert(gb[0] == enc_modifier(b.genesis.modifier)[0]);
    assert(ga[0] != gb[0]);
    let k = q.len() as int;
    assert(q == enc_ids(b.inherits) + enc_table(b.global_state) + enc_table(b.assignments) + enc_table(b.valencies));
    lemma_body_at_genesis(a, k);
    lemma_body_at_genesis(b, k);
    assert(h == seq![1u8] + enc_text(b.name@));
    assert(a.encoding() == h + a.encoding_body());
    assert(b.encoding() == h + b.encoding_body());
    assert(a.encoding()[h.len() + k] == a.encoding_body()[k]);
    assert(b.encoding()[h.len() + k] == b.encoding_body()[k]);
}

} // verus!
