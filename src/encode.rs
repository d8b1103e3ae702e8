//! Canonical byte encoding of an interface. Every field is written in a fixed
//! order; tables are written in their key order, which is itself canonical,
//! so the bytes depend on the interface's content alone.
use vstd::prelude::*;

use crate::fieldmap::{name_bytes, FieldMap, TagSet};
use crate::iface::{
    AssignIface, ErrorIface, ExtensionIface, GenesisIface, GlobalIface, IdSet, Iface, Modifier,
    Occurrences, OwnedIface, SemId, TransitionIface, ValencyIface,
};

verus! {

/// Values with a canonical byte encoding.
pub trait CanonicalEncode {
    spec fn spec_encode(&self) -> Seq<u8>;

    /// Appends the encoding of `self` to `out`.
    fn encode_into(&self, out: &mut Vec<u8>)
        ensures
            final(out)@ == old(out)@ + self.spec_encode(),
    ;
}

/// A 64-bit integer, least significant byte first.
pub open spec fn enc_u64(n: u64) -> Seq<u8> {
    seq![
        n as u8,
        (n >> 8u64) as u8,
        (n >> 16u64) as u8,
        (n >> 24u64) as u8,
        (n >> 32u64) as u8,
        (n >> 40u64) as u8,
        (n >> 48u64) as u8,
        (n >> 56u64) as u8,
    ]
}

pub open spec fn enc_u16(n: u16) -> Seq<u8> {
    seq![n as u8, (n >> 8u16) as u8]
}

pub open spec fn enc_bool(b: bool) -> Seq<u8> {
    seq![if b { 1u8 } else { 0u8 }]
}

/// A byte string: its length in 64 bits, then its bytes.
pub open spec fn enc_bytes(b: Seq<u8>) -> Seq<u8> {
    enc_u64(b.len() as u64) + b
}

/// A text: the byte string of its UTF-8 form.
pub open spec fn enc_text(s: Seq<char>) -> Seq<u8> {
    enc_bytes(name_bytes(s))
}

pub open spec fn enc_opt_text(o: Option<String>) -> Seq<u8> {
    match o {
        None => seq![0u8],
        Some(s) => seq![1u8] + enc_text(s@),
    }
}

pub open spec fn enc_opt_sem_id(o: Option<SemId>) -> Seq<u8> {
    match o {
        None => seq![0u8],
        Some(s) => seq![1u8] + s.0@,
    }
}

/// The entries of a table, in order: each name, then its value.
pub open spec fn enc_entries<V: CanonicalEncode>(s: Seq<(Seq<char>, V)>) -> Seq<u8>
    decreases s.len(),
{
    if s.len() == 0 {
        Seq::empty()
    } else {
        enc_entries(s.drop_last()) + enc_text(s.last().0) + s.last().1.spec_encode()
    }
}

/// A table: the number of its entries in one byte, then the entries.
pub open spec fn enc_table<V: CanonicalEncode>(m: FieldMap<V>) -> Seq<u8> {
    seq![m@.len() as u8] + enc_entries(m@)
}

pub open spec fn enc_tags(t: TagSet) -> Seq<u8> {
    seq![t@.len() as u8] + t@
}

pub open spec fn enc_id_seq(s: Seq<Seq<u8>>) -> Seq<u8>
    decreases s.len(),
{
    if s.len() == 0 {
        Seq::empty()
    } else {
        enc_id_seq(s.drop_last()) + s.last()
    }
}

pub open spec fn enc_ids(s: IdSet) -> Seq<u8> {
    seq![s@.len() as u8] + enc_id_seq(s@)
}

fn push_u16(out: &mut Vec<u8>, n: u16)
    ensures
        final(out)@ == old(out)@ + enc_u16(n),
{
    out.push(n as u8);
    out.push((n >> 8u16) as u8);
    assert(out@ =~= old(out)@ + enc_u16(n));
}

fn push_u64(out: &mut Vec<u8>, n: u64)
    ensures
        final(out)@ == old(out)@ + enc_u64(n),
{
    out.push(n as u8);
    out.push((n >> 8u64) as u8);
    out.push((n >> 16u64) as u8);
    out.push((n >> 24u64) as u8);
    out.push((n >> 32u64) as u8);
    out.push((n >> 40u64) as u8);
    out.push((n >> 48u64) as u8);
    out.push((n >> 56u64) as u8);
    assert(out@ =~= old(out)@ + enc_u64(n));
}

fn push_bool(out: &mut Vec<u8>, b: bool)
    ensures
        final(out)@ == old(out)@ + enc_bool(b),
{
    out.push(if b { 1u8 } else { 0u8 });
    assert(out@ =~= old(out)@ + enc_bool(b));
}

/// Appends the bytes of `b` to `out`.
fn push_slice(out: &mut Vec<u8>, b: &[u8])
    ensures
        final(out)@ == old(out)@ + b@,
{
    let mut i: usize = 0;
    while i < b.len()
        invariant
            i <= b@.len(),
            out@ == old(out)@ + b@.take(i as int),
        decreases b@.len() - i,
    {
        out.push(b[i]);
        assert(b@.take(i + 1) =~= b@.take(i as int).push(b@[i as int]));
        assert(out@ =~= old(out)@ + b@.take(i + 1));
        i = i + 1;
    }
    assert(b@.take(i as int) =~= b@);
}

fn push_bytes(out: &mut Vec<u8>, b: &[u8])
    ensures
        final(out)@ == old(out)@ + enc_bytes(b@),
{
    push_u64(out, b.len() as u64);
    push_slice(out, b);
    assert(out@ =~= old(out)@ + enc_bytes(b@));
}

fn push_text(out: &mut Vec<u8>, s: &String)
    ensures
        final(out)@ == old(out)@ + enc_text(s@),
{
    push_bytes(out, s.as_str().as_bytes());
}

fn push_opt_text(out: &mut Vec<u8>, o: &Option<String>)
    ensures
        final(out)@ == old(out)@ + enc_opt_text(*o),
{
    match o {
        None => {
            out.push(0u8);
            assert(out@ =~= old(out)@ + enc_opt_text(*o));
        },
        Some(s) => {
            out.push(1u8);
            push_text(out, s);
            assert(out@ =~= old(out)@ + enc_opt_text(*o));
        },
    }
}

fn push_opt_sem_id(out: &mut Vec<u8>, o: &Option<SemId>)
    ensures
        final(out)@ == old(out)@ + enc_opt_sem_id(*o),
{
    match o {
        None => {
            out.push(0u8);
            assert(out@ =~= old(out)@ + enc_opt_sem_id(*o));
        },
        Some(s) => {
            out.push(1u8);
            push_slice(out, s.0.as_slice());
            assert(out@ =~= old(out)@ + enc_opt_sem_id(*o));
        },
    }
}

fn push_table<V: CanonicalEncode>(out: &mut Vec<u8>, m: &FieldMap<V>)
    requires
        m.wf(),
    ensures
        final(out)@ == old(out)@ + enc_table(*m),
{
    out.push(m.len() as u8);
    let ghost start = out@;
    let mut i: usize = 0;
    assert(m@.take(0) =~= Seq::<(Seq<char>, V)>::empty());
    while i < m.len()
        invariant
            i <= m@.len(),
            out@ == start + enc_entries(m@.take(i as int)),
        decreases m@.len() - i,
    {
        push_text(out, m.key_at(i));
        m.value_at(i).encode_into(out);
        let ghost t = m@.take(i + 1);
        assert(t.drop_last() =~= m@.take(i as int));
        assert(t.last() == m@[i as int]);
        assert(out@ =~= start + enc_entries(t));
        i = i + 1;
    }
    assert(m@.take(i as int) =~= m@);
    assert(out@ =~= old(out)@ + enc_table(*m));
}

fn push_tags(out: &mut Vec<u8>, t: &TagSet)
    requires
        t.wf(),
    ensures
        final(out)@ == old(out)@ + enc_tags(*t),
{
    out.push(t.len() as u8);
    let ghost start = out@;
    let mut i: usize = 0;
    while i < t.len()
        invariant
            i <= t@.len(),
            out@ == start + t@.take(i as int),
        decreases t@.len() - i,
    {
        out.push(t.tag_at(i));
        assert(t@.take(i + 1) =~= t@.take(i as int).push(t@[i as int]));
        assert(out@ =~= start + t@.take(i + 1));
        i = i + 1;
    }
    assert(t@.take(i as int) =~= t@);
    assert(out@ =~= old(out)@ + enc_tags(*t));
}

fn push_ids(out: &mut Vec<u8>, s: &IdSet)
    requires
        s.wf(),
    ensures
        final(out)@ == old(out)@ + enc_ids(*s),
{
    out.push(s.len() as u8);
    let ghost start = out@;
    let mut i: usize = 0;
    assert(s@.take(0) =~= Seq::<Seq<u8>>::empty());
    while i < s.len()
        invariant
            i <= s@.len(),
            out@ == start + enc_id_seq(s@.take(i as int)),
        decreases s@.len() - i,
    {
        let id = s.id_at(i);
        push_slice(out, id.0.as_slice());
        let ghost t = s@.take(i + 1);
        assert(t.drop_last() =~= s@.take(i as int));
        assert(t.last() == s@[i as int]);
        assert(out@ =~= start + enc_id_seq(t));
        i = i + 1;
    }
    assert(s@.take(i as int) =~= s@);
    assert(out@ =~= old(out)@ + enc_ids(*s));
}

impl CanonicalEncode for () {
    open spec fn spec_encode(&self) -> Seq<u8> {
        Seq::empty()
    }

    fn encode_into(&self, out: &mut Vec<u8>) {
        assert(out@ =~= old(out)@ + self.spec_encode());
    }
}

impl CanonicalEncode for Occurrences {
    open spec fn spec_encode(&self) -> Seq<u8> {
        match *self {
            Occurrences::Once => seq![0u8],
            Occurrences::NoneOrOnce => seq![1u8],
            Occurrences::NoneOrMore => seq![2u8],
            Occurrences::OnceOrMore => seq![3u8],
            Occurrences::NoneOrUpTo(n) => seq![4u8] + enc_u16(n),
            Occurrences::OnceOrUpTo(n) => seq![5u8] + enc_u16(n),
            Occurrences::Exactly(n) => seq![6u8] + enc_u16(n),
            Occurrences::Range(lo, hi) => seq![7u8] + enc_u16(lo) + enc_u16(hi),
        }
    }

    fn encode_into(&self, out: &mut Vec<u8>) {
        match *self {
            Occurrences::Once => out.push(0u8),
            Occurrences::NoneOrOnce => out.push(1u8),
            Occurrences::NoneOrMore => out.push(2u8),
            Occurrences::OnceOrMore => out.push(3u8),
            Occurrences::NoneOrUpTo(n) => {
                out.push(4u8);
                push_u16(out, n);
            },
            Occurrences::OnceOrUpTo(n) => {
                out.push(5u8);
                push_u16(out, n);
            },
            Occurrences::Exactly(n) => {
                out.push(6u8);
                push_u16(out, n);
            },
            Occurrences::Range(lo, hi) => {
                out.push(7u8);
                push_u16(out, lo);
                push_u16(out, hi);
            },
        }
        assert(out@ =~= old(out)@ + self.spec_encode());
    }
}

pub open spec fn enc_modifier(m: Modifier) -> Seq<u8> {
    match m {
        Modifier::Final => seq![0u8],
        Modifier::Abstract => seq![1u8],
        Modifier::Override => seq![2u8],
    }
}

fn push_modifier(out: &mut Vec<u8>, m: Modifier)
    ensures
        final(out)@ == old(out)@ + enc_modifier(m),
{
    match m {
        Modifier::Final => out.push(0u8),
        Modifier::Abstract => out.push(1u8),
        Modifier::Override => out.push(2u8),
    }
    assert(out@ =~= old(out)@ + enc_modifier(m));
}

impl CanonicalEncode for GlobalIface {
    open spec fn spec_encode(&self) -> Seq<u8> {
        enc_opt_sem_id(self.sem_id) + enc_bool(self.required) + enc_bool(self.multiple)
    }

    fn encode_into(&self, out: &mut Vec<u8>) {
        push_opt_sem_id(out, &self.sem_id);
        push_bool(out, self.required);
        push_bool(out, self.multiple);
        assert(out@ =~= old(out)@ + self.spec_encode());
    }
}

pub open spec fn enc_owned(o: OwnedIface) -> Seq<u8> {
    match o {
        OwnedIface::Any => seq![0u8],
        OwnedIface::Rights => seq![1u8],
        OwnedIface::Amount => seq![2u8],
        OwnedIface::AnyData => seq![3u8],
        OwnedIface::AnyAttach => seq![4u8],
        OwnedIface::Data(s) => seq![5u8] + s.0@,
    }
}

impl CanonicalEncode for AssignIface {
    open spec fn spec_encode(&self) -> Seq<u8> {
        enc_owned(self.owned_state) + enc_bool(self.public) + enc_bool(self.required) + enc_bool(
            self.multiple,
        )
    }

    fn encode_into(&self, out: &mut Vec<u8>) {
        match self.owned_state {
            OwnedIface::Any => out.push(0u8),
            OwnedIface::Rights => out.push(1u8),
            OwnedIface::Amount => out.push(2u8),
            OwnedIface::AnyData => out.push(3u8),
            OwnedIface::AnyAttach => out.push(4u8),
            OwnedIface::Data(s) => {
                out.push(5u8);
                push_slice(out, s.0.as_slice());
            },
        }
        assert(out@ =~= old(out)@ + enc_owned(self.owned_state));
        push_bool(out, self.public);
        push_bool(out, self.required);
        push_bool(out, self.multiple);
        assert(out@ =~= old(out)@ + self.spec_encode());
    }
}

impl CanonicalEncode for ValencyIface {
    open spec fn spec_encode(&self) -> Seq<u8> {
        enc_bool(self.required)
    }

    fn encode_into(&self, out: &mut Vec<u8>) {
        push_bool(out, self.required);
    }
}

impl CanonicalEncode for ErrorIface {
    open spec fn spec_encode(&self) -> Seq<u8> {
        seq![self.tag] + enc_text(self.message@)
    }

    fn encode_into(&self, out: &mut Vec<u8>) {
        out.push(self.tag);
        push_text(out, &self.message);
        assert(out@ =~= old(out)@ + self.spec_encode());
    }
}

impl GenesisIface {
    pub open spec fn spec_encode(&self) -> Seq<u8> {
        enc_modifier(self.modifier) + enc_opt_sem_id(self.metadata) + enc_table(self.globals)
            + enc_table(self.assignments) + enc_table(self.valencies) + enc_tags(self.errors)
    }

    fn encode_into(&self, out: &mut Vec<u8>)
        requires
            self.wf(),
        ensures
            final(out)@ == old(out)@ + self.spec_encode(),
    {
        push_modifier(out, self.modifier);
        push_opt_sem_id(out, &self.metadata);
        push_table(out, &self.globals);
        push_table(out, &self.assignments);
        push_table(out, &self.valencies);
        push_tags(out, &self.errors);
        assert(out@ =~= old(out)@ + self.spec_encode());
    }
}

/// Encoding of a transition, whether or not its tables are well formed.
pub open spec fn enc_transition(t: TransitionIface) -> Seq<u8> {
    enc_modifier(t.modifier) + enc_bool(t.optional) + enc_opt_sem_id(t.metadata) + enc_table(t.globals)
        + enc_table(t.inputs) + enc_table(t.assignments) + enc_table(t.valencies) + enc_tags(t.errors)
        + enc_opt_text(t.default_assignment)
}

/// Encoding of an extension, whether or not its tables are well formed.
pub open spec fn enc_extension(e: ExtensionIface) -> Seq<u8> {
    enc_modifier(e.modifier) + enc_bool(e.optional) + enc_opt_sem_id(e.metadata) + enc_table(e.globals)
        + enc_table(e.assignments) + enc_table(e.redeems) + enc_table(e.valencies) + enc_tags(e.errors)
        + enc_opt_text(e.default_assignment)
}

fn push_transition(out: &mut Vec<u8>, t: &TransitionIface)
    requires
        t.wf(),
    ensures
        final(out)@ == old(out)@ + enc_transition(*t),
{
    push_modifier(out, t.modifier);
    push_bool(out, t.optional);
    push_opt_sem_id(out, &t.metadata);
    push_table(out, &t.globals);
    push_table(out, &t.inputs);
    push_table(out, &t.assignments);
    push_table(out, &t.valencies);
    push_tags(out, &t.errors);
    push_opt_text(out, &t.default_assignment);
    assert(out@ =~= old(out)@ + enc_transition(*t));
}

fn push_extension(out: &mut Vec<u8>, e: &ExtensionIface)
    requires
        e.wf(),
    ensures
        final(out)@ == old(out)@ + enc_extension(*e),
{
    let ghost o = out@;
    push_modifier(out, e.modifier);
    push_bool(out, e.optional);
    push_opt_sem_id(out, &e.metadata);
    let ghost a = enc_modifier(e.modifier) + enc_bool(e.optional) + enc_opt_sem_id(e.metadata);
    assert(out@ =~= o + a);
    push_table(out, &e.globals);
    push_table(out, &e.assignments);
    push_table(out, &e.redeems);
    let ghost b = a + enc_table(e.globals) + enc_table(e.assignments) + enc_table(e.redeems);
    assert(out@ =~= o + b);
    push_table(out, &e.valencies);
    push_tags(out, &e.errors);
    push_opt_text(out, &e.default_assignment);
    assert(out@ =~= o + (b + enc_table(e.valencies) + enc_tags(e.errors) + enc_opt_text(e.default_assignment)));
    assert(out@ =~= old(out)@ + enc_extension(*e));
}

/// Operation tables: entries as in `enc_entries`, with the operation encodings.
pub open spec fn enc_transitions(s: Seq<(Seq<char>, TransitionIface)>) -> Seq<u8>
    decreases s.len(),
{
    if s.len() == 0 {
        Seq::empty()
    } else {
        enc_transitions(s.drop_last()) + enc_text(s.last().0) + enc_transition(s.last().1)
    }
}

pub open spec fn enc_extensions(s: Seq<(Seq<char>, ExtensionIface)>) -> Seq<u8>
    decreases s.len(),
{
    if s.len() == 0 {
        Seq::empty()
    } else {
        enc_extensions(s.drop_last()) + enc_text(s.last().0) + enc_extension(s.last().1)
    }
}

fn push_transitions(out: &mut Vec<u8>, m: &FieldMap<TransitionIface>)
    requires
        m.wf(),
        forall|i: int| 0 <= i < m@.len() ==> (#[trigger] m@[i]).1.wf(),
    ensures
        final(out)@ == old(out)@ + seq![m@.len() as u8] + enc_transitions(m@),
{
    out.push(m.len() as u8);
    let ghost start = out@;
    let mut i: usize = 0;
    assert(m@.take(0) =~= Seq::<(Seq<char>, TransitionIface)>::empty());
    while i < m.len()
        invariant
            i <= m@.len(),
            forall|i: int| 0 <= i < m@.len() ==> (#[trigger] m@[i]).1.wf(),
            out@ == start + enc_transitions(m@.take(i as int)),
        decreases m@.len() - i,
    {
        push_text(out, m.key_at(i));
        assert(m@[i as int].1.wf());
        push_transition(out, m.value_at(i));
        let ghost t = m@.take(i + 1);
        assert(t.drop_last() =~= m@.take(i as int));
        assert(t.last() == m@[i as int]);
        assert(out@ =~= start + enc_transitions(t));
        i = i + 1;
    }
    assert(m@.take(i as int) =~= m@);
    assert(out@ =~= old(out)@ + seq![m@.len() as u8] + enc_transitions(m@));
}

fn push_extensions(out: &mut Vec<u8>, m: &FieldMap<ExtensionIface>)
    requires
        m.wf(),
        forall|i: int| 0 <= i < m@.len() ==> (#[trigger] m@[i]).1.wf(),
    ensures
        final(out)@ == old(out)@ + seq![m@.len() as u8] + enc_extensions(m@),
{
    out.push(m.len() as u8);
    let ghost start = out@;
    let mut i: usize = 0;
    assert(m@.take(0) =~= Seq::<(Seq<char>, ExtensionIface)>::empty());
    while i < m.len()
        invariant
            i <= m@.len(),
            forall|i: int| 0 <= i < m@.len() ==> (#[trigger] m@[i]).1.wf(),
            out@ == start + enc_extensions(m@.take(i as int)),
        decreases m@.len() - i,
    {
        push_text(out, m.key_at(i));
        assert(m@[i as int].1.wf());
        push_extension(out, m.value_at(i));
        let ghost t = m@.take(i + 1);
        assert(t.drop_last() =~= m@.take(i as int));
        assert(t.last() == m@[i as int]);
        assert(out@ =~= start + enc_extensions(t));
        i = i + 1;
    }
    assert(m@.take(i as int) =~= m@);
    assert(out@ =~= old(out)@ + seq![m@.len() as u8] + enc_extensions(m@));
}

impl Iface {
    /// The canonical encoding of the whole interface.
    pub open spec fn encoding(&self) -> Seq<u8> {
        seq![1u8] + enc_text(self.name@) + self.encoding_body()
    }

    /// The encoding of everything after the version and the name.
    #[verifier::opaque]
    pub open spec fn encoding_body(&self) -> Seq<u8> {
        enc_ids(self.inherits) + enc_table(self.global_state)
            + enc_table(self.assignments) + enc_table(self.valencies) + self.genesis.spec_encode()
            + seq![self.transitions@.len() as u8] + enc_transitions(self.transitions@)
            + seq![self.extensions@.len() as u8] + enc_extensions(self.extensions@)
            + enc_opt_text(self.default_operation) + enc_table(self.errors) + enc_bytes(self.types@)
    }

    /// Writes the canonical encoding of the interface.
    pub fn encode(&self) -> (r: Vec<u8>)
        requires
            self.wf(),
        ensures
            r@ == self.encoding(),
    {
        let mut out: Vec<u8> = Vec::new();
        out.push(1u8);
        push_text(&mut out, &self.name);
        let ghost head = out@;
        assert(head =~= seq![1u8] + enc_text(self.name@));
        push_ids(&mut out, &self.inherits);
        push_table(&mut out, &self.global_state);
        push_table(&mut out, &self.assignments);
        push_table(&mut out, &self.valencies);
        self.genesis.encode_into(&mut out);
        push_transitions(&mut out, &self.transitions);
        push_extensions(&mut out, &self.extensions);
        push_opt_text(&mut out, &self.default_operation);
        push_table(&mut out, &self.errors);
        push_bytes(&mut out, self.types.as_slice());
        proof {
            reveal(Iface::encoding_body);
        }
        assert(out@ =~= head + self.encoding_body());
        assert(out@ =~= self.encoding());
        out
    }
}

} // verus!
