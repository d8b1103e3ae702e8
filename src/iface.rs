//! The data model of an interface: declarations, operations and the
//! interface that holds them.
use vstd::prelude::*;

use crate::fieldmap::{
    bytes_lt, compare_bytes, lemma_bytes_lt_irreflexive, lemma_bytes_lt_total,
    lemma_bytes_lt_transitive, FieldMap, FieldSet, TagSet, TABLE_CAP,
};

verus! {

/// Identifier of a semantic type: a 32-byte digest.
#[derive(Clone, Copy, Debug, PartialEq, Eq, Hash)]
pub struct SemId(pub [u8; 32]);

/// Interface identifier: a 32-byte digest that commits to all of the
/// interface's data.
#[derive(Clone, Copy, Debug, PartialEq, Eq, Hash, PartialOrd, Ord)]
pub struct IfaceId(pub [u8; 32]);

impl IfaceId {
    pub fn from_array(id: [u8; 32]) -> (r: IfaceId)
        ensures
            r.0@ == id@,
    {
        IfaceId(id)
    }

    pub fn to_byte_array(&self) -> (r: [u8; 32])
        ensures
            r@ == self.0@,
    {
        self.0
    }
}

/// A cardinality constraint on a reference.
#[derive(Clone, Copy, Debug, PartialEq, Eq)]
pub enum Occurrences {
    Once,
    NoneOrOnce,
    NoneOrMore,
    OnceOrMore,
    NoneOrUpTo(u16),
    OnceOrUpTo(u16),
    Exactly(u16),
    /// From the first bound to the second, both included.
    Range(u16, u16),
}

impl Occurrences {
    pub open spec fn spec_min_value(&self) -> u16 {
        match self {
            Occurrences::Once => 1,
            Occurrences::NoneOrOnce => 0,
            Occurrences::NoneOrMore => 0,
            Occurrences::OnceOrMore => 1,
            Occurrences::NoneOrUpTo(_) => 0,
            Occurrences::OnceOrUpTo(_) => 1,
            Occurrences::Exactly(n) => *n,
            Occurrences::Range(lo, _) => *lo,
        }
    }

    pub open spec fn spec_max_value(&self) -> u16 {
        match self {
            Occurrences::Once => 1,
            Occurrences::NoneOrOnce => 1,
            Occurrences::NoneOrMore => u16::MAX,
            Occurrences::OnceOrMore => u16::MAX,
            Occurrences::NoneOrUpTo(n) => *n,
            Occurrences::OnceOrUpTo(n) => *n,
            Occurrences::Exactly(n) => *n,
            Occurrences::Range(_, hi) => *hi,
        }
    }

    /// Fewest values the reference asks for.
    #[verifier::when_used_as_spec(spec_min_value)]
    pub fn min_value(&self) -> (r: u16)
        ensures
            r == self.spec_min_value(),
    {
        match self {
            Occurrences::Once => 1,
            Occurrences::NoneOrOnce => 0,
            Occurrences::NoneOrMore => 0,
            Occurrences::OnceOrMore => 1,
            Occurrences::NoneOrUpTo(_) => 0,
            Occurrences::OnceOrUpTo(_) => 1,
            Occurrences::Exactly(n) => *n,
            Occurrences::Range(lo, _) => *lo,
        }
    }

    /// Most values the reference admits; the unbounded forms give `u16::MAX`.
    #[verifier::when_used_as_spec(spec_max_value)]
    pub fn max_value(&self) -> (r: u16)
        ensures
            r == self.spec_max_value(),
    {
        match self {
            Occurrences::Once => 1,
            Occurrences::NoneOrOnce => 1,
            Occurrences::NoneOrMore => u16::MAX,
            Occurrences::OnceOrMore => u16::MAX,
            Occurrences::NoneOrUpTo(n) => *n,
            Occurrences::OnceOrUpTo(n) => *n,
            Occurrences::Exactly(n) => *n,
            Occurrences::Range(_, hi) => *hi,
        }
    }

    /// Whether more than one value may stand under the reference.
    pub fn allows_multiple(&self) -> (r: bool)
        ensures
            r == (self.spec_max_value() > 1),
    {
        self.max_value() > 1
    }
}

/// Presence requirement used by the declaration builders.
#[derive(Clone, Copy, Debug, PartialEq, Eq, Hash, PartialOrd, Ord)]
pub enum Req {
    Optional,
    Required,
    NoneOrMore,
    OneOrMore,
}

impl Req {
    pub open spec fn spec_is_required(self) -> bool {
        self == Req::Required || self == Req::OneOrMore
    }

    pub open spec fn spec_is_multiple(self) -> bool {
        self == Req::NoneOrMore || self == Req::OneOrMore
    }

    #[verifier::when_used_as_spec(spec_is_required)]
    pub fn is_required(self) -> (r: bool)
        ensures
            r == self.spec_is_required(),
    {
        match self {
            Req::Required | Req::OneOrMore => true,
            _ => false,
        }
    }

    #[verifier::when_used_as_spec(spec_is_multiple)]
    pub fn is_multiple(self) -> (r: bool)
        ensures
            r == self.spec_is_multiple(),
    {
        match self {
            Req::NoneOrMore | Req::OneOrMore => true,
            _ => false,
        }
    }
}

/// Declaration of a valency.
#[derive(Clone, Copy, Debug, PartialEq, Eq)]
pub struct ValencyIface {
    pub required: bool,
}

/// Declaration of a global state slot; `sem_id` of `None` accepts any type.
#[derive(Clone, Copy, Debug, PartialEq, Eq)]
pub struct GlobalIface {
    pub sem_id: Option<SemId>,
    pub required: bool,
    pub multiple: bool,
}

impl GlobalIface {
    pub fn any(req: Req) -> (r: GlobalIface)
        ensures
            r.sem_id.is_none(),
            r.required == req.is_required(),
            r.multiple == req.is_multiple(),
    {
        GlobalIface { sem_id: None, required: req.is_required(), multiple: req.is_multiple() }
    }

    pub fn optional(sem_id: SemId) -> (r: GlobalIface)
        ensures
            r.sem_id == Some(sem_id),
            !r.required,
            !r.multiple,
    {
        GlobalIface { sem_id: Some(sem_id), required: false, multiple: false }
    }

    pub fn required(sem_id: SemId) -> (r: GlobalIface)
        ensures
            r.sem_id == Some(sem_id),
            r.required,
            !r.multiple,
    {
        GlobalIface { sem_id: Some(sem_id), required: true, multiple: false }
    }

    pub fn none_or_many(sem_id: SemId) -> (r: GlobalIface)
        ensures
            r.sem_id == Some(sem_id),
            !r.required,
            r.multiple,
    {
        GlobalIface { sem_id: Some(sem_id), required: false, multiple: true }
    }

    pub fn one_or_many(sem_id: SemId) -> (r: GlobalIface)
        ensures
            r.sem_id == Some(sem_id),
            r.required,
            r.multiple,
    {
        GlobalIface { sem_id: Some(sem_id), required: true, multiple: true }
    }
}

/// Kind of state an owned-state slot holds.
#[derive(Clone, Copy, Debug, PartialEq, Eq)]
pub enum OwnedIface {
    Any,
    Rights,
    Amount,
    AnyData,
    AnyAttach,
    Data(SemId),
}

/// Declaration of an owned-state (assignment) slot.
#[derive(Clone, Copy, Debug, PartialEq, Eq)]
pub struct AssignIface {
    pub owned_state: OwnedIface,
    pub public: bool,
    pub required: bool,
    pub multiple: bool,
}

impl AssignIface {
    pub fn public(owned_state: OwnedIface, req: Req) -> (r: AssignIface)
        ensures
            r.owned_state == owned_state,
            r.public,
            r.required == req.is_required(),
            r.multiple == req.is_multiple(),
    {
        AssignIface { owned_state, public: true, required: req.is_required(), multiple: req.is_multiple() }
    }

    pub fn private(owned_state: OwnedIface, req: Req) -> (r: AssignIface)
        ensures
            r.owned_state == owned_state,
            !r.public,
            r.required == req.is_required(),
            r.multiple == req.is_multiple(),
    {
        AssignIface { owned_state, public: false, required: req.is_required(), multiple: req.is_multiple() }
    }
}

/// Whether an inheriting interface may or must redefine an operation.
#[derive(Clone, Copy, Debug, PartialEq, Eq, Hash)]
pub enum Modifier {
    Final,
    Abstract,
    Override,
}

impl Default for Modifier {
    fn default() -> (r: Modifier)
        ensures
            r == Modifier::Final,
    {
        Modifier::Final
    }
}

/// References from an operation to declarations, each with its cardinality.
pub type ArgMap = FieldMap<Occurrences>;

/// The genesis operation.
pub struct GenesisIface {
    pub modifier: Modifier,
    pub metadata: Option<SemId>,
    pub globals: ArgMap,
    pub assignments: ArgMap,
    pub valencies: FieldSet,
    pub errors: TagSet,
}

impl GenesisIface {
    pub open spec fn wf(&self) -> bool {
        &&& self.globals.wf()
        &&& self.assignments.wf()
        &&& self.valencies.wf()
        &&& self.errors.wf()
    }

    /// A genesis with the given modifier that references nothing.
    pub fn new(modifier: Modifier) -> (r: GenesisIface)
        ensures
            r.wf(),
            r.modifier == modifier,
            r.metadata.is_none(),
            r.globals@.len() == 0,
            r.assignments@.len() == 0,
            r.valencies@.len() == 0,
            r.errors@.len() == 0,
    {
        GenesisIface {
            modifier,
            metadata: None,
            globals: FieldMap::new(),
            assignments: FieldMap::new(),
            valencies: FieldMap::new(),
            errors: TagSet::new(),
        }
    }
}

/// A state extension operation.
pub struct ExtensionIface {
    pub modifier: Modifier,
    /// Whether a schema may omit providing this operation.
    pub optional: bool,
    pub metadata: Option<SemId>,
    pub globals: ArgMap,
    pub assignments: ArgMap,
    pub redeems: FieldSet,
    pub valencies: FieldSet,
    pub errors: TagSet,
    pub default_assignment: Option<String>,
}

impl ExtensionIface {
    pub open spec fn wf(&self) -> bool {
        &&& self.globals.wf()
        &&& self.assignments.wf()
        &&& self.redeems.wf()
        &&& self.valencies.wf()
        &&& self.errors.wf()
    }

    /// An extension with the given modifier and optionality that references nothing.
    pub fn new(modifier: Modifier, optional: bool) -> (r: ExtensionIface)
        ensures
            r.wf(),
            r.modifier == modifier,
            r.optional == optional,
            r.metadata.is_none(),
            r.globals@.len() == 0,
            r.assignments@.len() == 0,
            r.redeems@.len() == 0,
            r.valencies@.len() == 0,
            r.errors@.len() == 0,
            r.default_assignment.is_none(),
    {
        ExtensionIface {
            modifier,
            optional,
            metadata: None,
            globals: FieldMap::new(),
            assignments: FieldMap::new(),
            redeems: FieldMap::new(),
            valencies: FieldMap::new(),
            errors: TagSet::new(),
            default_assignment: None,
        }
    }
}

/// A state transition operation.
pub struct TransitionIface {
    pub modifier: Modifier,
    /// Whether a schema may omit providing this operation.
    pub optional: bool,
    pub metadata: Option<SemId>,
    pub globals: ArgMap,
    pub inputs: ArgMap,
    pub assignments: ArgMap,
    pub valencies: FieldSet,
    pub errors: TagSet,
    pub default_assignment: Option<String>,
}

impl TransitionIface {
    pub open spec fn wf(&self) -> bool {
        &&& self.globals.wf()
        &&& self.inputs.wf()
        &&& self.assignments.wf()
        &&& self.valencies.wf()
        &&& self.errors.wf()
    }

    /// A transition with the given modifier and optionality that references nothing.
    pub fn new(modifier: Modifier, optional: bool) -> (r: TransitionIface)
        ensures
            r.wf(),
            r.modifier == modifier,
            r.optional == optional,
            r.metadata.is_none(),
            r.globals@.len() == 0,
            r.inputs@.len() == 0,
            r.assignments@.len() == 0,
            r.valencies@.len() == 0,
            r.errors@.len() == 0,
            r.default_assignment.is_none(),
    {
        TransitionIface {
            modifier,
            optional,
            metadata: None,
            globals: FieldMap::new(),
            inputs: FieldMap::new(),
            assignments: FieldMap::new(),
            valencies: FieldMap::new(),
            errors: TagSet::new(),
            default_assignment: None,
        }
    }
}

/// A declared error: its tag and its message.
pub struct ErrorIface {
    pub tag: u8,
    pub message: String,
}

/// Version of the interface format.
#[derive(Clone, Copy, Debug, PartialEq, Eq)]
pub enum VerNo {
    V1,
}

/// A bounded set of interface identifiers, kept in ascending byte order.
pub struct IdSet {
    ids: Vec<IfaceId>,
}

impl View for IdSet {
    type V = Seq<Seq<u8>>;

    closed spec fn view(&self) -> Seq<Seq<u8>> {
        self.ids@.map_values(|id: IfaceId| id.0@)
    }
}

impl IdSet {
    pub open spec fn wf(&self) -> bool {
        &&& self@.len() <= TABLE_CAP
        &&& forall|i: int, j: int| 0 <= i < j < self@.len() ==> bytes_lt(#[trigger] self@[i], #[trigger] self@[j])
    }

    pub fn new() -> (r: Self)
        ensures
            r.wf(),
            r@.len() == 0,
    {
        IdSet { ids: Vec::new() }
    }

    pub fn len(&self) -> (r: usize)
        ensures
            r == self@.len(),
    {
        self.ids.len()
    }

    pub fn id_at(&self, i: usize) -> (r: IfaceId)
        requires
            i < self@.len(),
        ensures
            r.0@ == self@[i as int],
    {
        self.ids[i]
    }

    /// Position of the first identifier not below `id`.
    fn position(&self, id: &IfaceId) -> (r: usize)
        requires
            self.wf(),
        ensures
            r <= self@.len(),
            forall|j: int| 0 <= j < r ==> bytes_lt(#[trigger] self@[j], id.0@),
            r < self@.len() ==> !bytes_lt(self@[r as int], id.0@),
    {
        let mut p: usize = 0;
        while p < self.ids.len()
            invariant
                self.wf(),
                p <= self@.len(),
                forall|j: int| 0 <= j < p ==> bytes_lt(#[trigger] self@[j], id.0@),
            decreases self@.len() - p,
        {
            let c = compare_bytes(self.ids[p].0.as_slice(), id.0.as_slice());
            if c >= 0 {
                return p;
            }
            p = p + 1;
        }
        p
    }

    /// Adds `id`. A full set takes no new identifier: it is left unchanged
    /// and `false` comes back.
    pub fn insert(&mut self, id: IfaceId) -> (r: bool)
        requires
            old(self).wf(),
        ensures
            final(self).wf(),
            r == (old(self)@.contains(id.0@) || old(self)@.len() < TABLE_CAP),
            forall|x: Seq<u8>| #[trigger] final(self)@.contains(x) == (old(self)@.contains(x) || (r && x == id.0@)),
    {
        let p = self.position(&id);
        let c: i8 = if p < self.ids.len() {
            compare_bytes(self.ids[p].0.as_slice(), id.0.as_slice())
        } else {
            1
        };
        let ghost s = self@;
        let ghost k = id.0@;
        proof {
            if s.contains(k) {
                let j = choose|j: int| 0 <= j < s.len() && s[j] == k;
                lemma_bytes_lt_irreflexive(k);
                if j > p {
                    lemma_bytes_lt_total(s[p as int], k);
                }
            }
        }
        if p < self.ids.len() && c == 0 {
            true
        } else if self.ids.len() < TABLE_CAP {
            proof {
                if p < s.len() {
                    lemma_bytes_lt_total(s[p as int], k);
                }
            }
            self.ids.insert(p, id);
            proof {
                assert(self@ =~= s.insert(p as int, k));
                assert forall|i: int, j: int| 0 <= i < j < self@.len() implies bytes_lt(#[trigger] self@[i], #[trigger] self@[j]) by {
                    if j < p {
                    } else if j == p {
                    } else if i < p {
                        assert(self@[j] == s[j - 1]);
                    } else if i == p {
                        assert(self@[j] == s[j - 1]);
                        if j - 1 > p {
                            lemma_bytes_lt_transitive(k, s[p as int], s[j - 1]);
                        }
                    } else {
                        assert(self@[i] == s[i - 1] && self@[j] == s[j - 1]);
                    }
                }
                assert forall|x: Seq<u8>| #[trigger] self@.contains(x) == (s.contains(x) || x == k) by {
                    if s.contains(x) {
                        let j = choose|j: int| 0 <= j < s.len() && s[j] == x;
                        if j < p {
                            assert(self@[j] == x);
                        } else {
                            assert(self@[j + 1] == x);
                        }
                    }
                    if x == k {
                        assert(self@[p as int] == x);
                    }
                    if self@.contains(x) {
                        let j = choose|j: int| 0 <= j < self@.len() && self@[j] == x;
                        if j < p {
                            assert(s[j] == x);
                        } else if j > p {
                            assert(s[j - 1] == x);
                        }
                    }
                }
            }
            true
        } else {
            false
        }
    }
}

/// An interface: a named, versioned schema of a contract type's state and
/// operations.
pub struct Iface {
    pub version: VerNo,
    pub name: String,
    pub inherits: IdSet,
    pub global_state: FieldMap<GlobalIface>,
    pub assignments: FieldMap<AssignIface>,
    pub valencies: FieldMap<ValencyIface>,
    pub genesis: GenesisIface,
    pub transitions: FieldMap<TransitionIface>,
    pub extensions: FieldMap<ExtensionIface>,
    pub default_operation: Option<String>,
    pub errors: FieldMap<ErrorIface>,
    /// Canonical encoding of the semantic types the declarations use.
    pub types: Vec<u8>,
}

impl Iface {
    /// Every table of the interface and of its operations is well formed.
    pub open spec fn wf(&self) -> bool {
        &&& self.inherits.wf()
        &&& self.global_state.wf()
        &&& self.assignments.wf()
        &&& self.valencies.wf()
        &&& self.genesis.wf()
        &&& self.transitions.wf()
        &&& self.extensions.wf()
        &&& self.errors.wf()
        &&& forall|i: int| 0 <= i < self.transitions@.len() ==> (#[trigger] self.transitions@[i]).1.wf()
        &&& forall|i: int| 0 <= i < self.extensions@.len() ==> (#[trigger] self.extensions@[i]).1.wf()
    }

    /// An interface with the given name that declares nothing, whose genesis
    /// is final and references nothing.
    pub fn new(name: String) -> (r: Iface)
        ensures
            r.wf(),
            r.name@ == name@,
            r.inherits@.len() == 0,
            r.global_state@.len() == 0,
            r.assignments@.len() == 0,
            r.valencies@.len() == 0,
            r.genesis.modifier == Modifier::Final,
            r.genesis.globals@.len() == 0,
            r.genesis.assignments@.len() == 0,
            r.genesis.valencies@.len() == 0,
            r.genesis.errors@.len() == 0,
            r.transitions@.len() == 0,
            r.extensions@.len() == 0,
            r.default_operation.is_none(),
            r.errors@.len() == 0,
            r.types@.len() == 0,
    {
        Iface {
            version: VerNo::V1,
            name,
            inherits: IdSet::new(),
            global_state: FieldMap::new(),
            assignments: FieldMap::new(),
            valencies: FieldMap::new(),
            genesis: GenesisIface::new(Modifier::Final),
            transitions: FieldMap::new(),
            extensions: FieldMap::new(),
            default_operation: None,
            errors: FieldMap::new(),
            types: Vec::new(),
        }
    }
}

} // verus!
