//! Consistency check of an interface: every reference from an operation to a
//! declaration exists, cardinalities are respected, names do not collide,
//! defaults are valid and required declarations are present in genesis.
//! The check reports every violation, never just the first.
use vstd::prelude::*;

use crate::fieldmap::{FieldSet, TagSet};
use crate::iface::{ArgMap, ExtensionIface, Iface, TransitionIface};

verus! {

/// Name of an operation, as carried in a violation.
#[derive(Clone, Debug, PartialEq, Eq, Hash)]
pub enum OpName {
    Genesis,
    Transition(String),
    Extension(String),
}

/// An operation name as a mathematical value.
pub enum OpRef {
    Genesis,
    Transition(Seq<char>),
    Extension(Seq<char>),
}

impl View for OpName {
    type V = OpRef;

    open spec fn view(&self) -> OpRef {
        match self {
            OpName::Genesis => OpRef::Genesis,
            OpName::Transition(n) => OpRef::Transition(n@),
            OpName::Extension(n) => OpRef::Extension(n@),
        }
    }
}

impl OpName {
    /// A copy of this name.
    pub fn duplicate(&self) -> (r: OpName)
        ensures
            r@ == self@,
    {
        match self {
            OpName::Genesis => OpName::Genesis,
            OpName::Transition(n) => OpName::Transition(n.clone()),
            OpName::Extension(n) => OpName::Extension(n.clone()),
        }
    }
}

/// A structural inconsistency found in an interface.
#[derive(Clone, Debug, PartialEq, Eq, Hash)]
pub enum IfaceInconsistency {
    UnknownGlobal(OpName, String),
    UnknownValency(OpName, String),
    UnknownRedeem(OpName, String),
    UnknownAssignment(OpName, String),
    UnknownInput(OpName, String),
    UnknownErrorTag(OpName, u8),
    UnknownDefaultAssignment(OpName, String),
    UnknownDefaultOp(String),
    MultipleGlobal(OpName, String),
    MultipleAssignment(OpName, String),
    MultipleInputs(OpName, String),
    RepeatedOperationName(String),
    RequiredGlobalAbsent(String),
    RequiredAssignmentAbsent(String),
    RequiredValencyAbsent(String),
}

/// An inconsistency as a mathematical value.
pub enum Violation {
    UnknownGlobal(OpRef, Seq<char>),
    UnknownValency(OpRef, Seq<char>),
    UnknownRedeem(OpRef, Seq<char>),
    UnknownAssignment(OpRef, Seq<char>),
    UnknownInput(OpRef, Seq<char>),
    UnknownErrorTag(OpRef, u8),
    UnknownDefaultAssignment(OpRef, Seq<char>),
    UnknownDefaultOp(Seq<char>),
    MultipleGlobal(OpRef, Seq<char>),
    MultipleAssignment(OpRef, Seq<char>),
    MultipleInputs(OpRef, Seq<char>),
    RepeatedOperationName(Seq<char>),
    RequiredGlobalAbsent(Seq<char>),
    RequiredAssignmentAbsent(Seq<char>),
    RequiredValencyAbsent(Seq<char>),
}

impl View for IfaceInconsistency {
    type V = Violation;

    open spec fn view(&self) -> Violation {
        match self {
            IfaceInconsistency::UnknownGlobal(o, n) => Violation::UnknownGlobal(o@, n@),
            IfaceInconsistency::UnknownValency(o, n) => Violation::UnknownValency(o@, n@),
            IfaceInconsistency::UnknownRedeem(o, n) => Violation::UnknownRedeem(o@, n@),
            IfaceInconsistency::UnknownAssignment(o, n) => Violation::UnknownAssignment(o@, n@),
            IfaceInconsistency::UnknownInput(o, n) => Violation::UnknownInput(o@, n@),
            IfaceInconsistency::UnknownErrorTag(o, t) => Violation::UnknownErrorTag(o@, *t),
            IfaceInconsistency::UnknownDefaultAssignment(o, n) => Violation::UnknownDefaultAssignment(o@, n@),
            IfaceInconsistency::UnknownDefaultOp(n) => Violation::UnknownDefaultOp(n@),
            IfaceInconsistency::MultipleGlobal(o, n) => Violation::MultipleGlobal(o@, n@),
            IfaceInconsistency::MultipleAssignment(o, n) => Violation::MultipleAssignment(o@, n@),
            IfaceInconsistency::MultipleInputs(o, n) => Violation::MultipleInputs(o@, n@),
            IfaceInconsistency::RepeatedOperationName(n) => Violation::RepeatedOperationName(n@),
            IfaceInconsistency::RequiredGlobalAbsent(n) => Violation::RequiredGlobalAbsent(n@),
            IfaceInconsistency::RequiredAssignmentAbsent(n) => Violation::RequiredAssignmentAbsent(n@),
            IfaceInconsistency::RequiredValencyAbsent(n) => Violation::RequiredValencyAbsent(n@),
        }
    }
}

impl Violation {
    /// The operation a per-operation violation is reported for.
    pub open spec fn op(self) -> Option<OpRef> {
        match self {
            Violation::UnknownGlobal(o, _) => Some(o),
            Violation::UnknownValency(o, _) => Some(o),
            Violation::UnknownRedeem(o, _) => Some(o),
            Violation::UnknownAssignment(o, _) => Some(o),
            Violation::UnknownInput(o, _) => Some(o),
            Violation::UnknownErrorTag(o, _) => Some(o),
            Violation::UnknownDefaultAssignment(o, _) => Some(o),
            Violation::MultipleGlobal(o, _) => Some(o),
            Violation::MultipleAssignment(o, _) => Some(o),
            Violation::MultipleInputs(o, _) => Some(o),
            _ => None,
        }
    }

    /// The field name a violation is about (empty for an error tag).
    pub open spec fn field(self) -> Seq<char> {
        match self {
            Violation::UnknownGlobal(_, n) => n,
            Violation::UnknownValency(_, n) => n,
            Violation::UnknownRedeem(_, n) => n,
            Violation::UnknownAssignment(_, n) => n,
            Violation::UnknownInput(_, n) => n,
            Violation::UnknownErrorTag(_, _) => Seq::empty(),
            Violation::UnknownDefaultAssignment(_, n) => n,
            Violation::UnknownDefaultOp(n) => n,
            Violation::MultipleGlobal(_, n) => n,
            Violation::MultipleAssignment(_, n) => n,
            Violation::MultipleInputs(_, n) => n,
            Violation::RepeatedOperationName(n) => n,
            Violation::RequiredGlobalAbsent(n) => n,
            Violation::RequiredAssignmentAbsent(n) => n,
            Violation::RequiredValencyAbsent(n) => n,
        }
    }
}

/// `v` stands in `s` at some position from `start` on.
pub open spec fn reported(s: Seq<IfaceInconsistency>, start: int, v: Violation) -> bool {
    exists|k: int| 0 <= start <= k < s.len() && (#[trigger] s[k])@ == v
}

/// `b` is `a` followed by entries each meeting `p`, and every value meeting
/// `p` stands among those entries.
pub open spec fn extends_with(
    a: Seq<IfaceInconsistency>,
    b: Seq<IfaceInconsistency>,
    p: spec_fn(Violation) -> bool,
) -> bool {
    &&& a.len() <= b.len()
    &&& forall|k: int| 0 <= k < a.len() ==> #[trigger] b[k] == a[k]
    &&& forall|k: int| a.len() <= k < b.len() ==> p((#[trigger] b[k])@)
    &&& forall|v: Violation| #[trigger] p(v) ==> reported(b, a.len() as int, v)
}

pub proof fn lemma_reported_keep(a: Seq<IfaceInconsistency>, b: Seq<IfaceInconsistency>, start: int, v: Violation)
    requires
        0 <= start,
        reported(a, start, v),
        a.len() <= b.len(),
        forall|k: int| 0 <= k < a.len() ==> #[trigger] b[k] == a[k],
    ensures
        reported(b, start, v),
{
    let k = choose|k: int| 0 <= start <= k < a.len() && (#[trigger] a[k])@ == v;
    assert(b[k] == a[k]);
}

/// Two extensions in a row make one, with the union of their predicates.
pub proof fn lemma_extends_chain(
    a: Seq<IfaceInconsistency>,
    b: Seq<IfaceInconsistency>,
    c: Seq<IfaceInconsistency>,
    p: spec_fn(Violation) -> bool,
    q: spec_fn(Violation) -> bool,
    r: spec_fn(Violation) -> bool,
)
    requires
        extends_with(a, b, p),
        extends_with(b, c, q),
        forall|v: Violation| #[trigger] r(v) == (p(v) || q(v)),
    ensures
        extends_with(a, c, r),
{
    assert forall|k: int| a.len() <= k < c.len() implies r((#[trigger] c[k])@) by {
        if k < b.len() {
            assert(c[k] == b[k]);
            assert(p(b[k]@));
        } else {
            assert(q(c[k]@));
        }
    }
    assert forall|v: Violation| #[trigger] r(v) implies reported(c, a.len() as int, v) by {
        if p(v) {
            lemma_reported_keep(b, c, a.len() as int, v);
        } else {
            assert(q(v));
            let k = choose|k: int| b.len() <= k < c.len() && (#[trigger] c[k])@ == v;
        }
    }
}

impl Iface {
    /// Some declared error variant carries `t`.
    pub open spec fn declares_tag(&self, t: u8) -> bool {
        exists|i: int| 0 <= i < self.errors@.len() && (#[trigger] self.errors@[i]).1.tag == t
    }

    pub open spec fn global_ref_violation(&self, op: OpRef, args: ArgMap, v: Violation) -> bool {
        match v {
            Violation::UnknownGlobal(o, n) => o == op && args.contains(n) && !self.global_state.contains(n),
            Violation::MultipleGlobal(o, n) => {
                &&& o == op
                &&& args.contains(n)
                &&& self.global_state.contains(n)
                &&& args.lookup(n).spec_min_value() > 1
                &&& !self.global_state.lookup(n).multiple
            },
            _ => false,
        }
    }

    pub open spec fn assign_ref_violation(&self, op: OpRef, args: ArgMap, v: Violation) -> bool {
        match v {
            Violation::UnknownAssignment(o, n) => o == op && args.contains(n) && !self.assignments.contains(n),
            Violation::MultipleAssignment(o, n) => {
                &&& o == op
                &&& args.contains(n)
                &&& self.assignments.contains(n)
                &&& args.lookup(n).spec_min_value() > 1
                &&& !self.assignments.lookup(n).multiple
            },
            _ => false,
        }
    }

    pub open spec fn input_ref_violation(&self, op: OpRef, args: ArgMap, v: Violation) -> bool {
        match v {
            Violation::UnknownInput(o, n) => o == op && args.contains(n) && !self.assignments.contains(n),
            Violation::MultipleInputs(o, n) => {
                &&& o == op
                &&& args.contains(n)
                &&& self.assignments.contains(n)
                &&& args.lookup(n).spec_min_value() > 1
                &&& !self.assignments.lookup(n).multiple
            },
            _ => false,
        }
    }

    pub open spec fn valency_ref_violation(&self, op: OpRef, names: FieldSet, v: Violation) -> bool {
        match v {
            Violation::UnknownValency(o, n) => o == op && names.contains(n) && !self.valencies.contains(n),
            _ => false,
        }
    }

    pub open spec fn redeem_ref_violation(&self, op: OpRef, names: FieldSet, v: Violation) -> bool {
        match v {
            Violation::UnknownRedeem(o, n) => o == op && names.contains(n) && !self.valencies.contains(n),
            _ => false,
        }
    }

    pub open spec fn error_ref_violation(&self, op: OpRef, tags: TagSet, v: Violation) -> bool {
        match v {
            Violation::UnknownErrorTag(o, t) => o == op && tags.has(t) && !self.declares_tag(t),
            _ => false,
        }
    }

    pub open spec fn default_assign_violation(
        &self,
        op: OpRef,
        default: Option<String>,
        assigns: ArgMap,
        v: Violation,
    ) -> bool {
        match v {
            Violation::UnknownDefaultAssignment(o, n) => {
                &&& o == op
                &&& default is Some
                &&& default->0@ == n
                &&& !assigns.contains(n)
            },
            _ => false,
        }
    }

    /// Violations of the checks shared by all operations.
    pub open spec fn body_violation(
        &self,
        op: OpRef,
        globals: ArgMap,
        assignments: ArgMap,
        valencies: FieldSet,
        errors: TagSet,
        v: Violation,
    ) -> bool {
        ||| self.global_ref_violation(op, globals, v)
        ||| self.assign_ref_violation(op, assignments, v)
        ||| self.valency_ref_violation(op, valencies, v)
        ||| self.error_ref_violation(op, errors, v)
    }

    pub open spec fn transition_violation(&self, op: OpRef, t: TransitionIface, v: Violation) -> bool {
        ||| self.body_violation(op, t.globals, t.assignments, t.valencies, t.errors, v)
        ||| self.input_ref_violation(op, t.inputs, v)
        ||| self.default_assign_violation(op, t.default_assignment, t.assignments, v)
    }

    pub open spec fn extension_violation(&self, op: OpRef, e: ExtensionIface, v: Violation) -> bool {
        ||| self.body_violation(op, e.globals, e.assignments, e.valencies, e.errors, v)
        ||| self.redeem_ref_violation(op, e.redeems, v)
        ||| self.default_assign_violation(op, e.default_assignment, e.assignments, v)
    }

    /// Violations reported for operation `op`.
    pub open spec fn op_violation(&self, op: OpRef, v: Violation) -> bool {
        match op {
            OpRef::Genesis => self.body_violation(
                op,
                self.genesis.globals,
                self.genesis.assignments,
                self.genesis.valencies,
                self.genesis.errors,
                v,
            ),
            OpRef::Transition(n) => {
                self.transitions.contains(n) && self.transition_violation(op, self.transitions.lookup(n), v)
            },
            OpRef::Extension(n) => {
                self.extensions.contains(n) && self.extension_violation(op, self.extensions.lookup(n), v)
            },
        }
    }

    /// `v` is an inconsistency of this interface.
    pub open spec fn is_violation(&self, v: Violation) -> bool {
        match v {
            Violation::RepeatedOperationName(n) => self.transitions.contains(n) && self.extensions.contains(n),
            Violation::UnknownDefaultOp(n) => {
                &&& self.default_operation is Some
                &&& self.default_operation->0@ == n
                &&& !self.transitions.contains(n)
                &&& !self.extensions.contains(n)
            },
            Violation::RequiredGlobalAbsent(n) => {
                &&& self.global_state.contains(n)
                &&& self.global_state.lookup(n).required
                &&& !self.genesis.globals.contains(n)
            },
            Violation::RequiredAssignmentAbsent(n) => {
                &&& self.assignments.contains(n)
                &&& self.assignments.lookup(n).required
                &&& !self.genesis.assignments.contains(n)
            },
            Violation::RequiredValencyAbsent(n) => {
                &&& self.valencies.contains(n)
                &&& self.valencies.lookup(n).required
                &&& !self.genesis.valencies.contains(n)
            },
            _ => v.op() is Some && self.op_violation(v.op()->0, v),
        }
    }

    /// The interface has no inconsistency at all.
    pub open spec fn is_consistent(&self) -> bool {
        forall|v: Violation| !#[trigger] self.is_violation(v)
    }
}

impl Iface {
    fn check_globals(&self, op: &OpName, args: &ArgMap, errs: &mut Vec<IfaceInconsistency>)
        requires
            self.wf(),
            args.wf(),
        ensures
            extends_with(old(errs)@, final(errs)@, |v: Violation| self.global_ref_violation(op@, *args, v)),
    {
        let ghost s0 = errs@;
        let mut i: usize = 0;
        while i < args.len()
            invariant
                self.wf(),
                args.wf(),
                i <= args@.len(),
                s0.len() <= errs@.len(),
                forall|k: int| 0 <= k < s0.len() ==> #[trigger] errs@[k] == s0[k],
                forall|k: int| s0.len() <= k < errs@.len() ==> self.global_ref_violation(op@, *args, (#[trigger] errs@[k])@),
                forall|v: Violation| #[trigger] self.global_ref_violation(op@, *args, v) && args.index_of(v.field()) < i
                    ==> reported(errs@, s0.len() as int, v),
            decreases args@.len() - i,
        {
            let name = args.key_at(i);
            let occ = args.value_at(i);
            let ghost prev = errs@;
            proof {
                args.lemma_lookup_at(i as int);
            }
            match self.global_state.get(name) {
                Some(g) => {
                    if occ.min_value() > 1 && !g.multiple {
                        errs.push(IfaceInconsistency::MultipleGlobal(op.duplicate(), name.clone()));
                    }
                },
                None => {
                    errs.push(IfaceInconsistency::UnknownGlobal(op.duplicate(), name.clone()));
                },
            }
            proof {
                assert forall|v: Violation| #[trigger] self.global_ref_violation(op@, *args, v) && args.index_of(v.field()) < i + 1
                    implies reported(errs@, s0.len() as int, v) by {
                    if args.index_of(v.field()) < i {
                        lemma_reported_keep(prev, errs@, s0.len() as int, v);
                    } else {
                        assert(args@[i as int].0 == v.field());
                        assert(errs@[errs@.len() - 1]@ == v);
                    }
                }
            }
            i = i + 1;
        }
        proof {
            assert forall|v: Violation| #[trigger] self.global_ref_violation(op@, *args, v)
                implies reported(errs@, s0.len() as int, v) by {
                assert(args.index_of(v.field()) < args@.len());
            }
        }
    }

    fn check_assignments(&self, op: &OpName, args: &ArgMap, errs: &mut Vec<IfaceInconsistency>)
        requires
            self.wf(),
            args.wf(),
        ensures
            extends_with(old(errs)@, final(errs)@, |v: Violation| self.assign_ref_violation(op@, *args, v)),
    {
        let ghost s0 = errs@;
        let mut i: usize = 0;
        while i < args.len()
            invariant
                self.wf(),
                args.wf(),
                i <= args@.len(),
                s0.len() <= errs@.len(),
                forall|k: int| 0 <= k < s0.len() ==> #[trigger] errs@[k] == s0[k],
                forall|k: int| s0.len() <= k < errs@.len() ==> self.assign_ref_violation(op@, *args, (#[trigger] errs@[k])@),
                forall|v: Violation| #[trigger] self.assign_ref_violation(op@, *args, v) && args.index_of(v.field()) < i
                    ==> reported(errs@, s0.len() as int, v),
            decreases args@.len() - i,
        {
            let name = args.key_at(i);
            let occ = args.value_at(i);
            let ghost prev = errs@;
            proof {
                args.lemma_lookup_at(i as int);
            }
            match self.assignments.get(name) {
                Some(g) => {
                    if occ.min_value() > 1 && !g.multiple {
                        errs.push(IfaceInconsistency::MultipleAssignment(op.duplicate(), name.clone()));
                    }
                },
                None => {
                    errs.push(IfaceInconsistency::UnknownAssignment(op.duplicate(), name.clone()));
                },
            }
            proof {
                assert forall|v: Violation| #[trigger] self.assign_ref_violation(op@, *args, v) && args.index_of(v.field()) < i + 1
                    implies reported(errs@, s0.len() as int, v) by {
                    if args.index_of(v.field()) < i {
                        lemma_reported_keep(prev, errs@, s0.len() as int, v);
                    } else {
                        assert(args@[i as int].0 == v.field());
                        assert(errs@[errs@.len() - 1]@ == v);
                    }
                }
            }
            i = i + 1;
        }
        proof {
            assert forall|v: Violation| #[trigger] self.assign_ref_violation(op@, *args, v)
                implies reported(errs@, s0.len() as int, v) by {
                assert(args.index_of(v.field()) < args@.len());
            }
        }
    }

    fn check_inputs(&self, op: &OpName, args: &ArgMap, errs: &mut Vec<IfaceInconsistency>)
        requires
            self.wf(),
            args.wf(),
        ensures
            extends_with(old(errs)@, final(errs)@, |v: Violation| self.input_ref_violation(op@, *args, v)),
    {
        let ghost s0 = errs@;
        let mut i: usize = 0;
        while i < args.len()
            invariant
                self.wf(),
                args.wf(),
                i <= args@.len(),
                s0.len() <= errs@.len(),
                forall|k: int| 0 <= k < s0.len() ==> #[trigger] errs@[k] == s0[k],
                forall|k: int| s0.len() <= k < errs@.len() ==> self.input_ref_violation(op@, *args, (#[trigger] errs@[k])@),
                forall|v: Violation| #[trigger] self.input_ref_violation(op@, *args, v) && args.index_of(v.field()) < i
                    ==> reported(errs@, s0.len() as int, v),
            decreases args@.len() - i,
        {
            let name = args.key_at(i);
            let occ = args.value_at(i);
            let ghost prev = errs@;
            proof {
                args.lemma_lookup_at(i as int);
            }
            match self.assignments.get(name) {
                Some(g) => {
                    if occ.min_value() > 1 && !g.multiple {
                        errs.push(IfaceInconsistency::MultipleInputs(op.duplicate(), name.clone()));
                    }
                },
                None => {
                    errs.push(IfaceInconsistency::UnknownInput(op.duplicate(), name.clone()));
                },
            }
            proof {
                assert forall|v: Violation| #[trigger] self.input_ref_violation(op@, *args, v) && args.index_of(v.field()) < i + 1
                    implies reported(errs@, s0.len() as int, v) by {
                    if args.index_of(v.field()) < i {
                        lemma_reported_keep(prev, errs@, s0.len() as int, v);
                    } else {
                        assert(args@[i as int].0 == v.field());
                        assert(errs@[errs@.len() - 1]@ == v);
                    }
                }
            }
            i = i + 1;
        }
        proof {
            assert forall|v: Violation| #[trigger] self.input_ref_violation(op@, *args, v)
                implies reported(errs@, s0.len() as int, v) by {
                assert(args.index_of(v.field()) < args@.len());
            }
        }
    }

    fn check_valencies(&self, op: &OpName, names: &FieldSet, errs: &mut Vec<IfaceInconsistency>)
        requires
            self.wf(),
            names.wf(),
        ensures
            extends_with(old(errs)@, final(errs)@, |v: Violation| self.valency_ref_violation(op@, *names, v)),
    {
        let ghost s0 = errs@;
        let mut i: usize = 0;
        while i < names.len()
            invariant
                self.wf(),
                names.wf(),
                i <= names@.len(),
                s0.len() <= errs@.len(),
                forall|k: int| 0 <= k < s0.len() ==> #[trigger] errs@[k] == s0[k],
                forall|k: int| s0.len() <= k < errs@.len() ==> self.valency_ref_violation(op@, *names, (#[trigger] errs@[k])@),
                forall|v: Violation| #[trigger] self.valency_ref_violation(op@, *names, v) && names.index_of(v.field()) < i
                    ==> reported(errs@, s0.len() as int, v),
            decreases names@.len() - i,
        {
            let name = names.key_at(i);
            let ghost prev = errs@;
            proof {
                names.lemma_lookup_at(i as int);
            }
            if !self.valencies.contains_key(name) {
                errs.push(IfaceInconsistency::UnknownValency(op.duplicate(), name.clone()));
            }
            proof {
                assert forall|v: Violation| #[trigger] self.valency_ref_violation(op@, *names, v) && names.index_of(v.field()) < i + 1
                    implies reported(errs@, s0.len() as int, v) by {
                    if names.index_of(v.field()) < i {
                        lemma_reported_keep(prev, errs@, s0.len() as int, v);
                    } else {
                        assert(names@[i as int].0 == v.field());
                        assert(errs@[errs@.len() - 1]@ == v);
                    }
                }
            }
            i = i + 1;
        }
        proof {
            assert forall|v: Violation| #[trigger] self.valency_ref_violation(op@, *names, v)
                implies reported(errs@, s0.len() as int, v) by {
                assert(names.index_of(v.field()) < names@.len());
            }
        }
    }

    fn check_redeems(&self, op: &OpName, names: &FieldSet, errs: &mut Vec<IfaceInconsistency>)
        requires
            self.wf(),
            names.wf(),
        ensures
            extends_with(old(errs)@, final(errs)@, |v: Violation| self.redeem_ref_violation(op@, *names, v)),
    {
        let ghost s0 = errs@;
        let mut i: usize = 0;
        while i < names.len()
            invariant
                self.wf(),
                names.wf(),
                i <= names@.len(),
                s0.len() <= errs@.len(),
                forall|k: int| 0 <= k < s0.len() ==> #[trigger] errs@[k] == s0[k],
                forall|k: int| s0.len() <= k < errs@.len() ==> self.redeem_ref_violation(op@, *names, (#[trigger] errs@[k])@),
                forall|v: Violation| #[trigger] self.redeem_ref_violation(op@, *names, v) && names.index_of(v.field()) < i
                    ==> reported(errs@, s0.len() as int, v),
            decreases names@.len() - i,
        {
            let name = names.key_at(i);
            let ghost prev = errs@;
            proof {
                names.lemma_lookup_at(i as int);
            }
            if !self.valencies.contains_key(name) {
                errs.push(IfaceInconsistency::UnknownRedeem(op.duplicate(), name.clone()));
            }
            proof {
                assert forall|v: Violation| #[trigger] self.redeem_ref_violation(op@, *names, v) && names.index_of(v.field()) < i + 1
                    implies reported(errs@, s0.len() as int, v) by {
                    if names.index_of(v.field()) < i {
                        lemma_reported_keep(prev, errs@, s0.len() as int, v);
                    } else {
                        assert(names@[i as int].0 == v.field());
                        assert(errs@[errs@.len() - 1]@ == v);
                    }
                }
            }
            i = i + 1;
        }
        proof {
            assert forall|v: Violation| #[trigger] self.redeem_ref_violation(op@, *names, v)
                implies reported(errs@, s0.len() as int, v) by {
                assert(names.index_of(v.field()) < names@.len());
            }
        }
    }

    fn has_error_tag(&self, t: u8) -> (r: bool)
        requires
            self.wf(),
        ensures
            r == self.declares_tag(t),
    {
        let mut i: usize = 0;
        while i < self.errors.len()
            invariant
                i <= self.errors@.len(),
                forall|j: int| 0 <= j < i ==> (#[trigger] self.errors@[j]).1.tag != t,
            decreases self.errors@.len() - i,
        {
            if self.errors.value_at(i).tag == t {
                return true;
            }
            i = i + 1;
        }
        false
    }

    fn check_errors(&self, op: &OpName, tags: &TagSet, errs: &mut Vec<IfaceInconsistency>)
        requires
            self.wf(),
            tags.wf(),
        ensures
            extends_with(old(errs)@, final(errs)@, |v: Violation| self.error_ref_violation(op@, *tags, v)),
    {
        let ghost s0 = errs@;
        let mut i: usize = 0;
        while i < tags.len()
            invariant
                self.wf(),
                tags.wf(),
                i <= tags@.len(),
                s0.len() <= errs@.len(),
                forall|k: int| 0 <= k < s0.len() ==> #[trigger] errs@[k] == s0[k],
                forall|k: int| s0.len() <= k < errs@.len() ==> self.error_ref_violation(op@, *tags, (#[trigger] errs@[k])@),
                forall|j: int| 0 <= j < i && !self.declares_tag(tags@[j])
                    ==> reported(errs@, s0.len() as int, Violation::UnknownErrorTag(op@, #[trigger] tags@[j])),
            decreases tags@.len() - i,
        {
            let t = tags.tag_at(i);
            let ghost prev = errs@;
            if !self.has_error_tag(t) {
                errs.push(IfaceInconsistency::UnknownErrorTag(op.duplicate(), t));
            }
            proof {
                assert forall|j: int| 0 <= j < i + 1 && !self.declares_tag(tags@[j])
                    implies reported(errs@, s0.len() as int, Violation::UnknownErrorTag(op@, #[trigger] tags@[j])) by {
                    if j < i {
                        lemma_reported_keep(prev, errs@, s0.len() as int, Violation::UnknownErrorTag(op@, tags@[j]));
                    } else {
                        assert(errs@[errs@.len() - 1]@ == Violation::UnknownErrorTag(op@, tags@[j]));
                    }
                }
            }
            i = i + 1;
        }
        proof {
            assert forall|v: Violation| #[trigger] self.error_ref_violation(op@, *tags, v)
                implies reported(errs@, s0.len() as int, v) by {
                if let Violation::UnknownErrorTag(o, t) = v {
                    let j = choose|j: int| 0 <= j < tags@.len() && tags@[j] == t;
                    assert(tags@[j] == t);
                }
            }
        }
    }

    fn check_default_assignment(
        &self,
        op: &OpName,
        default: &Option<String>,
        assigns: &ArgMap,
        errs: &mut Vec<IfaceInconsistency>,
    )
        requires
            assigns.wf(),
        ensures
            extends_with(old(errs)@, final(errs)@, |v: Violation| self.default_assign_violation(op@, *default, *assigns, v)),
    {
        if let Some(name) = default {
            if !assigns.contains_key(name) {
                errs.push(IfaceInconsistency::UnknownDefaultAssignment(op.duplicate(), name.clone()));
                assert(errs@[errs@.len() - 1]@ == Violation::UnknownDefaultAssignment(op@, name@));
            }
        }
    }

    /// The checks shared by all operations.
    fn check_body(
        &self,
        op: &OpName,
        globals: &ArgMap,
        assignments: &ArgMap,
        valencies: &FieldSet,
        errors: &TagSet,
        errs: &mut Vec<IfaceInconsistency>,
    )
        requires
            self.wf(),
            globals.wf(),
            assignments.wf(),
            valencies.wf(),
            errors.wf(),
        ensures
            extends_with(
                old(errs)@,
                final(errs)@,
                |v: Violation| self.body_violation(op@, *globals, *assignments, *valencies, *errors, v),
            ),
    {
        let ghost s0 = errs@;
        self.check_globals(op, globals, errs);
        let ghost s1 = errs@;
        self.check_assignments(op, assignments, errs);
        let ghost s2 = errs@;
        proof {
            lemma_extends_chain(
                s0,
                s1,
                s2,
                |v: Violation| self.global_ref_violation(op@, *globals, v),
                |v: Violation| self.assign_ref_violation(op@, *assignments, v),
                |v: Violation| self.global_ref_violation(op@, *globals, v) || self.assign_ref_violation(op@, *assignments, v),
            );
        }
        self.check_valencies(op, valencies, errs);
        let ghost s3 = errs@;
        proof {
            lemma_extends_chain(
                s0,
                s2,
                s3,
                |v: Violation| self.global_ref_violation(op@, *globals, v) || self.assign_ref_violation(op@, *assignments, v),
                |v: Violation| self.valency_ref_violation(op@, *valencies, v),
                |v: Violation| self.global_ref_violation(op@, *globals, v) || self.assign_ref_violation(op@, *assignments, v)
                    || self.valency_ref_violation(op@, *valencies, v),
            );
        }
        self.check_errors(op, errors, errs);
        proof {
            lemma_extends_chain(
                s0,
                s3,
                errs@,
                |v: Violation| self.global_ref_violation(op@, *globals, v) || self.assign_ref_violation(op@, *assignments, v)
                    || self.valency_ref_violation(op@, *valencies, v),
                |v: Violation| self.error_ref_violation(op@, *errors, v),
                |v: Violation| self.body_violation(op@, *globals, *assignments, *valencies, *errors, v),
            );
        }
    }

    fn check_required_globals(&self, errs: &mut Vec<IfaceInconsistency>)
        requires
            self.wf(),
        ensures
            extends_with(old(errs)@, final(errs)@, |v: Violation| v is RequiredGlobalAbsent && self.is_violation(v)),
    {
        let ghost s0 = errs@;
        let mut i: usize = 0;
        while i < self.global_state.len()
            invariant
                self.wf(),
                i <= self.global_state@.len(),
                s0.len() <= errs@.len(),
                forall|k: int| 0 <= k < s0.len() ==> #[trigger] errs@[k] == s0[k],
                forall|k: int| s0.len() <= k < errs@.len() ==> (#[trigger] errs@[k])@ is RequiredGlobalAbsent && self.is_violation(errs@[k]@),
                forall|v: Violation| #[trigger] self.is_violation(v) && v is RequiredGlobalAbsent && self.global_state.index_of(v.field()) < i
                    ==> reported(errs@, s0.len() as int, v),
            decreases self.global_state@.len() - i,
        {
            let name = self.global_state.key_at(i);
            let decl = self.global_state.value_at(i);
            let ghost prev = errs@;
            proof {
                self.global_state.lemma_lookup_at(i as int);
            }
            if decl.required && !self.genesis.globals.contains_key(name) {
                errs.push(IfaceInconsistency::RequiredGlobalAbsent(name.clone()));
            }
            proof {
                assert forall|v: Violation| #[trigger] self.is_violation(v) && v is RequiredGlobalAbsent && self.global_state.index_of(v.field()) < i + 1
                    implies reported(errs@, s0.len() as int, v) by {
                    if self.global_state.index_of(v.field()) < i {
                        lemma_reported_keep(prev, errs@, s0.len() as int, v);
                    } else {
                        assert(self.global_state@[i as int].0 == v.field());
                        assert(errs@[errs@.len() - 1]@ == v);
                    }
                }
            }
            i = i + 1;
        }
        proof {
            assert forall|v: Violation| v is RequiredGlobalAbsent && #[trigger] self.is_violation(v)
                implies reported(errs@, s0.len() as int, v) by {
                assert(self.global_state.index_of(v.field()) < self.global_state@.len());
            }
        }
    }

    fn check_required_assignments(&self, errs: &mut Vec<IfaceInconsistency>)
        requires
            self.wf(),
        ensures
            extends_with(old(errs)@, final(errs)@, |v: Violation| v is RequiredAssignmentAbsent && self.is_violation(v)),
    {
        let ghost s0 = errs@;
        let mut i: usize = 0;
        while i < self.assignments.len()
            invariant
                self.wf(),
                i <= self.assignments@.len(),
                s0.len() <= errs@.len(),
                forall|k: int| 0 <= k < s0.len() ==> #[trigger] errs@[k] == s0[k],
                forall|k: int| s0.len() <= k < errs@.len() ==> (#[trigger] errs@[k])@ is RequiredAssignmentAbsent && self.is_violation(errs@[k]@),
                forall|v: Violation| #[trigger] self.is_violation(v) && v is RequiredAssignmentAbsent && self.assignments.index_of(v.field()) < i
                    ==> reported(errs@, s0.len() as int, v),
            decreases self.assignments@.len() - i,
        {
            let name = self.assignments.key_at(i);
            let decl = self.assignments.value_at(i);
            let ghost prev = errs@;
            proof {
                self.assignments.lemma_lookup_at(i as int);
            }
            if decl.required && !self.genesis.assignments.contains_key(name) {
                errs.push(IfaceInconsistency::RequiredAssignmentAbsent(name.clone()));
            }
            proof {
                assert forall|v: Violation| #[trigger] self.is_violation(v) && v is RequiredAssignmentAbsent && self.assignments.index_of(v.field()) < i + 1
                    implies reported(errs@, s0.len() as int, v) by {
                    if self.assignments.index_of(v.field()) < i {
                        lemma_reported_keep(prev, errs@, s0.len() as int, v);
                    } else {
                        assert(self.assignments@[i as int].0 == v.field());
                        assert(errs@[errs@.len() - 1]@ == v);
                    }
                }
            }
            i = i + 1;
        }
        proof {
            assert forall|v: Violation| v is RequiredAssignmentAbsent && #[trigger] self.is_violation(v)
                implies reported(errs@, s0.len() as int, v) by {
                assert(self.assignments.index_of(v.field()) < self.assignments@.len());
            }
        }
    }

    fn check_required_valencies(&self, errs: &mut Vec<IfaceInconsistency>)
        requires
            self.wf(),
        ensures
            extends_with(old(errs)@, final(errs)@, |v: Violation| v is RequiredValencyAbsent && self.is_violation(v)),
    {
        let ghost s0 = errs@;
        let mut i: usize = 0;
        while i < self.valencies.len()
            invariant
                self.wf(),
                i <= self.valencies@.len(),
                s0.len() <= errs@.len(),
                forall|k: int| 0 <= k < s0.len() ==> #[trigger] errs@[k] == s0[k],
                forall|k: int| s0.len() <= k < errs@.len() ==> (#[trigger] errs@[k])@ is RequiredValencyAbsent && self.is_violation(errs@[k]@),
                forall|v: Violation| #[trigger] self.is_violation(v) && v is RequiredValencyAbsent && self.valencies.index_of(v.field()) < i
                    ==> reported(errs@, s0.len() as int, v),
            decreases self.valencies@.len() - i,
        {
            let name = self.valencies.key_at(i);
            let decl = self.valencies.value_at(i);
            let ghost prev = errs@;
            proof {
                self.valencies.lemma_lookup_at(i as int);
            }
            if decl.required && !self.genesis.valencies.contains_key(name) {
                errs.push(IfaceInconsistency::RequiredValencyAbsent(name.clone()));
            }
            proof {
                assert forall|v: Violation| #[trigger] self.is_violation(v) && v is RequiredValencyAbsent && self.valencies.index_of(v.field()) < i + 1
                    implies reported(errs@, s0.len() as int, v) by {
                    if self.valencies.index_of(v.field()) < i {
                        lemma_reported_keep(prev, errs@, s0.len() as int, v);
                    } else {
                        assert(self.valencies@[i as int].0 == v.field());
                        assert(errs@[errs@.len() - 1]@ == v);
                    }
                }
            }
            i = i + 1;
        }
        proof {
            assert forall|v: Violation| v is RequiredValencyAbsent && #[trigger] self.is_violation(v)
                implies reported(errs@, s0.len() as int, v) by {
                assert(self.valencies.index_of(v.field()) < self.valencies@.len());
            }
        }
    }

    fn check_repeated_names(&self, errs: &mut Vec<IfaceInconsistency>)
        requires
            self.wf(),
        ensures
            extends_with(old(errs)@, final(errs)@, |v: Violation| v is RepeatedOperationName && self.is_violation(v)),
    {
        let ghost s0 = errs@;
        let mut i: usize = 0;
        while i < self.transitions.len()
            invariant
                self.wf(),
                i <= self.transitions@.len(),
                s0.len() <= errs@.len(),
                forall|k: int| 0 <= k < s0.len() ==> #[trigger] errs@[k] == s0[k],
                forall|k: int| s0.len() <= k < errs@.len() ==> (#[trigger] errs@[k])@ is RepeatedOperationName && self.is_violation(errs@[k]@),
                forall|v: Violation| #[trigger] self.is_violation(v) && v is RepeatedOperationName && self.transitions.index_of(v.field()) < i
                    ==> reported(errs@, s0.len() as int, v),
            decreases self.transitions@.len() - i,
        {
            let name = self.transitions.key_at(i);
            let ghost prev = errs@;
            proof {
                self.transitions.lemma_lookup_at(i as int);
            }
            if self.extensions.contains_key(name) {
                errs.push(IfaceInconsistency::RepeatedOperationName(name.clone()));
            }
            proof {
                assert forall|v: Violation| #[trigger] self.is_violation(v) && v is RepeatedOperationName && self.transitions.index_of(v.field()) < i + 1
                    implies reported(errs@, s0.len() as int, v) by {
                    if self.transitions.index_of(v.field()) < i {
                        lemma_reported_keep(prev, errs@, s0.len() as int, v);
                    } else {
                        assert(self.transitions@[i as int].0 == v.field());
                        assert(errs@[errs@.len() - 1]@ == v);
                    }
                }
            }
            i = i + 1;
        }
        proof {
            assert forall|v: Violation| v is RepeatedOperationName && #[trigger] self.is_violation(v)
                implies reported(errs@, s0.len() as int, v) by {
                assert(self.transitions.index_of(v.field()) < self.transitions@.len());
            }
        }
    }

    fn check_default_operation(&self, errs: &mut Vec<IfaceInconsistency>)
        requires
            self.wf(),
        ensures
            extends_with(old(errs)@, final(errs)@, |v: Violation| v is UnknownDefaultOp && self.is_violation(v)),
    {
        if let Some(name) = &self.default_operation {
            if !self.transitions.contains_key(name) && !self.extensions.contains_key(name) {
                errs.push(IfaceInconsistency::UnknownDefaultOp(name.clone()));
                assert(errs@[errs@.len() - 1]@ == Violation::UnknownDefaultOp(name@));
            }
        }
    }

    fn check_transition(&self, op: &OpName, t: &TransitionIface, errs: &mut Vec<IfaceInconsistency>)
        requires
            self.wf(),
            t.wf(),
        ensures
            extends_with(old(errs)@, final(errs)@, |v: Violation| self.transition_violation(op@, *t, v)),
    {
        let ghost s0 = errs@;
        self.check_body(op, &t.globals, &t.assignments, &t.valencies, &t.errors, errs);
        let ghost s1 = errs@;
        self.check_inputs(op, &t.inputs, errs);
        let ghost s2 = errs@;
        proof {
            lemma_extends_chain(
                s0,
                s1,
                s2,
                |v: Violation| self.body_violation(op@, t.globals, t.assignments, t.valencies, t.errors, v),
                |v: Violation| self.input_ref_violation(op@, t.inputs, v),
                |v: Violation| self.body_violation(op@, t.globals, t.assignments, t.valencies, t.errors, v)
                    || self.input_ref_violation(op@, t.inputs, v),
            );
        }
        self.check_default_assignment(op, &t.default_assignment, &t.assignments, errs);
        proof {
            lemma_extends_chain(
                s0,
                s2,
                errs@,
                |v: Violation| self.body_violation(op@, t.globals, t.assignments, t.valencies, t.errors, v)
                    || self.input_ref_violation(op@, t.inputs, v),
                |v: Violation| self.default_assign_violation(op@, t.default_assignment, t.assignments, v),
                |v: Violation| self.transition_violation(op@, *t, v),
            );
        }
    }

    fn check_extension(&self, op: &OpName, e: &ExtensionIface, errs: &mut Vec<IfaceInconsistency>)
        requires
            self.wf(),
            e.wf(),
        ensures
            extends_with(old(errs)@, final(errs)@, |v: Violation| self.extension_violation(op@, *e, v)),
    {
        let ghost s0 = errs@;
        self.check_body(op, &e.globals, &e.assignments, &e.valencies, &e.errors, errs);
        let ghost s1 = errs@;
        self.check_redeems(op, &e.redeems, errs);
        let ghost s2 = errs@;
        proof {
            lemma_extends_chain(
                s0,
                s1,
                s2,
                |v: Violation| self.body_violation(op@, e.globals, e.assignments, e.valencies, e.errors, v),
                |v: Violation| self.redeem_ref_violation(op@, e.redeems, v),
                |v: Violation| self.body_violation(op@, e.globals, e.assignments, e.valencies, e.errors, v)
                    || self.redeem_ref_violation(op@, e.redeems, v),
            );
        }
        self.check_default_assignment(op, &e.default_assignment, &e.assignments, errs);
        proof {
            lemma_extends_chain(
                s0,
                s2,
                errs@,
                |v: Violation| self.body_violation(op@, e.globals, e.assignments, e.valencies, e.errors, v)
                    || self.redeem_ref_violation(op@, e.redeems, v),
                |v: Violation| self.default_assign_violation(op@, e.default_assignment, e.assignments, v),
                |v: Violation| self.extension_violation(op@, *e, v),
            );
        }
    }

    /// Order in which the check reaches a violation: genesis first, then each
    /// transition, each extension, and the interface-wide checks.
    pub open spec fn stage(&self, v: Violation) -> int {
        let nt = self.transitions@.len() as int;
        let ne = self.extensions@.len() as int;
        match v {
            Violation::RepeatedOperationName(_) => 1 + nt + ne,
            Violation::UnknownDefaultOp(_) => 2 + nt + ne,
            Violation::RequiredGlobalAbsent(_) => 3 + nt + ne,
            Violation::RequiredAssignmentAbsent(_) => 4 + nt + ne,
            Violation::RequiredValencyAbsent(_) => 5 + nt + ne,
            _ => match v.op() {
                Some(OpRef::Transition(n)) => 1 + self.transitions.index_of(n),
                Some(OpRef::Extension(n)) => 1 + nt + self.extensions.index_of(n),
                _ => 0,
            },
        }
    }

    /// Every entry of `s` is a violation, and every violation of an earlier
    /// stage than `st` stands in `s`.
    pub open spec fn progress(&self, s: Seq<IfaceInconsistency>, st: int) -> bool {
        &&& forall|k: int| 0 <= k < s.len() ==> self.is_violation((#[trigger] s[k])@)
        &&& forall|v: Violation| #[trigger] self.is_violation(v) && self.stage(v) < st ==> reported(s, 0, v)
    }

    proof fn lemma_advance(
        &self,
        a: Seq<IfaceInconsistency>,
        b: Seq<IfaceInconsistency>,
        p: spec_fn(Violation) -> bool,
        st: int,
    )
        requires
            self.progress(a, st),
            extends_with(a, b, p),
            forall|v: Violation| #[trigger] p(v) ==> self.is_violation(v),
            forall|v: Violation| #[trigger] self.is_violation(v) && self.stage(v) == st ==> p(v),
        ensures
            self.progress(b, st + 1),
    {
        assert forall|k: int| 0 <= k < b.len() implies self.is_violation((#[trigger] b[k])@) by {
            if k < a.len() {
                assert(b[k] == a[k]);
            } else {
                assert(p(b[k]@));
            }
        }
        assert forall|v: Violation| #[trigger] self.is_violation(v) && self.stage(v) < st + 1 implies reported(b, 0, v) by {
            if self.stage(v) < st {
                lemma_reported_keep(a, b, 0, v);
            } else {
                assert(p(v));
                let k = choose|k: int| 0 <= a.len() <= k < b.len() && (#[trigger] b[k])@ == v;
            }
        }
    }

    /// Checks the interface for inconsistencies. Every inconsistency is
    /// reported, and only inconsistencies; `Ok` comes back exactly when there
    /// are none.
    pub fn check(&self) -> (r: Result<(), Vec<IfaceInconsistency>>)
        requires
            self.wf(),
        ensures
            r is Ok <==> self.is_consistent(),
            r matches Err(errs) ==> {
                &&& errs@.len() > 0
                &&& forall|k: int| 0 <= k < errs@.len() ==> self.is_violation((#[trigger] errs@[k])@)
                &&& forall|v: Violation| #[trigger] self.is_violation(v) ==> reported(errs@, 0, v)
            },
    {
        let nt = self.transitions.len();
        let ne = self.extensions.len();
        let mut errs: Vec<IfaceInconsistency> = Vec::new();
        let genesis = OpName::Genesis;
        let g = &self.genesis;
        self.check_body(&genesis, &g.globals, &g.assignments, &g.valencies, &g.errors, &mut errs);
        proof {
            assert forall|v: Violation| #[trigger] self.is_violation(v) && self.stage(v) == 0
                implies self.body_violation(OpRef::Genesis, g.globals, g.assignments, g.valencies, g.errors, v) by {
                if let Some(OpRef::Transition(n)) = v.op() {
                    assert(self.transitions.index_of(n) >= 0);
                }
            }
            self.lemma_advance(
                Seq::empty(),
                errs@,
                |v: Violation| self.body_violation(OpRef::Genesis, g.globals, g.assignments, g.valencies, g.errors, v),
                0,
            );
        }
        let mut i: usize = 0;
        while i < nt
            invariant
                self.wf(),
                nt == self.transitions@.len(),
                ne == self.extensions@.len(),
                i <= nt,
                self.progress(errs@, 1 + i),
            decreases nt - i,
        {
            let op = OpName::Transition(self.transitions.key_at(i).clone());
            let t = self.transitions.value_at(i);
            let ghost prev = errs@;
            proof {
                self.transitions.lemma_lookup_at(i as int);
            }
            self.check_transition(&op, t, &mut errs);
            proof {
                assert forall|v: Violation| #[trigger] self.is_violation(v) && self.stage(v) == 1 + i
                    implies self.transition_violation(op@, *t, v) by {
                    if let Some(OpRef::Transition(n)) = v.op() {
                        assert(self.transitions@[i as int].0 == n);
                    }
                }
                self.lemma_advance(prev, errs@, |v: Violation| self.transition_violation(op@, *t, v), 1 + i);
            }
            i = i + 1;
        }
        let mut j: usize = 0;
        while j < ne
            invariant
                self.wf(),
                nt == self.transitions@.len(),
                ne == self.extensions@.len(),
                j <= ne,
                self.progress(errs@, 1 + nt + j),
            decreases ne - j,
        {
            let op = OpName::Extension(self.extensions.key_at(j).clone());
            let e = self.extensions.value_at(j);
            let ghost prev = errs@;
            proof {
                self.extensions.lemma_lookup_at(j as int);
            }
            self.check_extension(&op, e, &mut errs);
            proof {
                assert forall|v: Violation| #[trigger] self.is_violation(v) && self.stage(v) == 1 + nt + j
                    implies self.extension_violation(op@, *e, v) by {
                    if let Some(OpRef::Extension(n)) = v.op() {
                        assert(self.extensions@[j as int].0 == n);
                    }
                }
                self.lemma_advance(prev, errs@, |v: Violation| self.extension_violation(op@, *e, v), 1 + nt + j);
            }
            j = j + 1;
        }
        let ghost s = errs@;
        self.check_repeated_names(&mut errs);
        proof {
            self.lemma_advance(s, errs@, |v: Violation| v is RepeatedOperationName && self.is_violation(v), 1 + nt + ne);
        }
        let ghost s = errs@;
        self.check_default_operation(&mut errs);
        proof {
            self.lemma_advance(s, errs@, |v: Violation| v is UnknownDefaultOp && self.is_violation(v), 2 + nt + ne);
        }
        let ghost s = errs@;
        self.check_required_globals(&mut errs);
        proof {
            self.lemma_advance(s, errs@, |v: Violation| v is RequiredGlobalAbsent && self.is_violation(v), 3 + nt + ne);
        }
        let ghost s = errs@;
        self.check_required_assignments(&mut errs);
        proof {
            self.lemma_advance(s, errs@, |v: Violation| v is RequiredAssignmentAbsent && self.is_violation(v), 4 + nt + ne);
        }
        let ghost s = errs@;
        self.check_required_valencies(&mut errs);
        proof {
            self.lemma_advance(s, errs@, |v: Violation| v is RequiredValencyAbsent && self.is_violation(v), 5 + nt + ne);
            assert forall|v: Violation| #[trigger] self.is_violation(v) implies reported(errs@, 0, v) by {
                if let Some(OpRef::Transition(n)) = v.op() {
                    assert(self.transitions.index_of(n) < nt);
                }
                if let Some(OpRef::Extension(n)) = v.op() {
                    assert(self.extensions.index_of(n) < ne);
                }
            }
        }
        if errs.len() == 0 {
            Ok(())
        } else {
            proof {
                assert(self.is_violation(errs@[0]@));
            }
            Err(errs)
        }
    }
}

impl Iface {
    /// Every name an operation's body references is declared, with a
    /// cardinality its declaration allows, and every error tag is declared.
    pub open spec fn body_valid(&self, globals: ArgMap, assignments: ArgMap, valencies: FieldSet, errors: TagSet) -> bool {
        &&& forall|k: Seq<char>| #[trigger] globals.contains(k) ==> {
            &&& self.global_state.contains(k)
            &&& (globals.lookup(k).spec_min_value() > 1 ==> self.global_state.lookup(k).multiple)
        }
        &&& forall|k: Seq<char>| #[trigger] assignments.contains(k) ==> {
            &&& self.assignments.contains(k)
            &&& (assignments.lookup(k).spec_min_value() > 1 ==> self.assignments.lookup(k).multiple)
        }
        &&& forall|k: Seq<char>| #[trigger] valencies.contains(k) ==> self.valencies.contains(k)
        &&& forall|t: u8| #[trigger] errors.has(t) ==> self.declares_tag(t)
    }

    pub open spec fn transition_valid(&self, t: TransitionIface) -> bool {
        &&& self.body_valid(t.globals, t.assignments, t.valencies, t.errors)
        &&& forall|k: Seq<char>| #[trigger] t.inputs.contains(k) ==> {
            &&& self.assignments.contains(k)
            &&& (t.inputs.lookup(k).spec_min_value() > 1 ==> self.assignments.lookup(k).multiple)
        }
        &&& (t.default_assignment is Some ==> t.assignments.contains(t.default_assignment->0@))
    }

    pub open spec fn extension_valid(&self, e: ExtensionIface) -> bool {
        &&& self.body_valid(e.globals, e.assignments, e.valencies, e.errors)
        &&& forall|k: Seq<char>| #[trigger] e.redeems.contains(k) ==> self.valencies.contains(k)
        &&& (e.default_assignment is Some ==> e.assignments.contains(e.default_assignment->0@))
    }

    /// Every reference from every operation is valid.
    pub open spec fn references_valid(&self) -> bool {
        &&& self.body_valid(self.genesis.globals, self.genesis.assignments, self.genesis.valencies, self.genesis.errors)
        &&& forall|n: Seq<char>| #[trigger] self.transitions.contains(n) ==> self.transition_valid(self.transitions.lookup(n))
        &&& forall|n: Seq<char>| #[trigger] self.extensions.contains(n) ==> self.extension_valid(self.extensions.lookup(n))
    }

    /// Every required declaration is referenced from genesis.
    pub open spec fn required_present(&self) -> bool {
        &&& forall|k: Seq<char>| #[trigger] self.global_state.contains(k) && self.global_state.lookup(k).required
            ==> self.genesis.globals.contains(k)
        &&& forall|k: Seq<char>| #[trigger] self.assignments.contains(k) && self.assignments.lookup(k).required
            ==> self.genesis.assignments.contains(k)
        &&& forall|k: Seq<char>| #[trigger] self.valencies.contains(k) && self.valencies.lookup(k).required
            ==> self.genesis.valencies.contains(k)
    }

    /// No name labels both a transition and an extension.
    pub open spec fn operation_names_distinct(&self) -> bool {
        forall|n: Seq<char>| #[trigger] self.transitions.contains(n) ==> !self.extensions.contains(n)
    }

    /// The default operation, if set, names a transition or an extension.
    pub open spec fn default_operation_valid(&self) -> bool {
        self.default_operation is Some ==> {
            let d = self.default_operation->0@;
            self.transitions.contains(d) || self.extensions.contains(d)
        }
    }
}

/// An interface is consistent, so that `check` accepts it, exactly when its
/// references are all valid, its required declarations are all referenced
/// from genesis, no name labels both a transition and an extension, and its
/// default operation, if any, exists.
pub proof fn lemma_consistent_iff_valid(i: &Iface)
    ensures
        i.is_consistent() <==> {
            &&& i.references_valid()
            &&& i.required_present()
            &&& i.operation_names_distinct()
            &&& i.default_operation_valid()
        },
{
    if i.references_valid() && i.required_present() && i.operation_names_distinct() && i.default_operation_valid() {
        assert forall|v: Violation| !#[trigger] i.is_violation(v) by {
            if let Some(OpRef::Transition(n)) = v.op() {
                if i.transitions.contains(n) {
                    assert(i.transition_valid(i.transitions.lookup(n)));
                }
            }
            if let Some(OpRef::Extension(n)) = v.op() {
                if i.extensions.contains(n) {
                    assert(i.extension_valid(i.extensions.lookup(n)));
                }
            }
        }
    }
    if i.is_consistent() {
        let g = i.genesis;
        assert forall|k: Seq<char>| #[trigger] g.globals.contains(k) implies i.global_state.contains(k)
            && (g.globals.lookup(k).spec_min_value() > 1 ==> i.global_state.lookup(k).multiple) by {
            assert(!i.is_violation(Violation::UnknownGlobal(OpRef::Genesis, k)));
            assert(!i.is_violation(Violation::MultipleGlobal(OpRef::Genesis, k)));
        }
        assert forall|k: Seq<char>| #[trigger] g.assignments.contains(k) implies i.assignments.contains(k)
            && (g.assignments.lookup(k).spec_min_value() > 1 ==> i.assignments.lookup(k).multiple) by {
            assert(!i.is_violation(Violation::UnknownAssignment(OpRef::Genesis, k)));
            assert(!i.is_violation(Violation::MultipleAssignment(OpRef::Genesis, k)));
        }
        assert forall|k: Seq<char>| #[trigger] g.valencies.contains(k) implies i.valencies.contains(k) by {
            assert(!i.is_violation(Violation::UnknownValency(OpRef::Genesis, k)));
        }
        assert forall|t: u8| #[trigger] g.errors.has(t) implies i.declares_tag(t) by {
            assert(!i.is_violation(Violation::UnknownErrorTag(OpRef::Genesis, t)));
        }
        assert forall|n: Seq<char>| #[trigger] i.transitions.contains(n) implies i.transition_valid(i.transitions.lookup(n)) by {
            let t = i.transitions.lookup(n);
            let op = OpRef::Transition(n);
            assert forall|k: Seq<char>| #[trigger] t.globals.contains(k) implies i.global_state.contains(k)
                && (t.globals.lookup(k).spec_min_value() > 1 ==> i.global_state.lookup(k).multiple) by {
                assert(!i.is_violation(Violation::UnknownGlobal(op, k)));
                assert(!i.is_violation(Violation::MultipleGlobal(op, k)));
            }
            assert forall|k: Seq<char>| #[trigger] t.assignments.contains(k) implies i.assignments.contains(k)
                && (t.assignments.lookup(k).spec_min_value() > 1 ==> i.assignments.lookup(k).multiple) by {
                assert(!i.is_violation(Violation::UnknownAssignment(op, k)));
                assert(!i.is_violation(Violation::MultipleAssignment(op, k)));
            }
            assert forall|k: Seq<char>| #[trigger] t.inputs.contains(k) implies i.assignments.contains(k)
                && (t.inputs.lookup(k).spec_min_value() > 1 ==> i.assignments.lookup(k).multiple) by {
                assert(!i.is_violation(Violation::UnknownInput(op, k)));
                assert(!i.is_violation(Violation::MultipleInputs(op, k)));
            }
            assert forall|k: Seq<char>| #[trigger] t.valencies.contains(k) implies i.valencies.contains(k) by {
                assert(!i.is_violation(Violation::UnknownValency(op, k)));
            }
            assert forall|x: u8| #[trigger] t.errors.has(x) implies i.declares_tag(x) by {
                assert(!i.is_violation(Violation::UnknownErrorTag(op, x)));
            }
            if t.default_assignment is Some {
                assert(!i.is_violation(Violation::UnknownDefaultAssignment(op, t.default_assignment->0@)));
            }
        }
        assert forall|n: Seq<char>| #[trigger] i.extensions.contains(n) implies i.extension_valid(i.extensions.lookup(n)) by {
            let e = i.extensions.lookup(n);
            let op = OpRef::Extension(n);
            assert forall|k: Seq<char>| #[trigger] e.globals.contains(k) implies i.global_state.contains(k)
                && (e.globals.lookup(k).spec_min_value() > 1 ==> i.global_state.lookup(k).multiple) by {
                assert(!i.is_violation(Violation::UnknownGlobal(op, k)));
                assert(!i.is_violation(Violation::MultipleGlobal(op, k)));
            }
            assert forall|k: Seq<char>| #[trigger] e.assignments.contains(k) implies i.assignments.contains(k)
                && (e.assignments.lookup(k).spec_min_value() > 1 ==> i.assignments.lookup(k).multiple) by {
                assert(!i.is_violation(Violation::UnknownAssignment(op, k)));
                assert(!i.is_violation(Violation::MultipleAssignment(op, k)));
            }
            assert forall|k: Seq<char>| #[trigger] e.redeems.contains(k) implies i.valencies.contains(k) by {
                assert(!i.is_violation(Violation::UnknownRedeem(op, k)));
            }
            assert forall|k: Seq<char>| #[trigger] e.valencies.contains(k) implies i.valencies.contains(k) by {
                assert(!i.is_violation(Violation::UnknownValency(op, k)));
            }
            assert forall|x: u8| #[trigger] e.errors.has(x) implies i.declares_tag(x) by {
                assert(!i.is_violation(Violation::UnknownErrorTag(op, x)));
            }
            if e.default_assignment is Some {
                assert(!i.is_violation(Violation::UnknownDefaultAssignment(op, e.default_assignment->0@)));
            }
        }
        assert forall|k: Seq<char>| #[trigger] i.global_state.contains(k) && i.global_state.lookup(k).required
            implies i.genesis.globals.contains(k) by {
            assert(!i.is_violation(Violation::RequiredGlobalAbsent(k)));
        }
        assert forall|k: Seq<char>| #[trigger] i.assignments.contains(k) && i.assignments.lookup(k).required
            implies i.genesis.assignments.contains(k) by {
            assert(!i.is_violation(Violation::RequiredAssignmentAbsent(k)));
        }
        assert forall|k: Seq<char>| #[trigger] i.valencies.contains(k) && i.valencies.lookup(k).required
            implies i.genesis.valencies.contains(k) by {
            assert(!i.is_violation(Violation::RequiredValencyAbsent(k)));
        }
        assert forall|n: Seq<char>| #[trigger] i.transitions.contains(n) implies !i.extensions.contains(n) by {
            assert(!i.is_violation(Violation::RepeatedOperationName(n)));
        }
        if i.default_operation is Some {
            assert(!i.is_violation(Violation::UnknownDefaultOp(i.default_operation->0@)));
        }
    }
}

} // verus!
