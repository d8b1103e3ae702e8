use rgb_iface::check::{IfaceInconsistency, OpName};
use rgb_iface::fieldmap::FieldMap;
use rgb_iface::iface::{
    AssignIface, ErrorIface, ExtensionIface, GlobalIface, Iface, Modifier, Occurrences, OwnedIface,
    Req, SemId, TransitionIface, ValencyIface,
};

fn ticker_iface(occ: Occurrences) -> Iface {
    let mut iface = Iface::new("Ticker".to_string());
    assert!(iface.global_state.insert("ticker".to_string(), GlobalIface::required(SemId([7u8; 32]))));
    assert!(iface.genesis.globals.insert("ticker".to_string(), occ));
    iface
}

fn transition(inputs: &[&str]) -> TransitionIface {
    let mut t = TransitionIface::new(Modifier::Final, false);
    for name in inputs {
        t.inputs.insert(name.to_string(), Occurrences::Once);
    }
    t
}

#[test]
fn required_single_global_referenced_once_passes() {
    assert_eq!(ticker_iface(Occurrences::Once).check(), Ok(()));
}

#[test]
fn required_single_global_referenced_none_or_more_passes() {
    assert_eq!(ticker_iface(Occurrences::NoneOrMore).check(), Ok(()));
}

#[test]
fn single_global_referenced_twice_fails() {
    assert_eq!(
        ticker_iface(Occurrences::Exactly(2)).check(),
        Err(vec![IfaceInconsistency::MultipleGlobal(OpName::Genesis, "ticker".to_string())])
    );
}

#[test]
fn single_global_referenced_once_or_more_passes_as_its_minimum_is_one() {
    assert_eq!(ticker_iface(Occurrences::OnceOrMore).check(), Ok(()));
}

#[test]
fn unknown_input_reported_once() {
    let mut iface = Iface::new("Transfer".to_string());
    iface.transitions.insert("transfer".to_string(), transition(&["beneficiary"]));
    assert_eq!(
        iface.check(),
        Err(vec![IfaceInconsistency::UnknownInput(
            OpName::Transition("transfer".to_string()),
            "beneficiary".to_string()
        )])
    );
}

#[test]
fn repeated_operation_name_reported() {
    let mut iface = Iface::new("Burnable".to_string());
    iface.transitions.insert("burn".to_string(), transition(&[]));
    iface.extensions.insert("burn".to_string(), ExtensionIface::new(Modifier::Final, true));
    assert_eq!(
        iface.check(),
        Err(vec![IfaceInconsistency::RepeatedOperationName("burn".to_string())])
    );
}

#[test]
fn repeated_operation_name_reported_among_other_defects() {
    let mut iface = Iface::new("Burnable".to_string());
    iface.transitions.insert("burn".to_string(), transition(&["missing"]));
    iface.extensions.insert("burn".to_string(), ExtensionIface::new(Modifier::Final, true));
    iface.default_operation = Some("mint".to_string());
    let errs = iface.check().unwrap_err();
    assert_eq!(errs.len(), 3);
    assert!(errs.contains(&IfaceInconsistency::RepeatedOperationName("burn".to_string())));
    assert!(errs.contains(&IfaceInconsistency::UnknownDefaultOp("mint".to_string())));
}

#[test]
fn unknown_default_operation_reported() {
    let mut iface = Iface::new("Mintable".to_string());
    iface.transitions.insert("transfer".to_string(), transition(&[]));
    iface.default_operation = Some("mint".to_string());
    assert_eq!(iface.check(), Err(vec![IfaceInconsistency::UnknownDefaultOp("mint".to_string())]));
}

#[test]
fn known_default_operation_passes() {
    let mut iface = Iface::new("Mintable".to_string());
    iface.extensions.insert("mint".to_string(), ExtensionIface::new(Modifier::Abstract, false));
    iface.default_operation = Some("mint".to_string());
    assert_eq!(iface.check(), Ok(()));
}

#[test]
fn unknown_globals_in_two_transitions_both_reported() {
    let mut iface = Iface::new("Two".to_string());
    let mut a = transition(&[]);
    a.globals.insert("alpha".to_string(), Occurrences::Once);
    let mut b = transition(&[]);
    b.globals.insert("beta".to_string(), Occurrences::NoneOrOnce);
    iface.transitions.insert("first".to_string(), a);
    iface.transitions.insert("second".to_string(), b);
    let errs = iface.check().unwrap_err();
    assert_eq!(errs.len(), 2);
    assert!(errs.contains(&IfaceInconsistency::UnknownGlobal(
        OpName::Transition("first".to_string()),
        "alpha".to_string()
    )));
    assert!(errs.contains(&IfaceInconsistency::UnknownGlobal(
        OpName::Transition("second".to_string()),
        "beta".to_string()
    )));
}

#[test]
fn every_kind_of_defect_reported() {
    let mut iface = Iface::new("Broken".to_string());
    iface.global_state.insert("supply".to_string(), GlobalIface::required(SemId([1u8; 32])));
    iface.assignments.insert("owner".to_string(), AssignIface::private(OwnedIface::Rights, Req::Required));
    iface.valencies.insert("reserve".to_string(), ValencyIface { required: true });
    iface.errors.insert("overflow".to_string(), ErrorIface { tag: 1, message: "too much".to_string() });
    iface.genesis.errors.insert(9);
    iface.genesis.valencies.insert("nowhere".to_string(), ());
    let mut t = transition(&["ghost"]);
    t.assignments.insert("owner".to_string(), Occurrences::Exactly(2));
    t.inputs.insert("owner".to_string(), Occurrences::Range(2, 4));
    t.default_assignment = Some("absent".to_string());
    iface.transitions.insert("move".to_string(), t);
    let mut e = ExtensionIface::new(Modifier::Override, true);
    e.redeems.insert("phantom".to_string(), ());
    e.assignments.insert("unknown".to_string(), Occurrences::Once);
    iface.extensions.insert("grow".to_string(), e);
    let errs = iface.check().unwrap_err();
    let expected = vec![
        IfaceInconsistency::UnknownValency(OpName::Genesis, "nowhere".to_string()),
        IfaceInconsistency::UnknownErrorTag(OpName::Genesis, 9),
        IfaceInconsistency::MultipleAssignment(OpName::Transition("move".to_string()), "owner".to_string()),
        IfaceInconsistency::UnknownInput(OpName::Transition("move".to_string()), "ghost".to_string()),
        IfaceInconsistency::MultipleInputs(OpName::Transition("move".to_string()), "owner".to_string()),
        IfaceInconsistency::UnknownDefaultAssignment(OpName::Transition("move".to_string()), "absent".to_string()),
        IfaceInconsistency::UnknownAssignment(OpName::Extension("grow".to_string()), "unknown".to_string()),
        IfaceInconsistency::UnknownRedeem(OpName::Extension("grow".to_string()), "phantom".to_string()),
        IfaceInconsistency::RequiredGlobalAbsent("supply".to_string()),
        IfaceInconsistency::RequiredAssignmentAbsent("owner".to_string()),
        IfaceInconsistency::RequiredValencyAbsent("reserve".to_string()),
    ];
    assert_eq!(errs.len(), expected.len());
    for e in &expected {
        assert!(errs.contains(e), "missing {:?}", e);
    }
}

#[test]
fn valid_interface_passes() {
    let mut iface = Iface::new("Fungible".to_string());
    iface.global_state.insert("ticker".to_string(), GlobalIface::required(SemId([2u8; 32])));
    iface.global_state.insert("issued".to_string(), GlobalIface::one_or_many(SemId([3u8; 32])));
    iface.assignments.insert("assets".to_string(), AssignIface::public(OwnedIface::Amount, Req::OneOrMore));
    iface.valencies.insert("reissue".to_string(), ValencyIface { required: false });
    iface.errors.insert("overflow".to_string(), ErrorIface { tag: 4, message: "overflow".to_string() });
    iface.genesis.globals.insert("ticker".to_string(), Occurrences::Once);
    iface.genesis.globals.insert("issued".to_string(), Occurrences::OnceOrMore);
    iface.genesis.assignments.insert("assets".to_string(), Occurrences::OnceOrMore);
    iface.genesis.errors.insert(4);
    let mut t = transition(&["assets"]);
    t.assignments.insert("assets".to_string(), Occurrences::OnceOrMore);
    t.default_assignment = Some("assets".to_string());
    iface.transitions.insert("transfer".to_string(), t);
    let mut e = ExtensionIface::new(Modifier::Final, true);
    e.redeems.insert("reissue".to_string(), ());
    iface.extensions.insert("issue".to_string(), e);
    iface.default_operation = Some("transfer".to_string());
    assert_eq!(iface.check(), Ok(()));
}

#[test]
fn occurrence_bounds() {
    assert_eq!(Occurrences::Once.min_value(), 1);
    assert_eq!(Occurrences::NoneOrMore.min_value(), 0);
    assert_eq!(Occurrences::Exactly(5).min_value(), 5);
    assert_eq!(Occurrences::Range(3, 9).min_value(), 3);
    assert_eq!(Occurrences::Range(3, 9).max_value(), 9);
    assert_eq!(Occurrences::OnceOrMore.max_value(), u16::MAX);
    assert!(!Occurrences::NoneOrOnce.allows_multiple());
    assert!(Occurrences::NoneOrUpTo(2).allows_multiple());
}

#[test]
fn req_flags() {
    assert!(Req::Required.is_required() && !Req::Required.is_multiple());
    assert!(Req::OneOrMore.is_required() && Req::OneOrMore.is_multiple());
    assert!(!Req::NoneOrMore.is_required() && Req::NoneOrMore.is_multiple());
    assert!(!Req::Optional.is_required() && !Req::Optional.is_multiple());
    let g = GlobalIface::any(Req::OneOrMore);
    assert_eq!(g.sem_id, None);
    assert!(g.required && g.multiple);
}

#[test]
fn table_keeps_key_order_and_replaces() {
    let mut m: FieldMap<u8> = FieldMap::new();
    assert!(m.insert("beta".to_string(), 2));
    assert!(m.insert("alpha".to_string(), 1));
    assert!(m.insert("beta".to_string(), 3));
    assert_eq!(m.len(), 2);
    assert_eq!(m.key_at(0), "alpha");
    assert_eq!(*m.value_at(1), 3);
    assert_eq!(m.get(&"beta".to_string()), Some(&3));
    assert_eq!(m.get(&"gamma".to_string()), None);
}

#[test]
fn table_refuses_new_name_when_full() {
    let mut m: FieldMap<()> = FieldMap::new();
    for i in 0..255u32 {
        assert!(m.insert(format!("n{:03}", i), ()));
    }
    assert!(!m.insert("overflow".to_string(), ()));
    assert!(m.insert("n000".to_string(), ()));
    assert_eq!(m.len(), 255);
}
