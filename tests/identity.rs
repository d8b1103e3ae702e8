use rgb_iface::iface::{GlobalIface, Iface, Modifier, Occurrences, SemId, TransitionIface};

fn sample(order_swapped: bool) -> Iface {
    let mut iface = Iface::new("Sample".to_string());
    let entries = [("ticker", GlobalIface::required(SemId([1u8; 32]))), ("name", GlobalIface::optional(SemId([2u8; 32])))];
    if order_swapped {
        iface.global_state.insert(entries[1].0.to_string(), entries[1].1);
        iface.global_state.insert(entries[0].0.to_string(), entries[0].1);
    } else {
        iface.global_state.insert(entries[0].0.to_string(), entries[0].1);
        iface.global_state.insert(entries[1].0.to_string(), entries[1].1);
    }
    iface.genesis.globals.insert("ticker".to_string(), Occurrences::Once);
    iface.transitions.insert("transfer".to_string(), TransitionIface::new(Modifier::Final, false));
    iface
}

#[test]
fn identity_independent_of_insertion_order() {
    assert_eq!(sample(false).iface_id(), sample(true).iface_id());
    assert_eq!(sample(false).encode(), sample(true).encode());
}

#[test]
fn identity_changes_with_modifier() {
    let a = sample(false);
    let mut b = sample(false);
    b.genesis.modifier = Modifier::Abstract;
    assert_ne!(a.iface_id(), b.iface_id());
}

#[test]
fn identity_changes_with_occurrence() {
    let a = sample(false);
    let mut b = sample(false);
    b.genesis.globals.insert("ticker".to_string(), Occurrences::NoneOrOnce);
    assert_ne!(a.iface_id(), b.iface_id());
}

#[test]
fn identity_changes_with_declared_type() {
    let a = sample(false);
    let mut b = sample(false);
    b.global_state.insert("ticker".to_string(), GlobalIface::required(SemId([9u8; 32])));
    assert_ne!(a.iface_id(), b.iface_id());
}

#[test]
fn identity_changes_with_name() {
    let a = sample(false);
    let mut b = sample(false);
    b.name = "Other".to_string();
    assert_ne!(a.iface_id(), b.iface_id());
}

#[test]
fn encoding_starts_with_version_and_name() {
    let bytes = Iface::new("Ab".to_string()).encode();
    assert_eq!(&bytes[..11], &[1u8, 2, 0, 0, 0, 0, 0, 0, 0, b'A', b'b']);
}

#[test]
fn identity_is_the_tagged_digest_not_the_encoding() {
    let iface = sample(false);
    let id = iface.iface_id();
    let bytes = iface.encode();
    assert_ne!(&id.to_byte_array()[..], &bytes[..32]);
    assert_ne!(id.to_byte_array(), [0u8; 32]);
}

#[test]
fn empty_interface_encoding_and_identity() {
    let iface = Iface::new("Ab".to_string());
    let mut expected = vec![1u8, 2, 0, 0, 0, 0, 0, 0, 0, b'A', b'b'];
    expected.extend_from_slice(&[0u8; 22]);
    assert_eq!(iface.encode(), expected);
    let hex: String = iface.iface_id().to_byte_array().iter().map(|b| format!("{b:02x}")).collect();
    assert_eq!(hex, "f7c60d7368fd8a855c979ffe7432e13951595bc5ce63b9ec33ce32fbdeb1a44b");
}

#[test]
fn same_interface_and_order_follow_identity() {
    let a = sample(false);
    let b = sample(true);
    let mut c = sample(false);
    c.name = "Other".to_string();
    assert!(a.same_interface(&b));
    assert_eq!(a.cmp_by_id(&b), 0);
    assert!(!a.same_interface(&c));
    let expected = a.iface_id().to_byte_array().cmp(&c.iface_id().to_byte_array());
    assert_eq!(a.cmp_by_id(&c).signum(), expected as i8);
}
