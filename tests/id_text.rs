use baid58::{Chunking, FromBaid58, ToBaid58, CHUNKING_32};
use rgb_iface::iface::{Iface, IfaceId};

#[derive(Copy, Clone, PartialEq, Eq, Debug)]
struct Text(IfaceId);

impl From<[u8; 32]> for Text {
    fn from(bytes: [u8; 32]) -> Self { Text(IfaceId::from_array(bytes)) }
}

impl ToBaid58<32> for Text {
    const HRI: &'static str = "if";
    const CHUNKING: Option<Chunking> = CHUNKING_32;
    fn to_baid58_payload(&self) -> [u8; 32] { self.0.to_byte_array() }
}

impl FromBaid58<32> for Text {}

#[test]
fn identifier_text_round_trip() {
    let id = Iface::new("RoundTrip".to_string()).iface_id();
    let text = format!("urn:lnp-bp:if:{:#.2}", Text(id).to_baid58());
    assert!(text.starts_with("urn:lnp-bp:if:"));
    let parsed =
        Text::from_baid58_maybe_chunked_str(text.trim_start_matches("urn:lnp-bp:"), ':', '#').unwrap();
    assert_eq!(parsed.0, id);
}
