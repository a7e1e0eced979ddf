use remitwise::checksum::{checksum_preimage, snapshot_checksum};
use remitwise::hex::encode;

const GOLDEN_PAYLOAD: &str = r#"{"SavingsGoals":{"next_id":2,"goals":[{"id":1,"owner":"GOWNER","name":"Emergency Fund","target_amount":5000,"current_amount":1000,"target_date":2000000000,"locked":false}]}}"#;

#[test]
fn encode_empty_is_empty() {
    assert_eq!(encode(&[]), "");
}

#[test]
fn encode_uses_lower_case_high_nibble_first() {
    assert_eq!(encode(&[0x00, 0x0f, 0xa5, 0xff, 0x10]), "000fa5ff10");
    assert_eq!(encode(&[0xbe, 0xef]), "beef");
}

#[test]
fn encode_every_byte_has_two_digits() {
    let all: Vec<u8> = (0..=255u8).collect();
    let s = encode(&all);
    assert_eq!(s.len(), 512);
    assert_eq!(&s[0..4], "0001");
    assert_eq!(&s[508..512], "feff");
}

#[test]
fn preimage_is_version_le_then_format_then_payload() {
    let p = checksum_preimage(0x01020304, "ab", "xyz");
    assert_eq!(p, vec![0x04, 0x03, 0x02, 0x01, b'a', b'b', b'x', b'y', b'z']);
}

#[test]
fn golden_snapshot_checksum() {
    assert_eq!(
        snapshot_checksum(1, "binary", GOLDEN_PAYLOAD),
        "7d6d362a7b7e42ef78b31f23dfd9643191636ceed46ba50af51c579f3c984400"
    );
}

#[test]
fn checksum_binds_version() {
    assert_eq!(
        snapshot_checksum(2, "binary", GOLDEN_PAYLOAD),
        "012323ebef376777c8771f87180eddd546dc210f31aee9cf0bd95def14e232a6"
    );
    assert_eq!(
        snapshot_checksum(0, "", ""),
        "df3f619804a92fdb4057192dc43dd748ea778adc52bc498ce80524c014b81119"
    );
}

#[test]
fn checksum_is_deterministic() {
    assert_eq!(
        snapshot_checksum(1, "binary", GOLDEN_PAYLOAD),
        snapshot_checksum(1, "binary", GOLDEN_PAYLOAD)
    );
}
