use heimdallr::deposit::{encode_deposit_aux, read_deposit_field, DepositField, L2PubDataAux};
use heimdallr::error::FetchError;

fn aux_of(text: &str) -> Option<DepositField> {
    let doc: serde_json::Value = serde_json::from_str(text).unwrap();
    Some(read_deposit_field(&doc))
}

#[test]
fn deposit_positions_are_big_endian_pairs() {
    let aux = aux_of(r#"{"deposit": [1, 65535, 0]}"#);
    assert_eq!(encode_deposit_aux(&aux), Ok(vec![0x00, 0x01, 0xFF, 0xFF, 0x00, 0x00]));
}

#[test]
fn absent_aux_data_gives_no_bytes() {
    assert_eq!(encode_deposit_aux(&None), Ok(vec![]));
}

#[test]
fn empty_deposit_list_gives_no_bytes() {
    assert_eq!(encode_deposit_aux(&aux_of(r#"{"deposit": []}"#)), Ok(vec![]));
}

#[test]
fn deposit_value_above_sixteen_bits_is_malformed() {
    let aux = aux_of(r#"{"deposit": [70000]}"#);
    assert_eq!(encode_deposit_aux(&aux), Err(FetchError::MalformedAuxData));
}

#[test]
fn missing_deposit_field_is_malformed() {
    let aux = aux_of(r#"{"other": [1]}"#);
    assert!(matches!(aux, Some(DepositField::Missing)));
    assert_eq!(encode_deposit_aux(&aux), Err(FetchError::MalformedAuxData));
}

#[test]
fn deposit_field_not_a_list_is_malformed() {
    let aux = aux_of(r#"{"deposit": 3}"#);
    assert!(matches!(aux, Some(DepositField::NotSequence)));
    assert_eq!(encode_deposit_aux(&aux), Err(FetchError::MalformedAuxData));
}

#[test]
fn negative_or_text_deposit_entry_is_malformed() {
    assert_eq!(encode_deposit_aux(&aux_of(r#"{"deposit": [-1]}"#)), Err(FetchError::MalformedAuxData));
    assert_eq!(encode_deposit_aux(&aux_of(r#"{"deposit": ["2"]}"#)), Err(FetchError::MalformedAuxData));
}

#[test]
fn reading_deposit_entries_keeps_order() {
    match aux_of(r#"{"deposit": [5, 3, 9]}"#) {
        Some(DepositField::Entries(e)) => assert_eq!(e, vec![Some(5), Some(3), Some(9)]),
        other => panic!("unexpected {:?}", other),
    }
}

#[test]
fn deposit_encoding_round_trips() {
    let positions: Vec<u16> = vec![1, 65535, 0, 258, 4096];
    let aux = L2PubDataAux { deposit_txs_pos: positions.clone() };
    let bytes = aux.to_bytes();
    assert_eq!(bytes.len(), 2 * positions.len());
    assert_eq!(bytes[6], 1);
    assert_eq!(bytes[7], 2);
    assert_eq!(L2PubDataAux::from_bytes(&bytes).unwrap().deposit_txs_pos, positions);
}

#[test]
fn odd_length_deposit_bytes_do_not_decode() {
    assert!(L2PubDataAux::from_bytes(&vec![0, 1, 2]).is_none());
    assert!(L2PubDataAux::from_bytes(&vec![]).unwrap().deposit_txs_pos.is_empty());
}

#[test]
fn deposit_field_becomes_positions() {
    let field = DepositField::Entries(vec![Some(3), Some(65535)]);
    assert_eq!(L2PubDataAux::from_field(&field).unwrap().deposit_txs_pos, vec![3, 65535]);
    let field = DepositField::Entries(vec![Some(3), None]);
    assert_eq!(L2PubDataAux::from_field(&field).unwrap_err(), FetchError::MalformedAuxData);
    assert!(L2PubDataAux::from_field(&DepositField::Missing).is_err());
}
