use heimdallr::error::FetchError;
use heimdallr::task::{SubmitBlockArgs, Task, Word};

fn task(block_id: i64, public_input: &str, proof: &str, aux: Option<&str>) -> Task {
    Task {
        block_id,
        public_input: public_input.as_bytes().to_vec(),
        proof: proof.as_bytes().to_vec(),
        public_data: vec![7, 8, 9],
        aux_data: aux.map(|a| serde_json::from_str(a).unwrap()),
    }
}

#[test]
fn row_becomes_submission() {
    let t = task(12, r#"["0x1", "0xff"]"#, r#"["0x10000000000000000"]"#, Some(r#"{"deposit": [2]}"#));
    let args = SubmitBlockArgs::try_from(t).unwrap();
    assert_eq!(args.block_id.limbs, [12, 0, 0, 0]);
    assert_eq!(args.public_inputs.len(), 2);
    assert_eq!(args.public_inputs[0].limbs, [1, 0, 0, 0]);
    assert_eq!(args.public_inputs[1].limbs, [255, 0, 0, 0]);
    assert_eq!(args.serialized_proof[0].limbs, [0, 1, 0, 0]);
    assert_eq!(args.public_data, vec![7, 8, 9]);
    assert_eq!(args.deposit_aux, vec![0, 2]);
}

#[test]
fn row_without_aux_data_has_empty_deposit_bytes() {
    let args = SubmitBlockArgs::try_from(task(3, "[]", "[]", None)).unwrap();
    assert!(args.deposit_aux.is_empty());
    assert!(args.public_inputs.is_empty());
}

#[test]
fn malformed_public_input_is_a_deserialization_error() {
    let r = SubmitBlockArgs::try_from(task(3, "[5]", "[]", None));
    assert_eq!(r.unwrap_err(), FetchError::Deserialization);
    let r = SubmitBlockArgs::try_from(task(3, "not json", "[]", None));
    assert_eq!(r.unwrap_err(), FetchError::Deserialization);
}

#[test]
fn malformed_proof_is_a_deserialization_error() {
    let r = SubmitBlockArgs::try_from(task(3, "[]", "{}", None));
    assert_eq!(r.unwrap_err(), FetchError::Deserialization);
}

#[test]
fn malformed_aux_data_fails_the_row() {
    let r = SubmitBlockArgs::try_from(task(3, "[]", "[]", Some(r#"{"deposit": [70000]}"#)));
    assert_eq!(r.unwrap_err(), FetchError::MalformedAuxData);
}

#[test]
fn same_row_gives_identical_submission() {
    let make = || task(9, r#"["0xabc"]"#, r#"["0x2", "0x3"]"#, Some(r#"{"deposit": [1, 65535]}"#));
    let a = SubmitBlockArgs::try_from(make()).unwrap();
    let b = SubmitBlockArgs::try_from(make()).unwrap();
    assert_eq!(a.block_id.limbs, b.block_id.limbs);
    let limbs = |v: &Vec<Word>| v.iter().map(|w| w.limbs).collect::<Vec<_>>();
    assert_eq!(limbs(&a.public_inputs), limbs(&b.public_inputs));
    assert_eq!(limbs(&a.serialized_proof), limbs(&b.serialized_proof));
    assert_eq!(a.public_data, b.public_data);
    assert_eq!(a.deposit_aux, b.deposit_aux);
    assert_eq!(a.deposit_aux, vec![0, 1, 0xFF, 0xFF]);
}

#[test]
fn block_id_widens_to_low_limb() {
    let w = Word::from_block_id(1 << 40);
    assert_eq!(w.limbs, [1 << 40, 0, 0, 0]);
    assert_eq!(w.low_u64(), 1 << 40);
}

#[test]
fn error_messages_are_distinct() {
    let all = [FetchError::Storage, FetchError::Deserialization, FetchError::MalformedAuxData, FetchError::Dispatch];
    for (i, a) in all.iter().enumerate() {
        for b in all.iter().skip(i + 1) {
            assert_ne!(a.message(), b.message());
        }
    }
}
