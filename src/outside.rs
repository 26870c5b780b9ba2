use vstd::prelude::*;
use crate::task::{ContractCall, Word};

verus! {

/// serde_json's document type, carried through opaquely: the `aux_data` column.
#[verifier::external_type_specification]
#[verifier::external_body]
pub struct ExJsonValue(serde_json::Value);

/// serde_json's parse error, mapped to `FetchError::Deserialization`.
#[verifier::external_type_specification]
#[verifier::external_body]
pub struct ExJsonError(serde_json::Error);

/// What `serde_json::Value::get` finds under `key` in `v`.
pub uninterp spec fn json_get_of(v: serde_json::Value, key: Seq<char>) -> Option<serde_json::Value>;

/// What `serde_json::Value::as_array` gives for `v`.
pub uninterp spec fn json_array_of(v: serde_json::Value) -> Option<Seq<serde_json::Value>>;

/// What `serde_json::Value::as_u64` gives for `v`.
pub uninterp spec fn json_u64_of(v: serde_json::Value) -> Option<u64>;

/// Relies on serde_json::Value::get: the value under `key` when `v` is an
/// object holding that key; it depends on `v` and `key` alone.
#[verifier::external_body]
pub(crate) fn json_field<'a>(v: &'a serde_json::Value, key: &str) -> (r: Option<&'a serde_json::Value>)
    ensures
        r is Some <==> json_get_of(*v, key@) is Some,
        r matches Some(f) ==> *f == json_get_of(*v, key@).unwrap(),
{
    v.get(key)
}

/// Relies on serde_json::Value::as_array: the elements when `v` is an array;
/// it depends on `v` alone.
#[verifier::external_body]
pub(crate) fn json_array(v: &serde_json::Value) -> (r: Option<&Vec<serde_json::Value>>)
    ensures
        r is Some <==> json_array_of(*v) is Some,
        r matches Some(a) ==> a@ == json_array_of(*v).unwrap(),
{
    v.as_array()
}

/// Relies on serde_json::Value::as_u64: the number when `v` is an integer
/// that fits in 64 unsigned bits; it depends on `v` alone.
#[verifier::external_body]
pub(crate) fn json_u64(v: &serde_json::Value) -> (r: Option<u64>)
    ensures
        r == json_u64_of(*v),
{
    v.as_u64()
}

/// What `serde_json::from_slice` reads from `b` as a list of ethers' `U256`,
/// each word as its four 64-bit limbs, least significant first; `None` where
/// it fails.
pub uninterp spec fn u256_list_of(b: Seq<u8>) -> Option<Seq<Seq<u64>>>;

pub open spec fn words_view(s: Seq<Word>) -> Seq<Seq<u64>> {
    s.map_values(|w: Word| w.limbs@)
}

/// Relies on serde_json::from_slice deserialising a JSON list of ethers'
/// `U256`; the outcome depends on the bytes alone. Each word is handed on as
/// its limbs.
#[verifier::external_body]
pub(crate) fn parse_u256_list(b: &Vec<u8>) -> (r: Result<Vec<Word>, serde_json::Error>)
    ensures
        r is Ok <==> u256_list_of(b@) is Some,
        r matches Ok(v) ==> words_view(v@) == u256_list_of(b@).unwrap(),
{
    serde_json::from_slice::<Vec<ethers::types::U256>>(b).map(
        |v| v.into_iter().map(|x| Word { limbs: x.0 }).collect(),
    )
}

/// The sending end of the dispatch channel.
#[verifier::external_type_specification]
#[verifier::external_body]
#[verifier::reject_recursive_types(T)]
pub struct ExSender<T>(crossbeam_channel::Sender<T>);

/// Why a send did not go through, mapped to `FetchError::Dispatch`.
#[verifier::external_type_specification]
#[verifier::external_body]
#[verifier::reject_recursive_types(T)]
pub struct ExTrySendError<T>(crossbeam_channel::TrySendError<T>);

/// Relies on crossbeam_channel::Sender::try_send: queues the call without
/// waiting, or fails when the channel is full or disconnected.
#[verifier::external_body]
pub(crate) fn channel_try_send(
    tx: &crossbeam_channel::Sender<ContractCall>,
    call: ContractCall,
) -> (r: Result<(), crossbeam_channel::TrySendError<ContractCall>>) {
    tx.try_send(call)
}

} // verus!
