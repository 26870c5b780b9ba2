use vstd::prelude::*;
use crate::error::FetchError;
use crate::outside::{json_array, json_array_of, json_field, json_get_of, json_u64, json_u64_of};

verus! {

/// The big-endian two-byte form of every position, concatenated in order.
pub open spec fn encode_positions(s: Seq<u16>) -> Seq<u8> {
    Seq::new(
        2 * s.len(),
        |j: int|
            if j % 2 == 0 {
                (s[j / 2] / 256) as u8
            } else {
                (s[j / 2] % 256) as u8
            },
    )
}

/// Reads consecutive byte pairs back as big-endian 16-bit positions.
pub open spec fn decode_positions(b: Seq<u8>) -> Seq<u16> {
    Seq::new(b.len() / 2, |i: int| (b[2 * i] as int * 256 + b[2 * i + 1] as int) as u16)
}

/// Decoding the encoding of any positions gives back the same positions,
/// and so the same length.
pub proof fn lemma_positions_round_trip(s: Seq<u16>)
    ensures
        encode_positions(s).len() == 2 * s.len(),
        decode_positions(encode_positions(s)).len() == s.len(),
        decode_positions(encode_positions(s)) == s,
{
    let e = encode_positions(s);
    let d = decode_positions(e);
    assert forall|i: int| 0 <= i < s.len() implies d[i] == s[i] by {
        assert(e[2 * i] == (s[i] / 256) as u8);
        assert(e[2 * i + 1] == (s[i] % 256) as u8);
    }
    assert(d =~= s);
}

/// The deposit positions of a block: where its deposit transactions stand
/// among its transactions.
#[derive(Clone, Debug)]
pub struct L2PubDataAux {
    pub deposit_txs_pos: Vec<u16>,
}

impl L2PubDataAux {
    /// Encodes the positions as the concatenation of their big-endian bytes.
    pub fn to_bytes(&self) -> (r: Vec<u8>)
        ensures
            r@ == encode_positions(self.deposit_txs_pos@),
    {
        let positions = &self.deposit_txs_pos;
        let mut out: Vec<u8> = Vec::new();
        let mut i: usize = 0;
        while i < positions.len()
            invariant
                i <= positions@.len(),
                out@ == encode_positions(positions@.subrange(0, i as int)),
            decreases positions@.len() - i,
        {
            let p: u16 = positions[i];
            let hi: u8 = (p / 256) as u8;
            let lo: u8 = (p % 256) as u8;
            out.push(hi);
            out.push(lo);
            proof {
                let prev = positions@.subrange(0, i as int);
                let next = positions@.subrange(0, i + 1);
                assert forall|j: int| 0 <= j < 2 * next.len() implies out@[j]
                    == encode_positions(next)[j] by {
                    if j < 2 * prev.len() {
                        assert(next[j / 2] == prev[j / 2]);
                    }
                }
                assert(out@ =~= encode_positions(next));
            }
            i = i + 1;
        }
        assert(positions@.subrange(0, positions@.len() as int) =~= positions@);
        out
    }

    /// Reads a byte sequence of even length back into 16-bit positions;
    /// `None` where the length is odd.
    pub fn from_bytes(bytes: &Vec<u8>) -> (r: Option<L2PubDataAux>)
        ensures
            r is Some <==> bytes@.len() % 2 == 0,
            r matches Some(a) ==> a.deposit_txs_pos@ == decode_positions(bytes@),
    {
        if bytes.len() % 2 != 0 {
            return None;
        }
        let len: usize = bytes.len();
        let n: usize = len / 2;
        let mut out: Vec<u16> = Vec::new();
        let mut i: usize = 0;
        while i < n
            invariant
                len == bytes@.len(),
                n == len / 2,
                bytes@.len() % 2 == 0,
                i <= n,
                out@ =~= decode_positions(bytes@).subrange(0, i as int),
            decreases n - i,
        {
            let k: usize = i + i;
            let hi: u16 = bytes[k] as u16;
            let lo: u16 = bytes[k + 1] as u16;
            assert(hi * 256 + lo <= 65535) by (nonlinear_arith)
                requires
                    hi <= 255,
                    lo <= 255,
            ;
            out.push(hi * 256 + lo);
            i = i + 1;
        }
        Some(L2PubDataAux { deposit_txs_pos: out })
    }
}

/// What the encoder reads from an `aux_data` document: its `deposit` field,
/// and of each element the unsigned 64-bit integer it holds, if any.
#[derive(Debug)]
pub enum DepositField {
    /// The document has no `deposit` field.
    Missing,
    /// The `deposit` field is not a list.
    NotSequence,
    /// The elements of the `deposit` list, in order.
    Entries(Vec<Option<u64>>),
}

/// A `DepositField` as plain values.
pub enum DepositFieldView {
    Missing,
    NotSequence,
    Entries(Seq<Option<u64>>),
}

impl DepositField {
    pub open spec fn view(&self) -> DepositFieldView {
        match self {
            DepositField::Missing => DepositFieldView::Missing,
            DepositField::NotSequence => DepositFieldView::NotSequence,
            DepositField::Entries(e) => DepositFieldView::Entries(e@),
        }
    }
}

/// Each element of a JSON list as an unsigned 64-bit integer, if it is one.
pub open spec fn entries_of(items: Seq<serde_json::Value>) -> Seq<Option<u64>> {
    items.map_values(|x: serde_json::Value| json_u64_of(x))
}

/// The `deposit` field of an `aux_data` document as serde_json reads it.
pub open spec fn deposit_field_of(doc: serde_json::Value) -> DepositFieldView {
    match json_get_of(doc, "deposit"@) {
        None => DepositFieldView::Missing,
        Some(field) => match json_array_of(field) {
            None => DepositFieldView::NotSequence,
            Some(items) => DepositFieldView::Entries(entries_of(items)),
        },
    }
}

/// The `deposit` field of an optional `aux_data` document.
pub open spec fn aux_field_of(aux: Option<serde_json::Value>) -> Option<DepositFieldView> {
    match aux {
        None => None,
        Some(doc) => Some(deposit_field_of(doc)),
    }
}

pub open spec fn field_view(aux: Option<DepositField>) -> Option<DepositFieldView> {
    match aux {
        None => None,
        Some(f) => Some(f@),
    }
}

/// Every element is an integer in `0..=65535`.
pub open spec fn entries_valid(e: Seq<Option<u64>>) -> bool {
    forall|i: int| 0 <= i < e.len() ==> (#[trigger] e[i] matches Some(n) && n <= 65535)
}

pub open spec fn entry_positions(e: Seq<Option<u64>>) -> Seq<u16> {
    Seq::new(e.len(), |i: int| e[i].unwrap() as u16)
}

/// The `deposit_aux` bytes for a document, `None` where it is malformed.
/// An absent document gives no bytes.
pub open spec fn deposit_aux_of(aux: Option<DepositFieldView>) -> Option<Seq<u8>> {
    match aux {
        None => Some(Seq::empty()),
        Some(DepositFieldView::Entries(e)) => if entries_valid(e) {
            Some(encode_positions(entry_positions(e)))
        } else {
            None
        },
        Some(_) => None,
    }
}

impl L2PubDataAux {
    /// The positions of a `deposit` field, each of which must be an integer in
    /// `0..=65535`.
    pub fn from_field(field: &DepositField) -> (r: Result<L2PubDataAux, FetchError>)
        ensures
            r is Ok <==> (field@ matches DepositFieldView::Entries(e) && entries_valid(e)),
            r matches Ok(a) ==> (field@ matches DepositFieldView::Entries(e) && a.deposit_txs_pos@ == entry_positions(e)),
            r matches Err(e) ==> e == FetchError::MalformedAuxData,
    {
        match field {
            DepositField::Entries(entries) => {
                let mut positions: Vec<u16> = Vec::new();
                let mut i: usize = 0;
                while i < entries.len()
                    invariant
                        *field == DepositField::Entries(*entries),
                        i <= entries@.len(),
                        entries_valid(entries@.subrange(0, i as int)),
                        positions@ == entry_positions(entries@.subrange(0, i as int)),
                    decreases entries@.len() - i,
                {
                    match entries[i] {
                        Some(n) => {
                            if n > 65535 {
                                assert(!(entries@[i as int] matches Some(m) && m <= 65535));
                                assert(!entries_valid(entries@));
                                return Err(FetchError::MalformedAuxData);
                            }
                            positions.push(n as u16);
                            proof {
                                let next = entries@.subrange(0, i + 1);
                                assert(next.drop_last() =~= entries@.subrange(0, i as int));
                                assert(positions@ =~= entry_positions(next));
                                assert forall|k: int| 0 <= k < next.len() implies (#[trigger] next[k] matches Some(m) && m <= 65535) by {
                                    if k < i {
                                        assert(next[k] == entries@.subrange(0, i as int)[k]);
                                    }
                                }
                            }
                        },
                        None => {
                            assert(entries@[i as int] is None);
                            assert(!entries_valid(entries@));
                            return Err(FetchError::MalformedAuxData);
                        },
                    }
                    i = i + 1;
                }
                assert(entries@.subrange(0, entries@.len() as int) =~= entries@);
                Ok(L2PubDataAux { deposit_txs_pos: positions })
            },
            _ => Err(FetchError::MalformedAuxData),
        }
    }
}

/// Encodes the deposit positions of an optional `aux_data` document.
pub fn encode_deposit_aux(aux: &Option<DepositField>) -> (r: Result<Vec<u8>, FetchError>)
    ensures
        r is Ok <==> deposit_aux_of(field_view(*aux)) is Some,
        r matches Ok(b) ==> deposit_aux_of(field_view(*aux)) == Some(b@),
        r matches Err(e) ==> e == FetchError::MalformedAuxData,
{
    match aux {
        None => Ok(Vec::new()),
        Some(field) => match L2PubDataAux::from_field(field) {
            Ok(positions) => Ok(positions.to_bytes()),
            Err(e) => Err(e),
        },
    }
}

/// Reads the `deposit` field of an `aux_data` document through serde_json.
pub fn read_deposit_field(doc: &serde_json::Value) -> (r: DepositField)
    ensures
        r@ == deposit_field_of(*doc),
{
    match json_field(doc, "deposit") {
        None => DepositField::Missing,
        Some(field) => match json_array(field) {
            None => DepositField::NotSequence,
            Some(items) => {
                let mut entries: Vec<Option<u64>> = Vec::new();
                let mut i: usize = 0;
                while i < items.len()
                    invariant
                        json_get_of(*doc, "deposit"@) == Some(*field),
                        json_array_of(*field) == Some(items@),
                        i <= items@.len(),
                        entries@.len() == i,
                        forall|k: int| 0 <= k < i ==> entries@[k] == json_u64_of(#[trigger] items@[k]),
                    decreases items@.len() - i,
                {
                    entries.push(json_u64(&items[i]));
                    i = i + 1;
                }
                assert(entries@ =~= entries_of(items@));
                DepositField::Entries(entries)
            },
        },
    }
}

} // verus!
