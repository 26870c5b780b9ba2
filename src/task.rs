use vstd::prelude::*;
use crate::deposit::{
    aux_field_of, deposit_aux_of, encode_deposit_aux, field_view, read_deposit_field, DepositField,
    DepositFieldView,
};
use crate::error::FetchError;
use crate::outside::{parse_u256_list, u256_list_of, words_view};

verus! {

/// A 256-bit unsigned word as four 64-bit limbs, least significant first.
#[derive(Clone, Copy, Debug)]
pub struct Word {
    pub limbs: [u64; 4],
}

/// The limbs of a nonnegative identifier widened to 256 bits.
pub open spec fn word_limbs_of(id: i64) -> Seq<u64> {
    seq![id as u64, 0u64, 0u64, 0u64]
}

impl Word {
    /// Widens a nonnegative identifier to a 256-bit word.
    pub fn from_block_id(id: i64) -> (r: Word)
        requires
            id >= 0,
        ensures
            r.limbs@ == word_limbs_of(id),
    {
        let r = Word { limbs: [id as u64, 0, 0, 0] };
        assert(r.limbs@ =~= word_limbs_of(id));
        r
    }

    /// The low 64 bits.
    pub fn low_u64(&self) -> (r: u64)
        ensures
            r == self.limbs@[0],
    {
        self.limbs[0]
    }
}

/// One joined proof and block row, as the store hands it over.
#[derive(Debug)]
pub struct Task {
    pub block_id: i64,
    pub public_input: Vec<u8>,
    pub proof: Vec<u8>,
    pub public_data: Vec<u8>,
    pub aux_data: Option<serde_json::Value>,
}

/// The payload that commits one block on chain.
#[derive(Debug)]
pub struct SubmitBlockArgs {
    pub block_id: Word,
    pub public_inputs: Vec<Word>,
    pub serialized_proof: Vec<Word>,
    pub public_data: Vec<u8>,
    pub deposit_aux: Vec<u8>,
}

/// What a submission holds, as plain values.
pub struct SubmissionView {
    pub block_id: Seq<u64>,
    pub public_inputs: Seq<Seq<u64>>,
    pub serialized_proof: Seq<Seq<u64>>,
    pub public_data: Seq<u8>,
    pub deposit_aux: Seq<u8>,
}

impl SubmitBlockArgs {
    pub open spec fn view(&self) -> SubmissionView {
        SubmissionView {
            block_id: self.block_id.limbs@,
            public_inputs: words_view(self.public_inputs@),
            serialized_proof: words_view(self.serialized_proof@),
            public_data: self.public_data@,
            deposit_aux: self.deposit_aux@,
        }
    }
}

/// The outcome of turning a row into a submission: the public input is read
/// first, then the proof, then the deposit positions.
pub open spec fn submission_of(
    block_id: i64,
    public_input: Seq<u8>,
    proof: Seq<u8>,
    public_data: Seq<u8>,
    deposit: Option<DepositFieldView>,
) -> Result<SubmissionView, FetchError> {
    if u256_list_of(public_input) is None {
        Err(FetchError::Deserialization)
    } else if u256_list_of(proof) is None {
        Err(FetchError::Deserialization)
    } else if deposit_aux_of(deposit) is None {
        Err(FetchError::MalformedAuxData)
    } else {
        Ok(
            SubmissionView {
                block_id: word_limbs_of(block_id),
                public_inputs: u256_list_of(public_input).unwrap(),
                serialized_proof: u256_list_of(proof).unwrap(),
                public_data,
                deposit_aux: deposit_aux_of(deposit).unwrap(),
            },
        )
    }
}

pub open spec fn result_view(r: Result<SubmitBlockArgs, FetchError>) -> Result<SubmissionView, FetchError> {
    match r {
        Ok(a) => Ok(a.view()),
        Err(e) => Err(e),
    }
}

/// Turning equal rows into submissions gives equal submissions.
pub proof fn lemma_submission_deterministic(
    block_id: i64,
    public_input: Seq<u8>,
    proof: Seq<u8>,
    public_data: Seq<u8>,
    deposit: Option<DepositFieldView>,
    r1: Result<SubmitBlockArgs, FetchError>,
    r2: Result<SubmitBlockArgs, FetchError>,
)
    requires
        result_view(r1) == submission_of(block_id, public_input, proof, public_data, deposit),
        result_view(r2) == submission_of(block_id, public_input, proof, public_data, deposit),
    ensures
        result_view(r1) == result_view(r2),
{
}

impl SubmitBlockArgs {
    /// Builds the submission of a row whose deposit field has been read.
    pub fn assemble(
        block_id: i64,
        public_input: &Vec<u8>,
        proof: &Vec<u8>,
        public_data: Vec<u8>,
        deposit: &Option<DepositField>,
    ) -> (r: Result<SubmitBlockArgs, FetchError>)
        requires
            block_id >= 0,
        ensures
            result_view(r) == submission_of(block_id, public_input@, proof@, public_data@, field_view(*deposit)),
    {
        let public_inputs = match parse_u256_list(public_input) {
            Ok(v) => v,
            Err(_) => return Err(FetchError::Deserialization),
        };
        let serialized_proof = match parse_u256_list(proof) {
            Ok(v) => v,
            Err(_) => return Err(FetchError::Deserialization),
        };
        let deposit_aux = match encode_deposit_aux(deposit) {
            Ok(b) => b,
            Err(e) => return Err(e),
        };
        let r = SubmitBlockArgs {
            block_id: Word::from_block_id(block_id),
            public_inputs,
            serialized_proof,
            public_data,
            deposit_aux,
        };
        Ok(r)
    }

    /// Builds the submission of a joined row, reading its `aux_data`.
    pub fn try_from(t: Task) -> (r: Result<SubmitBlockArgs, FetchError>)
        requires
            t.block_id >= 0,
        ensures
            result_view(r) == submission_of(
                t.block_id,
                t.public_input@,
                t.proof@,
                t.public_data@,
                aux_field_of(t.aux_data),
            ),
    {
        let deposit = match &t.aux_data {
            Some(doc) => Some(read_deposit_field(doc)),
            None => None,
        };
        SubmitBlockArgs::assemble(t.block_id, &t.public_input, &t.proof, t.public_data, &deposit)
    }
}

/// A call for the on-chain submitter. Only block submission exists so far;
/// callers match on it exhaustively.
#[derive(Debug)]
pub enum ContractCall {
    SubmitBlock(SubmitBlockArgs),
}

impl ContractCall {
    /// The submission the call carries.
    pub open spec fn view(&self) -> SubmissionView {
        match self {
            ContractCall::SubmitBlock(a) => a@,
        }
    }
}

} // verus!
