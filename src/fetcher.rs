use vstd::prelude::*;
use crate::error::FetchError;
use crate::deposit::aux_field_of;
use crate::outside::channel_try_send;
use crate::task::{submission_of, word_limbs_of, ContractCall, SubmissionView, SubmitBlockArgs, Task};

verus! {

/// The proof status of one block.
#[derive(Clone, Copy, Debug, PartialEq, Eq, Structural)]
pub struct ProofStatus {
    pub block_id: i64,
    /// The proof of this block has been generated and stored.
    pub proved: bool,
}

/// The commit status of one block.
#[derive(Clone, Copy, Debug, PartialEq, Eq, Structural)]
pub struct BlockStatus {
    pub block_id: i64,
    /// The block has not yet been included on chain.
    pub uncommitted: bool,
}

/// `id` lies below the first block that is not proved; with every block
/// proved, below the largest identifier.
pub open spec fn below_ceiling(proofs: Seq<ProofStatus>, id: i64) -> bool {
    &&& id < i64::MAX
    &&& forall|i: int| 0 <= i < proofs.len() && !(#[trigger] proofs[i]).proved ==> id < proofs[i].block_id
}

/// `id` lies past the cursor; with no cursor, every identifier does.
pub open spec fn past_cursor(cursor: Option<i64>, id: i64) -> bool {
    match cursor {
        Some(c) => id > c,
        None => true,
    }
}

pub open spec fn has_proved_row(proofs: Seq<ProofStatus>, id: i64) -> bool {
    exists|i: int| 0 <= i < proofs.len() && (#[trigger] proofs[i]).block_id == id && proofs[i].proved
}

pub open spec fn has_uncommitted_row(blocks: Seq<BlockStatus>, id: i64) -> bool {
    exists|j: int| 0 <= j < blocks.len() && (#[trigger] blocks[j]).block_id == id && blocks[j].uncommitted
}

/// Block `id` may be submitted next when the cursor is at `cursor`.
pub open spec fn eligible(
    proofs: Seq<ProofStatus>,
    blocks: Seq<BlockStatus>,
    cursor: Option<i64>,
    id: i64,
) -> bool {
    &&& below_ceiling(proofs, id)
    &&& past_cursor(cursor, id)
    &&& has_proved_row(proofs, id)
    &&& has_uncommitted_row(blocks, id)
}

/// `id` is the smallest eligible block.
pub open spec fn is_next(
    proofs: Seq<ProofStatus>,
    blocks: Seq<BlockStatus>,
    cursor: Option<i64>,
    id: i64,
) -> bool {
    &&& eligible(proofs, blocks, cursor, id)
    &&& forall|k: i64| #[trigger] eligible(proofs, blocks, cursor, k) ==> id <= k
}

/// The block to submit next: the smallest eligible one, if any.
pub open spec fn next_block(
    proofs: Seq<ProofStatus>,
    blocks: Seq<BlockStatus>,
    cursor: Option<i64>,
) -> Option<i64> {
    if exists|k: i64| is_next(proofs, blocks, cursor, k) {
        Some(choose|k: i64| is_next(proofs, blocks, cursor, k))
    } else {
        None
    }
}

/// Whether any proof row is proved for `id`.
fn find_proved(proofs: &Vec<ProofStatus>, id: i64) -> (r: bool)
    ensures
        r == has_proved_row(proofs@, id),
{
    let mut i: usize = 0;
    while i < proofs.len()
        invariant
            i <= proofs@.len(),
            forall|k: int| 0 <= k < i ==> !((#[trigger] proofs@[k]).block_id == id && proofs@[k].proved),
        decreases proofs@.len() - i,
    {
        if proofs[i].block_id == id && proofs[i].proved {
            return true;
        }
        i = i + 1;
    }
    false
}

/// The smallest identifier of a proof row that is not proved, if any.
fn first_unproved(proofs: &Vec<ProofStatus>) -> (r: Option<i64>)
    ensures
        forall|id: i64|
            (#[trigger] below_ceiling(proofs@, id)) <==> (id < i64::MAX && match r {
                Some(c) => id < c,
                None => true,
            }),
{
    let mut best: Option<i64> = None;
    let mut i: usize = 0;
    while i < proofs.len()
        invariant
            i <= proofs@.len(),
            forall|k: int| 0 <= k < i && !(#[trigger] proofs@[k]).proved ==> (best matches Some(c) && c <= proofs@[k].block_id),
            best matches Some(c) ==> exists|k: int| 0 <= k < i && !(#[trigger] proofs@[k]).proved && proofs@[k].block_id == c,
        decreases proofs@.len() - i,
    {
        let p = proofs[i];
        if !p.proved {
            match best {
                Some(c) => {
                    if p.block_id < c {
                        best = Some(p.block_id);
                    }
                },
                None => {
                    best = Some(p.block_id);
                },
            }
        }
        i = i + 1;
    }
    best
}

/// Picks the block to submit next: the smallest identifier that lies past
/// the cursor and below the first unproved block, whose proof is proved and
/// whose block is uncommitted.
pub fn select_next(proofs: &Vec<ProofStatus>, blocks: &Vec<BlockStatus>, cursor: Option<i64>) -> (r: Option<i64>)
    ensures
        r is None <==> forall|k: i64| !#[trigger] eligible(proofs@, blocks@, cursor, k),
        r matches Some(id) ==> is_next(proofs@, blocks@, cursor, id),
        r == next_block(proofs@, blocks@, cursor),
{
    let ceiling = first_unproved(proofs);
    let mut best: Option<i64> = None;
    let mut j: usize = 0;
    while j < blocks.len()
        invariant
            j <= blocks@.len(),
            forall|id: i64|
                (#[trigger] below_ceiling(proofs@, id)) <==> (id < i64::MAX && match ceiling {
                    Some(c) => id < c,
                    None => true,
                }),
            best matches Some(b) ==> eligible(proofs@, blocks@, cursor, b),
            forall|k: int|
                0 <= k < j && eligible(proofs@, blocks@, cursor, (#[trigger] blocks@[k]).block_id)
                    && blocks@[k].uncommitted ==> (best matches Some(b) && b <= blocks@[k].block_id),
        decreases blocks@.len() - j,
    {
        let b = blocks[j];
        let under = b.block_id < i64::MAX && match ceiling {
            Some(c) => b.block_id < c,
            None => true,
        };
        let after = match cursor {
            Some(c) => b.block_id > c,
            None => true,
        };
        let smaller = match best {
            Some(x) => b.block_id < x,
            None => true,
        };
        if b.uncommitted && under && after && smaller {
            if find_proved(proofs, b.block_id) {
                assert(has_uncommitted_row(blocks@, b.block_id)) by {
                    assert(blocks@[j as int] == b);
                }
                best = Some(b.block_id);
            }
        }
        proof {
            assert(below_ceiling(proofs@, b.block_id) == under);
        }
        j = j + 1;
    }
    proof {
        match best {
            Some(x) => {
                assert forall|k: i64| #[trigger] eligible(proofs@, blocks@, cursor, k) implies x <= k by {
                    let jj = choose|jj: int| 0 <= jj < blocks@.len() && (#[trigger] blocks@[jj]).block_id == k && blocks@[jj].uncommitted;
                    assert(eligible(proofs@, blocks@, cursor, blocks@[jj].block_id));
                }
                assert(is_next(proofs@, blocks@, cursor, x));
                lemma_next_unique(proofs@, blocks@, cursor, x);
            },
            None => {
                assert forall|k: i64| !#[trigger] eligible(proofs@, blocks@, cursor, k) by {
                    if eligible(proofs@, blocks@, cursor, k) {
                        let jj = choose|jj: int| 0 <= jj < blocks@.len() && (#[trigger] blocks@[jj]).block_id == k && blocks@[jj].uncommitted;
                        assert(eligible(proofs@, blocks@, cursor, blocks@[jj].block_id));
                    }
                }
            },
        }
    }
    best
}

proof fn lemma_next_unique(proofs: Seq<ProofStatus>, blocks: Seq<BlockStatus>, cursor: Option<i64>, id: i64)
    requires
        is_next(proofs, blocks, cursor, id),
    ensures
        next_block(proofs, blocks, cursor) == Some(id),
{
    let c = choose|k: i64| is_next(proofs, blocks, cursor, k);
    assert(is_next(proofs, blocks, cursor, c));
    assert(c <= id && id <= c);
}

/// What the fetcher is configured with.
#[derive(Clone, Debug)]
pub struct Settings {
    /// Where the store lives.
    pub db: String,
}

/// Finds the next committable block and hands it to the submitter. The
/// cursor is the last block handed over; it moves only after a successful
/// send.
#[derive(Debug)]
pub struct TaskFetcher<P> {
    connpool: P,
    last_block_id: Option<i64>,
}

impl<P> TaskFetcher<P> {
    /// The last block handed over, if any.
    pub closed spec fn cursor(&self) -> Option<i64> {
        self.last_block_id
    }

    /// The connection pool the fetcher queries through.
    pub closed spec fn pool_view(&self) -> P {
        self.connpool
    }

    /// A fetcher over a connection pool that starts from the beginning.
    pub fn from_config_with_pool(_config: &Settings, connpool: P) -> (r: Self)
        ensures
            r.cursor() is None,
            r.pool_view() == connpool,
    {
        TaskFetcher { connpool, last_block_id: None }
    }

    pub fn pool(&self) -> (r: &P)
        ensures
            *r == self.pool_view(),
    {
        &self.connpool
    }

    pub fn last_block_id(&self) -> (r: Option<i64>)
        ensures
            r == self.cursor(),
    {
        self.last_block_id
    }

    /// The block this cycle should submit, given the current proof and block
    /// statuses.
    pub fn next_candidate(&self, proofs: &Vec<ProofStatus>, blocks: &Vec<BlockStatus>) -> (r: Option<i64>)
        ensures
            r == next_block(proofs@, blocks@, self.cursor()),
            r matches Some(id) ==> is_next(proofs@, blocks@, self.cursor(), id),
            r is None <==> forall|k: i64| !#[trigger] eligible(proofs@, blocks@, self.cursor(), k),
    {
        select_next(proofs, blocks, self.last_block_id)
    }

    /// Turns the candidate's row into the call to hand over: a submission
    /// exactly as `submission_of` gives it, or the error that stops this
    /// cycle, in which case there is nothing to send.
    pub fn prepare(&self, t: Task) -> (r: Result<ContractCall, FetchError>)
        requires
            t.block_id >= 0,
        ensures
            r matches Ok(c) ==> submission_of(
                t.block_id,
                t.public_input@,
                t.proof@,
                t.public_data@,
                aux_field_of(t.aux_data),
            ) == Ok::<SubmissionView, FetchError>(c@),
            r matches Err(e) ==> submission_of(
                t.block_id,
                t.public_input@,
                t.proof@,
                t.public_data@,
                aux_field_of(t.aux_data),
            ) == Err::<SubmissionView, FetchError>(e),
    {
        match SubmitBlockArgs::try_from(t) {
            Ok(args) => Ok(ContractCall::SubmitBlock(args)),
            Err(e) => Err(e),
        }
    }

    /// Hands `call`, the submission of block `block_id`, to the channel
    /// without waiting. The cursor moves forward to `block_id` only when the
    /// send succeeds.
    pub fn dispatch(
        &mut self,
        block_id: i64,
        call: ContractCall,
        tx: &crossbeam_channel::Sender<ContractCall>,
    ) -> (r: Result<(), FetchError>)
        requires
            block_id >= 0,
            call@.block_id == word_limbs_of(block_id),
            past_cursor(old(self).cursor(), block_id),
        ensures
            cursor_step(old(self).cursor(), final(self).cursor(), block_id, r is Ok),
            r matches Err(e) ==> e == FetchError::Dispatch,
            final(self).pool_view() == old(self).pool_view(),
    {
        match channel_try_send(tx, call) {
            Ok(()) => {
                self.last_block_id = Some(block_id);
                Ok(())
            },
            Err(_) => Err(FetchError::Dispatch),
        }
    }
}

/// How one send moves the cursor: to the block sent when it went through,
/// nowhere when it failed.
pub open spec fn cursor_step(before: Option<i64>, after: Option<i64>, block_id: i64, sent: bool) -> bool {
    if sent {
        after == Some(block_id)
    } else {
        after == before
    }
}

proof fn lemma_next_block_is_next(proofs: Seq<ProofStatus>, blocks: Seq<BlockStatus>, cursor: Option<i64>, id: i64)
    requires
        next_block(proofs, blocks, cursor) == Some(id),
    ensures
        is_next(proofs, blocks, cursor, id),
{
}

/// After block `first` is handed over, the next block handed over lies
/// above it, and no block that was eligible before is passed over between
/// the two.
pub proof fn lemma_dispatch_ascending(
    proofs: Seq<ProofStatus>,
    blocks: Seq<BlockStatus>,
    cursor: Option<i64>,
    first: i64,
    second: i64,
)
    requires
        next_block(proofs, blocks, cursor) == Some(first),
        next_block(proofs, blocks, Some(first)) == Some(second),
    ensures
        first < second,
        forall|k: i64| #[trigger] eligible(proofs, blocks, cursor, k) && k != first ==> second <= k,
{
    lemma_next_block_is_next(proofs, blocks, cursor, first);
    lemma_next_block_is_next(proofs, blocks, Some(first), second);
    assert forall|k: i64| #[trigger] eligible(proofs, blocks, cursor, k) && k != first implies second <= k by {
        assert(first <= k);
        assert(eligible(proofs, blocks, Some(first), k));
    }
}

/// A block at or above the first block that is not proved is never chosen,
/// even where its own proof row is proved.
pub proof fn lemma_ceiling_respected(
    proofs: Seq<ProofStatus>,
    blocks: Seq<BlockStatus>,
    cursor: Option<i64>,
    id: i64,
    i: int,
)
    requires
        next_block(proofs, blocks, cursor) == Some(id),
        0 <= i < proofs.len(),
        !proofs[i].proved,
    ensures
        id < proofs[i].block_id,
{
    lemma_next_block_is_next(proofs, blocks, cursor, id);
}

/// When the send of this cycle's candidate fails, the cursor stays put, so
/// the next cycle over the same statuses picks the same block again.
pub proof fn lemma_failed_dispatch_retries<P>(
    before: TaskFetcher<P>,
    after: TaskFetcher<P>,
    proofs: Seq<ProofStatus>,
    blocks: Seq<BlockStatus>,
    block_id: i64,
)
    requires
        next_block(proofs, blocks, before.cursor()) == Some(block_id),
        cursor_step(before.cursor(), after.cursor(), block_id, false),
    ensures
        after.cursor() == before.cursor(),
        next_block(proofs, blocks, after.cursor()) == Some(block_id),
{
}

/// With nothing eligible, a cycle chooses nothing, however often it runs.
pub proof fn lemma_idle_cycle(proofs: Seq<ProofStatus>, blocks: Seq<BlockStatus>, cursor: Option<i64>)
    requires
        forall|k: i64| !#[trigger] eligible(proofs, blocks, cursor, k),
    ensures
        next_block(proofs, blocks, cursor) is None,
{
}

/// One cycle as the fetcher sees it: the statuses it read, and whether the
/// send of the chosen block, if one was chosen, went through.
pub struct Cycle {
    pub proofs: Seq<ProofStatus>,
    pub blocks: Seq<BlockStatus>,
    pub sent: bool,
}

/// The cursor after the first `n` of `cycles`, starting from `start`.
pub open spec fn cursor_after(cycles: Seq<Cycle>, start: Option<i64>, n: nat) -> Option<i64>
    decreases n,
{
    if n == 0 {
        start
    } else {
        let c = cursor_after(cycles, start, (n - 1) as nat);
        let cy = cycles[n - 1];
        match next_block(cy.proofs, cy.blocks, c) {
            Some(id) => if cy.sent {
                Some(id)
            } else {
                c
            },
            None => c,
        }
    }
}

/// The block that cycle `i` handed over, if it handed one over.
pub open spec fn sent_in(cycles: Seq<Cycle>, start: Option<i64>, i: nat) -> Option<i64> {
    if cycles[i as int].sent {
        next_block(cycles[i as int].proofs, cycles[i as int].blocks, cursor_after(cycles, start, i))
    } else {
        None
    }
}

proof fn lemma_cursor_stays_at_least(cycles: Seq<Cycle>, start: Option<i64>, i: nat, a: i64, k: nat)
    requires
        i < k <= cycles.len(),
        sent_in(cycles, start, i) == Some(a),
    ensures
        cursor_after(cycles, start, k) matches Some(v) && v >= a,
    decreases k,
{
    if k > i + 1 {
        lemma_cursor_stays_at_least(cycles, start, i, a, (k - 1) as nat);
        let c = cursor_after(cycles, start, (k - 1) as nat);
        let cy = cycles[k - 1];
        if let Some(id) = next_block(cy.proofs, cy.blocks, c) {
            lemma_next_block_is_next(cy.proofs, cy.blocks, c, id);
        }
    }
}

/// Over any run of cycles, whatever the statuses read in each, the blocks
/// handed over come in strictly ascending order, and after each hand-over
/// the cursor is the block just handed over.
pub proof fn lemma_run_dispatches_ascending(cycles: Seq<Cycle>, start: Option<i64>, i: nat, j: nat, a: i64, b: i64)
    requires
        i < j < cycles.len(),
        sent_in(cycles, start, i) == Some(a),
        sent_in(cycles, start, j) == Some(b),
    ensures
        cursor_after(cycles, start, i + 1) == Some(a),
        a < b,
{
    lemma_cursor_stays_at_least(cycles, start, i, a, j);
    let c = cursor_after(cycles, start, j);
    lemma_next_block_is_next(cycles[j as int].proofs, cycles[j as int].blocks, c, b);
}

/// Over any run of cycles in which no block is ever eligible, nothing is
/// handed over and the cursor never moves.
pub proof fn lemma_idle_run(cycles: Seq<Cycle>, start: Option<i64>, n: nat)
    requires
        n <= cycles.len(),
        forall|i: int, k: i64|
            0 <= i < cycles.len() ==> !#[trigger] eligible(cycles[i].proofs, cycles[i].blocks, start, k),
    ensures
        cursor_after(cycles, start, n) == start,
        forall|i: nat| i < n ==> #[trigger] sent_in(cycles, start, i) is None,
    decreases n,
{
    if n > 0 {
        lemma_idle_run(cycles, start, (n - 1) as nat);
        let cy = cycles[n - 1];
        assert(forall|k: i64| !#[trigger] eligible(cy.proofs, cy.blocks, start, k));
        lemma_idle_cycle(cy.proofs, cy.blocks, start);
    }
}

/// Every cycle of the run reads the same statuses and every send goes through.
pub open spec fn steady_run(cycles: Seq<Cycle>, proofs: Seq<ProofStatus>, blocks: Seq<BlockStatus>) -> bool {
    forall|i: int|
        0 <= i < cycles.len() ==> (#[trigger] cycles[i]).proofs == proofs && cycles[i].blocks == blocks
            && cycles[i].sent
}

proof fn lemma_steady_run_covers(
    cycles: Seq<Cycle>,
    proofs: Seq<ProofStatus>,
    blocks: Seq<BlockStatus>,
    start: Option<i64>,
    n: nat,
)
    requires
        steady_run(cycles, proofs, blocks),
        n <= cycles.len(),
    ensures
        forall|k: i64|
            #[trigger] eligible(proofs, blocks, start, k) && !past_cursor(cursor_after(cycles, start, n), k)
                ==> exists|j: nat| j < n && #[trigger] sent_in(cycles, start, j) == Some(k),
    decreases n,
{
    if n > 0 {
        let m = (n - 1) as nat;
        lemma_steady_run_covers(cycles, proofs, blocks, start, m);
        let c = cursor_after(cycles, start, m);
        assert(cycles[m as int].proofs == proofs && cycles[m as int].blocks == blocks && cycles[m as int].sent);
        assert forall|k: i64|
            #[trigger] eligible(proofs, blocks, start, k) && !past_cursor(cursor_after(cycles, start, n), k)
                implies exists|j: nat| j < n && #[trigger] sent_in(cycles, start, j) == Some(k) by {
            if past_cursor(c, k) {
                assert(eligible(proofs, blocks, c, k));
                lemma_least_eligible_exists(proofs, blocks, c, k);
                let id = next_block(proofs, blocks, c).unwrap();
                lemma_next_block_is_next(proofs, blocks, c, id);
                assert(sent_in(cycles, start, m) == Some(id));
            } else {
                let j = choose|j: nat| j < m && #[trigger] sent_in(cycles, start, j) == Some(k);
                assert(j < n);
            }
        }
    }
}

/// Among eligible blocks there is a least one.
proof fn lemma_least_eligible_exists(proofs: Seq<ProofStatus>, blocks: Seq<BlockStatus>, cursor: Option<i64>, k: i64)
    requires
        eligible(proofs, blocks, cursor, k),
    ensures
        exists|x: i64| is_next(proofs, blocks, cursor, x),
    decreases k - i64::MIN,
{
    if !(forall|y: i64| #[trigger] eligible(proofs, blocks, cursor, y) ==> k <= y) {
        let y = choose|y: i64| #[trigger] eligible(proofs, blocks, cursor, y) && y < k;
        lemma_least_eligible_exists(proofs, blocks, cursor, y);
    } else {
        assert(is_next(proofs, blocks, cursor, k));
    }
}

/// With the statuses fixed and every send going through, no block is passed
/// over: each block eligible from the start that lies below a block handed
/// over was itself handed over in an earlier cycle. Once a cycle hands over
/// nothing, no later cycle does.
pub proof fn lemma_steady_run_in_order(
    cycles: Seq<Cycle>,
    proofs: Seq<ProofStatus>,
    blocks: Seq<BlockStatus>,
    start: Option<i64>,
    i: nat,
)
    requires
        steady_run(cycles, proofs, blocks),
        i < cycles.len(),
    ensures
        sent_in(cycles, start, i) matches Some(id) ==> forall|k: i64|
            #[trigger] eligible(proofs, blocks, start, k) && k < id ==> exists|j: nat| j < i && #[trigger] sent_in(
                cycles,
                start,
                j,
            ) == Some(k),
        sent_in(cycles, start, i) is None ==> forall|j: nat| i <= j < cycles.len() ==> #[trigger] sent_in(cycles, start, j) is None,
{
    let c = cursor_after(cycles, start, i);
    assert(cycles[i as int].proofs == proofs && cycles[i as int].blocks == blocks && cycles[i as int].sent);
    if let Some(id) = sent_in(cycles, start, i) {
        lemma_steady_run_covers(cycles, proofs, blocks, start, i);
        lemma_next_block_is_next(proofs, blocks, c, id);
        assert forall|k: i64| #[trigger] eligible(proofs, blocks, start, k) && k < id implies exists|j: nat| j < i && #[trigger] sent_in(cycles, start, j) == Some(k) by {
            if past_cursor(c, k) {
                assert(eligible(proofs, blocks, c, k));
            }
        }
    } else {
        assert forall|j: nat| i <= j < cycles.len() implies #[trigger] sent_in(cycles, start, j) is None by {
            lemma_steady_run_stalls(cycles, proofs, blocks, start, i, j);
        }
    }
}

proof fn lemma_steady_run_stalls(
    cycles: Seq<Cycle>,
    proofs: Seq<ProofStatus>,
    blocks: Seq<BlockStatus>,
    start: Option<i64>,
    i: nat,
    j: nat,
)
    requires
        steady_run(cycles, proofs, blocks),
        i <= j < cycles.len(),
        sent_in(cycles, start, i) is None,
    ensures
        cursor_after(cycles, start, j) == cursor_after(cycles, start, i),
        sent_in(cycles, start, j) is None,
    decreases j - i,
{
    assert(cycles[j as int].proofs == proofs && cycles[j as int].blocks == blocks && cycles[j as int].sent);
    if j > i {
        lemma_steady_run_stalls(cycles, proofs, blocks, start, i, (j - 1) as nat);
        assert(cycles[j - 1].proofs == proofs && cycles[j - 1].blocks == blocks && cycles[j - 1].sent);
    }
}

} // verus!
