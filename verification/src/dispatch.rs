//! The dispatcher's decisions: which node a tile goes to, which frames are
//! sent for it and in what order, which answer is awaited, and what stands in
//! for a tile whose answer never came.

use crate::error::JobError;
use crate::matrix::{rectangular, shape_fits, zero_grid, Matrix};
use crate::payload::{PayloadView, TilePayload};
use crate::reassembly::{
    agrees, combined, covers, lemma_agreeing_payloads, lemma_stamped_all_shape, stamped,
    window_side, written,
};
use vstd::prelude::*;

verus! {

/// The kinds of frame that are exchanged with a node.
#[derive(Debug, Clone, Copy, PartialEq, Eq, Structural)]
pub enum MessageType {
    SetData,
    ExecuteFn,
    GetData,
    GetDataResponse,
}

/// One frame to send: its correlation id, its kind, and whether the sender
/// waits for the acknowledgement before it goes on.
#[derive(Debug, Clone, Copy, PartialEq, Eq, Structural)]
pub struct Request {
    pub id: u64,
    pub kind: MessageType,
    pub blocking: bool,
}

/// The answer to wait for: its correlation id, its kind, and for how many
/// seconds at most.
#[derive(Debug, Clone, Copy, PartialEq, Eq, Structural)]
pub struct Expectation {
    pub id: u64,
    pub kind: MessageType,
    pub timeout_secs: u64,
}

/// Everything the exchange for one tile needs: the node, the frames in the
/// order in which they are sent, and the answer that is awaited after the
/// last of them.
#[derive(Debug)]
pub struct TilePlan {
    pub node: usize,
    pub requests: Vec<Request>,
    pub awaited: Expectation,
}

/// How a fetch ended.
#[derive(Debug)]
pub enum FetchOutcome {
    /// The node answered with this payload.
    Received(TilePayload),
    /// No answer arrived before the deadline.
    TimedOut,
    /// The node answered with an error.
    Failed,
}

/// The deadline of a fetch, in seconds.
pub const FETCH_TIMEOUT_SECS: u64 = 10;

/// The tile counts for which all correlation ids fit in 64 bits lie below this.
pub const TASK_LIMIT: u64 = 0x4000_0000_0000_0000;

/// The coordinate that marks a payload as a stand-in for a failed tile.
pub const SENTINEL_COORDINATE: u32 = 0xffff_ffff;

/// The node that tile `index` goes to, of `num_nodes` nodes: the tiles are
/// handed out in turn.
pub open spec fn node_of(index: nat, num_nodes: nat) -> nat {
    index % num_nodes
}

/// The correlation id of the upload frame of tile `index`.
pub open spec fn upload_id(index: nat, num_of_tasks: nat) -> nat {
    index
}

/// The correlation id of the execute frame of tile `index`.
pub open spec fn execute_id(index: nat, num_of_tasks: nat) -> nat {
    index + num_of_tasks
}

/// The correlation id of the fetch frame of tile `index`, and of its answer.
pub open spec fn fetch_id(index: nat, num_of_tasks: nat) -> nat {
    index + 2 * num_of_tasks
}

/// The frames for tile `index`, in the order in which they are sent: upload
/// and execute wait for their acknowledgement, fetch does not.
pub open spec fn protocol(index: nat, num_of_tasks: nat) -> Seq<Request> {
    seq![
        Request {
            id: upload_id(index, num_of_tasks) as u64,
            kind: MessageType::SetData,
            blocking: true,
        },
        Request {
            id: execute_id(index, num_of_tasks) as u64,
            kind: MessageType::ExecuteFn,
            blocking: true,
        },
        Request {
            id: fetch_id(index, num_of_tasks) as u64,
            kind: MessageType::GetData,
            blocking: false,
        },
    ]
}

/// The answer that ends the exchange for tile `index`.
pub open spec fn answer(index: nat, num_of_tasks: nat) -> Expectation {
    Expectation {
        id: fetch_id(index, num_of_tasks) as u64,
        kind: MessageType::GetDataResponse,
        timeout_secs: FETCH_TIMEOUT_SECS,
    }
}

/// The contents of the payload that stands in for a failed tile.
pub open spec fn sentinel_view() -> PayloadView {
    PayloadView {
        placement: (SENTINEL_COORDINATE as nat, SENTINEL_COORDINATE as nat),
        a_sub: zero_grid(1, 1),
        b_sub: zero_grid(1, 1),
        result_sub: zero_grid(1, 1),
    }
}

/// Whether `payload` is the stand-in for a failed tile: placed at the largest
/// coordinates, with three one-by-one blocks of zero.
pub open spec fn is_sentinel(payload: TilePayload) -> bool {
    &&& payload@ == sentinel_view()
    &&& payload.widths() == (1nat, 1nat, 1nat)
}

/// The correlation ids fall into one range per phase, so that no two frames
/// of a job share an id: uploads lie in `[0, T)`, executes in `[T, 2T)` and
/// fetches in `[2T, 3T)`, and within a phase each tile has its own.
pub proof fn lemma_ids_partitioned(i: nat, j: nat, num_of_tasks: nat)
    requires
        i < num_of_tasks,
        j < num_of_tasks,
        num_of_tasks < TASK_LIMIT,
    ensures
        upload_id(i, num_of_tasks) < num_of_tasks,
        num_of_tasks <= execute_id(i, num_of_tasks) < 2 * num_of_tasks,
        2 * num_of_tasks <= fetch_id(i, num_of_tasks) < 3 * num_of_tasks,
        fetch_id(i, num_of_tasks) <= u64::MAX,
        i != j ==> upload_id(i, num_of_tasks) != upload_id(j, num_of_tasks),
        i != j ==> execute_id(i, num_of_tasks) != execute_id(j, num_of_tasks),
        i != j ==> fetch_id(i, num_of_tasks) != fetch_id(j, num_of_tasks),
{
}

/// The stand-in for a failed tile changes nothing when it is assembled: its
/// placement lies outside every matrix that can be stored.
pub proof fn lemma_sentinel_is_dropped(out: Seq<Seq<i32>>, cols: nat, s: nat)
    requires
        rectangular(out, cols),
        shape_fits(out.len(), cols),
    ensures
        stamped(out, sentinel_view(), s) == out,
{
    let p = sentinel_view();
    assert(isize::MAX <= 0x7fff_ffff_ffff_ffff);
    if out.len() > SENTINEL_COORDINATE && cols > SENTINEL_COORDINATE {
        assert(out.len() * cols >= 0xffff_ffff * 0xffff_ffff) by (nonlinear_arith)
            requires
                out.len() >= 0xffff_ffff,
                cols >= 0xffff_ffff,
        ;
    }
    assert forall|r: int, c: int| 0 <= r < out.len() && 0 <= c < out[r].len() implies !covers(
        p,
        s,
        r,
        c,
    ) by {}
    assert(stamped(out, p, s) =~~= out);
}

/// Failed tiles cost only their own cells. When every payload that came back
/// is either the stand-in or carries the entries of `g` wherever it writes,
/// the result has the extents asked for, each cell that an answered payload
/// writes has the entry of `g`, and every other cell is zero.
pub proof fn lemma_failures_are_absorbed(
    results: Seq<PayloadView>,
    g: Seq<Seq<i32>>,
    rows: nat,
    cols: nat,
)
    requires
        rectangular(g, cols),
        shape_fits(g.len(), cols),
        rows <= g.len(),
        forall|i: int|
            0 <= i < results.len() ==> #[trigger] results[i] == sentinel_view() || agrees(
                results[i],
                window_side(results),
                g,
            ),
    ensures
        combined(results, rows, cols).len() == rows,
        rectangular(combined(results, rows, cols), cols),
        forall|r: int, c: int|
            0 <= r < rows && 0 <= c < cols ==> #[trigger] combined(results, rows, cols)[r][c] == (
            if written(results, results.len(), window_side(results), r, c) {
                g[r][c]
            } else {
                0i32
            }),
{
    let s = window_side(results);
    let out = zero_grid(rows, cols);
    assert(isize::MAX <= 0x7fff_ffff_ffff_ffff);
    if g.len() > SENTINEL_COORDINATE && cols > SENTINEL_COORDINATE {
        assert(g.len() * cols >= 0xffff_ffff * 0xffff_ffff) by (nonlinear_arith)
            requires
                g.len() >= 0xffff_ffff,
                cols >= 0xffff_ffff,
        ;
    }
    assert(agrees(sentinel_view(), s, g));
    assert forall|i: int| 0 <= i < results.len() implies agrees(#[trigger] results[i], s, g) by {}
    lemma_agreeing_payloads(results, results.len(), s, out, g, cols);
    lemma_stamped_all_shape(results, results.len(), s, out, cols);
}

/// The node for tile `index`. Fails with `NoNodesAvailable` exactly when
/// there is no node.
pub fn assigned_node(index: usize, num_nodes: usize) -> (res: Result<usize, JobError>)
    ensures
        num_nodes == 0 ==> res == Err::<usize, JobError>(JobError::NoNodesAvailable),
        num_nodes > 0 ==> res == Ok::<usize, JobError>(
            node_of(index as nat, num_nodes as nat) as usize,
        ),
{
    if num_nodes == 0 {
        Err(JobError::NoNodesAvailable)
    } else {
        Ok(index % num_nodes)
    }
}

/// The frames to send for tile `index` of `num_of_tasks`, in order.
pub fn requests(index: usize, num_of_tasks: usize) -> (frames: Vec<Request>)
    requires
        index < num_of_tasks,
        num_of_tasks < TASK_LIMIT,
    ensures
        frames@ == protocol(index as nat, num_of_tasks as nat),
{
    let tile: u64 = index as u64;
    let tasks: u64 = num_of_tasks as u64;
    let mut frames: Vec<Request> = Vec::new();
    frames.push(Request { id: tile, kind: MessageType::SetData, blocking: true });
    frames.push(Request { id: tile + tasks, kind: MessageType::ExecuteFn, blocking: true });
    frames.push(Request { id: tile + tasks * 2, kind: MessageType::GetData, blocking: false });
    assert(frames@ =~= protocol(index as nat, num_of_tasks as nat));
    frames
}

/// The answer to wait for after the frames of tile `index` are sent.
pub fn awaited(index: usize, num_of_tasks: usize) -> (expected: Expectation)
    requires
        index < num_of_tasks,
        num_of_tasks < TASK_LIMIT,
    ensures
        expected == answer(index as nat, num_of_tasks as nat),
{
    Expectation {
        id: index as u64 + num_of_tasks as u64 * 2,
        kind: MessageType::GetDataResponse,
        timeout_secs: FETCH_TIMEOUT_SECS,
    }
}

/// The whole exchange for tile `index`. Fails with `NoNodesAvailable`
/// exactly when there is no node.
pub fn plan(index: usize, num_of_tasks: usize, num_nodes: usize) -> (res: Result<
    TilePlan,
    JobError,
>)
    requires
        index < num_of_tasks,
        num_of_tasks < TASK_LIMIT,
    ensures
        num_nodes == 0 ==> res == Err::<TilePlan, JobError>(JobError::NoNodesAvailable),
        num_nodes > 0 ==> (res matches Ok(tile_plan) && tile_plan.node == node_of(
            index as nat,
            num_nodes as nat,
        ) && tile_plan.requests@ == protocol(index as nat, num_of_tasks as nat)
            && tile_plan.awaited == answer(index as nat, num_of_tasks as nat)),
{
    match assigned_node(index, num_nodes) {
        Ok(node) => Ok(
            TilePlan {
                node,
                requests: requests(index, num_of_tasks),
                awaited: awaited(index, num_of_tasks),
            },
        ),
        Err(e) => Err(e),
    }
}

/// The payload that stands in for a failed tile: placed at the largest
/// coordinates, with one-by-one blocks of zero.
pub fn sentinel() -> (payload: TilePayload)
    ensures
        is_sentinel(payload),
{
    assert(shape_fits(1, 1));
    TilePayload::new(
        (SENTINEL_COORDINATE, SENTINEL_COORDINATE),
        Matrix::zeros(1, 1),
        Matrix::zeros(1, 1),
    )
}

/// How a fetch ended that brought no payload, told by how long the wait
/// lasted: a wait that lasted to the deadline timed out, and one that ended
/// before it was answered with an error.
pub fn unanswered(waited_secs: u64, timeout_secs: u64) -> (outcome: FetchOutcome)
    ensures
        waited_secs >= timeout_secs ==> outcome is TimedOut,
        waited_secs < timeout_secs ==> outcome is Failed,
{
    if waited_secs >= timeout_secs {
        FetchOutcome::TimedOut
    } else {
        FetchOutcome::Failed
    }
}

/// What is kept for tile `index` once its fetch has ended: the payload that
/// was received, or else the stand-in together with the failure to report.
/// The job goes on either way.
pub fn settle(index: usize, outcome: FetchOutcome) -> (kept: (TilePayload, Option<JobError>))
    ensures
        match outcome {
            FetchOutcome::Received(payload) => kept.0 == payload && kept.1 is None,
            FetchOutcome::TimedOut => is_sentinel(kept.0) && kept.1 == Some(
                JobError::TileTimeout(index),
            ),
            FetchOutcome::Failed => is_sentinel(kept.0) && kept.1 == Some(
                JobError::TileResponseError(index),
            ),
        },
{
    match outcome {
        FetchOutcome::Received(payload) => (payload, None),
        FetchOutcome::TimedOut => (sentinel(), Some(JobError::TileTimeout(index))),
        FetchOutcome::Failed => (sentinel(), Some(JobError::TileResponseError(index))),
    }
}

} // verus!
