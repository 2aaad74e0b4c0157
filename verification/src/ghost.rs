//! Ghost notes: AI suggestions kept apart from the human's files until a person reviews
//! them block by block.

use vstd::prelude::*;
use crate::bridge::BridgeProposalStatus;
use crate::text::{strings_view, contains_string};
use crate::context::{all_keys, changed_count, distinct_keys, keyed_change_counts, keyed_view, ContextFragment};
use crate::lean_kernel::{DiagnosticView, Violation, ViolationDiagnostic, ViolationView, verification_ok, HybridLeanKernel, PropositionGraph, VerificationResult};
use crate::text::{join_path, path_join, push_str, string_of};
use crate::completion::{decimal, decimal_text};

verus! {

#[derive(Debug, Clone, Copy, PartialEq, Eq, Structural)]
pub enum GhostOp {
    Insert,
    Modify,
    Delete,
    Suggestion,
}

/// Where a ghost note stands in review.
#[derive(Debug, Clone, PartialEq, Eq)]
pub enum GhostStatus {
    Pending,
    PartiallyAccepted,
    Accepted,
    Rejected,
    Expired,
    Superseded,
    AwaitingContext,
    InReview,
    Blocked { reason: String },
}

/// One piece of feedback a person gave on a ghost note.
#[derive(Debug, Clone, PartialEq, Eq)]
pub struct FeedbackEntry {
    pub timestamp: i64,
    pub action: String,
    pub block_ids: Vec<String>,
    pub reason: Option<String>,
}

/// One block that a ghost note suggests.
#[derive(Debug, Clone)]
pub struct GhostBlock {
    pub block_id: String,
    pub content: String,
    pub operation: GhostOp,
    pub after_block_id: Option<String>,
    pub heading_context: String,
    pub context: Vec<ContextFragment>,
    pub verified: Option<bool>,
    pub verification_result: Option<VerificationResult>,
}

/// An AI suggestion for a note, with the review a person gave it. (The stored record also
/// carries a confidence figure, which the application keeps beside this.)
#[derive(Debug, Clone)]
pub struct GhostNote {
    pub id: String,
    pub task_id: Option<String>,
    pub source_note: String,
    pub task_description: String,
    pub suggested_blocks: Vec<GhostBlock>,
    pub created_at: i64,
    pub status: GhostStatus,
    pub priority: u8,
    pub expires_at: Option<i64>,
    pub related_ghosts: Vec<String>,
    pub feedback_history: Vec<FeedbackEntry>,
    pub accepted_blocks: Vec<String>,
    pub rejected_blocks: Vec<String>,
}

/// The ids of the suggested blocks, in order.
pub open spec fn block_ids_of(blocks: Seq<GhostBlock>) -> Seq<Seq<char>> {
    blocks.map_values(|b: GhostBlock| b.block_id@)
}

/// The ids of a ghost's suggested blocks.
pub fn suggested_block_ids(ghost: &GhostNote) -> (res: Vec<String>)
    ensures
        strings_view(res@) == block_ids_of(ghost.suggested_blocks@),
{
    let mut res: Vec<String> = Vec::new();
    let mut i: usize = 0;
    while i < ghost.suggested_blocks.len()
        invariant
            i <= ghost.suggested_blocks.len(),
            strings_view(res@) == block_ids_of(ghost.suggested_blocks@).take(i as int),
        decreases ghost.suggested_blocks.len() - i,
    {
        res.push(ghost.suggested_blocks[i].block_id.clone());
        assert(block_ids_of(ghost.suggested_blocks@).take(i + 1) == block_ids_of(ghost.suggested_blocks@).take(
            i as int,
        ).push(ghost.suggested_blocks@[i as int].block_id@));
        i = i + 1;
    }
    assert(block_ids_of(ghost.suggested_blocks@).take(ghost.suggested_blocks.len() as int) == block_ids_of(
        ghost.suggested_blocks@,
    ));
    res
}

/// The bridge status that a final review status resolves a proposal to.
pub open spec fn bridge_status_for(s: GhostStatus) -> Option<BridgeProposalStatus> {
    match s {
        GhostStatus::Accepted => Some(BridgeProposalStatus::Approved),
        GhostStatus::Rejected => Some(BridgeProposalStatus::Rejected),
        _ => None,
    }
}

/// The bridge proposal status that follows from a ghost's review status, where it is final.
pub fn bridge_status_for_ghost_status(ghost_status: &GhostStatus) -> (res: Option<BridgeProposalStatus>)
    ensures
        res == bridge_status_for(*ghost_status),
{
    match ghost_status {
        GhostStatus::Accepted => Some(BridgeProposalStatus::Approved),
        GhostStatus::Rejected => Some(BridgeProposalStatus::Rejected),
        _ => None,
    }
}

/// The review status that the counts of suggested, accepted and rejected blocks give.
pub open spec fn review_status(suggested: nat, accepted: nat, rejected: nat) -> GhostStatus {
    if accepted >= suggested && suggested > 0 {
        GhostStatus::Accepted
    } else if rejected >= suggested && suggested > 0 {
        GhostStatus::Rejected
    } else if accepted + rejected > 0 {
        GhostStatus::PartiallyAccepted
    } else {
        GhostStatus::Pending
    }
}

/// Computes the review status from the block counts.
pub fn status_for_counts(suggested: usize, accepted: usize, rejected: usize) -> (res: GhostStatus)
    ensures
        res == review_status(suggested as nat, accepted as nat, rejected as nat),
{
    if accepted >= suggested && suggested > 0 {
        GhostStatus::Accepted
    } else if rejected >= suggested && suggested > 0 {
        GhostStatus::Rejected
    } else if accepted > 0 || rejected > 0 {
        GhostStatus::PartiallyAccepted
    } else {
        GhostStatus::Pending
    }
}

pub open spec fn not_id(b: Seq<char>) -> spec_fn(Seq<char>) -> bool {
    |x: Seq<char>| x != b
}

/// Accepting the blocks in order: each suggested block joins the accepted list once and
/// leaves the rejected list; blocks that were not suggested are ignored. Gives the new lists
/// and how many blocks were newly accepted.
pub open spec fn accept_fold(
    suggested: Seq<Seq<char>>,
    accepted: Seq<Seq<char>>,
    rejected: Seq<Seq<char>>,
    ids: Seq<Seq<char>>,
) -> (Seq<Seq<char>>, Seq<Seq<char>>, nat)
    decreases ids.len(),
{
    if ids.len() == 0 {
        (accepted, rejected, 0)
    } else {
        let (a, r, n) = accept_fold(suggested, accepted, rejected, ids.drop_last());
        let b = ids.last();
        if !suggested.contains(b) {
            (a, r, n)
        } else if a.contains(b) {
            (a, r.filter(not_id(b)), n)
        } else {
            (a.push(b), r.filter(not_id(b)), n + 1)
        }
    }
}

/// Rejecting the blocks in order: each joins the rejected list once and leaves the accepted
/// list.
pub open spec fn reject_fold(accepted: Seq<Seq<char>>, rejected: Seq<Seq<char>>, ids: Seq<Seq<char>>) -> (
    Seq<Seq<char>>,
    Seq<Seq<char>>,
)
    decreases ids.len(),
{
    if ids.len() == 0 {
        (accepted, rejected)
    } else {
        let (a, r) = reject_fold(accepted, rejected, ids.drop_last());
        let b = ids.last();
        let r2 = if r.contains(b) {
            r
        } else {
            r.push(b)
        };
        (a.filter(not_id(b)), r2)
    }
}

/// Removes every copy of `b`.
fn remove_all(v: &mut Vec<String>, b: &String)
    ensures
        strings_view(final(v)@) == strings_view(old(v)@).filter(not_id(b@)),
{
    let ghost src = strings_view(v@);
    let mut kept: Vec<String> = Vec::new();
    let mut i: usize = 0;
    while i < v.len()
        invariant
            i <= v.len(),
            src == strings_view(v@),
            strings_view(kept@) == src.take(i as int).filter(not_id(b@)),
        decreases v.len() - i,
    {
        proof {
            assert(src.take(i + 1) == src.take(i as int).push(src[i as int]));
            src.take(i as int).lemma_filter_push(src[i as int], not_id(b@));
        }
        if !(v[i] == *b) {
            kept.push(v[i].clone());
        }
        i = i + 1;
    }
    assert(src.take(v.len() as int) == src);
    *v = kept;
}

/// Sets the status that the counts of suggested, accepted and rejected blocks give.
pub fn update_ghost_status(ghost: &mut GhostNote)
    ensures
        final(ghost).status == review_status(
            old(ghost).suggested_blocks@.len(),
            old(ghost).accepted_blocks@.len(),
            old(ghost).rejected_blocks@.len(),
        ),
        final(ghost).suggested_blocks@ == old(ghost).suggested_blocks@,
        final(ghost).accepted_blocks@ == old(ghost).accepted_blocks@,
        final(ghost).rejected_blocks@ == old(ghost).rejected_blocks@,
{
    ghost.status = status_for_counts(
        ghost.suggested_blocks.len(),
        ghost.accepted_blocks.len(),
        ghost.rejected_blocks.len(),
    );
}

/// Records that a person accepted the listed blocks, then updates the status. Answers how
/// many blocks were newly accepted. The note's text is not touched.
pub fn accept_ghost_feedback(ghost: &mut GhostNote, block_ids: &Vec<String>) -> (count: usize)
    ensures
        ({
            let (a, r, n) = accept_fold(
                block_ids_of(old(ghost).suggested_blocks@),
                strings_view(old(ghost).accepted_blocks@),
                strings_view(old(ghost).rejected_blocks@),
                strings_view(block_ids@),
            );
            &&& strings_view(final(ghost).accepted_blocks@) == a
            &&& strings_view(final(ghost).rejected_blocks@) == r
            &&& count == n
            &&& final(ghost).suggested_blocks@ == old(ghost).suggested_blocks@
            &&& final(ghost).status == review_status(old(ghost).suggested_blocks@.len(), a.len(), r.len())
        }),
{
    let valid = suggested_block_ids(ghost);
    let ghost sugg = strings_view(valid@);
    let ghost acc0 = strings_view(ghost.accepted_blocks@);
    let ghost rej0 = strings_view(ghost.rejected_blocks@);
    let ghost ids = strings_view(block_ids@);
    let mut count: usize = 0;
    let mut i: usize = 0;
    while i < block_ids.len()
        invariant
            i <= block_ids.len(),
            ids == strings_view(block_ids@),
            sugg == strings_view(valid@),
            sugg == block_ids_of(old(ghost).suggested_blocks@),
            ghost.suggested_blocks@ == old(ghost).suggested_blocks@,
            acc0 == strings_view(old(ghost).accepted_blocks@),
            rej0 == strings_view(old(ghost).rejected_blocks@),
            count <= i,
            accept_fold(sugg, acc0, rej0, ids.take(i as int)) == (
                strings_view(ghost.accepted_blocks@),
                strings_view(ghost.rejected_blocks@),
                count as nat,
            ),
        decreases block_ids.len() - i,
    {
        assert(ids.take(i + 1).drop_last() == ids.take(i as int));
        let b = &block_ids[i];
        if contains_string(&valid, b) {
            if !contains_string(&ghost.accepted_blocks, b) {
                let ghost before = strings_view(ghost.accepted_blocks@);
                ghost.accepted_blocks.push(b.clone());
                assert(strings_view(ghost.accepted_blocks@) == before.push(b@));
                count = count + 1;
            }
            remove_all(&mut ghost.rejected_blocks, b);
        }
        i = i + 1;
    }
    assert(ids.take(block_ids.len() as int) == ids);
    update_ghost_status(ghost);
    count
}

/// Records that a person rejected the listed blocks, or every suggested block where none
/// are listed, then updates the status. Answers how many blocks the rejection named.
pub fn reject_ghost_blocks(ghost: &mut GhostNote, block_ids: Option<&Vec<String>>) -> (count: usize)
    ensures
        ({
            let ids = match block_ids {
                Some(v) => strings_view(v@),
                None => block_ids_of(old(ghost).suggested_blocks@),
            };
            let (a, r) = reject_fold(
                strings_view(old(ghost).accepted_blocks@),
                strings_view(old(ghost).rejected_blocks@),
                ids,
            );
            &&& strings_view(final(ghost).accepted_blocks@) == a
            &&& strings_view(final(ghost).rejected_blocks@) == r
            &&& count == ids.len()
            &&& final(ghost).suggested_blocks@ == old(ghost).suggested_blocks@
            &&& final(ghost).status == review_status(old(ghost).suggested_blocks@.len(), a.len(), r.len())
        }),
{
    let all = suggested_block_ids(ghost);
    let list: &Vec<String> = match block_ids {
        Some(v) => v,
        None => &all,
    };
    let ghost acc0 = strings_view(ghost.accepted_blocks@);
    let ghost rej0 = strings_view(ghost.rejected_blocks@);
    let ghost ids = strings_view(list@);
    let mut i: usize = 0;
    while i < list.len()
        invariant
            i <= list.len(),
            ids == strings_view(list@),
            ghost.suggested_blocks@ == old(ghost).suggested_blocks@,
            acc0 == strings_view(old(ghost).accepted_blocks@),
            rej0 == strings_view(old(ghost).rejected_blocks@),
            reject_fold(acc0, rej0, ids.take(i as int)) == (
                strings_view(ghost.accepted_blocks@),
                strings_view(ghost.rejected_blocks@),
            ),
        decreases list.len() - i,
    {
        assert(ids.take(i + 1).drop_last() == ids.take(i as int));
        let b = &list[i];
        if !contains_string(&ghost.rejected_blocks, b) {
            let ghost before = strings_view(ghost.rejected_blocks@);
            ghost.rejected_blocks.push(b.clone());
            assert(strings_view(ghost.rejected_blocks@) == before.push(b@));
        }
        remove_all(&mut ghost.accepted_blocks, b);
        i = i + 1;
    }
    assert(ids.take(list.len() as int) == ids);
    update_ghost_status(ghost);
    list.len()
}

proof fn lemma_filter_not(r: Seq<Seq<char>>, b: Seq<char>, x: Seq<char>)
    ensures
        r.filter(not_id(b)).contains(x) <==> (r.contains(x) && x != b),
{
    let f = r.filter(not_id(b));
    if f.contains(x) {
        r.lemma_filter_contains_rev(not_id(b), x);
        let i = choose|i: int| 0 <= i < f.len() && f[i] == x;
        r.lemma_filter_pred(not_id(b), i);
    }
    if r.contains(x) && x != b {
        let i = choose|i: int| 0 <= i < r.len() && r[i] == x;
        r.lemma_filter_contains(not_id(b), i);
    }
}

/// No block is both accepted and rejected.
pub open spec fn feedback_disjoint(a: Seq<Seq<char>>, r: Seq<Seq<char>>) -> bool {
    forall|x: Seq<char>| a.contains(x) ==> !r.contains(x)
}

/// Accepting blocks keeps the accepted and rejected lists apart, and leaves every listed
/// block that was suggested accepted and not rejected.
pub proof fn lemma_accept_blocks(
    suggested: Seq<Seq<char>>,
    accepted: Seq<Seq<char>>,
    rejected: Seq<Seq<char>>,
    ids: Seq<Seq<char>>,
    x: Seq<char>,
)
    requires
        feedback_disjoint(accepted, rejected),
    ensures
        ({
            let (a, r, n) = accept_fold(suggested, accepted, rejected, ids);
            &&& feedback_disjoint(a, r)
            &&& (ids.contains(x) && suggested.contains(x)) ==> (a.contains(x) && !r.contains(x))
            &&& accepted.contains(x) ==> a.contains(x)
        }),
    decreases ids.len(),
{
    if ids.len() > 0 {
        let t = ids.drop_last();
        let b = ids.last();
        lemma_accept_blocks(suggested, accepted, rejected, t, x);
        let (a0, r0, n0) = accept_fold(suggested, accepted, rejected, t);
        let (a, r, n) = accept_fold(suggested, accepted, rejected, ids);
        assert forall|y: Seq<char>| a.contains(y) implies !r.contains(y) by {
            lemma_filter_not(r0, b, y);
            if suggested.contains(b) && !a0.contains(b) && y != b {
                assert(a0.push(b).contains(y));
                let k = choose|k: int| 0 <= k < a0.push(b).len() && a0.push(b)[k] == y;
                assert(a0[k] == y);
            }
        }
        lemma_filter_not(r0, b, x);
        if ids.contains(x) && suggested.contains(x) {
            if x != b {
                let k = choose|k: int| 0 <= k < ids.len() && ids[k] == x;
                assert(t[k] == x);
            } else {
                assert(a0.push(b)[a0.len() as int] == b);
            }
        }
        if a0.contains(x) && suggested.contains(b) && !a0.contains(b) {
            let k = choose|k: int| 0 <= k < a0.len() && a0[k] == x;
            assert(a0.push(b)[k] == x);
        }
    }
}

/// Rejecting blocks keeps the accepted and rejected lists apart, and leaves every listed
/// block rejected and not accepted.
pub proof fn lemma_reject_blocks(accepted: Seq<Seq<char>>, rejected: Seq<Seq<char>>, ids: Seq<Seq<char>>, x: Seq<char>)
    requires
        feedback_disjoint(accepted, rejected),
    ensures
        ({
            let (a, r) = reject_fold(accepted, rejected, ids);
            &&& feedback_disjoint(a, r)
            &&& ids.contains(x) ==> (r.contains(x) && !a.contains(x))
            &&& rejected.contains(x) ==> r.contains(x)
        }),
    decreases ids.len(),
{
    if ids.len() > 0 {
        let t = ids.drop_last();
        let b = ids.last();
        lemma_reject_blocks(accepted, rejected, t, x);
        let (a0, r0) = reject_fold(accepted, rejected, t);
        let (a, r) = reject_fold(accepted, rejected, ids);
        assert forall|y: Seq<char>| a.contains(y) implies !r.contains(y) by {
            lemma_filter_not(a0, b, y);
            if !r0.contains(b) && r0.push(b).contains(y) && y != b {
                let k = choose|k: int| 0 <= k < r0.push(b).len() && r0.push(b)[k] == y;
                assert(r0[k] == y);
            }
        }
        lemma_filter_not(a0, b, x);
        if ids.contains(x) {
            if x != b {
                let k = choose|k: int| 0 <= k < ids.len() && ids[k] == x;
                assert(t[k] == x);
            } else if !r0.contains(b) {
                assert(r0.push(b)[r0.len() as int] == b);
            }
        }
        if r0.contains(x) && !r0.contains(b) {
            let k = choose|k: int| 0 <= k < r0.len() && r0[k] == x;
            assert(r0.push(b)[k] == x);
        }
    }
}


// ---------------------------------------------------------------------------------------------
// The ghost store and conflicts between ghosts of one note
// ---------------------------------------------------------------------------------------------

#[derive(Debug, Clone, Copy, PartialEq, Eq, Structural)]
pub enum ConflictSeverity {
    Info,
    Warning,
    Critical,
}

#[derive(Debug, Clone, Copy, PartialEq, Eq, Structural)]
pub enum ConflictType {
    SameTarget,
    OverlappingBlocks,
}

/// Ghosts that conflict, and how.
#[derive(Debug, Clone, PartialEq, Eq)]
pub struct GhostConflict {
    pub ghost_ids: Vec<String>,
    pub conflict_type: ConflictType,
}

/// The conflicts among pending ghosts of one note.
#[derive(Debug, Clone, PartialEq, Eq)]
pub struct ConflictReport {
    pub source_note: String,
    pub conflicting_ghosts: Vec<GhostConflict>,
    pub severity: ConflictSeverity,
}

/// Ghost notes kept as JSON files under `<dualtrack dir>/ghosts`.
#[derive(Debug, Clone)]
pub struct GhostStore {
    store_dir: String,
}

impl GhostStore {
    /// The store of a `.dualtrack` directory.
    pub fn new(dualtrack_dir: &str) -> (res: GhostStore)
        ensures
            res.dir()@ == path_join(dualtrack_dir@, "ghosts"@),
    {
        GhostStore { store_dir: join_path(dualtrack_dir, "ghosts") }
    }

    pub closed spec fn dir(&self) -> String {
        self.store_dir
    }

    /// The directory the store keeps its files in.
    pub fn store_dir(&self) -> (res: String)
        ensures
            res@ == self.dir()@,
    {
        self.store_dir.clone()
    }

    /// The file of a ghost note: `<id>.json` in the store.
    pub fn ghost_file_path(&self, id: &str) -> (res: String)
        ensures
            res@ == path_join(self.dir()@, id@ + ".json"@),
    {
        let mut name: Vec<char> = Vec::new();
        push_str(&mut name, id);
        push_str(&mut name, ".json");
        let file = string_of(&name);
        join_path(self.store_dir.as_str(), file.as_str())
    }

    /// Runs the consistency kernel on a ghost's proposition graph and records the verdict on
    /// every suggested block; a failed check blocks the ghost. The ghost, where there is one,
    /// is read and saved by the caller.
    pub fn verify_ghost(&self, ghost: &mut Option<GhostNote>, graph: &PropositionGraph) -> (res: VerificationResult)
        ensures
            verification_ok(*graph, res),
            match (*old(ghost), *final(ghost)) {
                (None, None) => true,
                (Some(g0), Some(g1)) => {
                    &&& g1.suggested_blocks@.len() == g0.suggested_blocks@.len()
                    &&& forall|i: int| 0 <= i < g1.suggested_blocks@.len() ==> {
                        let b = #[trigger] g1.suggested_blocks@[i];
                        let b0 = g0.suggested_blocks@[i];
                        &&& b.verified == Some(res.passed)
                        &&& b.verification_result matches Some(v) && result_view(v) == result_view(res)
                        &&& b.block_id == b0.block_id
                        &&& b.content == b0.content
                        &&& b.operation == b0.operation
                    }
                    &&& res.passed ==> g1.status == g0.status
                    &&& !res.passed ==> (g1.status matches GhostStatus::Blocked { reason } && reason@ == blocked_text(
                        res.violations@.len(),
                    ))
                    &&& g1.accepted_blocks == g0.accepted_blocks
                    &&& g1.rejected_blocks == g0.rejected_blocks
                },
                _ => false,
            },
    {
        let result = HybridLeanKernel::verify(graph);
        match ghost {
            None => {},
            Some(g) => {
                let passed = result.passed;
                let n = g.suggested_blocks.len();
                let ghost b0 = g.suggested_blocks@;
                let ghost g0 = *g;
                let mut i: usize = 0;
                while i < n
                    invariant
                        i <= n,
                        g.status == g0.status,
                        g.accepted_blocks == g0.accepted_blocks,
                        g.rejected_blocks == g0.rejected_blocks,
                        n == g.suggested_blocks@.len(),
                        b0.len() == n,
                        passed == result.passed,
                        forall|k: int| 0 <= k < i ==> {
                            let b = #[trigger] g.suggested_blocks@[k];
                            &&& b.verified == Some(passed)
                            &&& b.verification_result matches Some(v) && result_view(v) == result_view(result)
                            &&& b.block_id == b0[k].block_id
                            &&& b.content == b0[k].content
                            &&& b.operation == b0[k].operation
                        },
                        forall|k: int| i <= k < n ==> #[trigger] g.suggested_blocks@[k] == b0[k],
                    decreases n - i,
                {
                    let ghost before = g.suggested_blocks@;
                    let old_block = g.suggested_blocks.remove(i);
                    let block = GhostBlock {
                        block_id: old_block.block_id,
                        content: old_block.content,
                        operation: old_block.operation,
                        after_block_id: old_block.after_block_id,
                        heading_context: old_block.heading_context,
                        context: old_block.context,
                        verified: Some(passed),
                        verification_result: Some(copy_result(&result)),
                    };
                    g.suggested_blocks.insert(i, block);
                    assert(g.suggested_blocks@ =~= before.update(i as int, block));
                    i = i + 1;
                }
                if !passed {
                    let mut r: Vec<char> = Vec::new();
                    push_str(&mut r, "Verification failed: ");
                    let d = decimal_text(result.violations.len());
                    crate::text::append_chars(&mut r, &d);
                    push_str(&mut r, " violations");
                    g.status = GhostStatus::Blocked { reason: string_of(&r) };
                }
            },
        }
        result
    }
}

/// A verification outcome with its text as character sequences.
pub struct ResultView {
    pub passed: bool,
    pub violations: Seq<ViolationView>,
    pub diagnostics: Seq<DiagnosticView>,
    pub warnings: Seq<Seq<char>>,
    pub topology_valid: bool,
    pub reference_valid: bool,
    pub conflict_free: bool,
    pub kernel_name: Seq<char>,
    pub scope: Seq<char>,
    pub is_truth_proof: bool,
}

pub open spec fn result_view(r: VerificationResult) -> ResultView {
    ResultView {
        passed: r.passed,
        violations: r.violations@.map_values(|v: Violation| v@),
        diagnostics: r.diagnostics@.map_values(|d: ViolationDiagnostic| d@),
        warnings: strings_view(r.warnings@),
        topology_valid: r.topology_valid,
        reference_valid: r.reference_valid,
        conflict_free: r.conflict_free,
        kernel_name: r.kernel_name@,
        scope: r.scope@,
        is_truth_proof: r.is_truth_proof,
    }
}

/// A copy of a verification outcome.
fn copy_result(r: &VerificationResult) -> (res: VerificationResult)
    ensures
        result_view(res) == result_view(*r),
{
    let mut violations: Vec<Violation> = Vec::new();
    let mut i: usize = 0;
    while i < r.violations.len()
        invariant
            i <= r.violations.len(),
            violations@.map_values(|v: Violation| v@) == r.violations@.take(i as int).map_values(|v: Violation| v@),
        decreases r.violations.len() - i,
    {
        let ghost before = violations@.map_values(|v: Violation| v@);
        let c = r.violations[i].copy();
        violations.push(c);
        assert(violations@.map_values(|v: Violation| v@) =~= before.push(c@));
        assert(r.violations@.take(i + 1) =~= r.violations@.take(i as int).push(r.violations@[i as int]));
        assert(violations@.map_values(|v: Violation| v@) =~= r.violations@.take(i + 1).map_values(|v: Violation| v@));
        i = i + 1;
    }
    assert(r.violations@.take(r.violations.len() as int) =~= r.violations@);
    let mut diagnostics: Vec<ViolationDiagnostic> = Vec::new();
    let mut k: usize = 0;
    while k < r.diagnostics.len()
        invariant
            k <= r.diagnostics.len(),
            diagnostics@.map_values(|d: ViolationDiagnostic| d@) == r.diagnostics@.take(k as int).map_values(
                |d: ViolationDiagnostic| d@,
            ),
        decreases r.diagnostics.len() - k,
    {
        let d = &r.diagnostics[k];
        let c = ViolationDiagnostic {
            violation: d.violation.copy(),
            message: crate::text::copy_string(&d.message),
            severity: d.severity,
            repair_hint: match &d.repair_hint {
                Some(h) => Some(crate::text::copy_string(h)),
                None => None,
            },
        };
        assert(c@ == d@);
        let ghost before = diagnostics@.map_values(|d: ViolationDiagnostic| d@);
        diagnostics.push(c);
        assert(diagnostics@.map_values(|d: ViolationDiagnostic| d@) =~= before.push(c@));
        assert(r.diagnostics@.take(k + 1) =~= r.diagnostics@.take(k as int).push(r.diagnostics@[k as int]));
        assert(diagnostics@.map_values(|d: ViolationDiagnostic| d@) =~= r.diagnostics@.take(k + 1).map_values(
            |d: ViolationDiagnostic| d@,
        ));
        k = k + 1;
    }
    assert(r.diagnostics@.take(r.diagnostics.len() as int) =~= r.diagnostics@);
    let res = VerificationResult {
        passed: r.passed,
        violations,
        diagnostics,
        warnings: crate::text::copy_strings(&r.warnings),
        topology_valid: r.topology_valid,
        reference_valid: r.reference_valid,
        conflict_free: r.conflict_free,
        kernel_name: crate::text::copy_string(&r.kernel_name),
        scope: crate::text::copy_string(&r.scope),
        is_truth_proof: r.is_truth_proof,
    };
    assert(result_view(res).violations =~= result_view(*r).violations);
    assert(result_view(res).diagnostics =~= result_view(*r).diagnostics);
    res
}

/// Why a ghost whose check found `n` violations is blocked.
pub open spec fn blocked_text(n: nat) -> Seq<char> {
    "Verification failed: "@ + decimal(n) + " violations"@
}


/// A conflict report with its text as character sequences.
pub struct ReportView {
    pub source: Seq<char>,
    pub conflicts: Seq<(Seq<Seq<char>>, ConflictType)>,
    pub severity: ConflictSeverity,
}

pub open spec fn report_view(r: ConflictReport) -> ReportView {
    ReportView {
        source: r.source_note@,
        conflicts: r.conflicting_ghosts@.map_values(|c: GhostConflict| (strings_view(c.ghost_ids@), c.conflict_type)),
        severity: r.severity,
    }
}

pub open spec fn reports_view(v: Seq<ConflictReport>) -> Seq<ReportView> {
    v.map_values(|r: ConflictReport| report_view(r))
}

/// The ghost is within the filter, if there is one.
pub open spec fn in_scope(g: GhostNote, filter: Option<Seq<char>>) -> bool {
    filter matches Some(f) ==> g.source_note@ == f
}

/// The notes the ghosts in scope target, each once, first occurrence first.
pub open spec fn scoped_sources(g: Seq<GhostNote>, filter: Option<Seq<char>>) -> Seq<Seq<char>> {
    distinct_keys(g.filter(|x: GhostNote| in_scope(x, filter)).map_values(|x: GhostNote| x.source_note@))
}

/// The positions of the ghosts in scope that target the note, in order.
pub open spec fn group_of(g: Seq<GhostNote>, filter: Option<Seq<char>>, src: Seq<char>) -> Seq<int>
    decreases g.len(),
{
    if g.len() == 0 {
        Seq::empty()
    } else {
        let r = group_of(g.drop_last(), filter, src);
        if in_scope(g.last(), filter) && g.last().source_note@ == src {
            r.push(g.len() - 1)
        } else {
            r
        }
    }
}

/// The keyed hashes of all context that a ghost's blocks carry, block by block.
pub open spec fn ghost_context(blocks: Seq<GhostBlock>) -> Seq<(Seq<char>, Seq<char>)>
    decreases blocks.len(),
{
    if blocks.len() == 0 {
        Seq::empty()
    } else {
        ghost_context(blocks.drop_last()) + crate::context::entries_of(blocks.last().context@)
    }
}

/// How serious a conflict among `n` ghosts of one note is.
pub open spec fn crowd_severity(n: nat) -> ConflictSeverity {
    if n >= 4 {
        ConflictSeverity::Critical
    } else if n >= 3 {
        ConflictSeverity::Warning
    } else {
        ConflictSeverity::Info
    }
}

/// How serious an overlap is where `c` of `t` context keys drift: above half is critical,
/// above three tenths a warning.
pub open spec fn drift_severity(c: nat, t: nat) -> ConflictSeverity {
    if 2 * c > t {
        ConflictSeverity::Critical
    } else if 10 * c > 3 * t {
        ConflictSeverity::Warning
    } else {
        ConflictSeverity::Info
    }
}

/// The overlap report of two ghosts of one note: where both carry context and some key
/// drifts between them.
pub open spec fn pair_report(src: Seq<char>, a: GhostNote, b: GhostNote) -> Seq<ReportView> {
    let ca = ghost_context(a.suggested_blocks@);
    let cb = ghost_context(b.suggested_blocks@);
    let keys = all_keys(ca, cb);
    let c = changed_count(ca, cb, keys);
    if ca.len() == 0 || cb.len() == 0 || c == 0 {
        Seq::empty()
    } else {
        seq![
            ReportView {
                source: src,
                conflicts: seq![(seq![a.id@, b.id@], ConflictType::OverlappingBlocks)],
                severity: drift_severity(c, keys.len()),
            },
        ]
    }
}

/// The overlap reports of group member `i` with members `j` and after.
pub open spec fn pair_row(g: Seq<GhostNote>, grp: Seq<int>, src: Seq<char>, i: int, j: int) -> Seq<ReportView>
    decreases grp.len() - j,
{
    if j < 0 || j >= grp.len() {
        Seq::empty()
    } else {
        pair_report(src, g[grp[i]], g[grp[j]]) + pair_row(g, grp, src, i, j + 1)
    }
}

/// The overlap reports of every pair of group members from member `i` on.
pub open spec fn pair_rows(g: Seq<GhostNote>, grp: Seq<int>, src: Seq<char>, i: int) -> Seq<ReportView>
    decreases grp.len() - i,
{
    if i < 0 || i >= grp.len() {
        Seq::empty()
    } else {
        pair_row(g, grp, src, i, i + 1) + pair_rows(g, grp, src, i + 1)
    }
}

/// The reports of one note: none for a single ghost; otherwise one for all its ghosts, then
/// one per overlapping pair.
pub open spec fn source_reports(g: Seq<GhostNote>, grp: Seq<int>, src: Seq<char>) -> Seq<ReportView> {
    if grp.len() < 2 {
        Seq::empty()
    } else {
        seq![
            ReportView {
                source: src,
                conflicts: seq![(grp.map_values(|k: int| g[k].id@), ConflictType::SameTarget)],
                severity: crowd_severity(grp.len()),
            },
        ] + pair_rows(g, grp, src, 0)
    }
}

/// The reports of the notes from position `k` of the list on.
pub open spec fn reports_from(g: Seq<GhostNote>, filter: Option<Seq<char>>, srcs: Seq<Seq<char>>, k: int) -> Seq<ReportView>
    decreases srcs.len() - k,
{
    if k < 0 || k >= srcs.len() {
        Seq::empty()
    } else {
        source_reports(g, group_of(g, filter, srcs[k]), srcs[k]) + reports_from(g, filter, srcs, k + 1)
    }
}

fn keyed_context(x: &GhostNote) -> (res: Vec<(String, String)>)
    ensures
        keyed_view(res@) == ghost_context(x.suggested_blocks@),
{
    let mut out: Vec<(String, String)> = Vec::new();
    let mut i: usize = 0;
    while i < x.suggested_blocks.len()
        invariant
            i <= x.suggested_blocks.len(),
            keyed_view(out@) == ghost_context(x.suggested_blocks@.take(i as int)),
        decreases x.suggested_blocks.len() - i,
    {
        assert(x.suggested_blocks@.take(i + 1).drop_last() == x.suggested_blocks@.take(i as int));
        let mut e = crate::context::fragment_entries(&x.suggested_blocks[i].context);
        let ghost before = keyed_view(out@);
        out.append(&mut e);
        assert(keyed_view(out@) =~= before + crate::context::entries_of(x.suggested_blocks@[i as int].context@));
        i = i + 1;
    }
    assert(x.suggested_blocks@.take(x.suggested_blocks.len() as int) == x.suggested_blocks@);
    out
}

fn overlap_report(src: &String, a: &GhostNote, b: &GhostNote) -> (res: Vec<ConflictReport>)
    ensures
        reports_view(res@) == pair_report(src@, *a, *b),
{
    let ca = keyed_context(a);
    let cb = keyed_context(b);
    let mut out: Vec<ConflictReport> = Vec::new();
    if ca.len() == 0 || cb.len() == 0 {
        return out;
    }
    let (c, t) = keyed_change_counts(&ca, &cb);
    if c == 0 {
        return out;
    }
    proof {
        crate::context::lemma_changed_count_bound(keyed_view(ca@), keyed_view(cb@), all_keys(keyed_view(ca@), keyed_view(cb@)));
    }
    let severity = if c > t - c {
        ConflictSeverity::Critical
    } else if (c as u128) * 10 > (t as u128) * 3 {
        ConflictSeverity::Warning
    } else {
        ConflictSeverity::Info
    };
    let mut ids: Vec<String> = Vec::new();
    ids.push(a.id.clone());
    ids.push(b.id.clone());
    let mut conflicts: Vec<GhostConflict> = Vec::new();
    conflicts.push(GhostConflict { ghost_ids: ids, conflict_type: ConflictType::OverlappingBlocks });
    let ghost cv = conflicts@;
    assert(severity == drift_severity(c as nat, t as nat));
    assert(strings_view(ids@) =~= seq![a.id@, b.id@]);
    let r = ConflictReport { source_note: src.clone(), conflicting_ghosts: conflicts, severity };
    assert(report_view(r).conflicts =~= seq![(seq![a.id@, b.id@], ConflictType::OverlappingBlocks)]);
    out.push(r);
    assert(reports_view(out@) =~= seq![report_view(r)]);
    out
}


pub open spec fn filter_view(f: Option<&str>) -> Option<Seq<char>> {
    match f {
        Some(s) => Some(s@),
        None => None,
    }
}

fn in_scope_exec(g: &GhostNote, source_note: Option<&str>) -> (res: bool)
    ensures
        res == in_scope(*g, filter_view(source_note)),
{
    match source_note {
        Some(f) => crate::text::str_eq(g.source_note.as_str(), f),
        None => true,
    }
}

fn group_indices(ghosts: &Vec<GhostNote>, source_note: Option<&str>, src: &String) -> (res: Vec<usize>)
    ensures
        res@.map_values(|k: usize| k as int) == group_of(ghosts@, filter_view(source_note), src@),
        forall|t: int| 0 <= t < res@.len() ==> #[trigger] res@[t] < ghosts@.len(),
{
    let ghost fv = filter_view(source_note);
    let mut out: Vec<usize> = Vec::new();
    let mut i: usize = 0;
    while i < ghosts.len()
        invariant
            i <= ghosts.len(),
            fv == filter_view(source_note),
            out@.map_values(|k: usize| k as int) == group_of(ghosts@.take(i as int), fv, src@),
            forall|t: int| 0 <= t < out@.len() ==> #[trigger] out@[t] < i,
        decreases ghosts.len() - i,
    {
        assert(ghosts@.take(i + 1).drop_last() == ghosts@.take(i as int));
        if in_scope_exec(&ghosts[i], source_note) && ghosts[i].source_note == *src {
            let ghost before = out@;
            out.push(i);
            assert(out@.map_values(|k: usize| k as int) =~= before.map_values(|k: usize| k as int).push(i as int));
        }
        i = i + 1;
    }
    assert(ghosts@.take(ghosts.len() as int) == ghosts@);
    out
}

fn sources_in_scope(ghosts: &Vec<GhostNote>, source_note: Option<&str>) -> (res: Vec<String>)
    ensures
        strings_view(res@) == scoped_sources(ghosts@, filter_view(source_note)),
{
    let ghost fv = filter_view(source_note);
    let ghost sc = |x: GhostNote| in_scope(x, fv);
    let ghost src_of = |x: GhostNote| x.source_note@;
    let mut out: Vec<String> = Vec::new();
    let mut i: usize = 0;
    while i < ghosts.len()
        invariant
            i <= ghosts.len(),
            fv == filter_view(source_note),
            sc == (|x: GhostNote| in_scope(x, fv)),
            src_of == (|x: GhostNote| x.source_note@),
            strings_view(out@) == distinct_keys(ghosts@.take(i as int).filter(sc).map_values(src_of)),
        decreases ghosts.len() - i,
    {
        let ghost pre = ghosts@.take(i as int);
        proof {
            assert(ghosts@.take(i + 1) == pre.push(ghosts@[i as int]));
            pre.lemma_filter_push(ghosts@[i as int], sc);
        }
        if in_scope_exec(&ghosts[i], source_note) {
            let ghost fl = pre.filter(sc);
            assert(fl.push(ghosts@[i as int]).map_values(src_of) =~= fl.map_values(src_of).push(ghosts@[i as int].source_note@));
            assert(fl.push(ghosts@[i as int]).map_values(src_of).drop_last() =~= fl.map_values(src_of));
            if !contains_string(&out, &ghosts[i].source_note) {
                let ghost before = strings_view(out@);
                out.push(ghosts[i].source_note.clone());
                assert(strings_view(out@) == before.push(ghosts@[i as int].source_note@));
            }
        }
        i = i + 1;
    }
    assert(ghosts@.take(ghosts.len() as int) == ghosts@);
    out
}

impl GhostStore {
    /// The conflicts among the given pending ghosts (all of the store's pending ghosts, as the
    /// caller read them), optionally only those of one note. Notes come in the order their
    /// first ghost comes.
    pub fn detect_conflicts(&self, ghosts: &Vec<GhostNote>, source_note: Option<&str>) -> (res: Vec<ConflictReport>)
        ensures
            reports_view(res@) == reports_from(
                ghosts@,
                filter_view(source_note),
                scoped_sources(ghosts@, filter_view(source_note)),
                0,
            ),
    {
        let ghost fv = filter_view(source_note);
        let sources = sources_in_scope(ghosts, source_note);
        let ghost srcs = strings_view(sources@);
        let mut reports: Vec<ConflictReport> = Vec::new();
        let mut k: usize = 0;
        while k < sources.len()
            invariant
                k <= sources.len(),
                fv == filter_view(source_note),
                srcs == strings_view(sources@),
                srcs == scoped_sources(ghosts@, fv),
                reports_view(reports@) + reports_from(ghosts@, fv, srcs, k as int) == reports_from(ghosts@, fv, srcs, 0),
            decreases sources.len() - k,
        {
            let src = &sources[k];
            let grp = group_indices(ghosts, source_note, src);
            let ghost gi = grp@.map_values(|q: usize| q as int);
            let ghost before = reports_view(reports@);
            if grp.len() >= 2 {
                let mut ids: Vec<String> = Vec::new();
                let mut t: usize = 0;
                while t < grp.len()
                    invariant
                        t <= grp.len(),
                        gi == grp@.map_values(|q: usize| q as int),
                        forall|u: int| 0 <= u < grp@.len() ==> #[trigger] grp@[u] < ghosts@.len(),
                        strings_view(ids@) == gi.take(t as int).map_values(|q: int| ghosts@[q].id@),
                    decreases grp.len() - t,
                {
                    let ghost before_ids = strings_view(ids@);
                    ids.push(ghosts[grp[t]].id.clone());
                    assert(gi[t as int] == grp@[t as int] as int);
                    assert(strings_view(ids@) == before_ids.push(ghosts@[gi[t as int]].id@));
                    assert(gi.take(t + 1) == gi.take(t as int).push(gi[t as int]));
                    assert(strings_view(ids@) =~= gi.take(t + 1).map_values(|q: int| ghosts@[q].id@));
                    t = t + 1;
                }
                assert(gi.take(grp.len() as int) == gi);
                let mut conflicts: Vec<GhostConflict> = Vec::new();
                conflicts.push(GhostConflict { ghost_ids: ids, conflict_type: ConflictType::SameTarget });
                let n = grp.len();
                let severity = if n >= 4 {
                    ConflictSeverity::Critical
                } else if n >= 3 {
                    ConflictSeverity::Warning
                } else {
                    ConflictSeverity::Info
                };
                let r = ConflictReport { source_note: src.clone(), conflicting_ghosts: conflicts, severity };
                assert(report_view(r).conflicts =~= seq![(gi.map_values(|q: int| ghosts@[q].id@), ConflictType::SameTarget)]);
                reports.push(r);
                let ghost mid = reports_view(reports@);
                assert(mid =~= before.push(report_view(r)));
                let mut i: usize = 0;
                while i < n
                    invariant
                        i <= n,
                        n == grp@.len(),
                        gi == grp@.map_values(|q: usize| q as int),
                        forall|u: int| 0 <= u < grp@.len() ==> #[trigger] grp@[u] < ghosts@.len(),
                        reports_view(reports@) + pair_rows(ghosts@, gi, src@, i as int) == mid + pair_rows(ghosts@, gi, src@, 0),
                    decreases n - i,
                {
                    let mut j: usize = i + 1;
                    while j < n
                        invariant
                            i < n,
                            i + 1 <= j <= n,
                            n == grp@.len(),
                            gi == grp@.map_values(|q: usize| q as int),
                            forall|u: int| 0 <= u < grp@.len() ==> #[trigger] grp@[u] < ghosts@.len(),
                            reports_view(reports@) + pair_row(ghosts@, gi, src@, i as int, j as int) + pair_rows(ghosts@, gi, src@, i + 1)
                                == mid + pair_rows(ghosts@, gi, src@, 0),
                        decreases n - j,
                    {
                        let ghost b2 = reports_view(reports@);
                        let mut pr = overlap_report(src, &ghosts[grp[i]], &ghosts[grp[j]]);
                        reports.append(&mut pr);
                        assert(reports_view(reports@) =~= b2 + pair_report(src@, ghosts@[gi[i as int]], ghosts@[gi[j as int]]));
                        assert(reports_view(reports@) + pair_row(ghosts@, gi, src@, i as int, j + 1) + pair_rows(ghosts@, gi, src@, i + 1)
                            =~= b2 + pair_row(ghosts@, gi, src@, i as int, j as int) + pair_rows(ghosts@, gi, src@, i + 1));
                        j = j + 1;
                    }
                    assert(pair_row(ghosts@, gi, src@, i as int, n as int) =~= Seq::<ReportView>::empty());
                    assert(reports_view(reports@) + pair_rows(ghosts@, gi, src@, i + 1) =~= mid + pair_rows(ghosts@, gi, src@, 0));
                    i = i + 1;
                }
                assert(pair_rows(ghosts@, gi, src@, n as int) =~= Seq::<ReportView>::empty());
                assert(reports_view(reports@) =~= before + source_reports(ghosts@, gi, src@));
            } else {
                assert(source_reports(ghosts@, gi, src@) =~= Seq::<ReportView>::empty());
                assert(reports_view(reports@) =~= before + source_reports(ghosts@, gi, src@));
            }
            assert(reports_view(reports@) + reports_from(ghosts@, fv, srcs, k + 1) =~= reports_from(ghosts@, fv, srcs, 0));
            k = k + 1;
        }
        assert(reports_from(ghosts@, fv, srcs, sources.len() as int) =~= Seq::<ReportView>::empty());
        assert(reports_view(reports@) =~= reports_from(ghosts@, fv, srcs, 0));
        reports
    }
}

/// The report that all the ghosts of a note target it.
pub open spec fn same_target_report(g: Seq<GhostNote>, grp: Seq<int>, src: Seq<char>) -> ReportView {
    ReportView {
        source: src,
        conflicts: seq![(grp.map_values(|k: int| g[k].id@), ConflictType::SameTarget)],
        severity: crowd_severity(grp.len()),
    }
}

/// An overlap report of two ghosts at distinct positions of a note's group.
pub open spec fn overlap_in_group(g: Seq<GhostNote>, grp: Seq<int>, src: Seq<char>, r: ReportView) -> bool {
    &&& r.source == src
    &&& exists|a: int, b: int|
        0 <= a < b < grp.len() && r.conflicts == seq![
            (seq![(#[trigger] g[grp[a]]).id@, (#[trigger] g[grp[b]]).id@], ConflictType::OverlappingBlocks),
        ]
}

/// Whether a report says that several ghosts target one note.
pub open spec fn is_same_target(r: ReportView) -> bool {
    r.conflicts.len() == 1 && r.conflicts[0].1 == ConflictType::SameTarget
}

proof fn lemma_pair_row(g: Seq<GhostNote>, grp: Seq<int>, src: Seq<char>, i: int, j: int)
    requires
        0 <= i < j,
    ensures
        forall|p: int| 0 <= p < pair_row(g, grp, src, i, j).len() ==> overlap_in_group(g, grp, src, #[trigger] pair_row(g, grp, src, i, j)[p]),
    decreases grp.len() - j,
{
    if j < grp.len() {
        lemma_pair_row(g, grp, src, i, j + 1);
        let here = pair_report(src, g[grp[i]], g[grp[j]]);
        let rest = pair_row(g, grp, src, i, j + 1);
        let row = pair_row(g, grp, src, i, j);
        assert(row == here + rest);
        assert forall|p: int| 0 <= p < row.len() implies overlap_in_group(g, grp, src, #[trigger] row[p]) by {
            if p < here.len() {
                assert(row[p] == here[0]);
                let a = i;
                let b = j;
                assert(here[0].conflicts == seq![(seq![g[grp[a]].id@, g[grp[b]].id@], ConflictType::OverlappingBlocks)]);
            } else {
                assert(row[p] == rest[p - here.len()]);
            }
        }
    }
}

proof fn lemma_pair_rows(g: Seq<GhostNote>, grp: Seq<int>, src: Seq<char>, i: int)
    requires
        0 <= i,
    ensures
        forall|p: int| 0 <= p < pair_rows(g, grp, src, i).len() ==> overlap_in_group(g, grp, src, #[trigger] pair_rows(g, grp, src, i)[p]),
    decreases grp.len() - i,
{
    if i < grp.len() {
        lemma_pair_row(g, grp, src, i, i + 1);
        lemma_pair_rows(g, grp, src, i + 1);
        let a = pair_row(g, grp, src, i, i + 1);
        let b = pair_rows(g, grp, src, i + 1);
        assert forall|p: int| 0 <= p < (a + b).len() implies overlap_in_group(g, grp, src, #[trigger] (a + b)[p]) by {
            if p < a.len() {
                assert((a + b)[p] == a[p]);
            } else {
                assert((a + b)[p] == b[p - a.len()]);
            }
        }
    }
}

proof fn lemma_reports_from(g: Seq<GhostNote>, f: Option<Seq<char>>, srcs: Seq<Seq<char>>, k: int)
    requires
        0 <= k <= srcs.len(),
        srcs.no_duplicates(),
    ensures
        forall|p: int| 0 <= p < reports_from(g, f, srcs, k).len() ==> {
            let r = #[trigger] reports_from(g, f, srcs, k)[p];
            let grp = group_of(g, f, r.source);
            &&& exists|t: int| k <= t < srcs.len() && srcs[t] == r.source
            &&& grp.len() >= 2
            &&& if is_same_target(r) {
                r == same_target_report(g, grp, r.source)
            } else {
                overlap_in_group(g, grp, r.source, r)
            }
        },
        forall|t: int|
            k <= t < srcs.len() && group_of(g, f, srcs[t]).len() >= 2 ==> reports_from(g, f, srcs, k).contains(
                same_target_report(g, group_of(g, f, #[trigger] srcs[t]), srcs[t]),
            ),
        forall|p: int, q: int|
            0 <= p < q < reports_from(g, f, srcs, k).len() && is_same_target(#[trigger] reports_from(g, f, srcs, k)[p])
                && is_same_target(#[trigger] reports_from(g, f, srcs, k)[q]) ==> reports_from(g, f, srcs, k)[p].source
                != reports_from(g, f, srcs, k)[q].source,
    decreases srcs.len() - k,
{
    if k < srcs.len() {
        lemma_reports_from(g, f, srcs, k + 1);
        let src = srcs[k];
        let grp = group_of(g, f, src);
        let here = source_reports(g, grp, src);
        let rest = reports_from(g, f, srcs, k + 1);
        let all = reports_from(g, f, srcs, k);
        assert(all == here + rest);
        let pr = pair_rows(g, grp, src, 0);
        lemma_pair_rows(g, grp, src, 0);
        if grp.len() >= 2 {
            assert(here == seq![same_target_report(g, grp, src)] + pr);
        } else {
            assert(here.len() == 0);
        }
        // Each report of this note is its crowd report or an overlap in its group.
        assert forall|p: int| 0 <= p < here.len() implies {
            let r = #[trigger] here[p];
            &&& r.source == src
            &&& (if is_same_target(r) {
                r == same_target_report(g, grp, src)
            } else {
                overlap_in_group(g, grp, src, r)
            })
            &&& (p == 0 <==> is_same_target(r))
        } by {
            if p == 0 {
                assert(here[0] == same_target_report(g, grp, src));
            } else {
                assert(here[p] == pr[p - 1]);
                assert(overlap_in_group(g, grp, src, pr[p - 1]));
                let r = pr[p - 1];
                let (a, b) = choose|a: int, b: int|
                    0 <= a < b < grp.len() && r.conflicts == seq![
                        (seq![(#[trigger] g[grp[a]]).id@, (#[trigger] g[grp[b]]).id@], ConflictType::OverlappingBlocks),
                    ];
                assert(r.conflicts[0].1 == ConflictType::OverlappingBlocks);
            }
        }
        assert forall|p: int| 0 <= p < all.len() implies {
            let r = #[trigger] all[p];
            let grp = group_of(g, f, r.source);
            &&& exists|t: int| k <= t < srcs.len() && srcs[t] == r.source
            &&& grp.len() >= 2
            &&& if is_same_target(r) {
                r == same_target_report(g, grp, r.source)
            } else {
                overlap_in_group(g, grp, r.source, r)
            }
        } by {
            if p < here.len() {
                assert(all[p] == here[p]);
                assert(srcs[k] == all[p].source);
            } else {
                assert(all[p] == rest[p - here.len()]);
                let r = rest[p - here.len()];
                let t = choose|t: int| k + 1 <= t < srcs.len() && srcs[t] == r.source;
                assert(srcs[t] == r.source);
            }
        }
        assert forall|t: int|
            k <= t < srcs.len() && group_of(g, f, srcs[t]).len() >= 2 implies all.contains(
                same_target_report(g, group_of(g, f, #[trigger] srcs[t]), srcs[t]),
            ) by {
            if t == k {
                assert(all[0] == here[0]);
            } else {
                let q = choose|q: int| 0 <= q < rest.len() && rest[q] == same_target_report(g, group_of(g, f, srcs[t]), srcs[t]);
                assert(all[here.len() + q] == rest[q]);
            }
        }
        assert forall|p: int, q: int|
            0 <= p < q < all.len() && is_same_target(#[trigger] all[p]) && is_same_target(#[trigger] all[q]) implies all[p].source
                != all[q].source by {
            if q < here.len() {
                assert(all[p] == here[p]);
                assert(all[q] == here[q]);
            } else if p < here.len() {
                assert(all[p] == here[p]);
                assert(all[q] == rest[q - here.len()]);
                let r = rest[q - here.len()];
                let t = choose|t: int| k + 1 <= t < srcs.len() && srcs[t] == r.source;
                assert(srcs[t] != srcs[k]);
            } else {
                assert(all[p] == rest[p - here.len()]);
                assert(all[q] == rest[q - here.len()]);
            }
        }
    }
}

proof fn lemma_group_source(g: Seq<GhostNote>, f: Option<Seq<char>>, s: Seq<char>)
    ensures
        group_of(g, f, s).len() > 0 ==> g.filter(|x: GhostNote| in_scope(x, f)).map_values(|x: GhostNote| x.source_note@).contains(s),
    decreases g.len(),
{
    if g.len() > 0 {
        let sc = |x: GhostNote| in_scope(x, f);
        let d = g.drop_last();
        lemma_group_source(d, f, s);
        assert(g == d.push(g.last()));
        d.lemma_filter_push(g.last(), sc);
        let fd = d.filter(sc).map_values(|x: GhostNote| x.source_note@);
        if in_scope(g.last(), f) {
            let fg = g.filter(sc).map_values(|x: GhostNote| x.source_note@);
            assert(fg =~= fd.push(g.last().source_note@));
            if group_of(d, f, s).len() > 0 {
                let i = choose|i: int| 0 <= i < fd.len() && fd[i] == s;
                assert(fg[i] == s);
            } else if group_of(g, f, s).len() > 0 {
                assert(fg[fd.len() as int] == s);
            }
        } else {
            assert(g.filter(sc) == d.filter(sc));
        }
    }
}

/// What the conflict check reports: every report concerns a note that two or more of the ghosts
/// in scope target; it is either the one report naming all of them, with a severity by their
/// number, or an overlap of two ghosts at distinct places of that note's group; each such note
/// gets its report naming all its ghosts, and only one.
pub proof fn lemma_conflicts_by_note(g: Seq<GhostNote>, f: Option<Seq<char>>)
    ensures
        ({
            let rs = reports_from(g, f, scoped_sources(g, f), 0);
            &&& forall|p: int| 0 <= p < rs.len() ==> {
                let r = #[trigger] rs[p];
                let grp = group_of(g, f, r.source);
                &&& grp.len() >= 2
                &&& if is_same_target(r) {
                    r == same_target_report(g, grp, r.source)
                } else {
                    overlap_in_group(g, grp, r.source, r)
                }
            }
            &&& forall|s: Seq<char>|
                #[trigger] group_of(g, f, s).len() >= 2 ==> rs.contains(same_target_report(g, group_of(g, f, s), s))
            &&& forall|p: int, q: int|
                0 <= p < q < rs.len() && is_same_target(#[trigger] rs[p]) && is_same_target(#[trigger] rs[q]) ==> rs[p].source
                    != rs[q].source
        }),
{
    let srcs = scoped_sources(g, f);
    let keys = g.filter(|x: GhostNote| in_scope(x, f)).map_values(|x: GhostNote| x.source_note@);
    crate::context::lemma_distinct_keys_distinct(keys);
    lemma_reports_from(g, f, srcs, 0);
    let rs = reports_from(g, f, srcs, 0);
    assert forall|s: Seq<char>| #[trigger] group_of(g, f, s).len() >= 2 implies rs.contains(same_target_report(g, group_of(g, f, s), s)) by {
        lemma_group_source(g, f, s);
        assert(keys.contains(s));
        assert(srcs.contains(s));
        let t = choose|t: int| 0 <= t < srcs.len() && srcs[t] == s;
        assert(group_of(g, f, srcs[t]).len() >= 2);
    }
}

} // verus!
