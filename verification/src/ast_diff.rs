//! Block-level diff of Markdown: which blocks a suggestion inserts, deletes or modifies.

use vstd::prelude::*;
use crate::text::{strings_view};

verus! {

/// One edit between two block lists.
#[derive(Debug, Clone, PartialEq, Eq)]
pub enum DiffOp {
    InsertBlock { position: usize, block_id: String, text: String },
    DeleteBlock { block_id: String },
    ModifyBlock { block_id: String, old_text: String, new_text: String },
    InsertLink { block_id: String, target: String },
    DeleteLink { block_id: String, target: String },
}

/// An edit with its text as character sequences.
pub enum DiffOpView {
    InsertBlock { position: usize, block_id: Seq<char>, text: Seq<char> },
    DeleteBlock { block_id: Seq<char> },
    ModifyBlock { block_id: Seq<char>, old_text: Seq<char>, new_text: Seq<char> },
    InsertLink { block_id: Seq<char>, target: Seq<char> },
    DeleteLink { block_id: Seq<char>, target: Seq<char> },
}

impl View for DiffOp {
    type V = DiffOpView;

    open spec fn view(&self) -> DiffOpView {
        match self {
            DiffOp::InsertBlock { position, block_id, text } => DiffOpView::InsertBlock {
                position: *position,
                block_id: block_id@,
                text: text@,
            },
            DiffOp::DeleteBlock { block_id } => DiffOpView::DeleteBlock { block_id: block_id@ },
            DiffOp::ModifyBlock { block_id, old_text, new_text } => DiffOpView::ModifyBlock {
                block_id: block_id@,
                old_text: old_text@,
                new_text: new_text@,
            },
            DiffOp::InsertLink { block_id, target } => DiffOpView::InsertLink {
                block_id: block_id@,
                target: target@,
            },
            DiffOp::DeleteLink { block_id, target } => DiffOpView::DeleteLink {
                block_id: block_id@,
                target: target@,
            },
        }
    }
}

pub open spec fn ops_view(ops: Seq<DiffOp>) -> Seq<DiffOpView> {
    ops.map_values(|o: DiffOp| o@)
}

/// A Markdown block as the diff sees it: its id, its text and where it stands.
#[derive(Debug, Clone)]
pub struct ContentBlock {
    pub id: String,
    pub text: String,
    pub parent_heading: Option<String>,
    pub position: usize,
    pub links: Vec<String>,
}

/// Some block carries the id.
pub open spec fn has_block_id(blocks: Seq<ContentBlock>, id: Seq<char>) -> bool {
    exists|k: int| 0 <= k < blocks.len() && #[trigger] blocks[k].id@ == id
}

pub open spec fn insert_op(b: ContentBlock) -> DiffOpView {
    DiffOpView::InsertBlock { position: b.position, block_id: b.id@, text: b.text@ }
}

pub open spec fn delete_op(b: ContentBlock) -> DiffOpView {
    DiffOpView::DeleteBlock { block_id: b.id@ }
}

/// The edits from original block `i` and suggested block `j` on: blocks aligned by id; an
/// original block whose id the suggestion lacks is deleted, otherwise the suggested block is
/// inserted; what is left over is inserted, then deleted.
pub open spec fn diff_from(o: Seq<ContentBlock>, s: Seq<ContentBlock>, i: int, j: int) -> Seq<DiffOpView>
    decreases o.len() - i + s.len() - j, 0int,
{
    if i < 0 || j < 0 {
        Seq::empty()
    } else if i < o.len() && j < s.len() {
        if o[i].id@ == s[j].id@ {
            let here = if o[i].text@ != s[j].text@ {
                seq![
                    DiffOpView::ModifyBlock {
                        block_id: o[i].id@,
                        old_text: o[i].text@,
                        new_text: s[j].text@,
                    },
                ]
            } else {
                Seq::empty()
            };
            here + diff_from(o, s, i + 1, j + 1)
        } else if !has_block_id(s, o[i].id@) {
            seq![delete_op(o[i])] + diff_from(o, s, i + 1, j)
        } else {
            seq![insert_op(s[j])] + diff_from(o, s, i, j + 1)
        }
    } else {
        leftover(o, s, i, j)
    }
}

/// What is left once one list runs out: the remaining suggested blocks inserted, then the
/// remaining original blocks deleted.
pub open spec fn leftover(o: Seq<ContentBlock>, s: Seq<ContentBlock>, i: int, j: int) -> Seq<DiffOpView> {
    s.subrange(j, s.len() as int).map_values(|b: ContentBlock| insert_op(b)) + o.subrange(
        i,
        o.len() as int,
    ).map_values(|b: ContentBlock| delete_op(b))
}

fn contains_block_id(blocks: &[ContentBlock], id: &String) -> (res: bool)
    ensures
        res == has_block_id(blocks@, id@),
{
    let mut k: usize = 0;
    while k < blocks.len()
        invariant
            k <= blocks.len(),
            forall|q: int| 0 <= q < k ==> #[trigger] blocks@[q].id@ != id@,
        decreases blocks.len() - k,
    {
        if blocks[k].id == *id {
            return true;
        }
        k = k + 1;
    }
    false
}

/// Compares two block lists and lists the edits that turn the first into the second.
pub fn diff_blocks(original_blocks: &[ContentBlock], suggested_blocks: &[ContentBlock]) -> (res: Vec<DiffOp>)
    ensures
        ops_view(res@) == diff_from(original_blocks@, suggested_blocks@, 0, 0),
{
    let o = original_blocks;
    let s = suggested_blocks;
    let mut ops: Vec<DiffOp> = Vec::new();
    let mut i: usize = 0;
    let mut j: usize = 0;
    while i < o.len() && j < s.len()
        invariant
            i <= o.len(),
            j <= s.len(),
            ops_view(ops@) + diff_from(o@, s@, i as int, j as int) == diff_from(o@, s@, 0, 0),
        decreases o.len() - i + s.len() - j,
    {
        let ghost before = ops_view(ops@);
        if o[i].id == s[j].id {
            if !(o[i].text == s[j].text) {
                ops.push(
                    DiffOp::ModifyBlock {
                        block_id: o[i].id.clone(),
                        old_text: o[i].text.clone(),
                        new_text: s[j].text.clone(),
                    },
                );
            }
            assert(before + diff_from(o@, s@, i as int, j as int) == ops_view(ops@) + diff_from(
                o@,
                s@,
                i + 1,
                j + 1,
            ));
            i = i + 1;
            j = j + 1;
        } else if !contains_block_id(s, &o[i].id) {
            ops.push(DiffOp::DeleteBlock { block_id: o[i].id.clone() });
            assert(before + diff_from(o@, s@, i as int, j as int) == ops_view(ops@) + diff_from(
                o@,
                s@,
                i + 1,
                j as int,
            ));
            i = i + 1;
        } else {
            ops.push(
                DiffOp::InsertBlock {
                    position: s[j].position,
                    block_id: s[j].id.clone(),
                    text: s[j].text.clone(),
                },
            );
            assert(before + diff_from(o@, s@, i as int, j as int) == ops_view(ops@) + diff_from(
                o@,
                s@,
                i as int,
                j + 1,
            ));
            j = j + 1;
        }
    }
    let ghost mid = ops_view(ops@);
    let ghost i0 = i;
    let ghost j0 = j;
    assert(diff_from(o@, s@, i as int, j as int) == leftover(o@, s@, i as int, j as int));
    while j < s.len()
        invariant
            j0 <= j <= s.len(),
            ops_view(ops@) == mid + s@.subrange(j0 as int, j as int).map_values(|b: ContentBlock| insert_op(b)),
        decreases s.len() - j,
    {
        let ghost before = ops_view(ops@);
        ops.push(
            DiffOp::InsertBlock {
                position: s[j].position,
                block_id: s[j].id.clone(),
                text: s[j].text.clone(),
            },
        );
        assert(s@.subrange(j0 as int, j + 1).map_values(|b: ContentBlock| insert_op(b)) == s@.subrange(
            j0 as int,
            j as int,
        ).map_values(|b: ContentBlock| insert_op(b)).push(insert_op(s@[j as int])));
        assert(ops_view(ops@) == before.push(insert_op(s@[j as int])));
        assert(ops_view(ops@) =~= mid + s@.subrange(j0 as int, j + 1).map_values(|b: ContentBlock| insert_op(b)));
        j = j + 1;
    }
    let ghost mid2 = ops_view(ops@);
    while i < o.len()
        invariant
            i0 <= i <= o.len(),
            ops_view(ops@) == mid2 + o@.subrange(i0 as int, i as int).map_values(|b: ContentBlock| delete_op(b)),
        decreases o.len() - i,
    {
        let ghost before = ops_view(ops@);
        ops.push(DiffOp::DeleteBlock { block_id: o[i].id.clone() });
        assert(ops_view(ops@) == before.push(delete_op(o@[i as int])));
        assert(o@.subrange(i0 as int, i + 1).map_values(|b: ContentBlock| delete_op(b)) == o@.subrange(
            i0 as int,
            i as int,
        ).map_values(|b: ContentBlock| delete_op(b)).push(delete_op(o@[i as int])));
        assert(ops_view(ops@) =~= mid2 + o@.subrange(i0 as int, i + 1).map_values(|b: ContentBlock| delete_op(b)));
        i = i + 1;
    }
    assert(ops_view(ops@) =~= diff_from(o@, s@, 0, 0));
    ops
}


/// A block list diffed against itself gives no edits.
pub proof fn lemma_diff_self_empty(o: Seq<ContentBlock>, i: int)
    requires
        0 <= i <= o.len(),
    ensures
        diff_from(o, o, i, i) == Seq::<DiffOpView>::empty(),
    decreases o.len() - i,
{
    if i < o.len() {
        lemma_diff_self_empty(o, i + 1);
        assert(diff_from(o, o, i, i) =~= Seq::<DiffOpView>::empty());
    } else {
        assert(leftover(o, o, i, i) =~= Seq::<DiffOpView>::empty());
    }
}

/// An edit that the two block lists account for: a deleted id is an original block's, an
/// inserted block is a suggested one, and a modification changes the text of an id that both
/// lists hold from the original's text to a different suggested one.
pub open spec fn op_accounted(o: Seq<ContentBlock>, s: Seq<ContentBlock>, op: DiffOpView) -> bool {
    match op {
        DiffOpView::DeleteBlock { block_id } => has_block_id(o, block_id),
        DiffOpView::InsertBlock { .. } => exists|m: int| 0 <= m < s.len() && op == insert_op(#[trigger] s[m]),
        DiffOpView::ModifyBlock { block_id, old_text, new_text } => exists|k: int, m: int|
            0 <= k < o.len() && 0 <= m < s.len() && (#[trigger] o[k]).id@ == block_id && (#[trigger] s[m]).id@
                == block_id && old_text == o[k].text@ && new_text == s[m].text@ && old_text != new_text,
        _ => false,
    }
}

proof fn lemma_diff_accounted(o: Seq<ContentBlock>, s: Seq<ContentBlock>, i: int, j: int)
    requires
        0 <= i <= o.len(),
        0 <= j <= s.len(),
    ensures
        forall|p: int| 0 <= p < diff_from(o, s, i, j).len() ==> op_accounted(o, s, #[trigger] diff_from(o, s, i, j)[p]),
        forall|k: int|
            i <= k < o.len() && !has_block_id(s, (#[trigger] o[k]).id@) ==> diff_from(o, s, i, j).contains(delete_op(o[k])),
        forall|m: int|
            j <= m < s.len() && !has_block_id(o, (#[trigger] s[m]).id@) ==> diff_from(o, s, i, j).contains(insert_op(s[m])),
    decreases o.len() - i + s.len() - j,
{
    let d = diff_from(o, s, i, j);
    if i < o.len() && j < s.len() {
        if o[i].id@ == s[j].id@ {
            lemma_diff_accounted(o, s, i + 1, j + 1);
            let rest = diff_from(o, s, i + 1, j + 1);
            let here = if o[i].text@ != s[j].text@ {
                seq![DiffOpView::ModifyBlock { block_id: o[i].id@, old_text: o[i].text@, new_text: s[j].text@ }]
            } else {
                Seq::empty()
            };
            assert(d == here + rest);
            assert forall|p: int| 0 <= p < d.len() implies op_accounted(o, s, #[trigger] d[p]) by {
                if p < here.len() {
                    assert(d[p] == here[p]);
                } else {
                    assert(d[p] == rest[p - here.len()]);
                }
            }
            assert forall|k: int| i <= k < o.len() && !has_block_id(s, (#[trigger] o[k]).id@) implies d.contains(delete_op(o[k])) by {
                if k == i {
                    assert(s[j].id@ == o[i].id@);
                } else {
                    let p = choose|p: int| 0 <= p < rest.len() && rest[p] == delete_op(o[k]);
                    assert(d[here.len() + p] == rest[p]);
                }
            }
            assert forall|m: int| j <= m < s.len() && !has_block_id(o, (#[trigger] s[m]).id@) implies d.contains(insert_op(s[m])) by {
                if m == j {
                    assert(o[i].id@ == s[j].id@);
                } else {
                    let p = choose|p: int| 0 <= p < rest.len() && rest[p] == insert_op(s[m]);
                    assert(d[here.len() + p] == rest[p]);
                }
            }
        } else if !has_block_id(s, o[i].id@) {
            lemma_diff_accounted(o, s, i + 1, j);
            let rest = diff_from(o, s, i + 1, j);
            assert(d == seq![delete_op(o[i])] + rest);
            assert forall|p: int| 0 <= p < d.len() implies op_accounted(o, s, #[trigger] d[p]) by {
                if p == 0 {
                    assert(o[i].id@ == o[i].id@);
                } else {
                    assert(d[p] == rest[p - 1]);
                }
            }
            assert forall|k: int| i <= k < o.len() && !has_block_id(s, (#[trigger] o[k]).id@) implies d.contains(delete_op(o[k])) by {
                if k == i {
                    assert(d[0] == delete_op(o[i]));
                } else {
                    let p = choose|p: int| 0 <= p < rest.len() && rest[p] == delete_op(o[k]);
                    assert(d[1 + p] == rest[p]);
                }
            }
            assert forall|m: int| j <= m < s.len() && !has_block_id(o, (#[trigger] s[m]).id@) implies d.contains(insert_op(s[m])) by {
                let p = choose|p: int| 0 <= p < rest.len() && rest[p] == insert_op(s[m]);
                assert(d[1 + p] == rest[p]);
            }
        } else {
            lemma_diff_accounted(o, s, i, j + 1);
            let rest = diff_from(o, s, i, j + 1);
            assert(d == seq![insert_op(s[j])] + rest);
            assert forall|p: int| 0 <= p < d.len() implies op_accounted(o, s, #[trigger] d[p]) by {
                if p == 0 {
                    assert(d[0] == insert_op(s[j]));
                } else {
                    assert(d[p] == rest[p - 1]);
                }
            }
            assert forall|k: int| i <= k < o.len() && !has_block_id(s, (#[trigger] o[k]).id@) implies d.contains(delete_op(o[k])) by {
                let p = choose|p: int| 0 <= p < rest.len() && rest[p] == delete_op(o[k]);
                assert(d[1 + p] == rest[p]);
            }
            assert forall|m: int| j <= m < s.len() && !has_block_id(o, (#[trigger] s[m]).id@) implies d.contains(insert_op(s[m])) by {
                if m == j {
                    assert(d[0] == insert_op(s[j]));
                } else {
                    let p = choose|p: int| 0 <= p < rest.len() && rest[p] == insert_op(s[m]);
                    assert(d[1 + p] == rest[p]);
                }
            }
        }
    } else {
        let ins = s.subrange(j, s.len() as int).map_values(|b: ContentBlock| insert_op(b));
        let del = o.subrange(i, o.len() as int).map_values(|b: ContentBlock| delete_op(b));
        assert(d == ins + del);
        assert forall|p: int| 0 <= p < d.len() implies op_accounted(o, s, #[trigger] d[p]) by {
            if p < ins.len() {
                assert(d[p] == insert_op(s[j + p]));
            } else {
                assert(d[p] == delete_op(o[i + p - ins.len()]));
                assert(o[i + p - ins.len()].id@ == o[i + p - ins.len()].id@);
            }
        }
        assert forall|k: int| i <= k < o.len() && !has_block_id(s, (#[trigger] o[k]).id@) implies d.contains(delete_op(o[k])) by {
            assert(d[ins.len() + k - i] == delete_op(o[k]));
        }
        assert forall|m: int| j <= m < s.len() && !has_block_id(o, (#[trigger] s[m]).id@) implies d.contains(insert_op(s[m])) by {
            assert(d[m - j] == insert_op(s[m]));
        }
    }
}

/// What the diff of two block lists holds: every edit is accounted for by the lists (a
/// deleted id is an original block's, an inserted block a suggested one, a modification
/// changes an id both lists hold to a different text); every original block whose id the
/// suggestion lacks is deleted and every suggested block whose id the original lacks is
/// inserted; and a list diffed against itself gives no edit.
pub proof fn lemma_diff_blocks_accounts_for_both_lists(o: Seq<ContentBlock>, s: Seq<ContentBlock>)
    ensures
        forall|p: int| 0 <= p < diff_from(o, s, 0, 0).len() ==> op_accounted(o, s, #[trigger] diff_from(o, s, 0, 0)[p]),
        forall|k: int|
            0 <= k < o.len() && !has_block_id(s, (#[trigger] o[k]).id@) ==> diff_from(o, s, 0, 0).contains(delete_op(o[k])),
        forall|m: int|
            0 <= m < s.len() && !has_block_id(o, (#[trigger] s[m]).id@) ==> diff_from(o, s, 0, 0).contains(insert_op(s[m])),
        diff_from(o, o, 0, 0) == Seq::<DiffOpView>::empty(),
{
    lemma_diff_accounted(o, s, 0, 0);
    lemma_diff_self_empty(o, 0);
}

/// The modification of a block from the original's text to the suggested one.
pub open spec fn modify_op(ob: ContentBlock, sb: ContentBlock) -> DiffOpView {
    DiffOpView::ModifyBlock { block_id: sb.id@, old_text: ob.text@, new_text: sb.text@ }
}

proof fn lemma_kept_compared(o: Seq<ContentBlock>, s: Seq<ContentBlock>, f: Seq<int>, i: int, j: int)
    requires
        0 <= i <= o.len(),
        0 <= j <= s.len(),
        f.len() == s.len(),
        forall|m: int| 0 <= m < s.len() ==> 0 <= #[trigger] f[m] < o.len() && o[f[m]].id@ == s[m].id@,
        forall|m1: int, m2: int| 0 <= m1 < m2 < s.len() ==> #[trigger] f[m1] < #[trigger] f[m2],
        forall|k1: int, k2: int| 0 <= k1 < o.len() && 0 <= k2 < o.len() && k1 != k2 ==> (#[trigger] o[k1]).id@ != (#[trigger] o[k2]).id@,
        j < s.len() ==> i <= f[j],
        j > 0 ==> f[j - 1] < i,
    ensures
        forall|m: int|
            j <= m < s.len() && (#[trigger] s[m]).text@ != o[f[m]].text@ ==> diff_from(o, s, i, j).contains(modify_op(o[f[m]], s[m])),
    decreases o.len() - i + s.len() - j,
{
    if j < s.len() {
        let d = diff_from(o, s, i, j);
        assert(i < o.len());
        if o[i].id@ == s[j].id@ {
            assert(i == f[j]);
            if j + 1 < s.len() {
                assert(f[j] < f[j + 1]);
            }
            lemma_kept_compared(o, s, f, i + 1, j + 1);
            let rest = diff_from(o, s, i + 1, j + 1);
            let here = if o[i].text@ != s[j].text@ {
                seq![DiffOpView::ModifyBlock { block_id: o[i].id@, old_text: o[i].text@, new_text: s[j].text@ }]
            } else {
                Seq::empty()
            };
            assert(d == here + rest);
            assert forall|m: int|
                j <= m < s.len() && (#[trigger] s[m]).text@ != o[f[m]].text@ implies d.contains(modify_op(o[f[m]], s[m])) by {
                if m == j {
                    assert(d[0] == here[0]);
                } else {
                    let p = choose|p: int| 0 <= p < rest.len() && rest[p] == modify_op(o[f[m]], s[m]);
                    assert(d[here.len() + p] == rest[p]);
                }
            }
        } else if !has_block_id(s, o[i].id@) {
            assert(i != f[j]);
            lemma_kept_compared(o, s, f, i + 1, j);
            let rest = diff_from(o, s, i + 1, j);
            assert(d == seq![delete_op(o[i])] + rest);
            assert forall|m: int|
                j <= m < s.len() && (#[trigger] s[m]).text@ != o[f[m]].text@ implies d.contains(modify_op(o[f[m]], s[m])) by {
                let p = choose|p: int| 0 <= p < rest.len() && rest[p] == modify_op(o[f[m]], s[m]);
                assert(d[1 + p] == rest[p]);
            }
        } else {
            let q = choose|q: int| 0 <= q < s.len() && #[trigger] s[q].id@ == o[i].id@;
            assert(f[q] == i);
            if q < j {
                assert(f[q] <= f[j - 1]);
            } else if q > j {
                assert(f[j] < f[q]);
            }
            assert(false);
        }
    }
}

/// A suggestion that keeps some of the original blocks, in their order, and drops the rest
/// (`f` gives the original place of each suggested block; original ids are distinct) is
/// diffed block by block: every kept block whose text changed gets a modification from its
/// original text to the suggested one, wherever either block stands.
pub proof fn lemma_kept_blocks_are_compared(o: Seq<ContentBlock>, s: Seq<ContentBlock>, f: Seq<int>)
    requires
        f.len() == s.len(),
        forall|m: int| 0 <= m < s.len() ==> 0 <= #[trigger] f[m] < o.len() && o[f[m]].id@ == s[m].id@,
        forall|m1: int, m2: int| 0 <= m1 < m2 < s.len() ==> #[trigger] f[m1] < #[trigger] f[m2],
        forall|k1: int, k2: int| 0 <= k1 < o.len() && 0 <= k2 < o.len() && k1 != k2 ==> (#[trigger] o[k1]).id@ != (#[trigger] o[k2]).id@,
    ensures
        forall|m: int|
            0 <= m < s.len() && (#[trigger] s[m]).text@ != o[f[m]].text@ ==> diff_from(o, s, 0, 0).contains(
                DiffOpView::ModifyBlock { block_id: s[m].id@, old_text: o[f[m]].text@, new_text: s[m].text@ },
            ),
{
    if s.len() > 0 {
        assert(0 <= f[0]);
    }
    lemma_kept_compared(o, s, f, 0, 0);
}

// ---------------------------------------------------------------------------------------
// Matching suggested blocks to original ones.
// ---------------------------------------------------------------------------------------

/// How a suggested block was matched to an original one. A semantic score is the bit
/// pattern of a 32-bit float.
#[derive(Debug, Clone, Copy, PartialEq, Eq, Structural)]
pub enum MatchType {
    Exact,
    ContentHash,
    Semantic { score_bits: u32 },
    Unmatched,
}

/// A match between an original block and a suggested one, by their positions; one side is
/// missing for a block left unmatched. The confidence is the bit pattern of a 32-bit float.
#[derive(Debug, Clone, Copy, PartialEq, Eq, Structural)]
pub struct BlockMatch {
    pub original_idx: Option<usize>,
    pub suggested_idx: Option<usize>,
    pub match_type: MatchType,
    pub confidence_bits: u32,
}

/// The bit patterns of the 32-bit floats 1.0 and 0.95.
pub const EXACT_CONFIDENCE_BITS: u32 = 0x3f80_0000u32;
pub const HASH_CONFIDENCE_BITS: u32 = 0x3f73_3333u32;

/// The hash of a block's text that the content phase compares (`std`'s default hasher).
pub uninterp spec fn content_hash_of(text: Seq<char>) -> u64;

/// `BuildHasherDefault::<DefaultHasher>::hash_one`: the text hashed by `std`'s default hasher,
/// whose keys are fixed, so that the same text always gives the same hash.
#[verifier::external_body]
fn content_hash(text: &str) -> (res: u64)
    ensures
        res == content_hash_of(text@),
{
    std::hash::BuildHasher::hash_one(&std::hash::BuildHasherDefault::<std::collections::hash_map::DefaultHasher>::default(), text)
}

/// The first position from `from` on that is not used and carries the key.
pub open spec fn first_free<K>(used: Seq<bool>, keys: Seq<K>, k: K, from: int) -> Option<int>
    decreases keys.len() - from,
{
    if from < 0 || from >= keys.len() || from >= used.len() {
        None
    } else if !used[from] && keys[from] == k {
        Some(from)
    } else {
        first_free(used, keys, k, from + 1)
    }
}

/// What matching has found so far: the matches, and which blocks of each side they use.
pub struct MatchState {
    pub matches: Seq<BlockMatch>,
    pub used_original: Seq<bool>,
    pub used_suggested: Seq<bool>,
}

/// The start: nothing matched.
pub open spec fn no_matches(n_original: nat, n_suggested: nat) -> MatchState {
    MatchState {
        matches: Seq::empty(),
        used_original: Seq::new(n_original, |i: int| false),
        used_suggested: Seq::new(n_suggested, |i: int| false),
    }
}

/// One keyed phase over the first `j` suggested blocks: each suggested block not yet used is
/// matched to the first unused original block with the same key.
pub open spec fn key_phase<K>(o_keys: Seq<K>, s_keys: Seq<K>, st: MatchState, j: int, kind: MatchType, conf: u32) -> MatchState
    decreases j,
{
    if j <= 0 {
        st
    } else {
        let p = key_phase(o_keys, s_keys, st, j - 1, kind, conf);
        let s = j - 1;
        if s >= p.used_suggested.len() || p.used_suggested[s] {
            p
        } else {
            match first_free(p.used_original, o_keys, s_keys[s], 0) {
                Some(o) => MatchState {
                    matches: p.matches.push(
                        BlockMatch { original_idx: Some(o as usize), suggested_idx: Some(s as usize), match_type: kind, confidence_bits: conf },
                    ),
                    used_original: p.used_original.update(o, true),
                    used_suggested: p.used_suggested.update(s, true),
                },
                None => p,
            }
        }
    }
}

pub open spec fn block_ids(bs: Seq<ContentBlock>) -> Seq<Seq<char>> {
    bs.map_values(|b: ContentBlock| b.id@)
}

pub open spec fn block_hashes(bs: Seq<ContentBlock>) -> Seq<u64> {
    bs.map_values(|b: ContentBlock| content_hash_of(b.text@))
}

/// The matches by id, then by content hash, of the suggested blocks to the original ones.
pub open spec fn id_and_hash_matches(o: Seq<ContentBlock>, s: Seq<ContentBlock>) -> MatchState {
    let by_id = key_phase(block_ids(o), block_ids(s), no_matches(o.len(), s.len()), s.len() as int, MatchType::Exact, EXACT_CONFIDENCE_BITS);
    key_phase(block_hashes(o), block_hashes(s), by_id, s.len() as int, MatchType::ContentHash, HASH_CONFIDENCE_BITS)
}

/// The blocks left unmatched, suggested ones from position `j` on, each on its own.
pub open spec fn unmatched_suggested(used: Seq<bool>, j: int) -> Seq<BlockMatch>
    decreases j,
{
    if j <= 0 {
        Seq::empty()
    } else if !used[j - 1] {
        unmatched_suggested(used, j - 1).push(
            BlockMatch { original_idx: None, suggested_idx: Some((j - 1) as usize), match_type: MatchType::Unmatched, confidence_bits: 0 },
        )
    } else {
        unmatched_suggested(used, j - 1)
    }
}

/// The original blocks left unmatched, among the first `j`, each on its own.
pub open spec fn unmatched_original(used: Seq<bool>, j: int) -> Seq<BlockMatch>
    decreases j,
{
    if j <= 0 {
        Seq::empty()
    } else if !used[j - 1] {
        unmatched_original(used, j - 1).push(
            BlockMatch { original_idx: Some((j - 1) as usize), suggested_idx: None, match_type: MatchType::Unmatched, confidence_bits: 0 },
        )
    } else {
        unmatched_original(used, j - 1)
    }
}

/// Block matching in progress: the matches so far and the blocks they use.
pub struct BlockMatching {
    pub matches: Vec<BlockMatch>,
    pub used_original: Vec<bool>,
    pub used_suggested: Vec<bool>,
}

impl BlockMatching {
    pub open spec fn state(&self) -> MatchState {
        MatchState { matches: self.matches@, used_original: self.used_original@, used_suggested: self.used_suggested@ }
    }

    /// Records a match of original block `o` with suggested block `s`.
    fn record(&mut self, o: usize, s: usize, kind: MatchType, conf: u32)
        requires
            o < old(self).used_original@.len(),
            s < old(self).used_suggested@.len(),
        ensures
            final(self).state() == (MatchState {
                matches: old(self).matches@.push(
                    BlockMatch { original_idx: Some(o), suggested_idx: Some(s), match_type: kind, confidence_bits: conf },
                ),
                used_original: old(self).used_original@.update(o as int, true),
                used_suggested: old(self).used_suggested@.update(s as int, true),
            }),
    {
        self.matches.push(BlockMatch { original_idx: Some(o), suggested_idx: Some(s), match_type: kind, confidence_bits: conf });
        self.used_original.set(o, true);
        self.used_suggested.set(s, true);
    }

    fn id_pass(&mut self, original: &[ContentBlock], suggested: &[ContentBlock])
        requires
            original@.len() == old(self).used_original@.len(),
            suggested@.len() == old(self).used_suggested@.len(),
        ensures
            final(self).state() == key_phase(
                block_ids(original@),
                block_ids(suggested@),
                old(self).state(),
                suggested@.len() as int,
                MatchType::Exact,
                EXACT_CONFIDENCE_BITS,
            ),
            final(self).used_original@.len() == old(self).used_original@.len(),
            final(self).used_suggested@.len() == old(self).used_suggested@.len(),
    {
        let ghost st0 = self.state();
        let ghost ok = block_ids(original@);
        let ghost sk = block_ids(suggested@);
        let mut j: usize = 0;
        while j < suggested.len()
            invariant
                j <= suggested.len(),
                original@.len() == self.used_original@.len(),
                suggested@.len() == self.used_suggested@.len(),
                ok == block_ids(original@),
                sk == block_ids(suggested@),
                self.state() == key_phase(ok, sk, st0, j as int, MatchType::Exact, EXACT_CONFIDENCE_BITS),
            decreases suggested.len() - j,
        {
            if !self.used_suggested[j] {
                let mut o: usize = 0;
                let mut found: Option<usize> = None;
                while o < original.len()
                    invariant_except_break
                        found is None,
                        first_free(self.used_original@, ok, sk[j as int], 0) == first_free(self.used_original@, ok, sk[j as int], o as int),
                    invariant
                        o <= original.len(),
                        original@.len() == self.used_original@.len(),
                        j < suggested@.len(),
                        ok == block_ids(original@),
                        sk == block_ids(suggested@),
                    ensures
                        (match found {
                            Some(x) => first_free(self.used_original@, ok, sk[j as int], 0) == Some(x as int),
                            None => first_free(self.used_original@, ok, sk[j as int], 0) is None,
                        }),
                        found matches Some(x) ==> x < original.len(),
                    decreases original.len() - o,
                {
                    if !self.used_original[o] && original[o].id == suggested[j].id {
                        assert(ok[o as int] == sk[j as int]);
                        found = Some(o);
                        break;
                    }
                    o = o + 1;
                }
                let ghost p = self.state();
                match found {
                    Some(o) => self.record(o, j, MatchType::Exact, EXACT_CONFIDENCE_BITS),
                    None => {},
                }
                assert(self.state() == key_phase(ok, sk, st0, j + 1, MatchType::Exact, EXACT_CONFIDENCE_BITS));
            } else {
                assert(self.state() == key_phase(ok, sk, st0, j + 1, MatchType::Exact, EXACT_CONFIDENCE_BITS));
            }
            j = j + 1;
        }
    }

    fn hash_pass(&mut self, o_hashes: &Vec<u64>, s_hashes: &Vec<u64>)
        requires
            o_hashes@.len() == old(self).used_original@.len(),
            s_hashes@.len() == old(self).used_suggested@.len(),
        ensures
            final(self).state() == key_phase(
                o_hashes@,
                s_hashes@,
                old(self).state(),
                s_hashes@.len() as int,
                MatchType::ContentHash,
                HASH_CONFIDENCE_BITS,
            ),
    {
        let ghost st0 = self.state();
        let mut j: usize = 0;
        while j < s_hashes.len()
            invariant
                j <= s_hashes.len(),
                o_hashes@.len() == self.used_original@.len(),
                s_hashes@.len() == self.used_suggested@.len(),
                self.state() == key_phase(o_hashes@, s_hashes@, st0, j as int, MatchType::ContentHash, HASH_CONFIDENCE_BITS),
            decreases s_hashes.len() - j,
        {
            if !self.used_suggested[j] {
                let mut o: usize = 0;
                let mut found: Option<usize> = None;
                while o < o_hashes.len()
                    invariant_except_break
                        found is None,
                        first_free(self.used_original@, o_hashes@, s_hashes@[j as int], 0) == first_free(
                            self.used_original@,
                            o_hashes@,
                            s_hashes@[j as int],
                            o as int,
                        ),
                    invariant
                        o <= o_hashes.len(),
                        o_hashes@.len() == self.used_original@.len(),
                        j < s_hashes@.len(),
                    ensures
                        (match found {
                            Some(x) => first_free(self.used_original@, o_hashes@, s_hashes@[j as int], 0) == Some(x as int),
                            None => first_free(self.used_original@, o_hashes@, s_hashes@[j as int], 0) is None,
                        }),
                        found matches Some(x) ==> x < o_hashes.len(),
                    decreases o_hashes.len() - o,
                {
                    if !self.used_original[o] && o_hashes[o] == s_hashes[j] {
                        found = Some(o);
                        break;
                    }
                    o = o + 1;
                }
                match found {
                    Some(o) => self.record(o, j, MatchType::ContentHash, HASH_CONFIDENCE_BITS),
                    None => {},
                }
                assert(self.state() == key_phase(o_hashes@, s_hashes@, st0, j + 1, MatchType::ContentHash, HASH_CONFIDENCE_BITS));
            } else {
                assert(self.state() == key_phase(o_hashes@, s_hashes@, st0, j + 1, MatchType::ContentHash, HASH_CONFIDENCE_BITS));
            }
            j = j + 1;
        }
    }

    /// Matches suggested blocks to original ones: first by id, each suggested block to the
    /// first unused original block with its id; then the rest by the hash of their text, in
    /// the same way. What similarity matching may add comes after, by `record_semantic`.
    pub fn by_id_and_hash(original: &[ContentBlock], suggested: &[ContentBlock]) -> (res: BlockMatching)
        ensures
            res.state() == id_and_hash_matches(original@, suggested@),
    {
        let mut hashes_o: Vec<u64> = Vec::new();
        let mut used_o: Vec<bool> = Vec::new();
        let mut i: usize = 0;
        while i < original.len()
            invariant
                i <= original.len(),
                hashes_o@ == block_hashes(original@).take(i as int),
                used_o@ == Seq::new(i as nat, |k: int| false),
            decreases original.len() - i,
        {
            hashes_o.push(content_hash(original[i].text.as_str()));
            used_o.push(false);
            assert(hashes_o@ =~= block_hashes(original@).take(i + 1));
            assert(used_o@ =~= Seq::new((i + 1) as nat, |k: int| false));
            i = i + 1;
        }
        let mut hashes_s: Vec<u64> = Vec::new();
        let mut used_s: Vec<bool> = Vec::new();
        let mut j: usize = 0;
        while j < suggested.len()
            invariant
                j <= suggested.len(),
                hashes_s@ == block_hashes(suggested@).take(j as int),
                used_s@ == Seq::new(j as nat, |k: int| false),
            decreases suggested.len() - j,
        {
            hashes_s.push(content_hash(suggested[j].text.as_str()));
            used_s.push(false);
            assert(hashes_s@ =~= block_hashes(suggested@).take(j + 1));
            assert(used_s@ =~= Seq::new((j + 1) as nat, |k: int| false));
            j = j + 1;
        }
        assert(block_hashes(original@).take(original.len() as int) =~= block_hashes(original@));
        assert(block_hashes(suggested@).take(suggested.len() as int) =~= block_hashes(suggested@));
        let mut m = BlockMatching { matches: Vec::new(), used_original: used_o, used_suggested: used_s };
        assert(m.state() == no_matches(original@.len(), suggested@.len())) by {
            assert(m.matches@ =~= Seq::<BlockMatch>::empty());
        }
        m.id_pass(original, suggested);
        m.hash_pass(&hashes_o, &hashes_s);
        m
    }

    /// Whether original block `o` is matched already.
    pub fn original_used(&self, o: usize) -> (res: bool)
        requires
            o < self.used_original@.len(),
        ensures
            res == self.used_original@[o as int],
    {
        self.used_original[o]
    }

    /// Whether suggested block `s` is matched already.
    pub fn suggested_used(&self, s: usize) -> (res: bool)
        requires
            s < self.used_suggested@.len(),
        ensures
            res == self.used_suggested@[s as int],
    {
        self.used_suggested[s]
    }

    /// Records a match by similarity of two blocks neither of which is matched yet; the score
    /// is the bit pattern of a 32-bit float and is the match's confidence too.
    pub fn record_semantic(&mut self, o: usize, s: usize, score_bits: u32)
        requires
            o < old(self).used_original@.len(),
            s < old(self).used_suggested@.len(),
        ensures
            final(self).state() == (MatchState {
                matches: old(self).matches@.push(
                    BlockMatch {
                        original_idx: Some(o),
                        suggested_idx: Some(s),
                        match_type: MatchType::Semantic { score_bits },
                        confidence_bits: score_bits,
                    },
                ),
                used_original: old(self).used_original@.update(o as int, true),
                used_suggested: old(self).used_suggested@.update(s as int, true),
            }),
    {
        self.record(o, s, MatchType::Semantic { score_bits }, score_bits);
    }

    /// The matches, followed by each suggested block left unmatched and then each original
    /// block left unmatched, in order.
    pub fn finish(self) -> (res: Vec<BlockMatch>)
        ensures
            res@ == self.matches@ + unmatched_suggested(self.used_suggested@, self.used_suggested@.len() as int)
                + unmatched_original(self.used_original@, self.used_original@.len() as int),
    {
        let mut out = self.matches;
        let ghost m0 = out@;
        let mut j: usize = 0;
        while j < self.used_suggested.len()
            invariant
                j <= self.used_suggested.len(),
                out@ == m0 + unmatched_suggested(self.used_suggested@, j as int),
            decreases self.used_suggested.len() - j,
        {
            if !self.used_suggested[j] {
                out.push(BlockMatch { original_idx: None, suggested_idx: Some(j), match_type: MatchType::Unmatched, confidence_bits: 0 });
            }
            assert(out@ =~= m0 + unmatched_suggested(self.used_suggested@, j + 1));
            j = j + 1;
        }
        let ghost m1 = out@;
        let mut i: usize = 0;
        while i < self.used_original.len()
            invariant
                i <= self.used_original.len(),
                out@ == m1 + unmatched_original(self.used_original@, i as int),
            decreases self.used_original.len() - i,
        {
            if !self.used_original[i] {
                out.push(BlockMatch { original_idx: Some(i), suggested_idx: None, match_type: MatchType::Unmatched, confidence_bits: 0 });
            }
            assert(out@ =~= m1 + unmatched_original(self.used_original@, i + 1));
            i = i + 1;
        }
        out
    }
}

} // verus!
