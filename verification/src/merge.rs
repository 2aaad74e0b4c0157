//! Merging accepted suggestions into a note, and resolving conflicts between ghost notes.

use vstd::prelude::*;
use crate::ast_diff::{DiffOp, DiffOpView, ops_view};
use crate::ghost::{GhostBlock, GhostNote, GhostOp};
use crate::text::{chars_of, concat3, string_of, append_chars, push_str, owned};

verus! {

/// Why a merge was refused.
#[derive(Debug, Clone, PartialEq, Eq)]
pub enum MergeError {
    BlockNotFound(String),
    Conflict(String),
}

impl MergeError {
    /// The error's message.
    pub fn message(&self) -> (res: String)
        ensures
            res@ == match *self {
                MergeError::BlockNotFound(b) => "Block "@ + b@ + " not found in original"@,
                MergeError::Conflict(b) => "Merge conflict at block "@ + b@ + ""@,
            },
    {
        match self {
            MergeError::BlockNotFound(b) => concat3("Block ", b.as_str(), " not found in original"),
            MergeError::Conflict(b) => concat3("Merge conflict at block ", b.as_str(), ""),
        }
    }
}

/// What kind of conflict two ghost notes have.
#[derive(Debug, Clone, PartialEq, Eq)]
pub enum ConflictType {
    OverlappingEdit { text_a: String, text_b: String },
    ContradictorySuggestion { reason: String },
    DependencyViolation { required_first: String, attempted_first: String },
}

/// How a conflict is settled.
#[derive(Debug, Clone, PartialEq, Eq)]
pub enum Resolution {
    AcceptA,
    AcceptB,
    MergeBoth { merged_text: String },
    Manual,
}

/// A conflict between two ghost notes at one block.
#[derive(Debug, Clone, PartialEq, Eq)]
pub struct MergeConflict {
    pub block_id: String,
    pub conflict_type: ConflictType,
    pub ghost_a: String,
    pub ghost_b: String,
    pub resolution: Option<Resolution>,
}

/// How a resolver settles conflicts.
#[derive(Debug, Clone, Copy, PartialEq, Eq, Structural)]
pub enum ResolutionStrategy {
    LastWriterWins,
    HighestPriority,
    UserManual,
    AutoMerge,
}

/// Settles conflicts by one strategy.
#[derive(Debug, Clone)]
pub struct ConflictResolver {
    pub strategy: ResolutionStrategy,
}

pub enum ConflictTypeView {
    OverlappingEdit { text_a: Seq<char>, text_b: Seq<char> },
    ContradictorySuggestion { reason: Seq<char> },
    DependencyViolation { required_first: Seq<char>, attempted_first: Seq<char> },
}

pub enum ResolutionView {
    AcceptA,
    AcceptB,
    MergeBoth { merged_text: Seq<char> },
    Manual,
}

pub struct MergeConflictView {
    pub block_id: Seq<char>,
    pub conflict_type: ConflictTypeView,
    pub ghost_a: Seq<char>,
    pub ghost_b: Seq<char>,
    pub resolution: Option<ResolutionView>,
}

impl View for ConflictType {
    type V = ConflictTypeView;

    open spec fn view(&self) -> ConflictTypeView {
        match self {
            ConflictType::OverlappingEdit { text_a, text_b } => ConflictTypeView::OverlappingEdit {
                text_a: text_a@,
                text_b: text_b@,
            },
            ConflictType::ContradictorySuggestion { reason } => ConflictTypeView::ContradictorySuggestion {
                reason: reason@,
            },
            ConflictType::DependencyViolation { required_first, attempted_first } => ConflictTypeView::DependencyViolation {
                required_first: required_first@,
                attempted_first: attempted_first@,
            },
        }
    }
}

impl View for Resolution {
    type V = ResolutionView;

    open spec fn view(&self) -> ResolutionView {
        match self {
            Resolution::AcceptA => ResolutionView::AcceptA,
            Resolution::AcceptB => ResolutionView::AcceptB,
            Resolution::MergeBoth { merged_text } => ResolutionView::MergeBoth { merged_text: merged_text@ },
            Resolution::Manual => ResolutionView::Manual,
        }
    }
}

impl View for MergeConflict {
    type V = MergeConflictView;

    open spec fn view(&self) -> MergeConflictView {
        MergeConflictView {
            block_id: self.block_id@,
            conflict_type: self.conflict_type@,
            ghost_a: self.ghost_a@,
            ghost_b: self.ghost_b@,
            resolution: match self.resolution {
                Some(r) => Some(r@),
                None => None,
            },
        }
    }
}

pub open spec fn conflicts_view(c: Seq<MergeConflict>) -> Seq<MergeConflictView> {
    c.map_values(|x: MergeConflict| x@)
}

/// The text that shows both sides of an overlapping edit.
pub open spec fn both_sides(a: Seq<char>, b: Seq<char>) -> Seq<char> {
    "<<<<<<< Ghost A\n"@ + a + "\n=======\n"@ + b + "\n>>>>>>> Ghost B"@
}

/// How a strategy settles a conflict of the given kind.
pub open spec fn resolution_for(s: ResolutionStrategy, c: ConflictTypeView) -> ResolutionView {
    match s {
        ResolutionStrategy::LastWriterWins => ResolutionView::AcceptB,
        ResolutionStrategy::HighestPriority => ResolutionView::AcceptA,
        ResolutionStrategy::UserManual => ResolutionView::Manual,
        ResolutionStrategy::AutoMerge => match c {
            ConflictTypeView::OverlappingEdit { text_a, text_b } => ResolutionView::MergeBoth {
                merged_text: both_sides(text_a, text_b),
            },
            _ => ResolutionView::Manual,
        },
    }
}

/// The conflict with the resolution its strategy gives, where it had none.
pub open spec fn auto_resolved(s: ResolutionStrategy, c: MergeConflictView) -> MergeConflictView {
    if c.resolution is None {
        MergeConflictView { resolution: Some(resolution_for(s, c.conflict_type)), ..c }
    } else {
        c
    }
}

impl ConflictType {
    fn copied(&self) -> (res: ConflictType)
        ensures
            res@ == self@,
    {
        match self {
            ConflictType::OverlappingEdit { text_a, text_b } => ConflictType::OverlappingEdit {
                text_a: text_a.clone(),
                text_b: text_b.clone(),
            },
            ConflictType::ContradictorySuggestion { reason } => ConflictType::ContradictorySuggestion {
                reason: reason.clone(),
            },
            ConflictType::DependencyViolation { required_first, attempted_first } => ConflictType::DependencyViolation {
                required_first: required_first.clone(),
                attempted_first: attempted_first.clone(),
            },
        }
    }
}

impl ConflictResolver {
    /// A resolver with the given strategy.
    pub fn new(strategy: ResolutionStrategy) -> (res: ConflictResolver)
        ensures
            res.strategy == strategy,
    {
        ConflictResolver { strategy }
    }

    /// Settles a conflict by the resolver's strategy.
    pub fn resolve(&self, conflict: &MergeConflict) -> (res: Resolution)
        ensures
            res@ == resolution_for(self.strategy, conflict.conflict_type@),
    {
        match self.strategy {
            ResolutionStrategy::LastWriterWins => Resolution::AcceptB,
            ResolutionStrategy::HighestPriority => Resolution::AcceptA,
            ResolutionStrategy::UserManual => Resolution::Manual,
            ResolutionStrategy::AutoMerge => match &conflict.conflict_type {
                ConflictType::OverlappingEdit { text_a, text_b } => {
                    let mut v: Vec<char> = Vec::new();
                    push_str(&mut v, "<<<<<<< Ghost A\n");
                    push_str(&mut v, text_a.as_str());
                    push_str(&mut v, "\n=======\n");
                    push_str(&mut v, text_b.as_str());
                    push_str(&mut v, "\n>>>>>>> Ghost B");
                    Resolution::MergeBoth { merged_text: string_of(&v) }
                },
                _ => Resolution::Manual,
            },
        }
    }

    /// Gives every unresolved conflict the resolution of the resolver's strategy.
    pub fn auto_resolve(&self, conflicts: &mut [MergeConflict])
        ensures
            conflicts_view(final(conflicts)@) == conflicts_view(old(conflicts)@).map_values(
                |c: MergeConflictView| auto_resolved(self.strategy, c),
            ),
    {
        let ghost start = conflicts_view(conflicts@);
        let mut i: usize = 0;
        while i < conflicts.len()
            invariant
                i <= conflicts@.len(),
                start.len() == conflicts@.len(),
                forall|k: int| 0 <= k < i ==> #[trigger] conflicts_view(conflicts@)[k] == auto_resolved(self.strategy, start[k]),
                forall|k: int| i <= k < conflicts@.len() ==> #[trigger] conflicts_view(conflicts@)[k] == start[k],
            decreases conflicts@.len() - i,
        {
            if conflicts[i].resolution.is_none() {
                let r = self.resolve(&conflicts[i]);
                let c = MergeConflict {
                    block_id: conflicts[i].block_id.clone(),
                    conflict_type: conflicts[i].conflict_type.copied(),
                    ghost_a: conflicts[i].ghost_a.clone(),
                    ghost_b: conflicts[i].ghost_b.clone(),
                    resolution: Some(r),
                };
                let ghost before = conflicts@;
                assert(c@ == auto_resolved(self.strategy, start[i as int]));
                conflicts[i] = c;
                proof {
                    assert(conflicts@ == before.update(i as int, c));
                    assert forall|k: int| 0 <= k < conflicts@.len() && k != i implies #[trigger] conflicts_view(
                        conflicts@,
                    )[k] == conflicts_view(before)[k] by {}
                    assert(conflicts_view(conflicts@)[i as int] == c@);
                }
            } else {
                assert(conflicts_view(conflicts@)[i as int] == auto_resolved(self.strategy, start[i as int]));
            }
            i = i + 1;
        }
        assert(conflicts_view(conflicts@) =~= start.map_values(|c: MergeConflictView| auto_resolved(self.strategy, c)));
    }
}

impl Default for ConflictResolver {
    fn default() -> (res: ConflictResolver)
        ensures
            res.strategy == ResolutionStrategy::UserManual,
    {
        ConflictResolver::new(ResolutionStrategy::UserManual)
    }
}


// ---------------------------------------------------------------------------------------------
// Applying accepted edits
// ---------------------------------------------------------------------------------------------

/// Whether `pat` occurs in `s` at `p`.
pub open spec fn occurs_at(s: Seq<char>, pat: Seq<char>, p: int) -> bool {
    0 <= p && p + pat.len() <= s.len() && s.subrange(p, p + pat.len()) == pat
}

/// The first place at or after `p` where `pat` occurs (`str::find`).
pub open spec fn find_from(s: Seq<char>, pat: Seq<char>, p: int) -> Option<int>
    decreases s.len() + 1 - p,
{
    if p < 0 || p + pat.len() > s.len() {
        None
    } else if occurs_at(s, pat, p) {
        Some(p)
    } else {
        find_from(s, pat, p + 1)
    }
}

pub proof fn lemma_find_from_bounds(s: Seq<char>, pat: Seq<char>, p: int)
    requires
        0 <= p,
    ensures
        find_from(s, pat, p) matches Some(q) ==> p <= q && q + pat.len() <= s.len() && occurs_at(s, pat, q),
    decreases s.len() + 1 - p,
{
    if p + pat.len() <= s.len() && !occurs_at(s, pat, p) {
        lemma_find_from_bounds(s, pat, p + 1);
    }
}

pub(crate) fn find_text(s: &[char], pat: &[char]) -> (res: Option<usize>)
    ensures
        res matches Some(q) ==> find_from(s@, pat@, 0) == Some(q as int) && q + pat@.len() <= s@.len(),
        res is None ==> find_from(s@, pat@, 0) is None,
{
    let n = s.len();
    let m = pat.len();
    if m > n {
        return None;
    }
    let mut p: usize = 0;
    while p <= n - m
        invariant
            m <= n,
            n == s@.len(),
            m == pat@.len(),
            p <= n - m + 1,
            find_from(s@, pat@, 0) == find_from(s@, pat@, p as int),
        decreases n - m + 1 - p,
    {
        let mut k: usize = 0;
        while k < m && s[p + k] == pat[k]
            invariant
                k <= m,
                p + m <= n,
                n == s@.len(),
                m == pat@.len(),
                forall|t: int| 0 <= t < k ==> s@[p + t] == pat@[t],
            decreases m - k,
        {
            k = k + 1;
        }
        if k == m {
            assert(s@.subrange(p as int, p + m) =~= pat@);
            return Some(p);
        }
        assert(!occurs_at(s@, pat@, p as int)) by {
            if occurs_at(s@, pat@, p as int) {
                assert(s@.subrange(p as int, p + m)[k as int] == s@[p + k]);
            }
        }
        p = p + 1;
    }
    None
}

/// Where the paragraph around `i` starts: just after the nearest blank line before it, or at
/// the start of the text.
pub open spec fn para_start(s: Seq<char>, i: int) -> int
    decreases i,
{
    if i <= 0 {
        0
    } else if i >= 2 && s[i - 1] == '\n' && s[i - 2] == '\n' {
        i
    } else if i == 1 && s[0] == '\n' {
        1
    } else {
        para_start(s, i - 1)
    }
}

/// Where the paragraph around `i` ends: at the next blank line, or at the end of the text.
pub open spec fn para_end(s: Seq<char>, i: int) -> int
    decreases s.len() - i,
{
    if i >= s.len() {
        s.len() as int
    } else if i + 1 < s.len() && s[i] == '\n' && s[i + 1] == '\n' {
        i
    } else {
        para_end(s, i + 1)
    }
}

/// Past the line feeds that start at `j`.
pub open spec fn skip_newlines(s: Seq<char>, j: int) -> int
    decreases s.len() - j,
{
    if j >= s.len() || s[j] != '\n' {
        j
    } else {
        skip_newlines(s, j + 1)
    }
}

fn paragraph_bounds(s: &[char], pos: usize) -> (res: (usize, usize))
    requires
        pos <= s.len(),
    ensures
        res.0 == para_start(s@, pos as int),
        res.1 == para_end(s@, pos as int),
        res.0 <= pos <= res.1 <= s.len(),
{
    let mut i = pos;
    while i > 0 && !((i >= 2 && s[i - 1] == '\n' && s[i - 2] == '\n') || (i == 1 && s[0] == '\n'))
        invariant
            i <= pos <= s.len(),
            para_start(s@, pos as int) == para_start(s@, i as int),
        decreases i,
    {
        i = i - 1;
    }
    let len = s.len();
    let mut j = pos;
    while j < len && !(j + 1 < len && s[j] == '\n' && s[j + 1] == '\n')
        invariant
            pos <= j <= len,
            len == s@.len(),
            para_end(s@, pos as int) == para_end(s@, j as int),
        decreases len - j,
    {
        j = j + 1;
    }
    (i, j)
}

/// The hidden marker that carries a block id.
pub open spec fn block_marker(id: Seq<char>) -> Seq<char> {
    "<!--^"@ + id + "-->"@
}

/// The text with all of `regex::escape` applied: each regular-expression meta character
/// preceded by a backslash.
pub uninterp spec fn regex_escaped(text: Seq<char>) -> Seq<char>;

/// Whether a pattern matches somewhere in a text; `None` where the pattern does not compile.
pub uninterp spec fn regex_finds(pattern: Seq<char>, text: Seq<char>) -> Option<bool>;

/// The text with every match of the pattern replaced (`$1` and the like naming groups);
/// `None` where the pattern does not compile.
pub uninterp spec fn regex_replaced(pattern: Seq<char>, text: Seq<char>, replacement: Seq<char>) -> Option<Seq<char>>;

/// `regex::escape`: a pattern that matches the text literally.
#[verifier::external_body]
fn regex_escape(text: &str) -> (res: String)
    ensures
        res@ == regex_escaped(text@),
{
    regex::escape(text)
}

/// `regex::Regex::new` then `Regex::is_match`: a function of the pattern and the text.
#[verifier::external_body]
fn regex_is_match(pattern: &str, text: &str) -> (res: Option<bool>)
    ensures
        res == regex_finds(pattern@, text@),
{
    match regex::Regex::new(pattern) {
        Ok(re) => Some(re.is_match(text)),
        Err(_) => None,
    }
}

/// `regex::Regex::new` then `Regex::replace_all`: a function of the pattern, the text and the
/// replacement.
#[verifier::external_body]
fn regex_replace_all(pattern: &str, text: &str, replacement: &str) -> (res: Option<String>)
    ensures
        match res {
            Some(r) => regex_replaced(pattern@, text@, replacement@) == Some(r@),
            None => regex_replaced(pattern@, text@, replacement@) is None,
        },
{
    match regex::Regex::new(pattern) {
        Ok(re) => Some(re.replace_all(text, replacement).to_string()),
        Err(_) => None,
    }
}

pub open spec fn alias_link_pattern(t: Seq<char>) -> Seq<char> {
    "\\[\\["@ + regex_escaped(t) + "\\|([^\\]]+)\\]\\]"@
}

pub open spec fn wiki_link_pattern(t: Seq<char>) -> Seq<char> {
    "\\[\\["@ + regex_escaped(t) + "\\]\\]"@
}

pub open spec fn markdown_link_pattern(t: Seq<char>) -> Seq<char> {
    "\\[([^\\]]*)\\]\\("@ + regex_escaped(t) + "\\)"@
}

pub open spec fn replace_or_keep(p: Seq<char>, s: Seq<char>, rep: Seq<char>) -> Seq<char> {
    match regex_replaced(p, s, rep) {
        Some(r) => r,
        None => s,
    }
}

/// Unlinks a target: `[[target|shown]]` becomes `shown`, else `[[target]]` becomes `target`,
/// else `[shown](target)` becomes `shown`; the first form that occurs decides.
pub open spec fn delete_link(s: Seq<char>, t: Seq<char>) -> Seq<char> {
    if regex_finds(alias_link_pattern(t), s) == Some(true) {
        replace_or_keep(alias_link_pattern(t), s, "$1"@)
    } else if regex_finds(wiki_link_pattern(t), s) == Some(true) {
        replace_or_keep(wiki_link_pattern(t), s, t)
    } else if regex_finds(markdown_link_pattern(t), s) == Some(true) {
        replace_or_keep(markdown_link_pattern(t), s, "$1"@)
    } else {
        s
    }
}

/// One accepted edit applied to the text.
pub open spec fn merge_op(s: Seq<char>, op: DiffOpView) -> Seq<char> {
    match op {
        DiffOpView::ModifyBlock { block_id, old_text, new_text } => match find_from(s, old_text, 0) {
            Some(p) => s.take(p) + new_text + s.skip(p + old_text.len()),
            None => s,
        },
        DiffOpView::InsertBlock { position, block_id, text } => s + "\n\n"@ + text,
        DiffOpView::DeleteBlock { block_id } => match find_from(s, block_marker(block_id), 0) {
            Some(p) => s.take(para_start(s, p)) + s.skip(skip_newlines(s, para_end(s, p))),
            None => s,
        },
        DiffOpView::InsertLink { block_id, target } => match find_from(s, block_marker(block_id), 0) {
            Some(p) => s.take(para_end(s, p)) + "\n[["@ + target + "]]"@ + s.skip(para_end(s, p)),
            None => s,
        },
        DiffOpView::DeleteLink { block_id, target } => delete_link(s, target),
    }
}

/// Accepted edits applied in order.
pub open spec fn merge_ops(s: Seq<char>, ops: Seq<DiffOpView>) -> Seq<char>
    decreases ops.len(),
{
    if ops.len() == 0 {
        s
    } else {
        merge_op(merge_ops(s, ops.drop_last()), ops.last())
    }
}

fn replace_or_keep_exec(pattern: &str, text: &str, rep: &str) -> (res: Vec<char>)
    ensures
        res@ == replace_or_keep(pattern@, text@, rep@),
{
    match regex_replace_all(pattern, text, rep) {
        Some(r) => chars_of(r.as_str()),
        None => chars_of(text),
    }
}

fn delete_link_exec(s: &Vec<char>, target: &String) -> (res: Vec<char>)
    ensures
        res@ == delete_link(s@, target@),
{
    let text = string_of(s);
    let esc = regex_escape(target.as_str());
    let mut a: Vec<char> = Vec::new();
    push_str(&mut a, "\\[\\[");
    push_str(&mut a, esc.as_str());
    push_str(&mut a, "\\|([^\\]]+)\\]\\]");
    let alias = string_of(&a);
    let mut w: Vec<char> = Vec::new();
    push_str(&mut w, "\\[\\[");
    push_str(&mut w, esc.as_str());
    push_str(&mut w, "\\]\\]");
    let wiki = string_of(&w);
    let mut m: Vec<char> = Vec::new();
    push_str(&mut m, "\\[([^\\]]*)\\]\\(");
    push_str(&mut m, esc.as_str());
    push_str(&mut m, "\\)");
    let md = string_of(&m);
    assert(alias@ == alias_link_pattern(target@));
    assert(wiki@ == wiki_link_pattern(target@));
    assert(md@ == markdown_link_pattern(target@));
    if regex_is_match(alias.as_str(), text.as_str()) == Some(true) {
        replace_or_keep_exec(alias.as_str(), text.as_str(), "$1")
    } else if regex_is_match(wiki.as_str(), text.as_str()) == Some(true) {
        replace_or_keep_exec(wiki.as_str(), text.as_str(), target.as_str())
    } else if regex_is_match(md.as_str(), text.as_str()) == Some(true) {
        replace_or_keep_exec(md.as_str(), text.as_str(), "$1")
    } else {
        chars_of(text.as_str())
    }
}

fn marker_chars(id: &String) -> (res: Vec<char>)
    ensures
        res@ == block_marker(id@),
{
    let mut v: Vec<char> = Vec::new();
    push_str(&mut v, "<!--^");
    push_str(&mut v, id.as_str());
    push_str(&mut v, "-->");
    v
}

fn slice_from(s: &Vec<char>, lo: usize, hi: usize) -> (res: Vec<char>)
    requires
        lo <= hi <= s.len(),
    ensures
        res@ == s@.subrange(lo as int, hi as int),
{
    let mut v: Vec<char> = Vec::new();
    let mut k = lo;
    while k < hi
        invariant
            lo <= k <= hi <= s.len(),
            v@ == s@.subrange(lo as int, k as int),
        decreases hi - k,
    {
        v.push(s[k]);
        k = k + 1;
    }
    v
}

fn merge_one(s: &Vec<char>, op: &DiffOp) -> (res: Vec<char>)
    ensures
        res@ == merge_op(s@, op@),
{
    let n = s.len();
    match op {
        DiffOp::ModifyBlock { block_id, old_text, new_text } => {
            let old_cs = chars_of(old_text.as_str());
            match find_text(s.as_slice(), old_cs.as_slice()) {
                Some(p) => {
                    let mut out = slice_from(s, 0, p);
                    push_str(&mut out, new_text.as_str());
                    let rest = slice_from(s, p + old_cs.len(), n);
                    append_chars(&mut out, rest.as_slice());
                    assert(out@ =~= s@.take(p as int) + new_text@ + s@.skip(p + old_text@.len()));
                    out
                },
                None => slice_from(s, 0, n),
            }
        },
        DiffOp::InsertBlock { text, .. } => {
            let mut out = slice_from(s, 0, n);
            push_str(&mut out, "\n\n");
            push_str(&mut out, text.as_str());
            out
        },
        DiffOp::DeleteBlock { block_id } => {
            let mk = marker_chars(block_id);
            match find_text(s.as_slice(), mk.as_slice()) {
                Some(p) => {
                    let (a, b) = paragraph_bounds(s.as_slice(), p);
                    let mut k = b;
                    while k < n && s[k] == '\n'
                        invariant
                            b <= k <= n,
                            n == s@.len(),
                            skip_newlines(s@, b as int) == skip_newlines(s@, k as int),
                        decreases n - k,
                    {
                        k = k + 1;
                    }
                    let mut out = slice_from(s, 0, a);
                    let rest = slice_from(s, k, n);
                    append_chars(&mut out, rest.as_slice());
                    assert(out@ =~= s@.take(a as int) + s@.skip(k as int));
                    out
                },
                None => slice_from(s, 0, n),
            }
        },
        DiffOp::InsertLink { block_id, target } => {
            let mk = marker_chars(block_id);
            match find_text(s.as_slice(), mk.as_slice()) {
                Some(p) => {
                    let (_, e) = paragraph_bounds(s.as_slice(), p);
                    let mut out = slice_from(s, 0, e);
                    push_str(&mut out, "\n[[");
                    push_str(&mut out, target.as_str());
                    push_str(&mut out, "]]");
                    let rest = slice_from(s, e, n);
                    append_chars(&mut out, rest.as_slice());
                    assert(out@ =~= s@.take(e as int) + "\n[["@ + target@ + "]]"@ + s@.skip(e as int));
                    out
                },
                None => slice_from(s, 0, n),
            }
        },
        DiffOp::DeleteLink { target, .. } => delete_link_exec(s, target),
    }
}

/// Applies the accepted edits to a note's Markdown, in order, and gives the merged text.
pub fn apply_merge(original_md: &str, accepted_ops: &[DiffOp]) -> (res: Result<String, MergeError>)
    ensures
        res matches Ok(m) && m@ == merge_ops(original_md@, accepted_ops@.map_values(|o: DiffOp| o@)),
{
    let ghost ops = accepted_ops@.map_values(|o: DiffOp| o@);
    let mut cur = chars_of(original_md);
    let mut i: usize = 0;
    while i < accepted_ops.len()
        invariant
            i <= accepted_ops.len(),
            ops == accepted_ops@.map_values(|o: DiffOp| o@),
            cur@ == merge_ops(original_md@, ops.take(i as int)),
        decreases accepted_ops.len() - i,
    {
        assert(ops.take(i + 1).drop_last() == ops.take(i as int));
        cur = merge_one(&cur, &accepted_ops[i]);
        i = i + 1;
    }
    assert(ops.take(accepted_ops.len() as int) == ops);
    Ok(string_of(&cur))
}


// ---------------------------------------------------------------------------------------------
// Conflicts between ghost notes
// ---------------------------------------------------------------------------------------------

/// The first block from `i` on that carries the id.
pub open spec fn find_block(blocks: Seq<GhostBlock>, id: Seq<char>, i: int) -> Option<int>
    decreases blocks.len() - i,
{
    if i < 0 || i >= blocks.len() {
        None
    } else if blocks[i].block_id@ == id {
        Some(i)
    } else {
        find_block(blocks, id, i + 1)
    }
}

pub proof fn lemma_find_block_bounds(blocks: Seq<GhostBlock>, id: Seq<char>, i: int)
    requires
        0 <= i,
    ensures
        find_block(blocks, id, i) matches Some(x) ==> i <= x < blocks.len() && blocks[x].block_id@ == id,
    decreases blocks.len() - i,
{
    if i < blocks.len() && blocks[i].block_id@ != id {
        lemma_find_block_bounds(blocks, id, i + 1);
    }
}

/// The conflict that block `k` of `b` has with `a`: both edit the block with different
/// content (`a`'s first block of that id is the one compared).
pub open spec fn overlap_at(a: GhostNote, b: GhostNote, k: int) -> Seq<MergeConflictView> {
    let bb = b.suggested_blocks@[k];
    match find_block(a.suggested_blocks@, bb.block_id@, 0) {
        Some(x) => if a.suggested_blocks@[x].content@ != bb.content@ {
            seq![
                MergeConflictView {
                    block_id: bb.block_id@,
                    conflict_type: ConflictTypeView::OverlappingEdit {
                        text_a: a.suggested_blocks@[x].content@,
                        text_b: bb.content@,
                    },
                    ghost_a: a.id@,
                    ghost_b: b.id@,
                    resolution: None,
                },
            ]
        } else {
            Seq::empty()
        },
        None => Seq::empty(),
    }
}

/// Overlapping edits of the first `k` blocks of `b` with `a`.
pub open spec fn overlaps(a: GhostNote, b: GhostNote, k: int) -> Seq<MergeConflictView>
    decreases k,
{
    if k <= 0 {
        Seq::empty()
    } else {
        overlaps(a, b, k - 1) + overlap_at(a, b, k - 1)
    }
}

/// `a` suggests deleting the block.
pub open spec fn deletes_block(a: GhostNote, id: Seq<char>) -> bool {
    exists|x: int|
        0 <= x < a.suggested_blocks@.len() && #[trigger] a.suggested_blocks@[x].block_id@ == id
            && a.suggested_blocks@[x].operation == GhostOp::Delete
}

/// The conflict that block `k` of `b` has with `a`: `a` deletes a block that `b` edits.
pub open spec fn contradiction_at(a: GhostNote, b: GhostNote, k: int) -> Seq<MergeConflictView> {
    let bb = b.suggested_blocks@[k];
    if deletes_block(a, bb.block_id@) && bb.operation != GhostOp::Delete {
        seq![
            MergeConflictView {
                block_id: bb.block_id@,
                conflict_type: ConflictTypeView::ContradictorySuggestion {
                    reason: "Ghost "@ + a.id@ + " deletes block that Ghost "@ + b.id@ + " modifies"@,
                },
                ghost_a: a.id@,
                ghost_b: b.id@,
                resolution: None,
            },
        ]
    } else {
        Seq::empty()
    }
}

/// Contradictions of the first `k` blocks of `b` with `a`.
pub open spec fn contradictions(a: GhostNote, b: GhostNote, k: int) -> Seq<MergeConflictView>
    decreases k,
{
    if k <= 0 {
        Seq::empty()
    } else {
        contradictions(a, b, k - 1) + contradiction_at(a, b, k - 1)
    }
}

/// The conflicts of a pair: overlapping edits, then contradictions.
pub open spec fn pair_conflicts(a: GhostNote, b: GhostNote) -> Seq<MergeConflictView> {
    overlaps(a, b, b.suggested_blocks@.len() as int) + contradictions(a, b, b.suggested_blocks@.len() as int)
}

/// The conflicts of ghost `i` with ghosts `j` and after.
pub open spec fn conflict_row(g: Seq<GhostNote>, i: int, j: int) -> Seq<MergeConflictView>
    decreases g.len() - j,
{
    if j < 0 || j >= g.len() {
        Seq::empty()
    } else {
        pair_conflicts(g[i], g[j]) + conflict_row(g, i, j + 1)
    }
}

/// The conflicts of every pair from ghost `i` on, pairs taken in order.
pub open spec fn all_conflicts(g: Seq<GhostNote>, i: int) -> Seq<MergeConflictView>
    decreases g.len() - i,
{
    if i < 0 || i >= g.len() {
        Seq::empty()
    } else {
        conflict_row(g, i, i + 1) + all_conflicts(g, i + 1)
    }
}

fn first_block(blocks: &Vec<GhostBlock>, id: &String) -> (res: Option<usize>)
    ensures
        match res {
            Some(x) => find_block(blocks@, id@, 0) == Some(x as int) && x < blocks@.len(),
            None => find_block(blocks@, id@, 0) is None,
        },
{
    let mut i: usize = 0;
    while i < blocks.len()
        invariant
            i <= blocks.len(),
            find_block(blocks@, id@, 0) == find_block(blocks@, id@, i as int),
        decreases blocks.len() - i,
    {
        if blocks[i].block_id == *id {
            return Some(i);
        }
        i = i + 1;
    }
    None
}

fn has_delete_of(a: &GhostNote, id: &String) -> (res: bool)
    ensures
        res == deletes_block(*a, id@),
{
    let mut i: usize = 0;
    while i < a.suggested_blocks.len()
        invariant
            i <= a.suggested_blocks.len(),
            forall|x: int|
                0 <= x < i ==> !(#[trigger] a.suggested_blocks@[x].block_id@ == id@
                    && a.suggested_blocks@[x].operation == GhostOp::Delete),
        decreases a.suggested_blocks.len() - i,
    {
        let is_delete = match a.suggested_blocks[i].operation {
            GhostOp::Delete => true,
            _ => false,
        };
        if a.suggested_blocks[i].block_id == *id && is_delete {
            return true;
        }
        i = i + 1;
    }
    false
}

impl ConflictResolver {
    fn find_overlapping_edits(&self, ghost_a: &GhostNote, ghost_b: &GhostNote) -> (res: Vec<MergeConflict>)
        ensures
            conflicts_view(res@) == overlaps(*ghost_a, *ghost_b, ghost_b.suggested_blocks@.len() as int),
    {
        let mut out: Vec<MergeConflict> = Vec::new();
        let mut k: usize = 0;
        while k < ghost_b.suggested_blocks.len()
            invariant
                k <= ghost_b.suggested_blocks.len(),
                conflicts_view(out@) == overlaps(*ghost_a, *ghost_b, k as int),
            decreases ghost_b.suggested_blocks.len() - k,
        {
            let bb = &ghost_b.suggested_blocks[k];
            let ghost before = conflicts_view(out@);
            match first_block(&ghost_a.suggested_blocks, &bb.block_id) {
                Some(x) => {
                    let ba = &ghost_a.suggested_blocks[x];
                    if !(ba.content == bb.content) {
                        out.push(
                            MergeConflict {
                                block_id: bb.block_id.clone(),
                                conflict_type: ConflictType::OverlappingEdit {
                                    text_a: ba.content.clone(),
                                    text_b: bb.content.clone(),
                                },
                                ghost_a: ghost_a.id.clone(),
                                ghost_b: ghost_b.id.clone(),
                                resolution: None,
                            },
                        );
                    }
                },
                None => {},
            }
            assert(conflicts_view(out@) =~= before + overlap_at(*ghost_a, *ghost_b, k as int));
            k = k + 1;
        }
        out
    }

    fn find_contradictions(&self, ghost_a: &GhostNote, ghost_b: &GhostNote) -> (res: Vec<MergeConflict>)
        ensures
            conflicts_view(res@) == contradictions(*ghost_a, *ghost_b, ghost_b.suggested_blocks@.len() as int),
    {
        let mut out: Vec<MergeConflict> = Vec::new();
        let mut k: usize = 0;
        while k < ghost_b.suggested_blocks.len()
            invariant
                k <= ghost_b.suggested_blocks.len(),
                conflicts_view(out@) == contradictions(*ghost_a, *ghost_b, k as int),
            decreases ghost_b.suggested_blocks.len() - k,
        {
            let bb = &ghost_b.suggested_blocks[k];
            let ghost before = conflicts_view(out@);
            let b_deletes = match bb.operation {
                GhostOp::Delete => true,
                _ => false,
            };
            if has_delete_of(ghost_a, &bb.block_id) && !b_deletes {
                let mut r: Vec<char> = Vec::new();
                push_str(&mut r, "Ghost ");
                push_str(&mut r, ghost_a.id.as_str());
                push_str(&mut r, " deletes block that Ghost ");
                push_str(&mut r, ghost_b.id.as_str());
                push_str(&mut r, " modifies");
                out.push(
                    MergeConflict {
                        block_id: bb.block_id.clone(),
                        conflict_type: ConflictType::ContradictorySuggestion { reason: string_of(&r) },
                        ghost_a: ghost_a.id.clone(),
                        ghost_b: ghost_b.id.clone(),
                        resolution: None,
                    },
                );
            }
            assert(conflicts_view(out@) =~= before + contradiction_at(*ghost_a, *ghost_b, k as int));
            k = k + 1;
        }
        out
    }

    /// Lists the conflicts between every pair of ghost notes, pairs in order: for each pair,
    /// blocks both edit differently, then blocks the first deletes and the second edits.
    pub fn detect_conflicts(&self, ghosts: &[GhostNote]) -> (res: Vec<MergeConflict>)
        ensures
            conflicts_view(res@) == all_conflicts(ghosts@, 0),
    {
        let n = ghosts.len();
        let mut out: Vec<MergeConflict> = Vec::new();
        let mut i: usize = 0;
        while i < n
            invariant
                i <= n,
                n == ghosts@.len(),
                conflicts_view(out@) + all_conflicts(ghosts@, i as int) == all_conflicts(ghosts@, 0),
            decreases n - i,
        {
            let mut j: usize = i + 1;
            while j < n
                invariant
                    i < n,
                    i + 1 <= j <= n,
                    n == ghosts@.len(),
                    conflicts_view(out@) + conflict_row(ghosts@, i as int, j as int) + all_conflicts(ghosts@, i + 1)
                        == all_conflicts(ghosts@, 0),
                decreases n - j,
            {
                let ghost before = conflicts_view(out@);
                let mut over = self.find_overlapping_edits(&ghosts[i], &ghosts[j]);
                let mut contra = self.find_contradictions(&ghosts[i], &ghosts[j]);
                out.append(&mut over);
                out.append(&mut contra);
                assert(conflicts_view(out@) =~= before + pair_conflicts(ghosts@[i as int], ghosts@[j as int]));
                assert(conflicts_view(out@) + conflict_row(ghosts@, i as int, j + 1) + all_conflicts(ghosts@, i + 1)
                    =~= before + conflict_row(ghosts@, i as int, j as int) + all_conflicts(ghosts@, i + 1));
                j = j + 1;
            }
            assert(conflict_row(ghosts@, i as int, n as int) =~= Seq::<MergeConflictView>::empty());
            assert(conflicts_view(out@) + all_conflicts(ghosts@, i + 1) =~= all_conflicts(ghosts@, 0));
            i = i + 1;
        }
        assert(all_conflicts(ghosts@, n as int) =~= Seq::<MergeConflictView>::empty());
        assert(conflicts_view(out@) =~= all_conflicts(ghosts@, 0));
        out
    }
}


/// Two ghost notes that suggest disjoint sets of blocks do not conflict.
pub proof fn lemma_disjoint_ghosts_do_not_conflict(a: GhostNote, b: GhostNote, k: int)
    requires
        0 <= k <= b.suggested_blocks@.len(),
        forall|x: int, y: int|
            0 <= x < a.suggested_blocks@.len() && 0 <= y < b.suggested_blocks@.len() ==> #[trigger] a.suggested_blocks@[x].block_id@
                != #[trigger] b.suggested_blocks@[y].block_id@,
    ensures
        overlaps(a, b, k) == Seq::<MergeConflictView>::empty(),
        contradictions(a, b, k) == Seq::<MergeConflictView>::empty(),
    decreases k,
{
    if k > 0 {
        lemma_disjoint_ghosts_do_not_conflict(a, b, k - 1);
        let id = b.suggested_blocks@[k - 1].block_id@;
        lemma_find_block_bounds(a.suggested_blocks@, id, 0);
        if let Some(x) = find_block(a.suggested_blocks@, id, 0) {
            assert(a.suggested_blocks@[x].block_id@ != b.suggested_blocks@[k - 1].block_id@);
        }
        if deletes_block(a, id) {
            let x = choose|x: int|
                0 <= x < a.suggested_blocks@.len() && #[trigger] a.suggested_blocks@[x].block_id@ == id
                    && a.suggested_blocks@[x].operation == GhostOp::Delete;
            assert(a.suggested_blocks@[x].block_id@ != b.suggested_blocks@[k - 1].block_id@);
        }
        assert(overlaps(a, b, k) =~= Seq::<MergeConflictView>::empty());
        assert(contradictions(a, b, k) =~= Seq::<MergeConflictView>::empty());
    }
}

/// After automatic resolution every conflict carries a resolution, and those that had one
/// keep it.
pub proof fn lemma_auto_resolve_settles(s: ResolutionStrategy, c: MergeConflictView)
    ensures
        auto_resolved(s, c).resolution is Some,
        c.resolution is Some ==> auto_resolved(s, c) == c,
        auto_resolved(s, c).block_id == c.block_id,
        auto_resolved(s, c).ghost_a == c.ghost_a,
        auto_resolved(s, c).ghost_b == c.ghost_b,
{
}

proof fn lemma_find_block_first(blocks: Seq<GhostBlock>, id: Seq<char>, x: int, i: int)
    requires
        0 <= i <= x < blocks.len(),
        blocks[x].block_id@ == id,
        forall|y: int| 0 <= y < x ==> (#[trigger] blocks[y]).block_id@ != id,
    ensures
        find_block(blocks, id, i) == Some(x),
    decreases x - i,
{
    if i < x {
        lemma_find_block_first(blocks, id, x, i + 1);
    }
}

proof fn lemma_overlaps_hold(a: GhostNote, b: GhostNote, k: int, y: int)
    requires
        0 <= y < k <= b.suggested_blocks@.len(),
    ensures
        forall|c: MergeConflictView| #[trigger] overlap_at(a, b, y).contains(c) ==> overlaps(a, b, k).contains(c),
    decreases k,
{
    let prev = overlaps(a, b, k - 1);
    let here = overlap_at(a, b, k - 1);
    assert(overlaps(a, b, k) == prev + here);
    if y < k - 1 {
        lemma_overlaps_hold(a, b, k - 1, y);
        assert forall|c: MergeConflictView| #[trigger] overlap_at(a, b, y).contains(c) implies overlaps(a, b, k).contains(c) by {
            let p = choose|p: int| 0 <= p < prev.len() && prev[p] == c;
            assert((prev + here)[p] == c);
        }
    } else {
        assert forall|c: MergeConflictView| #[trigger] overlap_at(a, b, y).contains(c) implies overlaps(a, b, k).contains(c) by {
            let p = choose|p: int| 0 <= p < here.len() && here[p] == c;
            assert((prev + here)[prev.len() + p] == c);
        }
    }
}

proof fn lemma_row_holds(g: Seq<GhostNote>, i: int, j0: int, j: int)
    requires
        0 <= j0 <= j < g.len(),
    ensures
        forall|c: MergeConflictView| #[trigger] pair_conflicts(g[i], g[j]).contains(c) ==> conflict_row(g, i, j0).contains(c),
    decreases j - j0,
{
    let here = pair_conflicts(g[i], g[j0]);
    let rest = conflict_row(g, i, j0 + 1);
    assert(conflict_row(g, i, j0) == here + rest);
    if j0 < j {
        lemma_row_holds(g, i, j0 + 1, j);
        assert forall|c: MergeConflictView| #[trigger] pair_conflicts(g[i], g[j]).contains(c) implies conflict_row(g, i, j0).contains(c) by {
            let p = choose|p: int| 0 <= p < rest.len() && rest[p] == c;
            assert((here + rest)[here.len() + p] == c);
        }
    } else {
        assert forall|c: MergeConflictView| #[trigger] pair_conflicts(g[i], g[j]).contains(c) implies conflict_row(g, i, j0).contains(c) by {
            let p = choose|p: int| 0 <= p < here.len() && here[p] == c;
            assert((here + rest)[p] == c);
        }
    }
}

proof fn lemma_all_holds(g: Seq<GhostNote>, i0: int, i: int)
    requires
        0 <= i0 <= i < g.len(),
    ensures
        forall|c: MergeConflictView| #[trigger] conflict_row(g, i, i + 1).contains(c) ==> all_conflicts(g, i0).contains(c),
    decreases i - i0,
{
    let here = conflict_row(g, i0, i0 + 1);
    let rest = all_conflicts(g, i0 + 1);
    assert(all_conflicts(g, i0) == here + rest);
    if i0 < i {
        lemma_all_holds(g, i0 + 1, i);
        assert forall|c: MergeConflictView| #[trigger] conflict_row(g, i, i + 1).contains(c) implies all_conflicts(g, i0).contains(c) by {
            let p = choose|p: int| 0 <= p < rest.len() && rest[p] == c;
            assert((here + rest)[here.len() + p] == c);
        }
    } else {
        assert forall|c: MergeConflictView| #[trigger] conflict_row(g, i, i + 1).contains(c) implies all_conflicts(g, i0).contains(c) by {
            let p = choose|p: int| 0 <= p < here.len() && here[p] == c;
            assert((here + rest)[p] == c);
        }
    }
}

/// Every pair of ghost notes is compared, not only neighbouring ones: where ghost `i` comes
/// before ghost `j` and a block of `j` has the id of a block of `i` (the first of that id in
/// `i`) with different content, the conflicts hold an overlapping edit of that block between
/// the two, `i` as the first ghost and `j` as the second, with both texts.
pub proof fn lemma_every_pair_is_compared(g: Seq<GhostNote>, i: int, j: int, x: int, y: int)
    requires
        0 <= i < j < g.len(),
        0 <= x < g[i].suggested_blocks@.len(),
        0 <= y < g[j].suggested_blocks@.len(),
        g[i].suggested_blocks@[x].block_id@ == g[j].suggested_blocks@[y].block_id@,
        forall|z: int| 0 <= z < x ==> (#[trigger] g[i].suggested_blocks@[z]).block_id@ != g[i].suggested_blocks@[x].block_id@,
        g[i].suggested_blocks@[x].content@ != g[j].suggested_blocks@[y].content@,
    ensures
        all_conflicts(g, 0).contains(
            MergeConflictView {
                block_id: g[j].suggested_blocks@[y].block_id@,
                conflict_type: ConflictTypeView::OverlappingEdit {
                    text_a: g[i].suggested_blocks@[x].content@,
                    text_b: g[j].suggested_blocks@[y].content@,
                },
                ghost_a: g[i].id@,
                ghost_b: g[j].id@,
                resolution: None,
            },
        ),
{
    let a = g[i];
    let b = g[j];
    let c = MergeConflictView {
        block_id: b.suggested_blocks@[y].block_id@,
        conflict_type: ConflictTypeView::OverlappingEdit {
            text_a: a.suggested_blocks@[x].content@,
            text_b: b.suggested_blocks@[y].content@,
        },
        ghost_a: a.id@,
        ghost_b: b.id@,
        resolution: None,
    };
    lemma_find_block_first(a.suggested_blocks@, b.suggested_blocks@[y].block_id@, x, 0);
    assert(overlap_at(a, b, y) == seq![c]);
    assert(overlap_at(a, b, y)[0] == c);
    assert(overlap_at(a, b, y).contains(c));
    lemma_overlaps_hold(a, b, b.suggested_blocks@.len() as int, y);
    assert(overlaps(a, b, b.suggested_blocks@.len() as int).contains(c));
    let ov = overlaps(a, b, b.suggested_blocks@.len() as int);
    let ct = contradictions(a, b, b.suggested_blocks@.len() as int);
    let q = choose|q: int| 0 <= q < ov.len() && ov[q] == c;
    assert(pair_conflicts(a, b) == ov + ct);
    assert((ov + ct)[q] == c);
    assert(pair_conflicts(g[i], g[j]).contains(c));
    lemma_row_holds(g, i, i + 1, j);
    assert(conflict_row(g, i, i + 1).contains(c));
    lemma_all_holds(g, 0, i);
}

proof fn lemma_contradictions_hold(a: GhostNote, b: GhostNote, k: int, y: int)
    requires
        0 <= y < k <= b.suggested_blocks@.len(),
    ensures
        forall|c: MergeConflictView| #[trigger] contradiction_at(a, b, y).contains(c) ==> contradictions(a, b, k).contains(c),
    decreases k,
{
    let prev = contradictions(a, b, k - 1);
    let here = contradiction_at(a, b, k - 1);
    assert(contradictions(a, b, k) == prev + here);
    if y < k - 1 {
        lemma_contradictions_hold(a, b, k - 1, y);
        assert forall|c: MergeConflictView| #[trigger] contradiction_at(a, b, y).contains(c) implies contradictions(a, b, k).contains(c) by {
            let p = choose|p: int| 0 <= p < prev.len() && prev[p] == c;
            assert((prev + here)[p] == c);
        }
    } else {
        assert forall|c: MergeConflictView| #[trigger] contradiction_at(a, b, y).contains(c) implies contradictions(a, b, k).contains(c) by {
            let p = choose|p: int| 0 <= p < here.len() && here[p] == c;
            assert((prev + here)[prev.len() + p] == c);
        }
    }
}

/// Every pair of ghost notes is checked for contradictions, not only neighbouring ones: where
/// ghost `i` comes before ghost `j`, `i` suggests deleting a block and `j` suggests keeping it
/// with an edit, the conflicts hold a contradictory suggestion on that block between the two.
pub proof fn lemma_every_pair_is_checked_for_deletions(g: Seq<GhostNote>, i: int, j: int, x: int, y: int)
    requires
        0 <= i < j < g.len(),
        0 <= x < g[i].suggested_blocks@.len(),
        0 <= y < g[j].suggested_blocks@.len(),
        g[i].suggested_blocks@[x].block_id@ == g[j].suggested_blocks@[y].block_id@,
        g[i].suggested_blocks@[x].operation == GhostOp::Delete,
        g[j].suggested_blocks@[y].operation != GhostOp::Delete,
    ensures
        all_conflicts(g, 0).contains(
            MergeConflictView {
                block_id: g[j].suggested_blocks@[y].block_id@,
                conflict_type: ConflictTypeView::ContradictorySuggestion {
                    reason: "Ghost "@ + g[i].id@ + " deletes block that Ghost "@ + g[j].id@ + " modifies"@,
                },
                ghost_a: g[i].id@,
                ghost_b: g[j].id@,
                resolution: None,
            },
        ),
{
    let a = g[i];
    let b = g[j];
    let c = MergeConflictView {
        block_id: b.suggested_blocks@[y].block_id@,
        conflict_type: ConflictTypeView::ContradictorySuggestion {
            reason: "Ghost "@ + a.id@ + " deletes block that Ghost "@ + b.id@ + " modifies"@,
        },
        ghost_a: a.id@,
        ghost_b: b.id@,
        resolution: None,
    };
    assert(deletes_block(a, b.suggested_blocks@[y].block_id@));
    assert(contradiction_at(a, b, y) == seq![c]);
    assert(contradiction_at(a, b, y)[0] == c);
    assert(contradiction_at(a, b, y).contains(c));
    lemma_contradictions_hold(a, b, b.suggested_blocks@.len() as int, y);
    let ov = overlaps(a, b, b.suggested_blocks@.len() as int);
    let ct = contradictions(a, b, b.suggested_blocks@.len() as int);
    assert(ct.contains(c));
    let q = choose|q: int| 0 <= q < ct.len() && ct[q] == c;
    assert(pair_conflicts(a, b) == ov + ct);
    assert((ov + ct)[ov.len() + q] == c);
    assert(pair_conflicts(g[i], g[j]).contains(c));
    lemma_row_holds(g, i, i + 1, j);
    assert(conflict_row(g, i, i + 1).contains(c));
    lemma_all_holds(g, 0, i);
}

} // verus!
