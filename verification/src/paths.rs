//! Which paths inside a vault belong to the human surface: relative, forward-slashed, and
//! outside the hidden (`.`) and private (`_`) namespaces that the AI side keeps for itself.

use vstd::prelude::*;
use crate::text::{
    chars_of, concat3, contains_char, owned, ends_with, has_suffix, pieces_view, split_from, split_on,
};

verus! {

/// Why a path is refused for the human surface.
#[derive(Debug, Clone, Copy, PartialEq, Eq, Structural)]
pub enum PathFault {
    Empty,
    Backslash,
    NotRelative,
    Escapes,
    InternalNamespace,
}

pub open spec fn is_ascii_alpha(c: char) -> bool {
    ('a' <= c && c <= 'z') || ('A' <= c && c <= 'Z')
}

/// A segment in the hidden or private namespace.
pub open spec fn starts_internal(g: Seq<char>) -> bool {
    g.len() > 0 && (g[0] == '.' || g[0] == '_')
}

pub open spec fn parent_segment() -> Seq<char> {
    seq!['.', '.']
}

/// The first fault among the non-empty segments: a `..` escapes the vault, a segment in the
/// hidden or private namespace is internal.
pub open spec fn segment_fault(segs: Seq<Seq<char>>) -> Option<PathFault>
    decreases segs.len(),
{
    if segs.len() == 0 {
        None
    } else {
        match segment_fault(segs.drop_last()) {
            Some(f) => Some(f),
            None => {
                let g = segs.last();
                if g.len() == 0 {
                    None
                } else if g == parent_segment() {
                    Some(PathFault::Escapes)
                } else if starts_internal(g) {
                    Some(PathFault::InternalNamespace)
                } else {
                    None
                }
            },
        }
    }
}

/// Why a path cannot name a human note, if it cannot. Absolute paths are those with a
/// leading `/` or a drive prefix such as `C:`.
pub open spec fn human_path_fault(p: Seq<char>) -> Option<PathFault> {
    if p.len() == 0 {
        Some(PathFault::Empty)
    } else if p.contains('\\') {
        Some(PathFault::Backslash)
    } else if p[0] == '/' || (p.len() >= 2 && is_ascii_alpha(p[0]) && p[1] == ':') {
        Some(PathFault::NotRelative)
    } else {
        segment_fault(split_from(p, 0, '/'))
    }
}

/// The message that reports a fault of the path.
pub open spec fn fault_message(f: PathFault, p: Seq<char>) -> Seq<char> {
    match f {
        PathFault::Empty => "Human note path cannot be empty"@,
        PathFault::Backslash => "Human note path must use forward slash separators: "@ + p + ""@,
        PathFault::NotRelative => "Human note path must be relative: "@ + p + ""@,
        PathFault::Escapes => "Human note path cannot escape the vault: "@ + p + ""@,
        PathFault::InternalNamespace => "Human note path cannot use an internal namespace: "@ + p + ""@,
    }
}

pub open spec fn unit_text_result(r: Result<(), String>) -> Result<(), Seq<char>> {
    match r {
        Ok(()) => Ok(()),
        Err(e) => Err(e@),
    }
}

/// Checks that a path can name a note on the human surface of the vault.
pub fn validate_human_surface_path(path: &str) -> (res: Result<(), String>)
    ensures
        unit_text_result(res) == match human_path_fault(path@) {
            None => Ok(()),
            Some(f) => Err::<(), Seq<char>>(fault_message(f, path@)),
        },
{
    let p = chars_of(path);
    if p.len() == 0 {
        return Err(owned("Human note path cannot be empty"));
    }
    if contains_char(&p, '\\') {
        return Err(concat3("Human note path must use forward slash separators: ", path, ""));
    }
    let alpha0 = ('a' <= p[0] && p[0] <= 'z') || ('A' <= p[0] && p[0] <= 'Z');
    if p[0] == '/' || (p.len() >= 2 && alpha0 && p[1] == ':') {
        return Err(concat3("Human note path must be relative: ", path, ""));
    }
    let segs = split_on(&p, '/');
    let ghost sv = pieces_view(segs@);
    assert(human_path_fault(path@) == segment_fault(sv));
    let mut k: usize = 0;
    while k < segs.len()
        invariant
            k <= segs.len(),
            sv == pieces_view(segs@),
            sv == split_from(p@, 0, '/'),
            p@ == path@,
            human_path_fault(path@) == segment_fault(sv),
            segment_fault(sv.take(k as int)) is None,
        decreases segs.len() - k,
    {
        assert(sv.take(k + 1).drop_last() == sv.take(k as int));
        let g = &segs[k];
        assert(g@ == sv[k as int]);
        if g.len() > 0 {
            if g.len() == 2 && g[0] == '.' && g[1] == '.' {
                assert(g@ =~= parent_segment());
                proof {
                    lemma_fault_stops(sv, k as int + 1);
                }
                return Err(concat3("Human note path cannot escape the vault: ", path, ""));
            }
            assert(g@ != parent_segment()) by {
                if g@ == parent_segment() {
                    assert(g@[0] == '.' && g@[1] == '.');
                }
            }
            if g[0] == '.' || g[0] == '_' {
                proof {
                    lemma_fault_stops(sv, k as int + 1);
                }
                return Err(concat3("Human note path cannot use an internal namespace: ", path, ""));
            }
        }
        k = k + 1;
    }
    assert(sv.take(segs.len() as int) == sv);
    Ok(())
}

/// Once a segment is at fault, segments after it do not change the answer.
proof fn lemma_fault_stops(segs: Seq<Seq<char>>, k: int)
    requires
        0 < k <= segs.len(),
        segment_fault(segs.take(k)) is Some,
    ensures
        segment_fault(segs) == segment_fault(segs.take(k)),
    decreases segs.len() - k,
{
    if k < segs.len() {
        assert(segs.take(k + 1).drop_last() == segs.take(k));
        lemma_fault_stops(segs, k + 1);
    } else {
        assert(segs.take(k) == segs);
    }
}

/// A segment that names something: not empty and not `.`.
pub open spec fn normal_segment(g: Seq<char>) -> bool {
    g.len() > 0 && g != seq!['.']
}

pub open spec fn md_suffix() -> Seq<char> {
    seq!['.', 'm', 'd']
}

/// Scans the segments in order: `None` once a named segment is hidden, private or `..`;
/// otherwise whether the last named segment so far ends in `.md`.
pub open spec fn markdown_scan(segs: Seq<Seq<char>>) -> Option<bool>
    decreases segs.len(),
{
    if segs.len() == 0 {
        Some(false)
    } else {
        match markdown_scan(segs.drop_last()) {
            None => None,
            Some(b) => {
                let g = segs.last();
                if !normal_segment(g) {
                    Some(b)
                } else if starts_internal(g) {
                    None
                } else {
                    Some(has_suffix(g, md_suffix()))
                }
            },
        }
    }
}

/// A relative Markdown path outside the internal namespaces.
pub open spec fn content_markdown(p: Seq<char>) -> bool {
    !(p.len() > 0 && p[0] == '/') && markdown_scan(split_from(p, 0, '/')) == Some(true)
}

/// Whether a path names a Markdown note of the content (not internal, hidden or outside).
pub fn is_content_markdown_path(path: &str) -> (res: bool)
    ensures
        res == content_markdown(path@),
{
    let p = chars_of(path);
    if p.len() > 0 && p[0] == '/' {
        return false;
    }
    let segs = split_on(&p, '/');
    let ghost sv = pieces_view(segs@);
    let md: [char; 3] = ['.', 'm', 'd'];
    assert(md@ == md_suffix());
    let mut last_md = false;
    let mut k: usize = 0;
    while k < segs.len()
        invariant
            k <= segs.len(),
            sv == pieces_view(segs@),
            sv == split_from(p@, 0, '/'),
            p@ == path@,
            md@ == md_suffix(),
            markdown_scan(sv.take(k as int)) == Some(last_md),
        decreases segs.len() - k,
    {
        assert(sv.take(k + 1).drop_last() == sv.take(k as int));
        let g = &segs[k];
        assert(g@ == sv[k as int]);
        let is_dot = g.len() == 1 && g[0] == '.';
        assert(is_dot == (g@ == seq!['.'])) by {
            if g@ == seq!['.'] {
                assert(g@[0] == '.');
            }
            if is_dot {
                assert(g@ =~= seq!['.']);
            }
        }
        if g.len() > 0 && !is_dot {
            if g[0] == '.' || g[0] == '_' {
                proof {
                    lemma_scan_stops(sv, k as int + 1);
                }
                return false;
            }
            last_md = ends_with(g.as_slice(), &md);
        }
        k = k + 1;
    }
    assert(sv.take(segs.len() as int) == sv);
    last_md
}

/// Once the scan has rejected, later segments do not change the answer.
proof fn lemma_scan_stops(segs: Seq<Seq<char>>, k: int)
    requires
        0 < k <= segs.len(),
        markdown_scan(segs.take(k)) is None,
    ensures
        markdown_scan(segs) is None,
    decreases segs.len() - k,
{
    if k < segs.len() {
        assert(segs.take(k + 1).drop_last() == segs.take(k));
        lemma_scan_stops(segs, k + 1);
    } else {
        assert(segs.take(k) == segs);
    }
}

/// Whether any of the path's components lies in the hidden or private namespace.
pub fn has_internal_segment(segments: &Vec<String>) -> (res: bool)
    ensures
        res == exists|k: int| 0 <= k < segments@.len() && starts_internal(#[trigger] segments@[k]@),
{
    let mut k: usize = 0;
    while k < segments.len()
        invariant
            k <= segments.len(),
            forall|j: int| 0 <= j < k ==> !starts_internal(#[trigger] segments@[j]@),
        decreases segments.len() - k,
    {
        let g = chars_of(segments[k].as_str());
        if g.len() > 0 && (g[0] == '.' || g[0] == '_') {
            return true;
        }
        k = k + 1;
    }
    false
}

} // verus!
