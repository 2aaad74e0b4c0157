//! Backlinks with the paragraph each link stands in.

use vstd::prelude::*;
use vstd::utf8::{encode_scalar, encode_utf8, has_width_1_encoding, has_width_2_encoding, has_width_3_encoding};
use crate::link_graph::{file_stem, file_stem_of, members, titles_view, LinkGraph};
use crate::merge::{find_from, find_text, lemma_find_from_bounds, para_end};
use crate::text::{chars_of, owned, push_str, string_of, strings_view, str_eq, trim, trim_chars};

verus! {

/// A backlink with the text around the link.
#[derive(Debug, Clone)]
pub struct BacklinkContext {
    pub from: String,
    pub from_title: String,
    pub text: String,
    pub position: usize,
}

pub struct BacklinkContextView {
    pub from: Seq<char>,
    pub from_title: Seq<char>,
    pub text: Seq<char>,
    pub position: nat,
}

impl View for BacklinkContext {
    type V = BacklinkContextView;

    open spec fn view(&self) -> BacklinkContextView {
        BacklinkContextView {
            from: self.from@,
            from_title: self.from_title@,
            text: self.text@,
            position: self.position as nat,
        }
    }
}

/// The forms a link to a note takes, by its id and by its file stem: plain, with an alias,
/// or to a heading.
pub open spec fn link_patterns(id: Seq<char>, stem: Seq<char>) -> Seq<Seq<char>> {
    seq![
        "[["@ + id + "]]"@,
        "[["@ + id + "|"@,
        "[["@ + id + "#"@,
        "[["@ + stem + "]]"@,
        "[["@ + stem + "|"@,
        "[["@ + stem + "#"@,
    ]
}

/// Where the first pattern of `pats` that occurs in `s` first occurs.
pub open spec fn first_hit(s: Seq<char>, pats: Seq<Seq<char>>) -> Option<int>
    decreases pats.len(),
{
    if pats.len() == 0 {
        None
    } else {
        match find_from(s, pats[0], 0) {
            Some(p) => Some(p),
            None => first_hit(s, pats.drop_first()),
        }
    }
}

/// Just after the last blank line (two line feeds) that ends at or before `i`, or 0.
pub open spec fn after_blank_line(s: Seq<char>, i: int) -> int
    decreases i,
{
    if i < 2 {
        0
    } else if s[i - 2] == '\n' && s[i - 1] == '\n' {
        i
    } else {
        after_blank_line(s, i - 1)
    }
}

/// The context of a link from `source` to `note_id` in the source's text: the trimmed
/// paragraph around the first link found, at its byte offset; or, where no link form is
/// found, a line naming the link, at offset 0.
pub open spec fn backlink_context(source: Seq<char>, note_id: Seq<char>, content: Seq<char>) -> BacklinkContextView {
    match first_hit(content, link_patterns(note_id, file_stem(note_id))) {
        Some(p) => BacklinkContextView {
            from: source,
            from_title: file_stem(source),
            text: trim(content.subrange(after_blank_line(content, p), para_end(content, p))),
            position: encode_utf8(content.take(p)).len(),
        },
        None => BacklinkContextView {
            from: source,
            from_title: file_stem(source),
            text: "Links to [["@ + note_id + "]]"@,
            position: 0,
        },
    }
}

/// The text of the first entry for `k`.
pub open spec fn content_of(cs: Seq<(Seq<char>, Seq<char>)>, k: Seq<char>) -> Option<Seq<char>>
    decreases cs.len(),
{
    if cs.len() == 0 {
        None
    } else if cs[0].0 == k {
        Some(cs[0].1)
    } else {
        content_of(cs.drop_first(), k)
    }
}

/// The contexts of the links from `sources`, in order, for those whose text is given.
pub open spec fn contexts_for(sources: Seq<Seq<char>>, note_id: Seq<char>, cs: Seq<(Seq<char>, Seq<char>)>) -> Seq<
    BacklinkContextView,
>
    decreases sources.len(),
{
    if sources.len() == 0 {
        Seq::empty()
    } else {
        let rest = contexts_for(sources.drop_last(), note_id, cs);
        match content_of(cs, sources.last()) {
            Some(c) => rest.push(backlink_context(sources.last(), note_id, c)),
            None => rest,
        }
    }
}

proof fn lemma_encode_concat(a: Seq<char>, b: Seq<char>)
    ensures
        encode_utf8(a + b) == encode_utf8(a) + encode_utf8(b),
    decreases a.len(),
{
    if a.len() > 0 {
        assert((a + b)[0] == a[0]);
        assert((a + b).drop_first() == a.drop_first() + b);
        lemma_encode_concat(a.drop_first(), b);
    } else {
        assert(a + b == b);
    }
}

/// The number of bytes UTF-8 takes for `c`.
fn utf8_width(c: char) -> (w: usize)
    ensures
        w == encode_scalar(c as u32).len(),
{
    let u = c as u32;
    proof {
        vstd::utf8::char_is_scalar(c);
    }
    if u <= 0x7F {
        1
    } else if u <= 0x7FF {
        2
    } else if u <= 0xFFFF {
        3
    } else {
        4
    }
}

/// The byte offset of the character at `p`.
fn byte_offset(cs: &Vec<char>, p: usize, total: usize) -> (res: usize)
    requires
        p <= cs@.len(),
        encode_utf8(cs@).len() == total,
    ensures
        res == encode_utf8(cs@.take(p as int)).len(),
{
    let mut i: usize = 0;
    let mut n: usize = 0;
    while i < p
        invariant
            i <= p <= cs@.len(),
            encode_utf8(cs@).len() == total,
            n == encode_utf8(cs@.take(i as int)).len(),
        decreases p - i,
    {
        proof {
            let c = cs@[i as int];
            assert(cs@.take(i + 1) == cs@.take(i as int) + seq![c]);
            lemma_encode_concat(cs@.take(i as int), seq![c]);
            assert(seq![c].drop_first() == Seq::<char>::empty());
            assert(encode_utf8(seq![c]) == encode_scalar(c as u32) + encode_utf8(Seq::<char>::empty()));
            assert(cs@ == cs@.take(i + 1) + cs@.skip(i + 1));
            lemma_encode_concat(cs@.take(i + 1), cs@.skip(i + 1));
        }
        let w = utf8_width(cs[i]);
        n = n + w;
        i = i + 1;
    }
    n
}

/// Where the first link form occurs.
fn first_link(cs: &Vec<char>, pats: &Vec<Vec<char>>) -> (res: Option<usize>)
    ensures
        match res {
            Some(p) => first_hit(cs@, pats@.map_values(|v: Vec<char>| v@)) == Some(p as int) && p <= cs@.len(),
            None => first_hit(cs@, pats@.map_values(|v: Vec<char>| v@)) is None,
        },
{
    let ghost ps = pats@.map_values(|v: Vec<char>| v@);
    assert(ps.skip(0) == ps);
    let mut i: usize = 0;
    while i < pats.len()
        invariant
            i <= pats.len(),
            ps == pats@.map_values(|v: Vec<char>| v@),
            first_hit(cs@, ps) == first_hit(cs@, ps.skip(i as int)),
        decreases pats.len() - i,
    {
        assert(ps.skip(i as int)[0] == pats@[i as int]@);
        assert(ps.skip(i as int).drop_first() == ps.skip(i + 1));
        match find_text(cs, &pats[i]) {
            Some(p) => {
                return Some(p);
            },
            None => {},
        }
        i = i + 1;
    }
    assert(ps.skip(pats.len() as int).len() == 0);
    None
}

fn link_text(open: &str, middle: &str, close: &str) -> (res: Vec<char>)
    ensures
        res@ == open@ + middle@ + close@,
{
    let mut v: Vec<char> = Vec::new();
    push_str(&mut v, open);
    push_str(&mut v, middle);
    push_str(&mut v, close);
    v
}

/// The context of a link from `source` to `note_id` in `content`.
pub fn backlink_context_of(source: &str, note_id: &str, content: &str) -> (res: BacklinkContext)
    ensures
        res@ == backlink_context(source@, note_id@, content@),
{
    let stem = file_stem_of(note_id);
    let mut pats: Vec<Vec<char>> = Vec::new();
    pats.push(link_text("[[", note_id, "]]"));
    pats.push(link_text("[[", note_id, "|"));
    pats.push(link_text("[[", note_id, "#"));
    pats.push(link_text("[[", stem.as_str(), "]]"));
    pats.push(link_text("[[", stem.as_str(), "|"));
    pats.push(link_text("[[", stem.as_str(), "#"));
    assert(pats@.map_values(|v: Vec<char>| v@) =~= link_patterns(note_id@, file_stem(note_id@)));
    let cs = chars_of(content);
    let from_title = file_stem_of(source);
    match first_link(&cs, &pats) {
        Some(p) => {
            let mut a: usize = p;
            while a >= 2 && !(cs[a - 2] == '\n' && cs[a - 1] == '\n')
                invariant
                    a <= p <= cs@.len(),
                    after_blank_line(cs@, p as int) == after_blank_line(cs@, a as int),
                decreases a,
            {
                a = a - 1;
            }
            if a < 2 {
                a = 0;
            }
            let len = cs.len();
            let mut b: usize = p;
            while b < len && !(b + 1 < len && cs[b] == '\n' && cs[b + 1] == '\n')
                invariant
                    p <= b <= len,
                    len == cs@.len(),
                    para_end(cs@, p as int) == para_end(cs@, b as int),
                decreases len - b,
            {
                b = b + 1;
            }
            let mut para: Vec<char> = Vec::new();
            let mut k = a;
            while k < b
                invariant
                    a <= k <= b <= cs@.len(),
                    para@ == cs@.subrange(a as int, k as int),
                decreases b - k,
            {
                para.push(cs[k]);
                k = k + 1;
            }
            let text = trim_chars(&para);
            let total = content.as_bytes().len();
            let position = byte_offset(&cs, p, total);
            BacklinkContext { from: owned(source), from_title, text: string_of(&text), position }
        },
        None => {
            let t = link_text("Links to [[", note_id, "]]");
            BacklinkContext { from: owned(source), from_title, text: string_of(&t), position: 0 }
        },
    }
}

/// The text given for `k`, from the first entry of it.
fn content_for(cs: &Vec<(String, String)>, k: &String) -> (res: Option<usize>)
    ensures
        match res {
            Some(i) => i < cs@.len() && content_of(titles_view(cs@), k@) == Some(cs@[i as int].1@),
            None => content_of(titles_view(cs@), k@) is None,
        },
{
    let ghost v = titles_view(cs@);
    assert(v.skip(0) == v);
    let mut i: usize = 0;
    while i < cs.len()
        invariant
            i <= cs.len(),
            v == titles_view(cs@),
            content_of(v, k@) == content_of(v.skip(i as int), k@),
        decreases cs.len() - i,
    {
        assert(v.skip(i as int)[0] == v[i as int]);
        assert(v.skip(i as int).drop_first() == v.skip(i + 1));
        if cs[i].0 == *k {
            return Some(i);
        }
        i = i + 1;
    }
    assert(v.skip(cs.len() as int).len() == 0);
    None
}

/// The backlinks of `note_id`, each with the paragraph its link stands in, for the sources
/// whose text is given in `contents` (pairs of a note and its text); sources whose text is not
/// given are left out.
pub fn get_contextual_backlinks(graph: &LinkGraph, note_id: &str, contents: &Vec<(String, String)>) -> (res: Vec<
    BacklinkContext,
>)
    requires
        graph.well_formed(),
    ensures
        res@.map_values(|b: BacklinkContext| b@) == contexts_for(
            members(graph.in_links(), note_id@),
            note_id@,
            titles_view(contents@),
        ),
{
    let sources = graph.get_backlinks(note_id);
    let ghost sv = strings_view(sources@);
    let ghost cv = titles_view(contents@);
    let mut out: Vec<BacklinkContext> = Vec::new();
    let mut i: usize = 0;
    while i < sources.len()
        invariant
            i <= sources.len(),
            sv == strings_view(sources@),
            cv == titles_view(contents@),
            out@.map_values(|b: BacklinkContext| b@) == contexts_for(sv.take(i as int), note_id@, cv),
        decreases sources.len() - i,
    {
        assert(sv.take(i + 1).drop_last() == sv.take(i as int));
        assert(sv.take(i + 1).last() == sources@[i as int]@);
        let ghost before = out@.map_values(|b: BacklinkContext| b@);
        match content_for(contents, &sources[i]) {
            Some(j) => {
                let b = backlink_context_of(sources[i].as_str(), note_id, contents[j].1.as_str());
                out.push(b);
                assert(out@.map_values(|b: BacklinkContext| b@) =~= before.push(b@));
            },
            None => {},
        }
        i = i + 1;
    }
    assert(sv.take(sources.len() as int) == sv);
    out
}

} // verus!
