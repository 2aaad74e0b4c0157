//! Block identifiers: content hashes that name Markdown blocks, and the hidden
//! `<!--^id-->` markers that carry them in a note.

use vstd::prelude::*;
use crate::text::{chars_of, string_of, take_chars, trim, trim_chars};

verus! {

/// The opening of a hidden block-id marker.
pub open spec fn marker() -> Seq<char> {
    seq!['<', '!', '-', '-', '^']
}

/// The first `>` at or after `j`, or the length where there is none.
pub open spec fn gt_from(s: Seq<char>, j: int) -> int
    decreases s.len() - j,
{
    if j >= s.len() {
        s.len() as int
    } else if s[j] == '>' {
        j
    } else {
        gt_from(s, j + 1)
    }
}

pub proof fn lemma_gt_from_bounds(s: Seq<char>, j: int)
    requires
        0 <= j,
    ensures
        j <= gt_from(s, j) || (j > s.len() && gt_from(s, j) == s.len()),
        gt_from(s, j) <= s.len() || j > s.len(),
        gt_from(s, j) < s.len() ==> s[gt_from(s, j)] == '>',
    decreases s.len() - j,
{
    if j < s.len() && s[j] != '>' {
        lemma_gt_from_bounds(s, j + 1);
    }
}

/// Whether the text holds a block-id marker opening.
pub open spec fn has_marker(t: Seq<char>) -> bool {
    exists|p: int| 0 <= p && p + 5 <= t.len() && #[trigger] t.subrange(p, p + 5) == marker()
}

/// Past one line feed and then one carriage return, where they follow.
pub open spec fn skip_line_end(s: Seq<char>, j: int) -> int {
    let j1 = if j < s.len() && s[j] == '\n' {
        j + 1
    } else {
        j
    };
    if j1 < s.len() && s[j1] == '\r' {
        j1 + 1
    } else {
        j1
    }
}

/// The text from `i` on with block-id markers removed. A `<!` opens a tag that runs to the
/// next `>`; a tag that holds a marker is dropped with the line end after it, any other tag
/// is kept as it stands.
pub open spec fn strip_from(s: Seq<char>, i: int) -> Seq<char>
    decreases s.len() - i,
{
    if i < 0 || i >= s.len() {
        Seq::empty()
    } else if s[i] == '<' && i + 1 < s.len() && s[i + 1] == '!' {
        let k = gt_from(s, i + 1);
        proof {
            lemma_gt_from_bounds(s, i + 1);
        }
        if k < s.len() && has_marker(s.subrange(i, k + 1)) {
            strip_from(s, skip_line_end(s, k + 1))
        } else {
            let next = if k < s.len() { k + 1 } else { s.len() as int };
            s.subrange(i, next) + strip_from(s, next)
        }
    } else {
        seq![s[i]] + strip_from(s, i + 1)
    }
}

fn find_gt(s: &[char], j: usize) -> (res: usize)
    requires
        j <= s.len(),
    ensures
        res == gt_from(s@, j as int),
        j <= res <= s.len(),
{
    let mut k = j;
    while k < s.len() && s[k] != '>'
        invariant
            j <= k <= s.len(),
            gt_from(s@, j as int) == gt_from(s@, k as int),
        decreases s.len() - k,
    {
        k = k + 1;
    }
    k
}

fn marker_within(s: &[char], lo: usize, hi: usize) -> (res: bool)
    requires
        lo <= hi <= s.len(),
    ensures
        res == has_marker(s@.subrange(lo as int, hi as int)),
{
    let ghost t = s@.subrange(lo as int, hi as int);
    let mut p = lo;
    while hi >= 5 && p <= hi - 5
        invariant
            lo <= p <= hi,
            hi <= s.len(),
            t == s@.subrange(lo as int, hi as int),
            forall|q: int| 0 <= q && q < p - lo && q + 5 <= t.len() ==> #[trigger] t.subrange(q, q + 5) != marker(),
        decreases hi - p,
    {
        let ghost q = p - lo;
        assert(t.subrange(q, q + 5) =~= s@.subrange(p as int, p + 5));
        if s[p] == '<' && s[p + 1] == '!' && s[p + 2] == '-' && s[p + 3] == '-' && s[p + 4] == '^' {
            assert(t.subrange(q, q + 5) =~= marker());
            return true;
        }
        assert(t.subrange(q, q + 5)[0] != marker()[0] || t.subrange(q, q + 5)[1] != marker()[1]
            || t.subrange(q, q + 5)[2] != marker()[2] || t.subrange(q, q + 5)[3] != marker()[3]
            || t.subrange(q, q + 5)[4] != marker()[4]);
        p = p + 1;
    }
    false
}

/// Removes the hidden block-id markers from Markdown and trims the result.
pub fn strip_block_ids(content: &str) -> (res: String)
    ensures
        res@ == trim(strip_from(content@, 0)),
{
    let s = chars_of(content);
    let n = s.len();
    let mut out: Vec<char> = Vec::new();
    let mut i: usize = 0;
    while i < n
        invariant
            i <= n,
            n == s@.len(),
            s@ == content@,
            out@ + strip_from(s@, i as int) == strip_from(s@, 0),
        decreases n - i,
    {
        if s[i] == '<' && i + 1 < n && s[i + 1] == '!' {
            let k = find_gt(&s, i + 1);
            if k < n && marker_within(&s, i, k + 1) {
                let mut j = k + 1;
                if j < n && s[j] == '\n' {
                    j = j + 1;
                }
                if j < n && s[j] == '\r' {
                    j = j + 1;
                }
                assert(j == skip_line_end(s@, k + 1));
                i = j;
            } else {
                let ghost before = out@;
                let next = if k < n { k + 1 } else { n };
                let mut p = i;
                while p < next
                    invariant
                        i <= p <= next,
                        next <= n,
                        n == s@.len(),
                        out@ == before + s@.subrange(i as int, p as int),
                    decreases next - p,
                {
                    out.push(s[p]);
                    assert(s@.subrange(i as int, p + 1) =~= s@.subrange(i as int, p as int).push(s@[p as int]));
                    p = p + 1;
                }
                assert(before + strip_from(s@, i as int) =~= out@ + strip_from(s@, next as int));
                i = next;
            }
        } else {
            let ghost before = out@;
            out.push(s[i]);
            assert(before + strip_from(s@, i as int) == out@ + strip_from(s@, i + 1));
            i = i + 1;
        }
    }
    assert(strip_from(s@, n as int) =~= Seq::<char>::empty());
    assert(out@ =~= strip_from(s@, 0));
    let t = trim_chars(&out);
    string_of(&t)
}


/// The lowercase hex digit of a value below sixteen.
pub open spec fn hex_digit(n: int) -> char {
    if n < 10 {
        (('0' as int) + n) as char
    } else {
        (('a' as int) + n - 10) as char
    }
}

/// Lowercase hex, two digits per byte, high nibble first.
pub open spec fn hex_text(bytes: Seq<u8>) -> Seq<char>
    decreases bytes.len(),
{
    if bytes.len() == 0 {
        Seq::empty()
    } else {
        let b = bytes.last() as int;
        hex_text(bytes.drop_last()) + seq![hex_digit(b / 16), hex_digit(b % 16)]
    }
}

/// A lowercase hex digit.
pub open spec fn is_lower_hex(c: char) -> bool {
    ('0' <= c && c <= '9') || ('a' <= c && c <= 'f')
}

/// The SHA-256 digest of the UTF-8 bytes of a text.
pub uninterp spec fn sha256_of_text(text: Seq<char>) -> Seq<u8>;

/// `sha2::Sha256::digest` of `text.as_bytes()`: a function of the text alone, 32 bytes long.
#[verifier::external_body]
pub(crate) fn sha256_text(text: &str) -> (res: Vec<u8>)
    ensures
        res@ == sha256_of_text(text@),
        res@.len() == 32,
{
    <sha2::Sha256 as sha2::Digest>::digest(text.as_bytes()).to_vec()
}

/// `hex::encode`: each byte as two lowercase hex digits, in order.
#[verifier::external_body]
fn hex_encode(bytes: &[u8]) -> (res: String)
    ensures
        res@ == hex_text(bytes@),
{
    hex::encode(bytes)
}

/// `uuid::Uuid::new_v4().to_string()`: a random UUID in its hyphenated lowercase form, whose
/// first eight characters are hex digits. Which UUID comes back is left open.
#[verifier::external_body]
pub(crate) fn random_uuid_text() -> (res: String)
    ensures
        res@.len() == 36,
        forall|i: int| 0 <= i < 8 ==> is_lower_hex(#[trigger] res@[i]),
{
    uuid::Uuid::new_v4().to_string()
}

/// The block id that a content digest gives: its first four bytes in hex.
pub fn block_id_from_digest(digest: &[u8]) -> (res: String)
    requires
        digest.len() >= 4,
    ensures
        res@ == hex_text(digest@.take(4)),
{
    let mut first: Vec<u8> = Vec::new();
    let mut i: usize = 0;
    while i < 4
        invariant
            i <= 4 <= digest.len(),
            first@ == digest@.take(i as int),
        decreases 4 - i,
    {
        first.push(digest[i]);
        assert(digest@.take(i + 1) == digest@.take(i as int).push(digest@[i as int]));
        i = i + 1;
    }
    hex_encode(first.as_slice())
}

/// A block id for a piece of content: the hash of the trimmed text, or, for blank text, a
/// random eight-digit hex id.
pub fn generate_block_id(text: &str) -> (res: String)
    ensures
        trim(text@).len() > 0 ==> res@ == hex_text(sha256_of_text(trim(text@)).take(4)),
        trim(text@).len() == 0 ==> res@.len() == 8 && forall|i: int| 0 <= i < 8 ==> is_lower_hex(#[trigger] res@[i]),
{
    let cs = chars_of(text);
    let t = trim_chars(&cs);
    if t.len() == 0 {
        let u = random_uuid_text();
        let uc = chars_of(u.as_str());
        let first = take_chars(&uc, 8);
        string_of(&first)
    } else {
        let trimmed = string_of(&t);
        let digest = sha256_text(trimmed.as_str());
        block_id_from_digest(digest.as_slice())
    }
}

} // verus!
