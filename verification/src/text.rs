//! Character-level helpers shared by the parsers and validators.

use vstd::prelude::*;

verus! {

/// Collects the characters of a string slice into a vector.
pub fn chars_of(s: &str) -> (res: Vec<char>)
    ensures
        res@ == s@,
{
    let mut res: Vec<char> = Vec::new();
    for c in it: s.chars()
        invariant
            res@ == it.seq().take(it.index() as int),
    {
        res.push(c);
    }
    res
}

/// Builds an owned string from a sequence of characters.
pub fn string_of(cs: &[char]) -> (res: String)
    ensures
        res@ == cs@,
{
    let mut res = String::new();
    let mut i: usize = 0;
    while i < cs.len()
        invariant
            i <= cs.len(),
            res@ == cs@.take(i as int),
        decreases cs.len() - i,
    {
        push_char(&mut res, cs[i]);
        i = i + 1;
    }
    res
}

/// Appends one character to a string (`String::push`).
#[verifier::external_body]
pub fn push_char(s: &mut String, c: char)
    ensures
        final(s)@ == old(s)@.push(c),
{
    s.push(c);
}

/// Text equality of two string slices.
pub fn str_eq(a: &str, b: &str) -> (res: bool)
    ensures
        res == (a@ == b@),
{
    let x = chars_of(a);
    let y = chars_of(b);
    seq_eq(&x, &y)
}

/// Element-wise equality of two character slices.
pub fn seq_eq(a: &[char], b: &[char]) -> (res: bool)
    ensures
        res == (a@ == b@),
{
    if a.len() != b.len() {
        return false;
    }
    let mut i: usize = 0;
    while i < a.len()
        invariant
            a.len() == b.len(),
            i <= a.len(),
            a@.take(i as int) == b@.take(i as int),
        decreases a.len() - i,
    {
        if a[i] != b[i] {
            assert(a@[i as int] != b@[i as int]);
            return false;
        }
        assert(a@.take(i + 1) == a@.take(i as int).push(a@[i as int]));
        assert(b@.take(i + 1) == b@.take(i as int).push(b@[i as int]));
        i = i + 1;
    }
    assert(a@ == a@.take(a.len() as int));
    assert(b@ == b@.take(b.len() as int));
    true
}


/// Unicode `White_Space`, the property that `char::is_whitespace` tests.
pub open spec fn is_ws(c: char) -> bool {
    ||| ('\u{9}' <= c && c <= '\u{d}')
    ||| c == ' '
    ||| c == '\u{85}'
    ||| c == '\u{a0}'
    ||| c == '\u{1680}'
    ||| ('\u{2000}' <= c && c <= '\u{200a}')
    ||| c == '\u{2028}'
    ||| c == '\u{2029}'
    ||| c == '\u{202f}'
    ||| c == '\u{205f}'
    ||| c == '\u{3000}'
}

/// Whether a character is white space in the sense of `char::is_whitespace`.
pub fn is_whitespace(c: char) -> (res: bool)
    ensures
        res == is_ws(c),
{
    ('\u{9}' <= c && c <= '\u{d}') || c == ' ' || c == '\u{85}' || c == '\u{a0}'
        || c == '\u{1680}' || ('\u{2000}' <= c && c <= '\u{200a}') || c == '\u{2028}'
        || c == '\u{2029}' || c == '\u{202f}' || c == '\u{205f}' || c == '\u{3000}'
}

/// First index at or after `i` that does not hold white space.
pub open spec fn skip_ws(s: Seq<char>, i: int) -> int
    decreases s.len() - i,
{
    if 0 <= i < s.len() && is_ws(s[i]) {
        skip_ws(s, i + 1)
    } else {
        i
    }
}

/// Index just past the last character before `j` that is not white space.
pub open spec fn trim_end_at(s: Seq<char>, j: int) -> int
    decreases j,
{
    if 0 < j <= s.len() && is_ws(s[j - 1]) {
        trim_end_at(s, j - 1)
    } else {
        j
    }
}

/// `str::trim`: the text without leading and trailing white space.
pub open spec fn trim(s: Seq<char>) -> Seq<char> {
    let a = skip_ws(s, 0);
    let b = trim_end_at(s, s.len() as int);
    if a < b {
        s.subrange(a, b)
    } else {
        Seq::empty()
    }
}

pub proof fn lemma_skip_ws_bounds(s: Seq<char>, i: int)
    requires
        0 <= i <= s.len(),
    ensures
        i <= skip_ws(s, i) <= s.len(),
        forall|k: int| i <= k < skip_ws(s, i) ==> is_ws(#[trigger] s[k]),
        skip_ws(s, i) < s.len() ==> !is_ws(s[skip_ws(s, i)]),
    decreases s.len() - i,
{
    if i < s.len() && is_ws(s[i]) {
        lemma_skip_ws_bounds(s, i + 1);
    }
}

pub proof fn lemma_trim_end_bounds(s: Seq<char>, j: int)
    requires
        0 <= j <= s.len(),
    ensures
        0 <= trim_end_at(s, j) <= j,
        forall|k: int| trim_end_at(s, j) <= k < j ==> is_ws(#[trigger] s[k]),
        trim_end_at(s, j) > 0 ==> !is_ws(s[trim_end_at(s, j) - 1]),
    decreases j,
{
    if 0 < j && is_ws(s[j - 1]) {
        lemma_trim_end_bounds(s, j - 1);
    }
}

/// The characters of `str::trim` applied to `s`.
pub fn trim_chars(s: &[char]) -> (res: Vec<char>)
    ensures
        res@ == trim(s@),
{
    let mut a: usize = 0;
    while a < s.len() && is_whitespace(s[a])
        invariant
            a <= s.len(),
            skip_ws(s@, 0) == skip_ws(s@, a as int),
        decreases s.len() - a,
    {
        a = a + 1;
    }
    let mut b: usize = s.len();
    while b > 0 && is_whitespace(s[b - 1])
        invariant
            b <= s.len(),
            trim_end_at(s@, s@.len() as int) == trim_end_at(s@, b as int),
        decreases b,
    {
        b = b - 1;
    }
    let mut res: Vec<char> = Vec::new();
    if a < b {
        let mut i = a;
        while i < b
            invariant
                a <= i <= b <= s.len(),
                res@ == s@.subrange(a as int, i as int),
            decreases b - i,
        {
            res.push(s[i]);
            i = i + 1;
        }
    }
    res
}

/// Whether `p` is a prefix of `s`.
pub open spec fn has_prefix(s: Seq<char>, p: Seq<char>) -> bool {
    p.len() <= s.len() && s.subrange(0, p.len() as int) == p
}

/// Whether `p` is a suffix of `s`.
pub open spec fn has_suffix(s: Seq<char>, p: Seq<char>) -> bool {
    p.len() <= s.len() && s.subrange(s.len() - p.len(), s.len() as int) == p
}

/// Prefix test on character slices.
pub fn starts_with(s: &[char], p: &[char]) -> (res: bool)
    ensures
        res == has_prefix(s@, p@),
{
    if p.len() > s.len() {
        return false;
    }
    let mut i: usize = 0;
    while i < p.len()
        invariant
            p.len() <= s.len(),
            i <= p.len(),
            s@.subrange(0, i as int) == p@.subrange(0, i as int),
        decreases p.len() - i,
    {
        if s[i] != p[i] {
            assert(s@.subrange(0, p.len() as int)[i as int] != p@[i as int]);
            return false;
        }
        assert(s@.subrange(0, i + 1) == s@.subrange(0, i as int).push(s@[i as int]));
        assert(p@.subrange(0, i + 1) == p@.subrange(0, i as int).push(p@[i as int]));
        i = i + 1;
    }
    assert(p@.subrange(0, p.len() as int) == p@);
    true
}

/// Suffix test on character slices.
pub fn ends_with(s: &[char], p: &[char]) -> (res: bool)
    ensures
        res == has_suffix(s@, p@),
{
    if p.len() > s.len() {
        return false;
    }
    let off = s.len() - p.len();
    let mut i: usize = 0;
    while i < p.len()
        invariant
            p.len() <= s.len(),
            off == s.len() - p.len(),
            i <= p.len(),
            s@.subrange(off as int, off + i) == p@.subrange(0, i as int),
        decreases p.len() - i,
    {
        if s[off + i] != p[i] {
            assert(s@.subrange(off as int, s.len() as int)[i as int] != p@[i as int]);
            return false;
        }
        assert(s@.subrange(off as int, off + i + 1) == s@.subrange(off as int, off + i).push(
            s@[off + i],
        ));
        assert(p@.subrange(0, i + 1) == p@.subrange(0, i as int).push(p@[i as int]));
        i = i + 1;
    }
    assert(p@.subrange(0, p.len() as int) == p@);
    true
}

/// Whether `c` occurs in `s`.
pub fn contains_char(s: &[char], c: char) -> (res: bool)
    ensures
        res == s@.contains(c),
{
    let mut i: usize = 0;
    while i < s.len()
        invariant
            i <= s.len(),
            forall|k: int| 0 <= k < i ==> s@[k] != c,
        decreases s.len() - i,
    {
        if s[i] == c {
            assert(s@[i as int] == c);
            return true;
        }
        i = i + 1;
    }
    false
}

/// `char::to_ascii_lowercase`.
pub open spec fn ascii_lower_char(c: char) -> char {
    if 'A' <= c && c <= 'Z' {
        ((c as u32) + 32) as char
    } else {
        c
    }
}

/// `str::to_ascii_lowercase`.
pub open spec fn ascii_lower(s: Seq<char>) -> Seq<char> {
    s.map_values(|c: char| ascii_lower_char(c))
}

/// Lower-cases the ASCII letters of a character slice.
pub fn to_ascii_lowercase(s: &[char]) -> (res: Vec<char>)
    ensures
        res@ == ascii_lower(s@),
{
    let mut res: Vec<char> = Vec::new();
    let mut i: usize = 0;
    while i < s.len()
        invariant
            i <= s.len(),
            res@ == ascii_lower(s@.subrange(0, i as int)),
        decreases s.len() - i,
    {
        let c = s[i];
        let l = if 'A' <= c && c <= 'Z' {
            ((c as u8) + 32) as char
        } else {
            c
        };
        res.push(l);
        assert(s@.subrange(0, i + 1) == s@.subrange(0, i as int).push(c));
        i = i + 1;
    }
    assert(s@.subrange(0, s.len() as int) == s@);
    res
}

/// Whether every character is ASCII.
pub open spec fn all_ascii(s: Seq<char>) -> bool {
    forall|i: int| 0 <= i < s.len() ==> (s[i] as u32) < 128
}


/// Whether `c` is an ASCII decimal digit.
pub open spec fn is_digit(c: char) -> bool {
    '0' <= c && c <= '9'
}

/// The number that a string of decimal digits denotes.
pub open spec fn digits_value(s: Seq<char>) -> nat
    decreases s.len(),
{
    if s.len() == 0 {
        0
    } else {
        digits_value(s.drop_last()) * 10 + ((s.last() as u32) - ('0' as u32)) as nat
    }
}

/// The digits that `str::parse::<usize>` reads: the text after one leading `+`, if any.
pub open spec fn unsigned_digits(s: Seq<char>) -> Seq<char> {
    if s.len() > 1 && s[0] == '+' {
        s.skip(1)
    } else {
        s
    }
}

/// Whether every character is a decimal digit.
pub open spec fn all_digits(d: Seq<char>) -> bool {
    forall|i: int| 0 <= i < d.len() ==> is_digit(#[trigger] d[i])
}

/// `str::parse::<usize>`: an optional `+`, then at least one decimal digit, within range.
pub open spec fn parse_usize_spec(s: Seq<char>) -> Option<usize> {
    let d = unsigned_digits(s);
    if d.len() > 0 && all_digits(d) && digits_value(d) <= usize::MAX {
        Some(digits_value(d) as usize)
    } else {
        None
    }
}

proof fn lemma_digits_value_prefix(s: Seq<char>, i: int)
    requires
        0 <= i <= s.len(),
        forall|k: int| 0 <= k < s.len() ==> is_digit(#[trigger] s[k]),
    ensures
        digits_value(s.take(i)) <= digits_value(s),
    decreases s.len(),
{
    if i < s.len() {
        assert(s.drop_last().take(i) == s.take(i));
        lemma_digits_value_prefix(s.drop_last(), i);
    } else {
        assert(s.take(i) == s);
    }
}

/// Parses a decimal `usize` as `str::parse::<usize>` does.
pub fn parse_usize(s: &[char]) -> (res: Option<usize>)
    ensures
        res == parse_usize_spec(s@),
{
    let start: usize = if s.len() > 1 && s[0] == '+' { 1 } else { 0 };
    let ghost d = unsigned_digits(s@);
    assert(d == s@.skip(start as int));
    if start >= s.len() {
        return None;
    }
    let mut value: usize = 0;
    let mut i: usize = start;
    while i < s.len()
        invariant
            start <= i <= s.len(),
            start < s.len(),
            d == s@.skip(start as int),
            d == unsigned_digits(s@),
            forall|k: int| 0 <= k < i - start ==> is_digit(#[trigger] d[k]),
            value == digits_value(d.take(i - start)),
        decreases s.len() - i,
    {
        let c = s[i];
        if !('0' <= c && c <= '9') {
            assert(!is_digit(d[i - start]));
            assert(!all_digits(d));
            return None;
        }
        let digit = (c as u32) - ('0' as u32);
        assert(d.take(i - start + 1).drop_last() == d.take(i - start));
        let m = value.checked_mul(10);
        match m {
            None => {
                proof {
                    assert(forall|k: int| 0 <= k < i - start + 1 ==> is_digit(#[trigger] d[k]));
                    let p = d.take(i - start + 1);
                    assert(p.last() == c);
                    assert(digits_value(p) == value * 10 + digit);
                    if all_digits(d) {
                        lemma_digits_value_prefix(d, i - start + 1);
                    }
                }
                return None;
            },
            Some(m) => {
                let a = m.checked_add(digit as usize);
                match a {
                    None => {
                        proof {
                            let p = d.take(i - start + 1);
                            assert(p.last() == c);
                            assert(digits_value(p) == value * 10 + digit);
                            if all_digits(d) {
                                lemma_digits_value_prefix(d, i - start + 1);
                            }
                        }
                        return None;
                    },
                    Some(a) => {
                        proof {
                            let p = d.take(i - start + 1);
                            assert(p.last() == c);
                        }
                        value = a;
                    },
                }
            },
        }
        i = i + 1;
    }
    assert(d.take(i - start) == d);
    assert(all_digits(d));
    Some(value)
}


/// An owned copy of a string slice.
pub fn owned(s: &str) -> (res: String)
    ensures
        res@ == s@,
{
    let cs = chars_of(s);
    string_of(&cs)
}

/// The characters of `s` from index `k` on.
pub fn skip_chars(s: &[char], k: usize) -> (res: Vec<char>)
    requires
        k <= s.len(),
    ensures
        res@ == s@.skip(k as int),
{
    let mut res: Vec<char> = Vec::new();
    let mut i = k;
    while i < s.len()
        invariant
            k <= i <= s.len(),
            res@ == s@.subrange(k as int, i as int),
        decreases s.len() - i,
    {
        res.push(s[i]);
        i = i + 1;
    }
    res
}

/// The first `k` characters of `s`.
pub fn take_chars(s: &[char], k: usize) -> (res: Vec<char>)
    requires
        k <= s.len(),
    ensures
        res@ == s@.take(k as int),
{
    let mut res: Vec<char> = Vec::new();
    let mut i: usize = 0;
    while i < k
        invariant
            i <= k <= s.len(),
            res@ == s@.subrange(0, i as int),
        decreases k - i,
    {
        res.push(s[i]);
        i = i + 1;
    }
    res
}

/// The result of `str::to_lowercase`, which follows the Unicode lowercase mapping.
pub uninterp spec fn lowercase_of(s: Seq<char>) -> Seq<char>;

/// `str::to_lowercase`. Of its result the library knows the name `lowercase_of`, and that on
/// ASCII text it lower-cases exactly the letters `A`-`Z`, which the Unicode tables map to
/// `a`-`z` and which is the only change they make to ASCII characters.
#[verifier::external_body]
pub fn to_lowercase(s: &str) -> (res: String)
    ensures
        res@ == lowercase_of(s@),
        all_ascii(s@) ==> res@ == ascii_lower(s@),
{
    s.to_lowercase()
}


/// Appends the characters of `w` to `v`.
pub fn append_chars(v: &mut Vec<char>, w: &[char])
    ensures
        final(v)@ == old(v)@ + w@,
{
    let mut i: usize = 0;
    while i < w.len()
        invariant
            i <= w.len(),
            v@ == old(v)@ + w@.take(i as int),
        decreases w.len() - i,
    {
        v.push(w[i]);
        assert(w@.take(i + 1) == w@.take(i as int).push(w@[i as int]));
        i = i + 1;
    }
    assert(w@.take(w.len() as int) == w@);
}

/// Appends the characters of a string slice to `v`.
pub fn push_str(v: &mut Vec<char>, s: &str)
    ensures
        final(v)@ == old(v)@ + s@,
{
    let cs = chars_of(s);
    append_chars(v, &cs);
}

/// Copies a string.
pub fn copy_string(s: &String) -> (res: String)
    ensures
        res@ == s@,
{
    s.clone()
}

/// Copies a vector of strings.
pub fn copy_strings(v: &Vec<String>) -> (res: Vec<String>)
    ensures
        strings_view(res@) == strings_view(v@),
{
    let mut res: Vec<String> = Vec::new();
    let mut i: usize = 0;
    while i < v.len()
        invariant
            i <= v.len(),
            strings_view(res@) == strings_view(v@).take(i as int),
        decreases v.len() - i,
    {
        res.push(v[i].clone());
        assert(strings_view(v@).take(i + 1) == strings_view(v@).take(i as int).push(v@[i as int]@));
        i = i + 1;
    }
    assert(strings_view(v@).take(v.len() as int) == strings_view(v@));
    res
}

/// The texts of a sequence of strings.
pub open spec fn strings_view(v: Seq<String>) -> Seq<Seq<char>> {
    v.map_values(|s: String| s@)
}

/// Whether a sequence of texts holds `s`.
pub fn contains_string(v: &Vec<String>, s: &String) -> (res: bool)
    ensures
        res == strings_view(v@).contains(s@),
{
    let mut i: usize = 0;
    while i < v.len()
        invariant
            i <= v.len(),
            forall|k: int| 0 <= k < i ==> v@[k]@ != s@,
        decreases v.len() - i,
    {
        if v[i] == *s {
            assert(strings_view(v@)[i as int] == s@);
            return true;
        }
        i = i + 1;
    }
    assert forall|k: int| 0 <= k < strings_view(v@).len() implies strings_view(v@)[k] != s@ by {
        assert(strings_view(v@)[k] == v@[k]@);
    }
    false
}


/// The concatenation of three texts.
pub fn concat3(a: &str, b: &str, c: &str) -> (res: String)
    ensures
        res@ == a@ + b@ + c@,
{
    let mut v: Vec<char> = Vec::new();
    push_str(&mut v, a);
    push_str(&mut v, b);
    push_str(&mut v, c);
    string_of(&v)
}

/// Whether a character slice spells the text.
pub fn chars_are(cs: &[char], s: &str) -> (res: bool)
    ensures
        res == (cs@ == s@),
{
    let t = chars_of(s);
    seq_eq(cs, &t)
}


/// The end of the piece that starts at `i`: the next `sep`, or the end of the text.
pub open spec fn piece_end(s: Seq<char>, i: int, sep: char) -> int
    decreases s.len() - i,
{
    if i >= s.len() {
        s.len() as int
    } else if s[i] == sep {
        i
    } else {
        piece_end(s, i + 1, sep)
    }
}

pub proof fn lemma_piece_end_bounds(s: Seq<char>, i: int, sep: char)
    requires
        0 <= i <= s.len(),
    ensures
        i <= piece_end(s, i, sep) <= s.len(),
        piece_end(s, i, sep) < s.len() ==> s[piece_end(s, i, sep)] == sep,
        forall|k: int| i <= k < piece_end(s, i, sep) ==> s[k] != sep,
    decreases s.len() - i,
{
    if i < s.len() && s[i] != sep {
        lemma_piece_end_bounds(s, i + 1, sep);
    }
}

/// The pieces of the text from `i` on, split at every `sep` (`str::split`).
pub open spec fn split_from(s: Seq<char>, i: int, sep: char) -> Seq<Seq<char>>
    decreases s.len() + 1 - i,
{
    if i < 0 || i > s.len() {
        Seq::empty()
    } else {
        let e = piece_end(s, i, sep);
        proof {
            lemma_piece_end_bounds(s, i, sep);
        }
        seq![s.subrange(i, e)] + split_from(s, e + 1, sep)
    }
}

/// The texts of a sequence of character vectors.
pub open spec fn pieces_view(v: Seq<Vec<char>>) -> Seq<Seq<char>> {
    v.map_values(|x: Vec<char>| x@)
}

/// Splits a text at every `sep`, keeping empty pieces.
pub fn split_on(s: &[char], sep: char) -> (res: Vec<Vec<char>>)
    ensures
        pieces_view(res@) == split_from(s@, 0, sep),
{
    let n = s.len();
    let mut res: Vec<Vec<char>> = Vec::new();
    let mut i: usize = 0;
    loop
        invariant
            i <= n,
            n == s@.len(),
            pieces_view(res@) + split_from(s@, i as int, sep) == split_from(s@, 0, sep),
        decreases n - i,
    {
        proof {
            lemma_piece_end_bounds(s@, i as int, sep);
        }
        let mut piece: Vec<char> = Vec::new();
        let mut e = i;
        while e < n && s[e] != sep
            invariant
                i <= e <= n,
                n == s@.len(),
                piece@ == s@.subrange(i as int, e as int),
                piece_end(s@, i as int, sep) == piece_end(s@, e as int, sep),
            decreases n - e,
        {
            piece.push(s[e]);
            e = e + 1;
        }
        let ghost before = pieces_view(res@);
        res.push(piece);
        assert(pieces_view(res@) == before.push(s@.subrange(i as int, e as int)));
        assert(before + split_from(s@, i as int, sep) == pieces_view(res@) + split_from(s@, e + 1, sep));
        if e == n {
            assert(split_from(s@, e + 1, sep) =~= Seq::<Seq<char>>::empty());
            assert(pieces_view(res@) =~= split_from(s@, 0, sep));
            return res;
        }
        i = e + 1;
    }
}


/// `Path::join` with a relative component, as Unix paths join: the component alone after an
/// empty base, appended directly after a trailing `/`, and after a `/` otherwise.
pub open spec fn path_join(base: Seq<char>, part: Seq<char>) -> Seq<char> {
    if base.len() == 0 {
        part
    } else if base[base.len() - 1] == '/' {
        base + part
    } else {
        base + seq!['/'] + part
    }
}

/// Joins a relative component onto a base path.
pub fn join_path(base: &str, part: &str) -> (res: String)
    ensures
        res@ == path_join(base@, part@),
{
    let b = chars_of(base);
    let mut v: Vec<char> = Vec::new();
    if b.len() == 0 {
        push_str(&mut v, part);
    } else if b[b.len() - 1] == '/' {
        append_chars(&mut v, &b);
        push_str(&mut v, part);
    } else {
        append_chars(&mut v, &b);
        v.push('/');
        push_str(&mut v, part);
    }
    string_of(&v)
}

// ---------------------------------------------------------------------------------------
// Lexicographic order of texts. Comparing two strings in Rust compares their UTF-8 bytes,
// and UTF-8 keeps the order of code points, so this is the order of `str`'s `Ord`.
// ---------------------------------------------------------------------------------------

/// Whether `a` comes before `b`: at the first place they differ `a` has the smaller character,
/// or `a` is a proper prefix of `b`.
pub open spec fn lex_lt(a: Seq<char>, b: Seq<char>) -> bool
    decreases a.len(),
{
    if b.len() == 0 {
        false
    } else if a.len() == 0 {
        true
    } else if a[0] != b[0] {
        a[0] < b[0]
    } else {
        lex_lt(a.drop_first(), b.drop_first())
    }
}

/// No text comes before itself, and of two texts at most one comes first.
pub proof fn lemma_lex_asymmetric(a: Seq<char>, b: Seq<char>)
    ensures
        !lex_lt(a, a),
        lex_lt(a, b) ==> !lex_lt(b, a),
    decreases a.len(),
{
    if a.len() > 0 {
        lemma_lex_asymmetric(a.drop_first(), a.drop_first());
        if b.len() > 0 {
            lemma_lex_asymmetric(a.drop_first(), b.drop_first());
        }
    }
}

/// The order is transitive.
pub proof fn lemma_lex_transitive(a: Seq<char>, b: Seq<char>, c: Seq<char>)
    requires
        lex_lt(a, b),
        lex_lt(b, c),
    ensures
        lex_lt(a, c),
    decreases a.len(),
{
    if a.len() > 0 && b.len() > 0 && c.len() > 0 && a[0] == b[0] && b[0] == c[0] {
        lemma_lex_transitive(a.drop_first(), b.drop_first(), c.drop_first());
    }
}

/// Of two different texts one comes first.
pub proof fn lemma_lex_total(a: Seq<char>, b: Seq<char>)
    requires
        a != b,
    ensures
        lex_lt(a, b) || lex_lt(b, a),
    decreases a.len(),
{
    if a.len() > 0 && b.len() > 0 && a[0] == b[0] {
        if a.drop_first() == b.drop_first() {
            assert(a =~= seq![a[0]] + a.drop_first());
            assert(b =~= seq![b[0]] + b.drop_first());
        }
        lemma_lex_total(a.drop_first(), b.drop_first());
    } else if a.len() == 0 && b.len() == 0 {
        assert(a =~= b);
    }
}

/// Whether `a` comes before `b` in lexicographic order.
pub fn text_lt(a: &str, b: &str) -> (res: bool)
    ensures
        res == lex_lt(a@, b@),
{
    let x = chars_of(a);
    let y = chars_of(b);
    let mut i: usize = 0;
    assert(a@.skip(0) =~= a@);
    assert(b@.skip(0) =~= b@);
    while i < x.len() && i < y.len() && x[i] == y[i]
        invariant
            i <= x.len(),
            i <= y.len(),
            x@ == a@,
            y@ == b@,
            lex_lt(a@, b@) == lex_lt(a@.skip(i as int), b@.skip(i as int)),
        decreases x.len() - i,
    {
        assert(a@.skip(i as int).drop_first() == a@.skip(i + 1));
        assert(b@.skip(i as int).drop_first() == b@.skip(i + 1));
        i = i + 1;
    }
    if i == y.len() {
        false
    } else if i == x.len() {
        true
    } else {
        x[i] < y[i]
    }
}

/// Whether a sequence of texts is in strictly increasing order.
pub open spec fn lex_sorted(s: Seq<Seq<char>>) -> bool {
    forall|i: int, j: int| 0 <= i < j < s.len() ==> lex_lt(#[trigger] s[i], #[trigger] s[j])
}

/// Where fewer indices than `n` are selected, some index is not taken.
pub proof fn lemma_some_free(taken: Seq<bool>, sel: Seq<usize>, n: int)
    requires
        taken.len() == n,
        sel.len() < n,
        forall|q: int| 0 <= q < n && taken[q] ==> exists|a: int| 0 <= a < sel.len() && sel[a] == q,
    ensures
        exists|q: int| 0 <= q < n && !taken[q],
{
    if forall|q: int| 0 <= q < n ==> taken[q] {
        let s = sel.map_values(|x: usize| x as int);
        let r = vstd::set_lib::set_int_range(0, n);
        vstd::set_lib::lemma_int_range(0, n);
        assert forall|q: int| r.contains(q) implies s.to_set().contains(q) by {
            assert(0 <= q < n);
            assert(taken[q]);
            let a = choose|a: int| 0 <= a < sel.len() && sel[a] == q;
            assert(s[a] == q);
            assert(s.contains(q));
        }
        s.lemma_cardinality_of_set();
        vstd::set_lib::lemma_len_subset(r, s.to_set());
    }
}


/// How many entries are `false`.
pub open spec fn count_false(s: Seq<bool>) -> nat
    decreases s.len(),
{
    if s.len() == 0 {
        0
    } else {
        count_false(s.drop_last()) + if s.last() { 0nat } else { 1nat }
    }
}

proof fn lemma_count_false_set(s: Seq<bool>, i: int)
    requires
        0 <= i < s.len(),
        !s[i],
    ensures
        count_false(s.update(i, true)) + 1 == count_false(s),
    decreases s.len(),
{
    if i < s.len() - 1 {
        assert(s.update(i, true).drop_last() == s.drop_last().update(i, true));
        lemma_count_false_set(s.drop_last(), i);
    } else {
        assert(s.update(i, true).drop_last() == s.drop_last());
    }
}

proof fn lemma_count_false_none(s: Seq<bool>)
    requires
        forall|q: int| 0 <= q < s.len() ==> s[q],
    ensures
        count_false(s) == 0,
    decreases s.len(),
{
    if s.len() > 0 {
        lemma_count_false_none(s.drop_last());
    }
}

proof fn lemma_count_false_all(s: Seq<bool>)
    requires
        forall|q: int| 0 <= q < s.len() ==> !s[q],
    ensures
        count_false(s) == s.len(),
    decreases s.len(),
{
    if s.len() > 0 {
        lemma_count_false_all(s.drop_last());
    }
}

/// Some selected position holds `q`.
pub open spec fn picked(sel: Seq<usize>, q: int) -> bool {
    exists|a: int| 0 <= a < sel.len() && sel[a] == q
}

/// Distinct texts in increasing lexicographic order.
pub fn sort_texts(v: &Vec<String>) -> (res: Vec<String>)
    requires
        strings_view(v@).no_duplicates(),
    ensures
        lex_sorted(strings_view(res@)),
        res@.len() == v@.len(),
        forall|x: Seq<char>| strings_view(res@).contains(x) <==> strings_view(v@).contains(x),
{
    let ghost vv = strings_view(v@);
    let n = v.len();
    let mut taken: Vec<bool> = Vec::new();
    let mut z: usize = 0;
    while z < n
        invariant
            z <= n,
            taken@.len() == z,
            forall|q: int| 0 <= q < z ==> !taken@[q],
        decreases n - z,
    {
        taken.push(false);
        z = z + 1;
    }
    proof {
        lemma_count_false_all(taken@);
    }
    let mut sel: Vec<usize> = Vec::new();
    let mut out: Vec<String> = Vec::new();
    loop
        invariant
            n == v.len(),
            vv == strings_view(v@),
            vv.no_duplicates(),
            taken@.len() == n,
            out@.len() == sel@.len(),
            out@.len() + count_false(taken@) == n,
            forall|a: int| 0 <= a < sel.len() ==> (#[trigger] sel@[a] as int) < n && taken@[sel@[a] as int]
                && out@[a]@ == vv[sel@[a] as int],
            forall|q: int| 0 <= q < n && taken@[q] ==> #[trigger] picked(sel@, q),
            lex_sorted(strings_view(out@)),
            forall|q: int, a: int| 0 <= q < n && !taken@[q] && 0 <= a < out.len() ==> #[trigger] lex_lt(out@[a]@, vv[q]),
        ensures
            out@.len() == n,
            forall|a: int| 0 <= a < sel.len() ==> (#[trigger] sel@[a] as int) < n && out@[a]@ == vv[sel@[a] as int],
            forall|q: int| 0 <= q < n ==> #[trigger] picked(sel@, q),
            lex_sorted(strings_view(out@)),
        decreases count_false(taken@),
    {
        let mut best: usize = n;
        let mut j: usize = 0;
        while j < n
            invariant
                n == v.len(),
                vv == strings_view(v@),
                vv.no_duplicates(),
                taken@.len() == n,
                j <= n,
                best == n || (best < j && !taken@[best as int]),
                forall|q: int| 0 <= q < j && !taken@[q] ==> best < n && (q == best || lex_lt(vv[best as int], vv[q])),
            decreases n - j,
        {
            if !taken[j] {
                if best == n || text_lt(v[j].as_str(), v[best].as_str()) {
                    proof {
                        if best < n {
                            assert forall|q: int| 0 <= q < j && !taken@[q] implies (q == j || lex_lt(vv[j as int], vv[q])) by {
                                if q != best as int {
                                    lemma_lex_transitive(vv[j as int], vv[best as int], vv[q]);
                                }
                            }
                        }
                    }
                    best = j;
                } else {
                    proof {
                        assert(vv[j as int] != vv[best as int]);
                        lemma_lex_total(vv[j as int], vv[best as int]);
                    }
                }
            }
            j = j + 1;
        }
        if best == n {
            proof {
                lemma_count_false_none(taken@);
            }
            break;
        }
        let ghost before_sel = sel@;
        let ghost before_out = strings_view(out@);
        let ghost before_taken = taken@;
        proof {
            lemma_count_false_set(taken@, best as int);
        }
        taken.set(best, true);
        sel.push(best);
        out.push(v[best].clone());
        proof {
            assert(strings_view(out@) =~= before_out.push(vv[best as int]));
            assert forall|q: int| 0 <= q < n && taken@[q] implies #[trigger] picked(sel@, q) by {
                if q == best as int {
                    assert(sel@[sel.len() - 1] == q);
                } else {
                    assert(before_taken[q]);
                    assert(picked(before_sel, q));
                    let a = choose|a: int| 0 <= a < before_sel.len() && before_sel[a] == q;
                    assert(sel@[a] == q);
                }
            }
            assert forall|q: int, a: int| 0 <= q < n && !taken@[q] && 0 <= a < out.len() implies #[trigger] lex_lt(out@[a]@, vv[q]) by {
                assert(!before_taken[q]);
                if a == out.len() - 1 {
                    assert(q != best as int);
                } else {
                    assert(out@[a]@ == before_out[a]);
                }
            }
            assert forall|a: int, b: int| 0 <= a < b < out.len() implies lex_lt(#[trigger] strings_view(out@)[a], #[trigger] strings_view(out@)[b]) by {
                if b == out.len() - 1 {
                    assert(strings_view(out@)[a] == before_out[a]);
                }
            }
        }
    }
    proof {
        assert forall|x: Seq<char>| strings_view(out@).contains(x) implies vv.contains(x) by {
            let a = choose|a: int| 0 <= a < strings_view(out@).len() && strings_view(out@)[a] == x;
            assert(vv[sel@[a] as int] == x);
        }
        assert forall|x: Seq<char>| vv.contains(x) implies strings_view(out@).contains(x) by {
            let q = choose|q: int| 0 <= q < vv.len() && vv[q] == x;
            assert(picked(sel@, q));
            let a = choose|a: int| 0 <= a < sel.len() && sel@[a] == q;
            assert(strings_view(out@)[a] == x);
        }
    }
    out
}

} // verus!
