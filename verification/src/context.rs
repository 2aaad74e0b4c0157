//! Layered context fragments that agents see, and how two sets of them differ.

use vstd::prelude::*;
use crate::block_id::{hex_text, sha256_of_text, sha256_text};
use crate::text::{concat3, contains_string, lex_sorted, sort_texts, strings_view};

verus! {

#[derive(Debug, Clone, Copy, PartialEq, Eq, Hash, Structural)]
pub enum ContextLayer {
    System,
    Note,
    Session,
    Project,
    Transient,
}

#[derive(Debug, Clone, Copy, PartialEq, Eq, Hash, Structural)]
pub enum ContextSource {
    User,
    Note,
    System,
    RAG,
    Agent,
    Pipeline,
}

/// One piece of context, keyed and content-hashed.
#[derive(Debug, Clone)]
pub struct ContextFragment {
    pub id: String,
    pub key: String,
    pub value: serde_json::Value,
    pub source: ContextSource,
    pub layer: ContextLayer,
    pub created_at: u64,
    pub ttl: Option<u64>,
    pub hash: String,
}

/// A reference to a fragment by key, layer and hash.
#[derive(Debug, Clone)]
pub struct ContextRef {
    pub key: String,
    pub layer: ContextLayer,
    pub hash: String,
}

#[derive(Debug, Clone, Copy, PartialEq, Eq, Structural)]
pub enum ChangeOp {
    Added,
    Modified,
    Removed,
}

/// The JSON text of a value, as `serde_json` writes it compactly.
pub uninterp spec fn json_text_of(v: serde_json::Value) -> Seq<char>;

/// `serde_json::to_string` of a value, or the empty text where it fails: a function of the
/// value alone (objects are written with their keys in order).
#[verifier::external_body]
fn json_text(v: &serde_json::Value) -> (res: String)
    ensures
        res@ == json_text_of(*v),
{
    serde_json::to_string(v).unwrap_or_default()
}

/// Lowercase hex of every byte, in order.
fn hex_all(bytes: &[u8]) -> (res: String)
    ensures
        res@ == hex_text(bytes@),
{
    let mut out: Vec<char> = Vec::new();
    let mut i: usize = 0;
    while i < bytes.len()
        invariant
            i <= bytes.len(),
            out@ == hex_text(bytes@.take(i as int)),
        decreases bytes.len() - i,
    {
        assert(bytes@.take(i + 1).drop_last() == bytes@.take(i as int));
        let b = bytes[i];
        out.push(hex_char(b / 16));
        out.push(hex_char(b % 16));
        i = i + 1;
    }
    assert(bytes@.take(bytes.len() as int) == bytes@);
    crate::text::string_of(&out)
}

fn hex_char(n: u8) -> (res: char)
    requires
        n < 16,
    ensures
        res == crate::block_id::hex_digit(n as int),
{
    if n < 10 {
        (('0' as u8) + n) as char
    } else {
        (('a' as u8) + n - 10) as char
    }
}

/// The hash of a fragment: SHA-256 over the key followed by the value's JSON text, in hex.
pub open spec fn fragment_hash(key: Seq<char>, value: serde_json::Value) -> Seq<char> {
    hex_text(sha256_of_text(key + json_text_of(value)))
}

impl ContextFragment {
    /// The content hash of a key and value.
    pub fn compute_hash(key: &str, value: &serde_json::Value) -> (res: String)
        ensures
            res@ == fragment_hash(key@, *value),
    {
        let j = json_text(value);
        let joined = concat3(key, j.as_str(), "");
        assert(joined@ == key@ + json_text_of(*value)) by {
            reveal_strlit("");
            assert(key@ + json_text_of(*value) + ""@ =~= key@ + json_text_of(*value));
        }
        let digest = sha256_text(joined.as_str());
        hex_all(digest.as_slice())
    }

    /// The name of the fragment's layer.
    pub fn layer_name(&self) -> (res: &'static str)
        ensures
            res@ == layer_name_of(self.layer),
    {
        match self.layer {
            ContextLayer::System => "System",
            ContextLayer::Note => "Note",
            ContextLayer::Session => "Session",
            ContextLayer::Project => "Project",
            ContextLayer::Transient => "Transient",
        }
    }
}

pub open spec fn layer_name_of(l: ContextLayer) -> Seq<char> {
    match l {
        ContextLayer::System => "System"@,
        ContextLayer::Note => "Note"@,
        ContextLayer::Session => "Session"@,
        ContextLayer::Project => "Project"@,
        ContextLayer::Transient => "Transient"@,
    }
}


/// The key and hash of each fragment, in order.
pub open spec fn entries_of(f: Seq<ContextFragment>) -> Seq<(Seq<char>, Seq<char>)> {
    f.map_values(|x: ContextFragment| (x.key@, x.hash@))
}

/// The keys of keyed hashes, in order.
pub open spec fn keys_of(e: Seq<(Seq<char>, Seq<char>)>) -> Seq<Seq<char>> {
    e.map_values(|x: (Seq<char>, Seq<char>)| x.0)
}

/// The keys without repeats, first occurrence first.
pub open spec fn distinct_keys(k: Seq<Seq<char>>) -> Seq<Seq<char>>
    decreases k.len(),
{
    if k.len() == 0 {
        Seq::empty()
    } else {
        let r = distinct_keys(k.drop_last());
        if r.contains(k.last()) {
            r
        } else {
            r.push(k.last())
        }
    }
}

/// The hash last given to the key (a later fragment replaces an earlier one).
pub open spec fn last_hash(e: Seq<(Seq<char>, Seq<char>)>, key: Seq<char>) -> Option<Seq<char>>
    decreases e.len(),
{
    if e.len() == 0 {
        None
    } else if e.last().0 == key {
        Some(e.last().1)
    } else {
        last_hash(e.drop_last(), key)
    }
}

/// The key was added, removed, or its hash changed.
pub open spec fn key_changed(prev: Seq<(Seq<char>, Seq<char>)>, curr: Seq<(Seq<char>, Seq<char>)>, key: Seq<char>) -> bool {
    match (last_hash(prev, key), last_hash(curr, key)) {
        (Some(a), Some(b)) => a != b,
        (None, None) => false,
        _ => true,
    }
}

/// How many of the keys changed.
pub open spec fn changed_count(
    prev: Seq<(Seq<char>, Seq<char>)>,
    curr: Seq<(Seq<char>, Seq<char>)>,
    keys: Seq<Seq<char>>,
) -> nat
    decreases keys.len(),
{
    if keys.len() == 0 {
        0
    } else {
        changed_count(prev, curr, keys.drop_last()) + if key_changed(prev, curr, keys.last()) {
            1nat
        } else {
            0nat
        }
    }
}

/// Every key that occurs on either side, once.
pub open spec fn all_keys(prev: Seq<(Seq<char>, Seq<char>)>, curr: Seq<(Seq<char>, Seq<char>)>) -> Seq<Seq<char>> {
    distinct_keys(keys_of(prev) + keys_of(curr))
}

pub open spec fn keyed_view(v: Seq<(String, String)>) -> Seq<(Seq<char>, Seq<char>)> {
    v.map_values(|p: (String, String)| (p.0@, p.1@))
}

fn last_hash_exec(e: &Vec<(String, String)>, key: &String) -> (res: Option<String>)
    ensures
        match res {
            Some(h) => last_hash(keyed_view(e@), key@) == Some(h@),
            None => last_hash(keyed_view(e@), key@) is None,
        },
{
    let ghost ev = keyed_view(e@);
    let mut k = e.len();
    assert(ev.take(k as int) == ev);
    while k > 0
        invariant
            k <= e.len(),
            ev == keyed_view(e@),
            last_hash(ev, key@) == last_hash(ev.take(k as int), key@),
        decreases k,
    {
        assert(ev.take(k as int).drop_last() == ev.take(k - 1));
        if e[k - 1].0 == *key {
            return Some(e[k - 1].1.clone());
        }
        k = k - 1;
    }
    None
}

fn push_distinct(out: &mut Vec<String>, e: &Vec<(String, String)>, Ghost(base): Ghost<Seq<Seq<char>>>)
    requires
        strings_view(old(out)@) == distinct_keys(base),
    ensures
        strings_view(final(out)@) == distinct_keys(base + keys_of(keyed_view(e@))),
{
    let ghost kv = keys_of(keyed_view(e@));
    let mut i: usize = 0;
    while i < e.len()
        invariant
            i <= e.len(),
            kv == keys_of(keyed_view(e@)),
            strings_view(out@) == distinct_keys(base + kv.take(i as int)),
        decreases e.len() - i,
    {
        assert((base + kv.take(i + 1)).drop_last() == base + kv.take(i as int));
        assert((base + kv.take(i + 1)).last() == e@[i as int].0@);
        if !contains_string(out, &e[i].0) {
            let ghost before = strings_view(out@);
            out.push(e[i].0.clone());
            assert(strings_view(out@) == before.push(e@[i as int].0@));
        }
        i = i + 1;
    }
    assert(kv.take(e.len() as int) == kv);
}

/// How many keys differ between two lists of keyed hashes, and how many keys there are in
/// all.
pub fn keyed_change_counts(prev: &Vec<(String, String)>, curr: &Vec<(String, String)>) -> (res: (usize, usize))
    ensures
        res.0 == changed_count(keyed_view(prev@), keyed_view(curr@), all_keys(keyed_view(prev@), keyed_view(curr@))),
        res.1 == all_keys(keyed_view(prev@), keyed_view(curr@)).len(),
{
    let mut keys: Vec<String> = Vec::new();
    assert(strings_view(keys@) == distinct_keys(Seq::<Seq<char>>::empty()));
    push_distinct(&mut keys, prev, Ghost(Seq::empty()));
    assert(Seq::<Seq<char>>::empty() + keys_of(keyed_view(prev@)) == keys_of(keyed_view(prev@)));
    push_distinct(&mut keys, curr, Ghost(keys_of(keyed_view(prev@))));
    let ghost kv = strings_view(keys@);
    let mut changed: usize = 0;
    let mut i: usize = 0;
    while i < keys.len()
        invariant
            i <= keys.len(),
            kv == strings_view(keys@),
            changed <= i,
            changed == changed_count(keyed_view(prev@), keyed_view(curr@), kv.take(i as int)),
        decreases keys.len() - i,
    {
        assert(kv.take(i + 1).drop_last() == kv.take(i as int));
        let a = last_hash_exec(prev, &keys[i]);
        let b = last_hash_exec(curr, &keys[i]);
        let differs = match (&a, &b) {
            (Some(x), Some(y)) => !(*x == *y),
            (None, None) => false,
            _ => true,
        };
        if differs {
            changed = changed + 1;
        }
        i = i + 1;
    }
    assert(kv.take(keys.len() as int) == kv);
    (changed, keys.len())
}

/// The key and hash of each fragment.
pub fn fragment_entries(f: &Vec<ContextFragment>) -> (res: Vec<(String, String)>)
    ensures
        keyed_view(res@) == entries_of(f@),
{
    let mut out: Vec<(String, String)> = Vec::new();
    let mut i: usize = 0;
    while i < f.len()
        invariant
            i <= f.len(),
            keyed_view(out@) == entries_of(f@).take(i as int),
        decreases f.len() - i,
    {
        let ghost before = keyed_view(out@);
        let k = f[i].key.clone();
        let h = f[i].hash.clone();
        out.push((k, h));
        assert(keyed_view(out@) == before.push((f@[i as int].key@, f@[i as int].hash@)));
        assert(entries_of(f@).take(i + 1) == entries_of(f@).take(i as int).push((f@[i as int].key@, f@[i as int].hash@)));
        i = i + 1;
    }
    assert(entries_of(f@).take(f.len() as int) == entries_of(f@));
    out
}

/// How many keys differ between two sets of fragments, and how many keys there are in all;
/// their ratio is the drift between the two.
pub fn context_change_counts(prev: &Vec<ContextFragment>, curr: &Vec<ContextFragment>) -> (res: (usize, usize))
    ensures
        res.0 == changed_count(entries_of(prev@), entries_of(curr@), all_keys(entries_of(prev@), entries_of(curr@))),
        res.1 == all_keys(entries_of(prev@), entries_of(curr@)).len(),
{
    let a = fragment_entries(prev);
    let b = fragment_entries(curr);
    keyed_change_counts(&a, &b)
}


/// No more keys change than there are.
pub proof fn lemma_changed_count_bound(
    prev: Seq<(Seq<char>, Seq<char>)>,
    curr: Seq<(Seq<char>, Seq<char>)>,
    keys: Seq<Seq<char>>,
)
    ensures
        changed_count(prev, curr, keys) <= keys.len(),
    decreases keys.len(),
{
    if keys.len() > 0 {
        lemma_changed_count_bound(prev, curr, keys.drop_last());
    }
}

/// The keys without repeats hold no repeats.
pub proof fn lemma_distinct_keys_distinct(k: Seq<Seq<char>>)
    ensures
        distinct_keys(k).no_duplicates(),
        forall|x: Seq<char>| distinct_keys(k).contains(x) <==> k.contains(x),
    decreases k.len(),
{
    if k.len() > 0 {
        let d = k.drop_last();
        lemma_distinct_keys_distinct(d);
        let r = distinct_keys(d);
        assert forall|x: Seq<char>| d.contains(x) implies k.contains(x) by {
            let i = choose|i: int| 0 <= i < d.len() && d[i] == x;
            assert(k[i] == x);
        }
        assert forall|x: Seq<char>| k.contains(x) implies (d.contains(x) || x == k.last()) by {
            let i = choose|i: int| 0 <= i < k.len() && k[i] == x;
            if i < k.len() - 1 {
                assert(d[i] == x);
            }
        }
        if !r.contains(k.last()) {
            crate::link_graph::lemma_push_contains(r, k.last(), k.last());
            assert forall|x: Seq<char>| r.push(k.last()).contains(x) <==> (r.contains(x) || x == k.last()) by {
                crate::link_graph::lemma_push_contains(r, k.last(), x);
            }
        }
    }
}

/// The fragment last given the key (a later fragment replaces an earlier one).
pub open spec fn last_fragment(fs: Seq<ContextFragment>, key: Seq<char>) -> Option<ContextFragment>
    decreases fs.len(),
{
    if fs.len() == 0 {
        None
    } else if fs.last().key@ == key {
        Some(fs.last())
    } else {
        last_fragment(fs.drop_last(), key)
    }
}

/// A change of one key: the key, what happened, and the values before and after.
pub struct ChangeView {
    pub key: Seq<char>,
    pub op: ChangeOp,
    pub old_value: Option<serde_json::Value>,
    pub new_value: Option<serde_json::Value>,
}

/// What changed of a key between two sets of fragments: added, removed, or modified where its
/// hash differs; nothing where it is on neither side or its hash is the same.
pub open spec fn change_of(prev: Seq<ContextFragment>, curr: Seq<ContextFragment>, key: Seq<char>) -> Option<ChangeView> {
    match (last_fragment(prev, key), last_fragment(curr, key)) {
        (None, Some(c)) => Some(ChangeView { key, op: ChangeOp::Added, old_value: None, new_value: Some(c.value) }),
        (Some(p), None) => Some(ChangeView { key, op: ChangeOp::Removed, old_value: Some(p.value), new_value: None }),
        (Some(p), Some(c)) => if p.hash@ != c.hash@ {
            Some(ChangeView { key, op: ChangeOp::Modified, old_value: Some(p.value), new_value: Some(c.value) })
        } else {
            None
        },
        (None, None) => None,
    }
}

/// The changes of the keys, in their order.
pub open spec fn changes_over(prev: Seq<ContextFragment>, curr: Seq<ContextFragment>, keys: Seq<Seq<char>>) -> Seq<ChangeView>
    decreases keys.len(),
{
    if keys.len() == 0 {
        Seq::empty()
    } else {
        let rest = changes_over(prev, curr, keys.drop_last());
        match change_of(prev, curr, keys.last()) {
            Some(c) => rest.push(c),
            None => rest,
        }
    }
}

/// One key's change.
#[derive(Debug, Clone)]
pub struct ContextFragmentChange {
    pub key: String,
    pub op: ChangeOp,
    pub old_value: Option<serde_json::Value>,
    pub new_value: Option<serde_json::Value>,
}

pub open spec fn change_view(c: ContextFragmentChange) -> ChangeView {
    ChangeView { key: c.key@, op: c.op, old_value: c.old_value, new_value: c.new_value }
}

/// How two sets of fragments differ: both sets, the changes by key in key order, and how many
/// keys there are in all (the drift is the share of keys that changed).
#[derive(Debug, Clone)]
pub struct ContextDiff {
    pub prev: Vec<ContextFragment>,
    pub curr: Vec<ContextFragment>,
    pub changed: Vec<ContextFragmentChange>,
    pub key_count: usize,
}

/// The last fragment with the key.
fn last_fragment_exec(fs: &Vec<ContextFragment>, key: &String) -> (res: Option<usize>)
    ensures
        match res {
            Some(i) => i < fs.len() && last_fragment(fs@, key@) == Some(fs@[i as int]),
            None => last_fragment(fs@, key@) is None,
        },
{
    let mut k = fs.len();
    assert(fs@.take(k as int) == fs@);
    while k > 0
        invariant
            k <= fs.len(),
            last_fragment(fs@, key@) == last_fragment(fs@.take(k as int), key@),
        decreases k,
    {
        assert(fs@.take(k as int).drop_last() == fs@.take(k - 1));
        if fs[k - 1].key == *key {
            return Some(k - 1);
        }
        k = k - 1;
    }
    None
}

fn copy_value(v: &serde_json::Value) -> (res: serde_json::Value)
    ensures
        res == *v,
{
    v.clone()
}

impl ContextDiff {
    /// Compares two sets of fragments key by key, in key order: a key only after is added,
    /// only before is removed, and on both sides with different hashes is modified; a later
    /// fragment with a key replaces an earlier one.
    pub fn compute(prev: Vec<ContextFragment>, curr: Vec<ContextFragment>) -> (res: ContextDiff)
        ensures
            res.prev@ == prev@,
            res.curr@ == curr@,
            exists|ks: Seq<Seq<char>>| {
                &&& #[trigger] lex_sorted(ks)
                &&& forall|x: Seq<char>| ks.contains(x) <==> all_keys(entries_of(prev@), entries_of(curr@)).contains(x)
                &&& res.changed@.map_values(|c: ContextFragmentChange| change_view(c)) == changes_over(prev@, curr@, ks)
                &&& res.key_count == ks.len()
            },
    {
        let a = fragment_entries(&prev);
        let b = fragment_entries(&curr);
        let mut keys: Vec<String> = Vec::new();
        assert(strings_view(keys@) == distinct_keys(Seq::<Seq<char>>::empty()));
        push_distinct(&mut keys, &a, Ghost(Seq::empty()));
        assert(Seq::<Seq<char>>::empty() + keys_of(keyed_view(a@)) == keys_of(keyed_view(a@)));
        push_distinct(&mut keys, &b, Ghost(keys_of(keyed_view(a@))));
        proof {
            lemma_distinct_keys_distinct(keys_of(entries_of(prev@)) + keys_of(entries_of(curr@)));
        }
        let sorted = sort_texts(&keys);
        let ghost ks = strings_view(sorted@);
        let mut changed: Vec<ContextFragmentChange> = Vec::new();
        let mut i: usize = 0;
        while i < sorted.len()
            invariant
                i <= sorted.len(),
                ks == strings_view(sorted@),
                changed@.map_values(|c: ContextFragmentChange| change_view(c)) == changes_over(prev@, curr@, ks.take(i as int)),
            decreases sorted.len() - i,
        {
            assert(ks.take(i + 1).drop_last() == ks.take(i as int));
            assert(ks.take(i + 1).last() == sorted@[i as int]@);
            let key = &sorted[i];
            let ghost before = changed@.map_values(|c: ContextFragmentChange| change_view(c));
            match (last_fragment_exec(&prev, key), last_fragment_exec(&curr, key)) {
                (None, Some(c)) => {
                    changed.push(ContextFragmentChange {
                        key: key.clone(),
                        op: ChangeOp::Added,
                        old_value: None,
                        new_value: Some(copy_value(&curr[c].value)),
                    });
                    assert(changed@.map_values(|c: ContextFragmentChange| change_view(c)) =~= before.push(change_of(prev@, curr@, key@)->0));
                },
                (Some(p), None) => {
                    changed.push(ContextFragmentChange {
                        key: key.clone(),
                        op: ChangeOp::Removed,
                        old_value: Some(copy_value(&prev[p].value)),
                        new_value: None,
                    });
                    assert(changed@.map_values(|c: ContextFragmentChange| change_view(c)) =~= before.push(change_of(prev@, curr@, key@)->0));
                },
                (Some(p), Some(c)) => {
                    if !(prev[p].hash == curr[c].hash) {
                        changed.push(ContextFragmentChange {
                            key: key.clone(),
                            op: ChangeOp::Modified,
                            old_value: Some(copy_value(&prev[p].value)),
                            new_value: Some(copy_value(&curr[c].value)),
                        });
                        assert(changed@.map_values(|c: ContextFragmentChange| change_view(c)) =~= before.push(change_of(prev@, curr@, key@)->0));
                    }
                },
                (None, None) => {},
            }
            i = i + 1;
        }
        assert(ks.take(sorted.len() as int) == ks);
        let key_count = sorted.len();
        proof {
            assert forall|x: Seq<char>| ks.contains(x) <==> all_keys(entries_of(prev@), entries_of(curr@)).contains(x) by {}
        }
        ContextDiff { prev, curr, changed, key_count }
    }
}

} // verus!
