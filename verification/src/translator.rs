//! Reading a proposition graph out of a language model's answer.

use vstd::prelude::*;
use crate::dispatch::{json_array_at, json_as_text, json_member, json_member_array, json_member_value, json_string_text};
use crate::lean_kernel::{Proposition, PropositionGraph, PropositionId, PropositionRelation, RelationType};
use crate::merge::{find_from, find_text};
use crate::text::{chars_are, chars_of, concat3, owned, skip_chars, string_of, take_chars, trim, trim_chars};

verus! {

/// The instructions that ask a model to restate research as a proposition graph, without
/// judging it.
pub const DEFAULT_LEAN_PROMPT: &'static str = r#"
You are a formalization translator. Your role is to convert natural language research data into a structured proposition graph.

DO NOT verify the truth of any claim. DO NOT judge correctness.
ONLY translate what is presented into the following JSON format:

{
  "propositions": [
    {
      "pid": { "id": "P1", "content_hash": "hash_of_content", "human_readable": "Short label" },
      "content": "The full claim text",
      "source_agent_id": "agent_name",
      "confidence": 0.85
    }
  ],
  "relations": [
    {
      "from": { "id": "P1", "content_hash": "hash", "human_readable": "label" },
      "to": { "id": "P2", "content_hash": "hash", "human_readable": "label" },
      "relation_type": "Implies",
      "strength": 0.9
    }
  ],
  "source_agent_id": "agent_name",
  "timestamp": 0
}

Rules:
1. Each distinct claim becomes one Proposition.
2. Relation types: "Implies" (A logically implies B), "Contradicts" (A contradicts B), "Supports" (A provides evidence for B), "DependsOn" (B depends on A being true).
3. Assign unique IDs like P1, P2, P3...
4. content_hash should be a short hash of the content string (use sha256 first 8 chars).
5. human_readable should be a short label (max 8 words).
6. confidence reflects the source's stated confidence, not your judgment.
7. Only output valid JSON — no explanations before or after.
"#;

/// Restates research as a proposition graph through a language model; the model itself is
/// driven by the application.
#[derive(Debug, Clone)]
pub struct LeanShapedTranslator {
    prompt_template: String,
}

impl LeanShapedTranslator {
    /// A translator with the given instructions, or the default ones.
    pub fn new(prompt_template: Option<String>) -> (res: LeanShapedTranslator)
        ensures
            res.template()@ == match prompt_template {
                Some(t) => t@,
                None => DEFAULT_LEAN_PROMPT@,
            },
    {
        LeanShapedTranslator {
            prompt_template: match prompt_template {
                Some(t) => t,
                None => owned(DEFAULT_LEAN_PROMPT),
            },
        }
    }

    pub closed spec fn template(&self) -> String {
        self.prompt_template
    }

    /// The instructions given to the model.
    pub fn prompt_template(&self) -> (res: &str)
        ensures
            res@ == self.template()@,
    {
        self.prompt_template.as_str()
    }
}

/// What a translation produced: the graph, or why there is none, with the raw answer.
#[derive(Debug, Clone)]
pub struct TranslationResult {
    pub success: bool,
    pub graph: Option<PropositionGraph>,
    pub error: Option<String>,
    pub raw_response: Option<String>,
}

pub open spec fn fence_open() -> Seq<char> {
    seq!['`', '`', '`', 'j', 's', 'o', 'n']
}

pub open spec fn fence() -> Seq<char> {
    seq!['`', '`', '`']
}

/// The JSON part of an answer: what follows the first "```json" up to the next fence (or
/// the end), else everything from the first `{`; nothing where neither occurs.
pub open spec fn json_part(r: Seq<char>) -> Option<Seq<char>> {
    match find_from(r, fence_open(), 0) {
        Some(s) => {
            let content = r.skip(s + 7);
            match find_from(content, fence(), 0) {
                Some(e) => Some(content.take(e)),
                None => Some(content),
            }
        },
        None => match find_from(r, seq!['{'], 0) {
            Some(s) => Some(r.skip(s)),
            None => None,
        },
    }
}

/// The JSON value a text parses to, or the parser's message.
pub uninterp spec fn json_parse_result(text: Seq<char>) -> Result<serde_json::Value, Seq<char>>;

/// `serde_json::from_str::<Value>`: a function of the text; the error is the parser's
/// message (`Display` of `serde_json::Error`).
#[verifier::external_body]
fn parse_json(text: &str) -> (res: Result<serde_json::Value, String>)
    ensures
        match res {
            Ok(v) => json_parse_result(text@) == Ok::<serde_json::Value, Seq<char>>(v),
            Err(e) => json_parse_result(text@) == Err::<serde_json::Value, Seq<char>>(e@),
        },
{
    match serde_json::from_str::<serde_json::Value>(text) {
        Ok(v) => Ok(v),
        Err(e) => Err(e.to_string()),
    }
}

/// The current time in milliseconds since the Unix epoch (`SystemTime::now`); any value
/// may come back.
#[verifier::external_body]
fn now_millis() -> u64 {
    std::time::SystemTime::now().duration_since(std::time::UNIX_EPOCH).map(|d| d.as_millis() as u64).unwrap_or(0)
}

/// The text under a key, where it is a string.
pub open spec fn text_at(v: serde_json::Value, key: Seq<char>) -> Option<Seq<char>> {
    match json_member_value(v, key) {
        Some(x) => json_string_text(x),
        None => None,
    }
}

/// A proposition id read from a JSON object: its `id` must be a string; a missing hash or
/// label reads as empty.
pub open spec fn read_pid(v: Option<serde_json::Value>) -> Option<(Seq<char>, Seq<char>, Seq<char>)> {
    match v {
        None => None,
        Some(x) => match text_at(x, "id"@) {
            None => None,
            Some(id) => Some(
                (
                    id,
                    match text_at(x, "content_hash"@) {
                        Some(h) => h,
                        None => Seq::empty(),
                    },
                    match text_at(x, "human_readable"@) {
                        Some(h) => h,
                        None => Seq::empty(),
                    },
                ),
            ),
        },
    }
}

pub open spec fn pid_view(p: PropositionId) -> (Seq<char>, Seq<char>, Seq<char>) {
    (p.id@, p.content_hash@, p.human_readable@)
}

fn text_at_exec(v: &serde_json::Value, key: &str) -> (res: Option<String>)
    ensures
        match res {
            Some(t) => text_at(*v, key@) == Some(t@),
            None => text_at(*v, key@) is None,
        },
{
    match json_member(v, key) {
        Some(x) => json_as_text(&x),
        None => None,
    }
}

fn parse_proposition_id(value: Option<serde_json::Value>) -> (res: Option<PropositionId>)
    ensures
        match res {
            Some(p) => read_pid(value) == Some(pid_view(p)),
            None => read_pid(value) is None,
        },
{
    match value {
        None => None,
        Some(v) => match text_at_exec(&v, "id") {
            None => None,
            Some(id) => {
                let content_hash = match text_at_exec(&v, "content_hash") {
                    Some(h) => h,
                    None => String::new(),
                };
                let human_readable = match text_at_exec(&v, "human_readable") {
                    Some(h) => h,
                    None => String::new(),
                };
                Some(PropositionId { id, content_hash, human_readable })
            },
        },
    }
}

/// The relation type a name gives; any other name reads as `Supports`.
pub open spec fn relation_named(s: Option<Seq<char>>) -> RelationType {
    match s {
        Some(n) => if n == "Implies"@ {
            RelationType::Implies
        } else if n == "Contradicts"@ {
            RelationType::Contradicts
        } else if n == "Supports"@ {
            RelationType::Supports
        } else if n == "DependsOn"@ {
            RelationType::DependsOn
        } else {
            RelationType::Supports
        },
        None => RelationType::Supports,
    }
}

/// The propositions read from the items in order: those with an id and a string content.
pub open spec fn read_props(items: Seq<serde_json::Value>, agent: Seq<char>) -> Seq<((Seq<char>, Seq<char>, Seq<char>), Seq<char>, Seq<char>)>
    decreases items.len(),
{
    if items.len() == 0 {
        Seq::empty()
    } else {
        let rest = read_props(items.drop_last(), agent);
        let x = items.last();
        match (read_pid(json_member_value(x, "pid"@)), text_at(x, "content"@)) {
            (Some(pid), Some(c)) => rest.push((pid, c, agent)),
            _ => rest,
        }
    }
}

/// The relations read from the items in order: those with both ends.
pub open spec fn read_rels(items: Seq<serde_json::Value>) -> Seq<((Seq<char>, Seq<char>, Seq<char>), (Seq<char>, Seq<char>, Seq<char>), RelationType)>
    decreases items.len(),
{
    if items.len() == 0 {
        Seq::empty()
    } else {
        let rest = read_rels(items.drop_last());
        let x = items.last();
        match (read_pid(json_member_value(x, "from"@)), read_pid(json_member_value(x, "to"@))) {
            (Some(f), Some(t)) => rest.push((f, t, relation_named(text_at(x, "relation_type"@)))),
            _ => rest,
        }
    }
}

pub open spec fn props_view(p: Seq<Proposition>) -> Seq<((Seq<char>, Seq<char>, Seq<char>), Seq<char>, Seq<char>)> {
    p.map_values(|x: Proposition| (pid_view(x.pid), x.content@, x.source_agent_id@))
}

pub open spec fn rels_view(r: Seq<PropositionRelation>) -> Seq<((Seq<char>, Seq<char>, Seq<char>), (Seq<char>, Seq<char>, Seq<char>), RelationType)> {
    r.map_values(|x: PropositionRelation| (pid_view(x.from), pid_view(x.to), x.relation_type))
}

pub open spec fn items_of(v: serde_json::Value, key: Seq<char>) -> Seq<serde_json::Value> {
    match json_member_array(v, key) {
        Some(items) => items,
        None => Seq::empty(),
    }
}

/// What reading an answer gives: no JSON, a parse error, no propositions, or the graph
/// (stamped with the agent and the time of reading), always with the raw answer.
pub open spec fn translation_ok(r: Seq<char>, agent: Seq<char>, res: TranslationResult) -> bool {
    &&& res.raw_response matches Some(raw) && raw@ == r
    &&& match json_part(r) {
        None => !res.success && res.graph is None && (res.error matches Some(e) && e@ == "No JSON found in LLM response"@),
        Some(js) => match json_parse_result(trim(js)) {
            Err(m) => !res.success && res.graph is None && (res.error matches Some(e) && e@ == "JSON parse error: "@ + m + ""@),
            Ok(v) => {
                let props = read_props(items_of(v, "propositions"@), agent);
                if props.len() == 0 {
                    !res.success && res.graph is None && (res.error matches Some(e) && e@
                        == "No propositions extracted from response"@)
                } else {
                    &&& res.success
                    &&& res.error is None
                    &&& res.graph matches Some(g) && props_view(g.propositions@) == props && rels_view(g.relations@)
                        == read_rels(items_of(v, "relations"@)) && g.source_agent_id@ == agent
                }
            },
        },
    }
}

fn relation_type_of(name: Option<String>) -> (res: RelationType)
    ensures
        res == relation_named(match name {
            Some(n) => Some(n@),
            None => None,
        }),
{
    match name {
        None => RelationType::Supports,
        Some(n) => {
            let cs = chars_of(n.as_str());
            if chars_are(&cs, "Implies") {
                RelationType::Implies
            } else if chars_are(&cs, "Contradicts") {
                RelationType::Contradicts
            } else if chars_are(&cs, "Supports") {
                RelationType::Supports
            } else if chars_are(&cs, "DependsOn") {
                RelationType::DependsOn
            } else {
                RelationType::Supports
            }
        },
    }
}

fn failed(message: String, response: &str) -> (res: TranslationResult)
    ensures
        !res.success,
        res.graph is None,
        res.error == Some(message),
        res.raw_response matches Some(raw) && raw@ == response@,
{
    TranslationResult { success: false, graph: None, error: Some(message), raw_response: Some(owned(response)) }
}

impl LeanShapedTranslator {
    /// Reads the proposition graph out of a model's answer: the JSON in a "```json" fence or
    /// from the first brace; propositions need an id and a content, relations both ends.
    pub fn parse_response(response: &str, agent_id: &str) -> (res: TranslationResult)
        ensures
            translation_ok(response@, agent_id@, res),
    {
        Self::parse_response_at(response, agent_id, now_millis())
    }

    /// `parse_response` at a given time: the graph read is stamped with `now`.
    pub fn parse_response_at(response: &str, agent_id: &str, now: u64) -> (res: TranslationResult)
        ensures
            translation_ok(response@, agent_id@, res),
            res.graph matches Some(g) ==> g.timestamp == now,
    {
        let r = chars_of(response);
        let open: [char; 7] = ['`', '`', '`', 'j', 's', 'o', 'n'];
        let fence_chars: [char; 3] = ['`', '`', '`'];
        let brace: [char; 1] = ['{'];
        assert(open@ == fence_open());
        assert(fence_chars@ == fence());
        assert(brace@ == seq!['{']);
        let js: Vec<char> = match find_text(&r, &open) {
            Some(s) => {
                let n = r.len();
                assert(s + 7 <= n);
                let content = skip_chars(&r, s + 7);
                match find_text(&content, &fence_chars) {
                    Some(e) => take_chars(&content, e),
                    None => content,
                }
            },
            None => match find_text(&r, &brace) {
                Some(s) => skip_chars(&r, s),
                None => {
                    return failed(owned("No JSON found in LLM response"), response);
                },
            },
        };
        assert(json_part(response@) == Some(js@));
        let t = trim_chars(&js);
        let text = string_of(&t);
        let v = match parse_json(text.as_str()) {
            Err(m) => {
                return failed(concat3("JSON parse error: ", m.as_str(), ""), response);
            },
            Ok(v) => v,
        };
        let mut propositions: Vec<Proposition> = Vec::new();
        let props = match json_array_at(&v, "propositions") {
            Some(items) => items,
            None => Vec::new(),
        };
        assert(props@ == items_of(v, "propositions"@));
        let mut i: usize = 0;
        while i < props.len()
            invariant
                i <= props.len(),
                props_view(propositions@) == read_props(props@.take(i as int), agent_id@),
            decreases props.len() - i,
        {
            assert(props@.take(i + 1).drop_last() == props@.take(i as int));
            let pid = parse_proposition_id(json_member(&props[i], "pid"));
            let content = text_at_exec(&props[i], "content");
            match (pid, content) {
                (Some(pid), Some(c)) => {
                    let ghost before = props_view(propositions@);
                    let p = Proposition { pid, content: c, source_agent_id: owned(agent_id) };
                    propositions.push(p);
                    assert(props_view(propositions@) =~= before.push((pid_view(p.pid), p.content@, agent_id@)));
                },
                _ => {},
            }
            i = i + 1;
        }
        assert(props@.take(props.len() as int) == props@);
        let mut relations: Vec<PropositionRelation> = Vec::new();
        let rels = match json_array_at(&v, "relations") {
            Some(items) => items,
            None => Vec::new(),
        };
        assert(rels@ == items_of(v, "relations"@));
        let mut k: usize = 0;
        while k < rels.len()
            invariant
                k <= rels.len(),
                rels_view(relations@) == read_rels(rels@.take(k as int)),
            decreases rels.len() - k,
        {
            assert(rels@.take(k + 1).drop_last() == rels@.take(k as int));
            let from = parse_proposition_id(json_member(&rels[k], "from"));
            let to = parse_proposition_id(json_member(&rels[k], "to"));
            match (from, to) {
                (Some(f), Some(t)) => {
                    let rt = relation_type_of(text_at_exec(&rels[k], "relation_type"));
                    let ghost before = rels_view(relations@);
                    let rel = PropositionRelation { from: f, to: t, relation_type: rt };
                    relations.push(rel);
                    assert(rels_view(relations@) =~= before.push((pid_view(rel.from), pid_view(rel.to), rt)));
                },
                _ => {},
            }
            k = k + 1;
        }
        assert(rels@.take(rels.len() as int) == rels@);
        if propositions.len() == 0 {
            return failed(owned("No propositions extracted from response"), response);
        }
        let graph = PropositionGraph {
            propositions,
            relations,
            source_agent_id: owned(agent_id),
            timestamp: now,
        };
        TranslationResult { success: true, graph: Some(graph), error: None, raw_response: Some(owned(response)) }
    }
}

/// The type a relation of the given type name is read with, as the names are written.
proof fn lemma_relation_named_exactly(n: Seq<char>)
    ensures
        n == "Implies"@ ==> relation_named(Some(n)) == RelationType::Implies,
        n == "Contradicts"@ ==> relation_named(Some(n)) == RelationType::Contradicts,
        n == "Supports"@ ==> relation_named(Some(n)) == RelationType::Supports,
        n == "DependsOn"@ ==> relation_named(Some(n)) == RelationType::DependsOn,
{
    reveal_strlit("Implies");
    reveal_strlit("Contradicts");
    reveal_strlit("Supports");
    reveal_strlit("DependsOn");
    assert("Contradicts"@ != "Implies"@) by {
        assert("Contradicts"@[0] != "Implies"@[0]);
    }
    assert("Supports"@ != "Implies"@ && "Supports"@ != "Contradicts"@) by {
        assert("Supports"@[0] != "Implies"@[0]);
        assert("Supports"@[0] != "Contradicts"@[0]);
    }
    assert("DependsOn"@ != "Implies"@ && "DependsOn"@ != "Contradicts"@ && "DependsOn"@ != "Supports"@) by {
        assert("DependsOn"@[0] != "Implies"@[0]);
        assert("DependsOn"@[0] != "Contradicts"@[0]);
        assert("DependsOn"@[0] != "Supports"@[0]);
    }
}

/// Every relation item whose two ends can be read gives a relation between them, of the type
/// its `relation_type` names: each of `Implies`, `Contradicts`, `Supports` and `DependsOn`
/// its own type, and any other name, or none, `Supports`.
pub proof fn lemma_relations_keep_their_types(items: Seq<serde_json::Value>)
    ensures
        forall|k: int|
            #![trigger items[k]]
            0 <= k < items.len() && read_pid(json_member_value(items[k], "from"@)) is Some && read_pid(
                json_member_value(items[k], "to"@),
            ) is Some ==> {
                let f = read_pid(json_member_value(items[k], "from"@))->0;
                let t = read_pid(json_member_value(items[k], "to"@))->0;
                let name = text_at(items[k], "relation_type"@);
                &&& name == Some("Implies"@) ==> read_rels(items).contains((f, t, RelationType::Implies))
                &&& name == Some("Contradicts"@) ==> read_rels(items).contains((f, t, RelationType::Contradicts))
                &&& name == Some("Supports"@) ==> read_rels(items).contains((f, t, RelationType::Supports))
                &&& name == Some("DependsOn"@) ==> read_rels(items).contains((f, t, RelationType::DependsOn))
                &&& !(name == Some("Implies"@) || name == Some("Contradicts"@) || name == Some("Supports"@) || name
                    == Some("DependsOn"@)) ==> read_rels(items).contains((f, t, RelationType::Supports))
            },
    decreases items.len(),
{
    if items.len() > 0 {
        let d = items.drop_last();
        lemma_relations_keep_their_types(d);
        let rest = read_rels(d);
        let r = read_rels(items);
        assert forall|e: ((Seq<char>, Seq<char>, Seq<char>), (Seq<char>, Seq<char>, Seq<char>), RelationType)|
            rest.contains(e) implies r.contains(e) by {
            let p = choose|p: int| 0 <= p < rest.len() && rest[p] == e;
            assert(r[p] == e);
        }
        let x = items.last();
        match (read_pid(json_member_value(x, "from"@)), read_pid(json_member_value(x, "to"@))) {
            (Some(f), Some(t)) => {
                let ty = relation_named(text_at(x, "relation_type"@));
                assert(r == rest.push((f, t, ty)));
                assert(r[rest.len() as int] == (f, t, ty));
                assert(r.contains((f, t, ty)));
                match text_at(x, "relation_type"@) {
                    Some(n) => lemma_relation_named_exactly(n),
                    None => {},
                }
            },
            _ => {},
        }
        assert forall|k: int| 0 <= k < items.len() - 1 implies #[trigger] items[k] == d[k] by {}
    }
}

} // verus!
