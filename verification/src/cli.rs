//! Parser for slash commands such as `/agent search --query "..." --top-k 10`.
//!
//! Grammar: `/agent <verb> [--flag value] [--flag=value] [[positional]] ["quoted"] [word]`,
//! or the same with `/` in place of `/agent `.

use vstd::prelude::*;
use crate::text::{
    all_ascii, ascii_lower, chars_of, has_prefix, is_whitespace, is_ws, lemma_skip_ws_bounds, lowercase_of,
    owned, parse_usize, parse_usize_spec, seq_eq, skip_chars, skip_ws, starts_with, string_of, take_chars,
    to_lowercase, trim, trim_chars,
};

verus! {

/// Layout of a summary.
#[derive(Debug, Clone, Copy, PartialEq, Eq, Structural)]
pub enum SummarizeStyle {
    Bullet,
    Paragraph,
    Outline,
}

/// Depth of an explanation.
#[derive(Debug, Clone, Copy, PartialEq, Eq, Structural)]
pub enum ExplainLevel {
    Beginner,
    Intermediate,
    Expert,
}

/// A typed agent command.
#[derive(Debug, Clone)]
pub enum CliCommand {
    Search { query: String, top_k: usize },
    Summarize { target: String, style: SummarizeStyle },
    FetchPapers { topic: String, max: usize, link_to: Option<String> },
    DeepDive { concept: String, depth: usize },
    Explain { concept: String, level: ExplainLevel },
    DiffReview,
    Status,
    Config { model: Option<String> },
    Dream,
    DeepResearch { question: String, max_iterations: Option<usize> },
    /// Dispatched programmatically, never produced by `parse`.
    Custom(String),
    /// Dispatched by the command-card pipeline, never produced by `parse`.
    CustomCard {
        prompt: String,
        params: Option<Vec<(String, String)>>,
        card_type: Option<String>,
        card_id: Option<String>,
    },
}

/// Why a command line was refused.
#[derive(Debug, Clone)]
pub enum CliParseError {
    UnknownCommand(String),
    MissingParam(String),
    InvalidParam(String),
    ParseError(String),
}

/// A command with its text as character sequences.
pub enum CliCommandView {
    Search { query: Seq<char>, top_k: usize },
    Summarize { target: Seq<char>, style: SummarizeStyle },
    FetchPapers { topic: Seq<char>, max: usize, link_to: Option<Seq<char>> },
    DeepDive { concept: Seq<char>, depth: usize },
    Explain { concept: Seq<char>, level: ExplainLevel },
    DiffReview,
    Status,
    Config { model: Option<Seq<char>> },
    Dream,
    DeepResearch { question: Seq<char>, max_iterations: Option<usize> },
    Custom(Seq<char>),
    CustomCard {
        prompt: Seq<char>,
        params: Option<Seq<(Seq<char>, Seq<char>)>>,
        card_type: Option<Seq<char>>,
        card_id: Option<Seq<char>>,
    },
}

/// A parse error with its text as a character sequence.
pub enum CliParseErrorView {
    UnknownCommand(Seq<char>),
    MissingParam(Seq<char>),
    InvalidParam(Seq<char>),
    ParseError(Seq<char>),
}

pub open spec fn opt_str_view(o: Option<String>) -> Option<Seq<char>> {
    match o {
        Some(s) => Some(s@),
        None => None,
    }
}

pub open spec fn pairs_view(v: Seq<(String, String)>) -> Seq<(Seq<char>, Seq<char>)> {
    v.map_values(|p: (String, String)| (p.0@, p.1@))
}

impl View for CliCommand {
    type V = CliCommandView;

    open spec fn view(&self) -> CliCommandView {
        match self {
            CliCommand::Search { query, top_k } => CliCommandView::Search {
                query: query@,
                top_k: *top_k,
            },
            CliCommand::Summarize { target, style } => CliCommandView::Summarize {
                target: target@,
                style: *style,
            },
            CliCommand::FetchPapers { topic, max, link_to } => CliCommandView::FetchPapers {
                topic: topic@,
                max: *max,
                link_to: opt_str_view(*link_to),
            },
            CliCommand::DeepDive { concept, depth } => CliCommandView::DeepDive {
                concept: concept@,
                depth: *depth,
            },
            CliCommand::Explain { concept, level } => CliCommandView::Explain {
                concept: concept@,
                level: *level,
            },
            CliCommand::DiffReview => CliCommandView::DiffReview,
            CliCommand::Status => CliCommandView::Status,
            CliCommand::Config { model } => CliCommandView::Config { model: opt_str_view(*model) },
            CliCommand::Dream => CliCommandView::Dream,
            CliCommand::DeepResearch { question, max_iterations } => CliCommandView::DeepResearch {
                question: question@,
                max_iterations: *max_iterations,
            },
            CliCommand::Custom(s) => CliCommandView::Custom(s@),
            CliCommand::CustomCard { prompt, params, card_type, card_id } => CliCommandView::CustomCard {
                prompt: prompt@,
                params: match params {
                    Some(p) => Some(pairs_view(p@)),
                    None => None,
                },
                card_type: opt_str_view(*card_type),
                card_id: opt_str_view(*card_id),
            },
        }
    }
}

impl View for CliParseError {
    type V = CliParseErrorView;

    open spec fn view(&self) -> CliParseErrorView {
        match self {
            CliParseError::UnknownCommand(s) => CliParseErrorView::UnknownCommand(s@),
            CliParseError::MissingParam(s) => CliParseErrorView::MissingParam(s@),
            CliParseError::InvalidParam(s) => CliParseErrorView::InvalidParam(s@),
            CliParseError::ParseError(s) => CliParseErrorView::ParseError(s@),
        }
    }
}

pub open spec fn parse_result_view(r: Result<CliCommand, CliParseError>) -> Result<
    CliCommandView,
    CliParseErrorView,
> {
    match r {
        Ok(c) => Ok(c@),
        Err(e) => Err(e@),
    }
}

// ---------------------------------------------------------------------------------------------
// The token grammar, one scanner per token kind. Each returns the token and the index after it.
// ---------------------------------------------------------------------------------------------

/// A quoted value whose opening quote ends just before `j`: up to the closing quote (which is
/// consumed) or the end; `\x` stands for `x`.
pub open spec fn scan_quoted(cs: Seq<char>, j: int) -> (Seq<char>, int)
    decreases cs.len() - j,
{
    if j < 0 || j >= cs.len() {
        (Seq::empty(), j)
    } else if cs[j] == '"' {
        (Seq::empty(), j + 1)
    } else if cs[j] == '\\' && j + 1 < cs.len() {
        let r = scan_quoted(cs, j + 2);
        (seq![cs[j + 1]] + r.0, r.1)
    } else {
        let r = scan_quoted(cs, j + 1);
        (seq![cs[j]] + r.0, r.1)
    }
}

/// A bare word from `j`: up to white space or the end, and also up to `=` when `stop_eq`.
pub open spec fn scan_word(cs: Seq<char>, j: int, stop_eq: bool) -> (Seq<char>, int)
    decreases cs.len() - j,
{
    if j < 0 || j >= cs.len() || is_ws(cs[j]) || (stop_eq && cs[j] == '=') {
        (Seq::empty(), j)
    } else {
        let r = scan_word(cs, j + 1, stop_eq);
        (seq![cs[j]] + r.0, r.1)
    }
}

/// A wiki-link target from `j` (just after `[[`): up to `]` or the end.
pub open spec fn scan_link(cs: Seq<char>, j: int) -> (Seq<char>, int)
    decreases cs.len() - j,
{
    if j < 0 || j >= cs.len() || cs[j] == ']' {
        (Seq::empty(), j)
    } else {
        let r = scan_link(cs, j + 1);
        (seq![cs[j]] + r.0, r.1)
    }
}

/// The index after the (up to two) closing brackets of a wiki link whose target ends at `k`.
pub open spec fn link_end(cs: Seq<char>, k: int) -> int {
    let k2 = if k < cs.len() { k + 1 } else { k };
    if k2 < cs.len() && cs[k2] == ']' {
        k2 + 1
    } else {
        k2
    }
}

/// The value of a flag whose name ends at `i`: `=value`, `="value"`, ` value` or ` "value"`;
/// a value written as a wiki link, `[[My Note]]`, is read as its one link target.
pub open spec fn scan_flag_value(cs: Seq<char>, i: int) -> (Seq<char>, int) {
    let j = if 0 <= i < cs.len() && cs[i] == '=' {
        i + 1
    } else {
        skip_ws(cs, i)
    };
    if 0 <= j < cs.len() && cs[j] == '"' {
        scan_quoted(cs, j + 1)
    } else if 0 <= j && j + 1 < cs.len() && cs[j] == '[' && cs[j + 1] == '[' {
        let t = scan_link(cs, j + 2);
        (t.0, link_end(cs, t.1))
    } else {
        scan_word(cs, j, false)
    }
}

pub proof fn lemma_scan_quoted(cs: Seq<char>, j: int)
    requires
        0 <= j <= cs.len(),
    ensures
        j <= scan_quoted(cs, j).1 <= cs.len(),
    decreases cs.len() - j,
{
    if j < cs.len() && cs[j] != '"' {
        if cs[j] == '\\' && j + 1 < cs.len() {
            lemma_scan_quoted(cs, j + 2);
        } else {
            lemma_scan_quoted(cs, j + 1);
        }
    }
}

pub proof fn lemma_scan_word(cs: Seq<char>, j: int, stop_eq: bool)
    requires
        0 <= j <= cs.len(),
    ensures
        j <= scan_word(cs, j, stop_eq).1 <= cs.len(),
        j < cs.len() && !is_ws(cs[j]) && !(stop_eq && cs[j] == '=') ==> j < scan_word(
            cs,
            j,
            stop_eq,
        ).1,
    decreases cs.len() - j,
{
    if j < cs.len() && !is_ws(cs[j]) && !(stop_eq && cs[j] == '=') {
        lemma_scan_word(cs, j + 1, stop_eq);
    }
}

pub proof fn lemma_scan_link(cs: Seq<char>, j: int)
    requires
        0 <= j <= cs.len(),
    ensures
        j <= scan_link(cs, j).1 <= cs.len(),
    decreases cs.len() - j,
{
    if j < cs.len() && cs[j] != ']' {
        lemma_scan_link(cs, j + 1);
    }
}

pub proof fn lemma_scan_flag_value(cs: Seq<char>, i: int)
    requires
        0 <= i <= cs.len(),
    ensures
        i <= scan_flag_value(cs, i).1 <= cs.len(),
{
    let j = if i < cs.len() && cs[i] == '=' {
        i + 1
    } else {
        lemma_skip_ws_bounds(cs, i);
        skip_ws(cs, i)
    };
    if j < cs.len() && cs[j] == '"' {
        lemma_scan_quoted(cs, j + 1);
    } else if j + 1 < cs.len() && cs[j] == '[' && cs[j + 1] == '[' {
        lemma_scan_link(cs, j + 2);
    } else {
        lemma_scan_word(cs, j, false);
    }
}

/// The flags and positional arguments found from index `i` on.
pub open spec fn args_from(cs: Seq<char>, i: int) -> (Seq<(Seq<char>, Seq<char>)>, Seq<Seq<char>>)
    decreases cs.len() - i,
{
    if i < 0 || i > cs.len() {
        (Seq::empty(), Seq::empty())
    } else {
        let k = skip_ws(cs, i);
        proof {
            lemma_skip_ws_bounds(cs, i);
        }
        if k >= cs.len() {
            (Seq::empty(), Seq::empty())
        } else if cs[k] == '-' && k + 1 < cs.len() && cs[k + 1] == '-' {
            let name = scan_word(cs, k + 2, true);
            proof {
                lemma_scan_word(cs, k + 2, true);
                lemma_scan_flag_value(cs, name.1);
            }
            let value = scan_flag_value(cs, name.1);
            let rest = args_from(cs, value.1);
            (seq![(name.0, value.0)] + rest.0, rest.1)
        } else if cs[k] == '[' && k + 1 < cs.len() && cs[k + 1] == '[' {
            let target = scan_link(cs, k + 2);
            proof {
                lemma_scan_link(cs, k + 2);
            }
            let rest = args_from(cs, link_end(cs, target.1));
            (rest.0, seq![target.0] + rest.1)
        } else if cs[k] == '"' {
            let v = scan_quoted(cs, k + 1);
            proof {
                lemma_scan_quoted(cs, k + 1);
            }
            let rest = args_from(cs, v.1);
            (rest.0, seq![v.0] + rest.1)
        } else {
            let w = scan_word(cs, k, false);
            proof {
                lemma_scan_word(cs, k, false);
            }
            let rest = args_from(cs, w.1);
            (rest.0, seq![w.0] + rest.1)
        }
    }
}

/// The value of the first flag named `long` or `short`.
pub open spec fn find_flag(flags: Seq<(Seq<char>, Seq<char>)>, long: Seq<char>, short: Seq<char>) -> Option<
    Seq<char>,
>
    decreases flags.len(),
{
    if flags.len() == 0 {
        None
    } else if flags[0].0 == long || flags[0].0 == short {
        Some(flags[0].1)
    } else {
        find_flag(flags.drop_first(), long, short)
    }
}

/// The first positional argument.
pub open spec fn first_positional(a: (Seq<(Seq<char>, Seq<char>)>, Seq<Seq<char>>)) -> Option<
    Seq<char>,
> {
    if a.1.len() > 0 {
        Some(a.1[0])
    } else {
        None
    }
}

/// A flag's value, or else the first positional argument.
pub open spec fn arg_str(a: (Seq<(Seq<char>, Seq<char>)>, Seq<Seq<char>>), long: Seq<char>, short: Seq<char>) -> Option<
    Seq<char>,
> {
    match find_flag(a.0, long, short) {
        Some(v) => Some(v),
        None => first_positional(a),
    }
}

/// `arg_str` read as a `usize`.
pub open spec fn arg_usize(a: (Seq<(Seq<char>, Seq<char>)>, Seq<Seq<char>>), long: Seq<char>, short: Seq<char>) -> Option<
    usize,
> {
    match arg_str(a, long, short) {
        Some(v) => parse_usize_spec(v),
        None => None,
    }
}

/// The first positional argument, or else `arg_str`.
pub open spec fn positional_or(a: (Seq<(Seq<char>, Seq<char>)>, Seq<Seq<char>>), long: Seq<char>, short: Seq<char>) -> Option<
    Seq<char>,
> {
    match first_positional(a) {
        Some(v) => Some(v),
        None => arg_str(a, long, short),
    }
}

pub open spec fn or_empty(o: Option<Seq<char>>) -> Seq<char> {
    match o {
        Some(v) => v,
        None => Seq::empty(),
    }
}

pub open spec fn or_usize(o: Option<usize>, d: usize) -> usize {
    match o {
        Some(v) => v,
        None => d,
    }
}

/// The style a `--style` value names, by its lower-case form.
pub open spec fn style_named(v: Seq<char>) -> SummarizeStyle {
    let l = lowercase_of(v);
    if l == "paragraph"@ || l == "p"@ {
        SummarizeStyle::Paragraph
    } else if l == "outline"@ || l == "o"@ {
        SummarizeStyle::Outline
    } else {
        SummarizeStyle::Bullet
    }
}

/// The level a `--level` value names, by its lower-case form.
pub open spec fn level_named(v: Seq<char>) -> ExplainLevel {
    let l = lowercase_of(v);
    if l == "beginner"@ || l == "b"@ {
        ExplainLevel::Beginner
    } else if l == "expert"@ || l == "e"@ {
        ExplainLevel::Expert
    } else {
        ExplainLevel::Intermediate
    }
}

/// The command that `verb` names, built from its arguments.
pub open spec fn command_for(verb: Seq<char>, a: (Seq<(Seq<char>, Seq<char>)>, Seq<Seq<char>>)) -> Result<
    CliCommandView,
    CliParseErrorView,
> {
    if verb == "search"@ {
        match arg_str(a, "query"@, "q"@) {
            None => Err(CliParseErrorView::MissingParam("--query"@)),
            Some(q) => Ok(
                CliCommandView::Search { query: q, top_k: or_usize(arg_usize(a, "top-k"@, "k"@), 5) },
            ),
        }
    } else if verb == "summarize"@ {
        Ok(
            CliCommandView::Summarize {
                target: or_empty(arg_str(a, "target"@, "t"@)),
                style: match arg_str(a, "style"@, "s"@) {
                    Some(v) => style_named(v),
                    None => SummarizeStyle::Bullet,
                },
            },
        )
    } else if verb == "fetch-papers"@ || verb == "fetch_papers"@ || verb == "fetch"@ {
        match arg_str(a, "topic"@, "t"@) {
            None => Err(CliParseErrorView::MissingParam("--topic"@)),
            Some(t) => Ok(
                CliCommandView::FetchPapers {
                    topic: t,
                    max: or_usize(arg_usize(a, "max"@, "m"@), 5),
                    link_to: arg_str(a, "link-to"@, "l"@),
                },
            ),
        }
    } else if verb == "deep-dive"@ || verb == "deep_dive"@ || verb == "deepdive"@ {
        Ok(
            CliCommandView::DeepDive {
                concept: or_empty(positional_or(a, "concept"@, "c"@)),
                depth: or_usize(arg_usize(a, "depth"@, "d"@), 2),
            },
        )
    } else if verb == "explain"@ {
        Ok(
            CliCommandView::Explain {
                concept: or_empty(positional_or(a, "concept"@, "c"@)),
                level: match arg_str(a, "level"@, "l"@) {
                    Some(v) => level_named(v),
                    None => ExplainLevel::Intermediate,
                },
            },
        )
    } else if verb == "diff"@ || verb == "review"@ {
        Ok(CliCommandView::DiffReview)
    } else if verb == "status"@ || verb == "st"@ {
        Ok(CliCommandView::Status)
    } else if verb == "config"@ || verb == "cfg"@ {
        Ok(CliCommandView::Config { model: arg_str(a, "model"@, "m"@) })
    } else if verb == "research"@ || verb == "deep-research"@ || verb == "deep_research"@ {
        match positional_or(a, "question"@, "q"@) {
            None => Err(CliParseErrorView::MissingParam("question"@)),
            Some(q) => Ok(
                CliCommandView::DeepResearch {
                    question: q,
                    max_iterations: arg_usize(a, "max-iterations"@, "m"@),
                },
            ),
        }
    } else if verb == "dream"@ {
        Ok(CliCommandView::Dream)
    } else {
        Err(CliParseErrorView::UnknownCommand(verb))
    }
}

/// The index of the first `c` in `s` at or after `i`, or the length of `s`.
pub open spec fn find_char(s: Seq<char>, c: char, i: int) -> int
    decreases s.len() - i,
{
    if i < 0 || i >= s.len() {
        s.len() as int
    } else if s[i] == c {
        i
    } else {
        find_char(s, c, i + 1)
    }
}

/// `splitn(2, ' ')`: the verb and the rest after the first space.
pub open spec fn split_verb(rest: Seq<char>) -> (Seq<char>, Seq<char>) {
    let p = find_char(rest, ' ', 0);
    if p < rest.len() {
        (rest.take(p), rest.skip(p + 1))
    } else {
        (rest, Seq::empty())
    }
}

/// What `parse` gives for an input line.
pub open spec fn parse_spec(input: Seq<char>) -> Result<CliCommandView, CliParseErrorView> {
    let t = trim(input);
    if has_prefix(t, "/agent "@) || (t.len() > 0 && t[0] == '/') {
        let rest = if has_prefix(t, "/agent "@) {
            t.skip("/agent "@.len() as int)
        } else {
            t.skip(1)
        };
        let (verb, args) = split_verb(rest);
        command_for(verb, args_from(args, 0))
    } else {
        Err(CliParseErrorView::ParseError("Command must start with /agent or /"@))
    }
}

proof fn lemma_find_char_at(s: Seq<char>, ch: char, i: int, p: int)
    requires
        0 <= i <= p < s.len(),
        s[p] == ch,
        forall|k: int| i <= k < p ==> s[k] != ch,
    ensures
        find_char(s, ch, i) == p,
    decreases p - i,
{
    if i < p {
        lemma_find_char_at(s, ch, i + 1, p);
    }
}

proof fn lemma_scan_word_at(s: Seq<char>, j: int, e: int, stop_eq: bool)
    requires
        0 <= j <= e <= s.len(),
        forall|k: int| j <= k < e ==> !is_ws(#[trigger] s[k]) && !(stop_eq && s[k] == '='),
        e == s.len() || is_ws(s[e]),
    ensures
        scan_word(s, j, stop_eq) == (s.subrange(j, e), e),
    decreases e - j,
{
    if j < e {
        lemma_scan_word_at(s, j + 1, e, stop_eq);
        assert(seq![s[j]] + s.subrange(j + 1, e) =~= s.subrange(j, e));
    } else {
        assert(s.subrange(j, e) =~= Seq::<char>::empty());
    }
}

proof fn lemma_scan_link_at(s: Seq<char>, j: int, e: int)
    requires
        0 <= j <= e < s.len(),
        forall|k: int| j <= k < e ==> #[trigger] s[k] != ']',
        s[e] == ']',
    ensures
        scan_link(s, j) == (s.subrange(j, e), e),
    decreases e - j,
{
    if j < e {
        lemma_scan_link_at(s, j + 1, e);
        assert(seq![s[j]] + s.subrange(j + 1, e) =~= s.subrange(j, e));
    } else {
        assert(s.subrange(j, e) =~= Seq::<char>::empty());
    }
}

/// The arguments of an explanation request.
pub open spec fn explain_args(c: Seq<char>, name: Seq<char>, w: Seq<char>) -> Seq<char> {
    "[["@ + c + "]] --"@ + name + " "@ + w
}

#[verifier::rlimit(50)]
proof fn lemma_explain_line(c: Seq<char>, name: Seq<char>, w: Seq<char>)
    requires
        w.len() > 0,
        !is_ws(w[w.len() - 1]),
    ensures
        parse_spec("/agent explain "@ + explain_args(c, name, w)) == command_for("explain"@, args_from(explain_args(c, name, w), 0)),
{
    reveal_strlit("/agent explain ");
    reveal_strlit("/agent ");
    reveal_strlit("explain");
    reveal_strlit("explain ");
    let args = explain_args(c, name, w);
    let input = "/agent explain "@ + args;
    assert(args.len() > 0 && args[args.len() - 1] == w[w.len() - 1]);
    assert(input[0] == '/');
    assert(input[input.len() - 1] == args[args.len() - 1]);
    assert(crate::text::skip_ws(input, 0) == 0);
    assert(crate::text::trim_end_at(input, input.len() as int) == input.len());
    assert(trim(input) =~= input);
    assert(input.subrange(0, 7) =~= "/agent "@);
    let rest = input.skip(7);
    assert(rest =~= "explain "@ + args);
    lemma_find_char_at(rest, ' ', 0, 7);
    assert(rest.take(7) =~= "explain"@);
    assert(rest.skip(8) =~= args);
}

#[verifier::rlimit(50)]
proof fn lemma_explain_args(c: Seq<char>, name: Seq<char>, w: Seq<char>)
    requires
        forall|k: int| 0 <= k < c.len() ==> #[trigger] c[k] != ']',
        name.len() > 0,
        forall|k: int| 0 <= k < name.len() ==> 'a' <= #[trigger] name[k] <= 'z',
        w.len() > 0,
        forall|k: int| 0 <= k < w.len() ==> !is_ws(#[trigger] w[k]),
        w[0] != '"' && w[0] != '[',
    ensures
        args_from(explain_args(c, name, w), 0) == (seq![(name, w)], seq![c]),
{
    reveal_strlit("[[");
    reveal_strlit("]] --");
    reveal_strlit(" ");
    let args = explain_args(c, name, w);
    let n = name.len() as int;
    let cl = c.len() as int;
    assert(args[0] == '[' && args[1] == '[');
    assert(skip_ws(args, 0) == 0);
    assert forall|k: int| 2 <= k < 2 + cl implies #[trigger] args[k] != ']' by {
        assert(args[k] == c[k - 2]);
    }
    assert(args[2 + cl] == ']');
    lemma_scan_link_at(args, 2, 2 + cl);
    assert(args.subrange(2, 2 + cl) =~= c);
    let e = 4 + cl;
    assert(args[3 + cl] == ']');
    assert(link_end(args, 2 + cl) == e);
    assert(args[e] == ' ' && args[e + 1] == '-' && args[e + 2] == '-');
    assert(skip_ws(args, e + 1) == e + 1);
    assert(skip_ws(args, e) == e + 1);
    let q = e + 3 + n;
    assert forall|k: int| e + 3 <= k < q implies !is_ws(#[trigger] args[k]) && !(true && args[k] == '=') by {
        assert(args[k] == name[k - e - 3]);
    }
    assert(args[q] == ' ');
    lemma_scan_word_at(args, e + 3, q, true);
    assert(args.subrange(e + 3, q) =~= name);
    assert(args[q + 1] == w[0]);
    assert(skip_ws(args, q + 1) == q + 1);
    assert(skip_ws(args, q) == q + 1);
    assert forall|k: int| q + 1 <= k < args.len() implies !is_ws(#[trigger] args[k]) && !(false && args[k] == '=') by {
        assert(args[k] == w[k - q - 1]);
    }
    lemma_scan_word_at(args, q + 1, args.len() as int, false);
    assert(args.subrange(q + 1, args.len() as int) =~= w);
    assert(scan_flag_value(args, q) == (w, args.len() as int));
    assert(args_from(args, args.len() as int) == (Seq::<(Seq<char>, Seq<char>)>::empty(), Seq::<Seq<char>>::empty()));
    assert(args_from(args, e) =~= (seq![(name, w)], Seq::<Seq<char>>::empty()));
    assert(args_from(args, 0) =~= (seq![(name, w)], seq![c]));
}

#[verifier::rlimit(50)]
proof fn lemma_summarize_line(name: Seq<char>, w: Seq<char>)
    requires
        name.len() > 0,
        forall|k: int| 0 <= k < name.len() ==> 'a' <= #[trigger] name[k] <= 'z',
        w.len() > 0,
        forall|k: int| 0 <= k < w.len() ==> !is_ws(#[trigger] w[k]),
        w[0] != '"' && w[0] != '[',
    ensures
        parse_spec("/agent summarize --"@ + name + " "@ + w) == command_for("summarize"@, (seq![(name, w)], Seq::<Seq<char>>::empty())),
{
    reveal_strlit("/agent summarize --");
    reveal_strlit("/agent ");
    reveal_strlit("summarize");
    reveal_strlit(" ");
    let input = "/agent summarize --"@ + name + " "@ + w;
    let n = name.len() as int;
    assert(input[0] == '/');
    assert(input[input.len() - 1] == w[w.len() - 1]);
    assert(crate::text::skip_ws(input, 0) == 0);
    assert(crate::text::trim_end_at(input, input.len() as int) == input.len());
    assert(trim(input) =~= input);
    assert(input.subrange(0, 7) =~= "/agent "@);
    let rest = input.skip(7);
    assert forall|k: int| 0 <= k < 9 implies #[trigger] rest[k] != ' ' by {
        assert(rest[k] == "summarize"@[k]);
    }
    assert(rest[9] == ' ');
    lemma_find_char_at(rest, ' ', 0, 9);
    assert(rest.take(9) =~= "summarize"@);
    let args = rest.skip(10);
    assert(args =~= "--"@ + name + " "@ + w) by {
        reveal_strlit("--");
    }
    assert(args[0] == '-' && args[1] == '-');
    assert(skip_ws(args, 0) == 0);
    let q = 2 + n;
    assert forall|k: int| 2 <= k < q implies !is_ws(#[trigger] args[k]) && !(true && args[k] == '=') by {
        assert(args[k] == name[k - 2]);
    }
    assert(args[q] == ' ');
    lemma_scan_word_at(args, 2, q, true);
    assert(args.subrange(2, q) =~= name);
    assert(args[q + 1] == w[0]);
    assert(skip_ws(args, q + 1) == q + 1);
    assert(skip_ws(args, q) == q + 1);
    assert forall|k: int| q + 1 <= k < args.len() implies !is_ws(#[trigger] args[k]) && !(false && args[k] == '=') by {
        assert(args[k] == w[k - q - 1]);
    }
    lemma_scan_word_at(args, q + 1, args.len() as int, false);
    assert(args.subrange(q + 1, args.len() as int) =~= w);
    assert(scan_flag_value(args, q) == (w, args.len() as int));
    assert(args_from(args, args.len() as int) == (Seq::<(Seq<char>, Seq<char>)>::empty(), Seq::<Seq<char>>::empty()));
    assert(args_from(args, 0) =~= (seq![(name, w)], Seq::<Seq<char>>::empty()));
}

/// The layout of a summary comes from its `--style` flag (or `--s`), by the lower-case form
/// of the value: `paragraph` or `p` asks for paragraphs, `outline` or `o` for an outline,
/// anything else for bullets. This holds for every value that is one word not opening a quote
/// or a link.
pub proof fn lemma_summarize_reads_its_style(name: Seq<char>, w: Seq<char>)
    requires
        name == "style"@ || name == "s"@,
        w.len() > 0,
        forall|k: int| 0 <= k < w.len() ==> !is_ws(#[trigger] w[k]),
        w[0] != '"' && w[0] != '[',
    ensures
        ({
            let r = parse_spec("/agent summarize --"@ + name + " "@ + w);
            let l = lowercase_of(w);
            let target = Seq::<char>::empty();
            &&& (l == "paragraph"@ || l == "p"@) ==> r == Ok::<CliCommandView, CliParseErrorView>(
                CliCommandView::Summarize { target, style: SummarizeStyle::Paragraph },
            )
            &&& (l == "outline"@ || l == "o"@) ==> r == Ok::<CliCommandView, CliParseErrorView>(
                CliCommandView::Summarize { target, style: SummarizeStyle::Outline },
            )
            &&& !(l == "paragraph"@ || l == "p"@ || l == "outline"@ || l == "o"@) ==> r == Ok::<CliCommandView, CliParseErrorView>(
                CliCommandView::Summarize { target, style: SummarizeStyle::Bullet },
            )
        }),
{
    reveal_strlit("style");
    reveal_strlit("s");
    assert(name.len() > 0);
    assert(forall|k: int| 0 <= k < name.len() ==> 'a' <= #[trigger] name[k] <= 'z');
    lemma_summarize_line(name, w);
    let a = (seq![(name, w)], Seq::<Seq<char>>::empty());
    assert(find_flag(a.0, "style"@, "s"@) == Some(w));
    assert(find_flag(a.0, "target"@, "t"@) is None) by {
        reveal_strlit("target");
        reveal_strlit("t");
        assert(name[0] == 's');
        assert(name != "target"@ && name != "t"@) by {
            assert(name[0] != "target"@[0]);
            assert(name[0] != "t"@[0]);
        }
        assert(a.0[0].0 == name);
        assert(a.0.drop_first() =~= Seq::<(Seq<char>, Seq<char>)>::empty());
        assert(find_flag(a.0.drop_first(), "target"@, "t"@) is None);
    }
    reveal_strlit("search");
    reveal_strlit("summarize");
    assert("summarize"@ != "search"@) by {
        assert("summarize"@[1] != "search"@[1]);
    }
    assert(command_for("summarize"@, a) == Ok::<CliCommandView, CliParseErrorView>(
        CliCommandView::Summarize { target: Seq::<char>::empty(), style: style_named(w) },
    ));
    reveal_strlit("paragraph");
    reveal_strlit("p");
    reveal_strlit("outline");
    reveal_strlit("o");
    assert("outline"@ != "paragraph"@ && "outline"@ != "p"@ && "o"@ != "paragraph"@ && "o"@ != "p"@) by {
        assert("outline"@[0] != "paragraph"@[0]);
        assert("outline"@.len() != "p"@.len());
        assert("o"@.len() != "paragraph"@.len());
        assert("o"@[0] != "p"@[0]);
    }
}

/// The level of an explanation comes from its `--level` flag (or `--l`), by the lower-case
/// form of the value: `expert` or `e` asks for an expert one, `beginner` or `b` for a
/// beginner's, anything else for an intermediate one; the concept comes from the wiki link
/// before the flag. This holds for every link target without `]` and every value that is one
/// word not opening a quote or a link.
pub proof fn lemma_explain_reads_its_level(c: Seq<char>, name: Seq<char>, w: Seq<char>)
    requires
        forall|k: int| 0 <= k < c.len() ==> #[trigger] c[k] != ']',
        name == "level"@ || name == "l"@,
        w.len() > 0,
        forall|k: int| 0 <= k < w.len() ==> !is_ws(#[trigger] w[k]),
        w[0] != '"' && w[0] != '[',
    ensures
        ({
            let r = parse_spec("/agent explain [["@ + c + "]] --"@ + name + " "@ + w);
            let l = lowercase_of(w);
            &&& (l == "expert"@ || l == "e"@) ==> r == Ok::<CliCommandView, CliParseErrorView>(
                CliCommandView::Explain { concept: c, level: ExplainLevel::Expert },
            )
            &&& (l == "beginner"@ || l == "b"@) ==> r == Ok::<CliCommandView, CliParseErrorView>(
                CliCommandView::Explain { concept: c, level: ExplainLevel::Beginner },
            )
            &&& !(l == "expert"@ || l == "e"@ || l == "beginner"@ || l == "b"@) ==> r == Ok::<CliCommandView, CliParseErrorView>(
                CliCommandView::Explain { concept: c, level: ExplainLevel::Intermediate },
            )
        }),
{
    reveal_strlit("/agent explain [[");
    reveal_strlit("/agent explain ");
    reveal_strlit("[[");
    reveal_strlit("level");
    reveal_strlit("l");
    assert("/agent explain [["@ + c + "]] --"@ + name + " "@ + w =~= "/agent explain "@ + explain_args(c, name, w));
    assert(name.len() > 0);
    assert(forall|k: int| 0 <= k < name.len() ==> 'a' <= #[trigger] name[k] <= 'z');
    lemma_explain_line(c, name, w);
    lemma_explain_args(c, name, w);
    reveal_strlit("explain");
    reveal_strlit("search");
    reveal_strlit("summarize");
    reveal_strlit("fetch-papers");
    reveal_strlit("fetch_papers");
    reveal_strlit("fetch");
    reveal_strlit("deep-dive");
    reveal_strlit("deep_dive");
    reveal_strlit("deepdive");
    assert("explain"@ != "search"@ && "explain"@ != "summarize"@ && "explain"@ != "fetch-papers"@ && "explain"@ != "fetch_papers"@
        && "explain"@ != "fetch"@ && "explain"@ != "deep-dive"@ && "explain"@ != "deep_dive"@ && "explain"@ != "deepdive"@) by {
        assert("explain"@[0] != "search"@[0]);
        assert("explain"@.len() != "summarize"@.len());
        assert("explain"@[0] != "fetch-papers"@[0]);
        assert("explain"@[0] != "fetch_papers"@[0]);
        assert("explain"@[0] != "fetch"@[0]);
        assert("explain"@[0] != "deep-dive"@[0]);
        assert("explain"@[0] != "deep_dive"@[0]);
        assert("explain"@[0] != "deepdive"@[0]);
    }
    let a = args_from(explain_args(c, name, w), 0);
    assert(find_flag(a.0, "level"@, "l"@) == Some(w));
    assert(first_positional(a) == Some(c));
    assert(positional_or(a, "concept"@, "c"@) == Some(c));
    assert(arg_str(a, "level"@, "l"@) == Some(w));
    let r = parse_spec("/agent explain [["@ + c + "]] --"@ + name + " "@ + w);
    assert(r == command_for("explain"@, a));
    assert(command_for("explain"@, a) == Ok::<CliCommandView, CliParseErrorView>(
        CliCommandView::Explain { concept: c, level: level_named(w) },
    ));
    reveal_strlit("expert");
    reveal_strlit("e");
    reveal_strlit("beginner");
    reveal_strlit("b");
    assert("expert"@ != "beginner"@ && "expert"@ != "b"@ && "e"@ != "beginner"@ && "e"@ != "b"@) by {
        assert("expert"@[0] != "beginner"@[0]);
        assert("expert"@.len() != "b"@.len());
        assert("e"@.len() != "beginner"@.len());
        assert("e"@[0] != "b"@[0]);
    }
}

// ---------------------------------------------------------------------------------------------
// Executable scanners.
// ---------------------------------------------------------------------------------------------

fn scan_quoted_exec(cs: &Vec<char>, j: usize) -> (res: (Vec<char>, usize))
    requires
        j <= cs.len(),
    ensures
        res.0@ == scan_quoted(cs@, j as int).0,
        res.1 == scan_quoted(cs@, j as int).1,
        res.1 <= cs.len(),
{
    let mut val: Vec<char> = Vec::new();
    let mut i = j;
    while i < cs.len() && cs[i] != '"'
        invariant
            j <= i <= cs.len(),
            scan_quoted(cs@, j as int).0 == val@ + scan_quoted(cs@, i as int).0,
            scan_quoted(cs@, j as int).1 == scan_quoted(cs@, i as int).1,
        decreases cs.len() - i,
    {
        let ghost old_val = val@;
        if cs[i] == '\\' && i + 1 < cs.len() {
            val.push(cs[i + 1]);
            assert(scan_quoted(cs@, i as int).0 == seq![cs@[i + 1]] + scan_quoted(
                cs@,
                i + 2,
            ).0);
            assert(old_val + (seq![cs@[i + 1]] + scan_quoted(cs@, i + 2).0) == val@
                + scan_quoted(cs@, i + 2).0);
            i = i + 2;
        } else {
            val.push(cs[i]);
            assert(scan_quoted(cs@, i as int).0 == seq![cs@[i as int]] + scan_quoted(
                cs@,
                i + 1,
            ).0);
            assert(old_val + (seq![cs@[i as int]] + scan_quoted(cs@, i + 1).0) == val@
                + scan_quoted(cs@, i + 1).0);
            i = i + 1;
        }
    }
    proof {
        lemma_scan_quoted(cs@, i as int);
    }
    assert(val@ + scan_quoted(cs@, i as int).0 == val@);
    if i < cs.len() {
        i = i + 1;
    }
    (val, i)
}

fn scan_word_exec(cs: &Vec<char>, j: usize, stop_eq: bool) -> (res: (Vec<char>, usize))
    requires
        j <= cs.len(),
    ensures
        res.0@ == scan_word(cs@, j as int, stop_eq).0,
        res.1 == scan_word(cs@, j as int, stop_eq).1,
        res.1 <= cs.len(),
{
    let mut val: Vec<char> = Vec::new();
    let mut i = j;
    while i < cs.len() && !is_whitespace(cs[i]) && !(stop_eq && cs[i] == '=')
        invariant
            j <= i <= cs.len(),
            scan_word(cs@, j as int, stop_eq).0 == val@ + scan_word(cs@, i as int, stop_eq).0,
            scan_word(cs@, j as int, stop_eq).1 == scan_word(cs@, i as int, stop_eq).1,
        decreases cs.len() - i,
    {
        let ghost old_val = val@;
        val.push(cs[i]);
        assert(old_val + (seq![cs@[i as int]] + scan_word(cs@, i + 1, stop_eq).0) == val@
            + scan_word(cs@, i + 1, stop_eq).0);
        i = i + 1;
    }
    assert(val@ + scan_word(cs@, i as int, stop_eq).0 == val@);
    (val, i)
}

fn scan_link_exec(cs: &Vec<char>, j: usize) -> (res: (Vec<char>, usize))
    requires
        j <= cs.len(),
    ensures
        res.0@ == scan_link(cs@, j as int).0,
        res.1 == scan_link(cs@, j as int).1,
        res.1 <= cs.len(),
{
    let mut val: Vec<char> = Vec::new();
    let mut i = j;
    while i < cs.len() && cs[i] != ']'
        invariant
            j <= i <= cs.len(),
            scan_link(cs@, j as int).0 == val@ + scan_link(cs@, i as int).0,
            scan_link(cs@, j as int).1 == scan_link(cs@, i as int).1,
        decreases cs.len() - i,
    {
        let ghost old_val = val@;
        val.push(cs[i]);
        assert(old_val + (seq![cs@[i as int]] + scan_link(cs@, i + 1).0) == val@ + scan_link(
            cs@,
            i + 1,
        ).0);
        i = i + 1;
    }
    assert(val@ + scan_link(cs@, i as int).0 == val@);
    (val, i)
}

fn skip_ws_exec(cs: &Vec<char>, i: usize) -> (res: usize)
    requires
        i <= cs.len(),
    ensures
        res == skip_ws(cs@, i as int),
        i <= res <= cs.len(),
{
    let mut k = i;
    while k < cs.len() && is_whitespace(cs[k])
        invariant
            i <= k <= cs.len(),
            skip_ws(cs@, i as int) == skip_ws(cs@, k as int),
        decreases cs.len() - k,
    {
        k = k + 1;
    }
    k
}

fn scan_flag_value_exec(cs: &Vec<char>, i: usize) -> (res: (Vec<char>, usize))
    requires
        i <= cs.len(),
    ensures
        res.0@ == scan_flag_value(cs@, i as int).0,
        res.1 == scan_flag_value(cs@, i as int).1,
        res.1 <= cs.len(),
{
    let j = if i < cs.len() && cs[i] == '=' {
        i + 1
    } else {
        skip_ws_exec(cs, i)
    };
    if j < cs.len() && cs[j] == '"' {
        scan_quoted_exec(cs, j + 1)
    } else if j < cs.len() && cs[j] == '[' && j + 1 < cs.len() && cs[j + 1] == '[' {
        let (t, k) = scan_link_exec(cs, j + 2);
        let mut e = if k < cs.len() { k + 1 } else { k };
        if e < cs.len() && cs[e] == ']' {
            e = e + 1;
        }
        (t, e)
    } else {
        scan_word_exec(cs, j, false)
    }
}

/// Flags and positional arguments of a command line.
struct ArgsMap {
    flags: Vec<(Vec<char>, Vec<char>)>,
    positional: Vec<Vec<char>>,
}

spec fn flags_view(v: Seq<(Vec<char>, Vec<char>)>) -> Seq<(Seq<char>, Seq<char>)> {
    v.map_values(|p: (Vec<char>, Vec<char>)| (p.0@, p.1@))
}

spec fn words_view(v: Seq<Vec<char>>) -> Seq<Seq<char>> {
    v.map_values(|w: Vec<char>| w@)
}

impl ArgsMap {
    spec fn view_args(&self) -> (Seq<(Seq<char>, Seq<char>)>, Seq<Seq<char>>) {
        (flags_view(self.flags@), words_view(self.positional@))
    }

    fn find_flag_exec(&self, long: &str, short: &str) -> (res: Option<Vec<char>>)
        ensures
            opt_chars_view(res) == find_flag(self.view_args().0, long@, short@),
    {
        let l = chars_of(long);
        let s = chars_of(short);
        let mut i: usize = 0;
        assert(flags_view(self.flags@).skip(0) == flags_view(self.flags@));
        while i < self.flags.len()
            invariant
                i <= self.flags.len(),
                l@ == long@,
                s@ == short@,
                find_flag(flags_view(self.flags@), long@, short@) == find_flag(
                    flags_view(self.flags@).skip(i as int),
                    long@,
                    short@,
                ),
            decreases self.flags.len() - i,
        {
            let ghost rest = flags_view(self.flags@).skip(i as int);
            assert(rest[0] == (self.flags@[i as int].0@, self.flags@[i as int].1@));
            if seq_eq(&self.flags[i].0, &l) || seq_eq(&self.flags[i].0, &s) {
                return Some(self.flags[i].1.clone());
            }
            assert(rest.drop_first() == flags_view(self.flags@).skip(i + 1));
            i = i + 1;
        }
        None
    }

    fn positional(&self) -> (res: Option<Vec<char>>)
        ensures
            opt_chars_view(res) == first_positional(self.view_args()),
    {
        if self.positional.len() > 0 {
            Some(self.positional[0].clone())
        } else {
            None
        }
    }

    fn get_str(&self, long: &str, short: &str) -> (res: Option<Vec<char>>)
        ensures
            opt_chars_view(res) == arg_str(self.view_args(), long@, short@),
    {
        match self.find_flag_exec(long, short) {
            Some(v) => Some(v),
            None => self.positional(),
        }
    }

    fn get_usize(&self, long: &str, short: &str) -> (res: Option<usize>)
        ensures
            res == arg_usize(self.view_args(), long@, short@),
    {
        match self.get_str(long, short) {
            Some(v) => parse_usize(&v),
            None => None,
        }
    }

    fn positional_or(&self, long: &str, short: &str) -> (res: Option<Vec<char>>)
        ensures
            opt_chars_view(res) == positional_or(self.view_args(), long@, short@),
    {
        match self.positional() {
            Some(v) => Some(v),
            None => self.get_str(long, short),
        }
    }
}

pub open spec fn opt_chars_view(o: Option<Vec<char>>) -> Option<Seq<char>> {
    match o {
        Some(v) => Some(v@),
        None => None,
    }
}

fn parse_args(cs: &Vec<char>) -> (res: ArgsMap)
    ensures
        res.view_args() == args_from(cs@, 0),
{
    let mut flags: Vec<(Vec<char>, Vec<char>)> = Vec::new();
    let mut positional: Vec<Vec<char>> = Vec::new();
    let mut i: usize = 0;
    loop
        invariant
            i <= cs.len(),
            args_from(cs@, 0).0 == flags_view(flags@) + args_from(cs@, i as int).0,
            args_from(cs@, 0).1 == words_view(positional@) + args_from(cs@, i as int).1,
        ensures
            args_from(cs@, 0).0 == flags_view(flags@),
            args_from(cs@, 0).1 == words_view(positional@),
        decreases cs.len() - i,
    {
        let k = skip_ws_exec(cs, i);
        proof {
            lemma_skip_ws_bounds(cs@, i as int);
        }
        if k >= cs.len() {
            assert(args_from(cs@, i as int).0 == Seq::<(Seq<char>, Seq<char>)>::empty());
            assert(args_from(cs@, i as int).1 == Seq::<Seq<char>>::empty());
            assert(flags_view(flags@) + Seq::<(Seq<char>, Seq<char>)>::empty() == flags_view(
                flags@,
            ));
            assert(words_view(positional@) + Seq::<Seq<char>>::empty() == words_view(positional@));
            break;
        }
        let ghost fv = flags_view(flags@);
        let ghost wv = words_view(positional@);
        if cs[k] == '-' && k + 1 < cs.len() && cs[k + 1] == '-' {
            let (name, a) = scan_word_exec(cs, k + 2, true);
            let (value, b) = scan_flag_value_exec(cs, a);
            proof {
                lemma_scan_word(cs@, k + 2, true);
                lemma_scan_flag_value(cs@, a as int);
            }
            let ghost item = (name@, value@);
            flags.push((name, value));
            assert(flags_view(flags@) == fv.push(item));
            assert(fv + (seq![item] + args_from(cs@, b as int).0) == fv.push(item) + args_from(
                cs@,
                b as int,
            ).0);
            i = b;
        } else if cs[k] == '[' && k + 1 < cs.len() && cs[k + 1] == '[' {
            let (target, t) = scan_link_exec(cs, k + 2);
            let mut e = t;
            if e < cs.len() {
                e = e + 1;
            }
            if e < cs.len() && cs[e] == ']' {
                e = e + 1;
            }
            proof {
                lemma_scan_link(cs@, k + 2);
            }
            let ghost item = target@;
            positional.push(target);
            assert(words_view(positional@) == wv.push(item));
            assert(wv + (seq![item] + args_from(cs@, e as int).1) == wv.push(item) + args_from(
                cs@,
                e as int,
            ).1);
            i = e;
        } else if cs[k] == '"' {
            let (v, b) = scan_quoted_exec(cs, k + 1);
            proof {
                lemma_scan_quoted(cs@, k + 1);
            }
            let ghost item = v@;
            positional.push(v);
            assert(words_view(positional@) == wv.push(item));
            assert(wv + (seq![item] + args_from(cs@, b as int).1) == wv.push(item) + args_from(
                cs@,
                b as int,
            ).1);
            i = b;
        } else {
            let (w, b) = scan_word_exec(cs, k, false);
            proof {
                lemma_scan_word(cs@, k as int, false);
            }
            let ghost item = w@;
            positional.push(w);
            assert(words_view(positional@) == wv.push(item));
            assert(wv + (seq![item] + args_from(cs@, b as int).1) == wv.push(item) + args_from(
                cs@,
                b as int,
            ).1);
            i = b;
        }
    }
    let res = ArgsMap { flags, positional };
    assert(res.view_args().0 == args_from(cs@, 0).0);
    assert(res.view_args().1 == args_from(cs@, 0).1);
    res
}

/// Default number of search hits.
pub fn default_top_k() -> (r: usize)
    ensures
        r == 5,
{
    5
}

/// Default number of papers to fetch.
pub fn default_max_papers() -> (r: usize)
    ensures
        r == 5,
{
    5
}

/// Default deep-dive depth.
pub fn default_depth() -> (r: usize)
    ensures
        r == 2,
{
    2
}

/// Default summary style.
pub fn default_style() -> (r: SummarizeStyle)
    ensures
        r == SummarizeStyle::Bullet,
{
    SummarizeStyle::Bullet
}

/// Default explanation level.
pub fn default_level() -> (r: ExplainLevel)
    ensures
        r == ExplainLevel::Intermediate,
{
    ExplainLevel::Intermediate
}

fn opt_string(o: Option<Vec<char>>) -> (res: Option<String>)
    ensures
        opt_str_view(res) == opt_chars_view(o),
{
    match o {
        Some(v) => Some(string_of(&v)),
        None => None,
    }
}

fn or_default_string(o: Option<Vec<char>>) -> (res: String)
    ensures
        res@ == or_empty(opt_chars_view(o)),
{
    match o {
        Some(v) => string_of(&v),
        None => String::new(),
    }
}

fn style_from(v: Vec<char>) -> (res: SummarizeStyle)
    ensures
        res == style_named(v@),
{
    let l = chars_of(to_lowercase(string_of(&v).as_str()).as_str());
    if seq_eq(&l, &chars_of("paragraph")) || seq_eq(&l, &chars_of("p")) {
        SummarizeStyle::Paragraph
    } else if seq_eq(&l, &chars_of("outline")) || seq_eq(&l, &chars_of("o")) {
        SummarizeStyle::Outline
    } else {
        SummarizeStyle::Bullet
    }
}

fn level_from(v: Vec<char>) -> (res: ExplainLevel)
    ensures
        res == level_named(v@),
{
    let l = chars_of(to_lowercase(string_of(&v).as_str()).as_str());
    if seq_eq(&l, &chars_of("beginner")) || seq_eq(&l, &chars_of("b")) {
        ExplainLevel::Beginner
    } else if seq_eq(&l, &chars_of("expert")) || seq_eq(&l, &chars_of("e")) {
        ExplainLevel::Expert
    } else {
        ExplainLevel::Intermediate
    }
}

fn is_verb(verb: &Vec<char>, name: &str) -> (res: bool)
    ensures
        res == (verb@ == name@),
{
    seq_eq(verb, &chars_of(name))
}

/// Parses a command line into a typed command.
pub fn parse(input: &str) -> (res: Result<CliCommand, CliParseError>)
    ensures
        parse_result_view(res) == parse_spec(input@),
{
    let all = chars_of(input);
    let t = trim_chars(&all);
    let agent = chars_of("/agent ");
    let rest = if starts_with(&t, &agent) {
        skip_chars(&t, agent.len())
    } else if t.len() > 0 && t[0] == '/' {
        skip_chars(&t, 1)
    } else {
        return Err(CliParseError::ParseError(owned("Command must start with /agent or /")));
    };
    let mut p: usize = 0;
    while p < rest.len() && rest[p] != ' '
        invariant
            p <= rest.len(),
            find_char(rest@, ' ', 0) == find_char(rest@, ' ', p as int),
        decreases rest.len() - p,
    {
        p = p + 1;
    }
    let (verb, args_chars) = if p < rest.len() {
        (take_chars(&rest, p), skip_chars(&rest, p + 1))
    } else {
        (rest.clone(), Vec::new())
    };
    assert(args_chars@ == split_verb(rest@).1);
    let args = parse_args(&args_chars);
    let ghost a = args.view_args();
    if is_verb(&verb, "search") {
        match args.get_str("query", "q") {
            None => Err(CliParseError::MissingParam(owned("--query"))),
            Some(q) => {
                let top_k = match args.get_usize("top-k", "k") {
                    Some(k) => k,
                    None => 5,
                };
                Ok(CliCommand::Search { query: string_of(&q), top_k })
            },
        }
    } else if is_verb(&verb, "summarize") {
        let target = or_default_string(args.get_str("target", "t"));
        let style = match args.get_str("style", "s") {
            Some(v) => style_from(v),
            None => SummarizeStyle::Bullet,
        };
        Ok(CliCommand::Summarize { target, style })
    } else if is_verb(&verb, "fetch-papers") || is_verb(&verb, "fetch_papers") || is_verb(
        &verb,
        "fetch",
    ) {
        match args.get_str("topic", "t") {
            None => Err(CliParseError::MissingParam(owned("--topic"))),
            Some(topic) => {
                let max = match args.get_usize("max", "m") {
                    Some(m) => m,
                    None => 5,
                };
                let link_to = opt_string(args.get_str("link-to", "l"));
                Ok(CliCommand::FetchPapers { topic: string_of(&topic), max, link_to })
            },
        }
    } else if is_verb(&verb, "deep-dive") || is_verb(&verb, "deep_dive") || is_verb(
        &verb,
        "deepdive",
    ) {
        let concept = or_default_string(args.positional_or("concept", "c"));
        let depth = match args.get_usize("depth", "d") {
            Some(d) => d,
            None => 2,
        };
        Ok(CliCommand::DeepDive { concept, depth })
    } else if is_verb(&verb, "explain") {
        let concept = or_default_string(args.positional_or("concept", "c"));
        let level = match args.get_str("level", "l") {
            Some(v) => level_from(v),
            None => ExplainLevel::Intermediate,
        };
        Ok(CliCommand::Explain { concept, level })
    } else if is_verb(&verb, "diff") || is_verb(&verb, "review") {
        Ok(CliCommand::DiffReview)
    } else if is_verb(&verb, "status") || is_verb(&verb, "st") {
        Ok(CliCommand::Status)
    } else if is_verb(&verb, "config") || is_verb(&verb, "cfg") {
        Ok(CliCommand::Config { model: opt_string(args.get_str("model", "m")) })
    } else if is_verb(&verb, "research") || is_verb(&verb, "deep-research") || is_verb(
        &verb,
        "deep_research",
    ) {
        match args.positional_or("question", "q") {
            None => Err(CliParseError::MissingParam(owned("question"))),
            Some(q) => Ok(
                CliCommand::DeepResearch {
                    question: string_of(&q),
                    max_iterations: args.get_usize("max-iterations", "m"),
                },
            ),
        }
    } else if is_verb(&verb, "dream") {
        Ok(CliCommand::Dream)
    } else {
        Err(CliParseError::UnknownCommand(string_of(&verb)))
    }
}

} // verus!
