//! Checking a finished research step against its contract: which checks pass, and the
//! findings that record them.

use vstd::prelude::*;
use crate::text::{
    ascii_lower, chars_of, has_prefix, is_whitespace, is_ws, owned, pieces_view, push_str,
    skip_chars, split_from, split_on, starts_with, string_of, strings_view, to_ascii_lowercase,
    trim, trim_chars, contains_string, copy_strings, append_chars,
};
use crate::workflow::{
    ArtifactRef, VerificationFinding, VerificationLevel, VerificationOutcome, WorkflowStep,
};

verus! {

/// The text with white space collapsed: words kept in order, one space between them
/// (`split_whitespace` joined by spaces).
pub open spec fn collapse_ws(s: Seq<char>) -> Seq<char>
    decreases s.len(),
{
    if s.len() == 0 {
        Seq::empty()
    } else {
        let r = collapse_ws(s.drop_last());
        let c = s.last();
        if is_ws(c) {
            r
        } else if s.len() >= 2 && is_ws(s[s.len() - 2]) && r.len() > 0 {
            r + seq![' ', c]
        } else {
            r + seq![c]
        }
    }
}

/// Collapses the white space of a contract text.
pub fn normalize_contract_text(value: &str) -> (res: String)
    ensures
        res@ == collapse_ws(value@),
{
    let cs = chars_of(value);
    let mut out: Vec<char> = Vec::new();
    let mut i: usize = 0;
    while i < cs.len()
        invariant
            i <= cs.len(),
            cs@ == value@,
            out@ == collapse_ws(cs@.take(i as int)),
        decreases cs.len() - i,
    {
        assert(cs@.take(i + 1).drop_last() == cs@.take(i as int));
        let c = cs[i];
        if is_whitespace(c) {
        } else if i >= 1 && is_whitespace(cs[i - 1]) && out.len() > 0 {
            out.push(' ');
            out.push(c);
        } else {
            out.push(c);
        }
        assert(out@ =~= collapse_ws(cs@.take(i + 1)));
        i = i + 1;
    }
    assert(cs@.take(cs.len() as int) == cs@);
    string_of(&out)
}

pub open spec fn heading_prefix() -> Seq<char> {
    seq!['#', '#', ' ']
}

pub open spec fn checked_lower() -> Seq<char> {
    seq!['-', ' ', '[', 'x', ']', ' ']
}

pub open spec fn checked_upper() -> Seq<char> {
    seq!['-', ' ', '[', 'X', ']', ' ']
}

pub open spec fn acceptance_heading() -> Seq<char> {
    "acceptance check"@
}

/// Reading the lines in order: a `## ` heading opens the acceptance section when its title
/// is "Acceptance Check" in any ASCII case and closes it otherwise; inside the section each
/// line checked with `- [x] ` or `- [X] ` names a criterion. Gives whether the section is
/// open after the lines, and the criteria found, white space collapsed, first occurrence
/// first.
pub open spec fn acceptance_scan(lines: Seq<Seq<char>>) -> (bool, Seq<Seq<char>>)
    decreases lines.len(),
{
    if lines.len() == 0 {
        (false, Seq::empty())
    } else {
        let (open, found) = acceptance_scan(lines.drop_last());
        let t = trim(lines.last());
        if has_prefix(t, heading_prefix()) {
            (ascii_lower(trim(t.skip(3))) == acceptance_heading(), found)
        } else if !open {
            (open, found)
        } else if has_prefix(t, checked_lower()) || has_prefix(t, checked_upper()) {
            let c = collapse_ws(t.skip(6));
            (open, if found.contains(c) {
                found
            } else {
                found.push(c)
            })
        } else {
            (open, found)
        }
    }
}

/// The acceptance criteria that a research report marks as checked.
pub fn checked_acceptance_criteria(markdown: &str) -> (res: Vec<String>)
    ensures
        strings_view(res@) == acceptance_scan(split_from(markdown@, 0, '\n')).1,
{
    let cs = chars_of(markdown);
    let lines = split_on(&cs, '\n');
    let ghost lv = pieces_view(lines@);
    let heading: [char; 3] = ['#', '#', ' '];
    let low: [char; 6] = ['-', ' ', '[', 'x', ']', ' '];
    let up: [char; 6] = ['-', ' ', '[', 'X', ']', ' '];
    assert(heading@ == heading_prefix());
    assert(low@ == checked_lower());
    assert(up@ == checked_upper());
    let target = chars_of("acceptance check");
    let mut open = false;
    let mut found: Vec<String> = Vec::new();
    let mut k: usize = 0;
    while k < lines.len()
        invariant
            k <= lines.len(),
            lv == pieces_view(lines@),
            lv == split_from(markdown@, 0, '\n'),
            heading@ == heading_prefix(),
            low@ == checked_lower(),
            up@ == checked_upper(),
            target@ == acceptance_heading(),
            acceptance_scan(lv.take(k as int)) == (open, strings_view(found@)),
        decreases lines.len() - k,
    {
        assert(lv.take(k + 1).drop_last() == lv.take(k as int));
        assert(lines@[k as int]@ == lv[k as int]);
        let t = trim_chars(lines[k].as_slice());
        if starts_with(&t, &heading) {
            let rest = skip_chars(&t, 3);
            let title = trim_chars(&rest);
            let lower = to_ascii_lowercase(&title);
            open = crate::text::seq_eq(&lower, &target);
        } else if !open {
        } else if starts_with(&t, &low) || starts_with(&t, &up) {
            let rest = skip_chars(&t, 6);
            let text = string_of(&rest);
            let c = normalize_contract_text(text.as_str());
            if !contains_string(&found, &c) {
                let ghost before = strings_view(found@);
                found.push(c);
                assert(strings_view(found@) == before.push(collapse_ws(t@.skip(6))));
            }
        }
        k = k + 1;
    }
    assert(lv.take(lines.len() as int) == lv);
    found
}

/// Keeps the artifacts that share neither id nor location with the new one, then adds it.
pub fn upsert_artifact(artifacts: &mut Vec<ArtifactRef>, artifact: ArtifactRef)
    ensures
        final(artifacts)@ == old(artifacts)@.filter(
            |a: ArtifactRef| a.artifact_id@ != artifact.artifact_id@ && a.uri@ != artifact.uri@,
        ).push(artifact),
{
    let ghost keep = |a: ArtifactRef| a.artifact_id@ != artifact.artifact_id@ && a.uri@ != artifact.uri@;
    let ghost src = artifacts@;
    let ghost mut j: int = 0;
    let mut i: usize = 0;
    while i < artifacts.len()
        invariant
            0 <= j <= src.len(),
            i == src.take(j).filter(keep).len(),
            artifacts@ == src.take(j).filter(keep) + src.skip(j),
            keep == (|a: ArtifactRef| a.artifact_id@ != artifact.artifact_id@ && a.uri@ != artifact.uri@),
        decreases artifacts.len() - i,
    {
        proof {
            assert(src.take(j + 1) == src.take(j).push(src[j]));
            src.take(j).lemma_filter_push(src[j], keep);
            assert(artifacts@[i as int] == src[j]);
        }
        let drop = artifacts[i].artifact_id == artifact.artifact_id || artifacts[i].uri == artifact.uri;
        if drop {
            let ghost before = artifacts@;
            artifacts.remove(i);
            proof {
                assert(src.skip(j) == seq![src[j]] + src.skip(j + 1));
                assert(artifacts@ =~= src.take(j + 1).filter(keep) + src.skip(j + 1));
            }
        } else {
            proof {
                assert(src.skip(j) == seq![src[j]] + src.skip(j + 1));
                assert(artifacts@ =~= src.take(j + 1).filter(keep) + src.skip(j + 1));
            }
            i = i + 1;
        }
        proof {
            j = j + 1;
        }
    }
    proof {
        if j < src.len() {
            assert(src.skip(j).len() > 0);
        }
        assert(src.take(j) == src);
        assert(artifacts@ =~= src.filter(keep));
    }
    artifacts.push(artifact);
}


/// The decimal digits of a number.
pub open spec fn decimal(n: nat) -> Seq<char>
    decreases n,
{
    if n < 10 {
        seq![(('0' as nat) + n) as char]
    } else {
        decimal(n / 10) + seq![(('0' as nat) + n % 10) as char]
    }
}

/// Writes a number in decimal.
pub fn decimal_text(n: usize) -> (res: Vec<char>)
    ensures
        res@ == decimal(n as nat),
    decreases n,
{
    if n < 10 {
        let mut v: Vec<char> = Vec::new();
        v.push((('0' as u8) + (n as u8)) as char);
        v
    } else {
        let mut v = decimal_text(n / 10);
        v.push((('0' as u8) + ((n % 10) as u8)) as char);
        v
    }
}

/// What is known about a finished research task when its step is checked.
#[derive(Debug, Clone)]
pub struct CompletionChecks {
    pub run_id: String,
    pub task_id: String,
    pub step: WorkflowStep,
    pub working_artifact: Option<ArtifactRef>,
    pub result_content: Option<String>,
    pub trace_complete: bool,
    pub context_present: bool,
    pub evidence_present: bool,
    pub claims_present: bool,
    pub checked_criteria: Vec<String>,
    pub evidence_refs: Vec<String>,
}

/// A finding with its text as character sequences.
pub struct FindingView {
    pub verification_id: Seq<char>,
    pub level: VerificationLevel,
    pub target: Seq<char>,
    pub result: VerificationOutcome,
    pub failed_clauses: Seq<usize>,
    pub reason_code: Seq<char>,
    pub summary: Seq<char>,
    pub evidence_refs: Seq<Seq<char>>,
    pub minimal_fix_surface: Seq<Seq<char>>,
}

pub open spec fn finding_view(f: VerificationFinding) -> FindingView {
    FindingView {
        verification_id: f.verification_id@,
        level: f.level,
        target: f.target@,
        result: f.result,
        failed_clauses: f.failed_clauses@,
        reason_code: f.reason_code@,
        summary: f.summary@,
        evidence_refs: strings_view(f.evidence_refs@),
        minimal_fix_surface: strings_view(f.minimal_fix_surface@),
    }
}

pub open spec fn findings_view(v: Seq<VerificationFinding>) -> Seq<FindingView> {
    v.map_values(|f: VerificationFinding| finding_view(f))
}

/// One step-level finding: on a pass no clauses fail and nothing needs fixing.
pub open spec fn step_finding(
    c: CompletionChecks,
    suffix: Seq<char>,
    passed: bool,
    pass_code: Seq<char>,
    fail_code: Seq<char>,
    pass_summary: Seq<char>,
    fail_summary: Seq<char>,
    clauses: Seq<usize>,
    fix: Seq<Seq<char>>,
) -> FindingView {
    FindingView {
        verification_id: "verify_"@ + c.run_id@ + "_"@ + c.step.step_id@ + "_"@ + suffix,
        level: VerificationLevel::Step,
        target: c.step.step_id@,
        result: if passed {
            VerificationOutcome::Pass
        } else {
            VerificationOutcome::Fail
        },
        failed_clauses: if passed {
            Seq::empty()
        } else {
            clauses
        },
        reason_code: if passed {
            pass_code
        } else {
            fail_code
        },
        summary: if passed {
            pass_summary
        } else {
            fail_summary
        },
        evidence_refs: strings_view(c.evidence_refs@),
        minimal_fix_surface: if passed {
            Seq::empty()
        } else {
            fix
        },
    }
}

pub open spec fn working_uri(task_id: Seq<char>) -> Seq<char> {
    ".dualtrack/research/results/"@ + task_id + "/result.md"@
}

pub open spec fn result_present(c: CompletionChecks) -> bool {
    c.result_content matches Some(r) && trim(r@).len() > 0
}

/// The success clause that criterion `i` serves, where the step names one.
pub open spec fn clause_at(c: CompletionChecks, i: int) -> Seq<usize> {
    if i < c.step.goal_alignment.success_clauses@.len() {
        seq![c.step.goal_alignment.success_clauses@[i]]
    } else {
        Seq::empty()
    }
}

/// The finding for acceptance criterion `i`: passed where the report checks it.
pub open spec fn criterion_finding(c: CompletionChecks, i: int) -> FindingView {
    let n = decimal((i + 1) as nat);
    let crit = c.step.acceptance_criteria@[i]@;
    step_finding(
        c,
        "acceptance_"@ + n,
        strings_view(c.checked_criteria@).contains(collapse_ws(crit)),
        "acceptance_criterion_checked"@,
        "acceptance_criterion_unchecked"@,
        "Acceptance criterion "@ + n + " is checked."@,
        "Acceptance criterion "@ + n + " is not checked."@,
        clause_at(c, i),
        seq![crit],
    )
}

pub open spec fn criteria_findings(c: CompletionChecks, k: int) -> Seq<FindingView>
    decreases k,
{
    if k <= 0 {
        Seq::empty()
    } else {
        criteria_findings(c, k - 1).push(criterion_finding(c, k - 1))
    }
}

/// The findings of a completed step: artifact, result, trace, context, evidence and claims,
/// then one per acceptance criterion.
pub open spec fn completion_findings(c: CompletionChecks) -> Seq<FindingView> {
    let all = c.step.goal_alignment.success_clauses@;
    let uri = seq![working_uri(c.task_id@)];
    seq![
        step_finding(c, "working_artifact"@, c.working_artifact is Some, "working_artifact_present"@,
            "working_artifact_missing"@, "Working result artifact is present."@,
            "Working result artifact is missing."@, all, uri),
        step_finding(c, "result_content"@, result_present(c), "research_result_present"@,
            "empty_research_result"@, "Research result contains report content."@,
            "Research result is empty or unreadable."@, all, uri),
        step_finding(c, "trace"@, c.trace_complete, "research_trace_present"@,
            "research_trace_missing"@, "Research path and trace files are present."@,
            "Research path or trace files are missing."@, all,
            seq![".dualtrack/research/paths/"@ + c.task_id@]),
        step_finding(c, "context"@, c.context_present, "research_context_present"@,
            "research_context_missing"@, "Research context is present."@,
            "Research context is missing."@, all, uri),
        step_finding(c, "evidence"@, c.evidence_present, "evidence_present"@,
            "evidence_missing"@, "Retrieval evidence references are present."@,
            "Retrieval evidence references are missing."@, all, uri),
        step_finding(c, "claims"@, c.claims_present, "claims_present"@, "claims_missing"@,
            "Scientist extracted claims from the research report."@,
            "Scientist could not extract claims from the research report."@, all, uri),
    ] + criteria_findings(c, c.step.acceptance_criteria@.len() as int)
}

fn copy_usize_list(v: &Vec<usize>) -> (res: Vec<usize>)
    ensures
        res@ == v@,
{
    let mut r: Vec<usize> = Vec::new();
    let mut i: usize = 0;
    while i < v.len()
        invariant
            i <= v.len(),
            r@ == v@.take(i as int),
        decreases v.len() - i,
    {
        r.push(v[i]);
        assert(v@.take(i + 1) == v@.take(i as int).push(v@[i as int]));
        i = i + 1;
    }
    assert(v@.take(v.len() as int) == v@);
    r
}

fn push_completion_finding(
    findings: &mut Vec<VerificationFinding>,
    checks: &CompletionChecks,
    suffix: &str,
    passed: bool,
    pass_reason_code: &str,
    fail_reason_code: &str,
    pass_summary: &str,
    fail_summary: &str,
    failed_clauses: &Vec<usize>,
    minimal_fix_surface: Vec<String>,
)
    ensures
        findings_view(final(findings)@) == findings_view(old(findings)@).push(
            step_finding(
                *checks,
                suffix@,
                passed,
                pass_reason_code@,
                fail_reason_code@,
                pass_summary@,
                fail_summary@,
                failed_clauses@,
                strings_view(minimal_fix_surface@),
            ),
        ),
{
    let mut id: Vec<char> = Vec::new();
    push_str(&mut id, "verify_");
    push_str(&mut id, checks.run_id.as_str());
    push_str(&mut id, "_");
    push_str(&mut id, checks.step.step_id.as_str());
    push_str(&mut id, "_");
    push_str(&mut id, suffix);
    let f = VerificationFinding {
        verification_id: string_of(&id),
        level: VerificationLevel::Step,
        target: checks.step.step_id.clone(),
        result: if passed {
            VerificationOutcome::Pass
        } else {
            VerificationOutcome::Fail
        },
        failed_clauses: if passed {
            Vec::new()
        } else {
            copy_usize_list(failed_clauses)
        },
        reason_code: if passed {
            owned(pass_reason_code)
        } else {
            owned(fail_reason_code)
        },
        summary: if passed {
            owned(pass_summary)
        } else {
            owned(fail_summary)
        },
        evidence_refs: copy_strings(&checks.evidence_refs),
        minimal_fix_surface: if passed {
            Vec::new()
        } else {
            minimal_fix_surface
        },
    };
    let ghost before = findings_view(findings@);
    findings.push(f);
    assert(findings_view(findings@) =~= before.push(finding_view(f)));
    assert(finding_view(f).verification_id =~= "verify_"@ + checks.run_id@ + "_"@ + checks.step.step_id@ + "_"@ + suffix@);
    assert(finding_view(f).minimal_fix_surface =~= if passed { Seq::<Seq<char>>::empty() } else { strings_view(minimal_fix_surface@) });
}

/// Lists the findings of a completed research step against its contract.
pub fn build_completion_findings(checks: &CompletionChecks) -> (res: Vec<VerificationFinding>)
    ensures
        findings_view(res@) == completion_findings(*checks),
{
    let all = &checks.step.goal_alignment.success_clauses;
    let mut u: Vec<char> = Vec::new();
    push_str(&mut u, ".dualtrack/research/results/");
    push_str(&mut u, checks.task_id.as_str());
    push_str(&mut u, "/result.md");
    let uri = string_of(&u);
    assert(uri@ =~= working_uri(checks.task_id@));
    let ghost uris = seq![working_uri(checks.task_id@)];
    let mut findings: Vec<VerificationFinding> = Vec::new();
    let f1 = vec![uri.clone()];
    assert(strings_view(f1@) =~= uris);
    push_completion_finding(&mut findings, checks, "working_artifact", checks.working_artifact.is_some(),
        "working_artifact_present", "working_artifact_missing", "Working result artifact is present.",
        "Working result artifact is missing.", all, f1);
    let present = match &checks.result_content {
        Some(r) => {
            let rc = chars_of(r.as_str());
            trim_chars(&rc).len() > 0
        },
        None => false,
    };
    assert(present == result_present(*checks));
    let f2 = vec![uri.clone()];
    assert(strings_view(f2@) =~= uris);
    push_completion_finding(&mut findings, checks, "result_content", present, "research_result_present",
        "empty_research_result", "Research result contains report content.",
        "Research result is empty or unreadable.", all, f2);
    let mut tp: Vec<char> = Vec::new();
    push_str(&mut tp, ".dualtrack/research/paths/");
    push_str(&mut tp, checks.task_id.as_str());
    let f3 = vec![string_of(&tp)];
    assert(strings_view(f3@) =~= seq![".dualtrack/research/paths/"@ + checks.task_id@]);
    push_completion_finding(&mut findings, checks, "trace", checks.trace_complete, "research_trace_present",
        "research_trace_missing", "Research path and trace files are present.",
        "Research path or trace files are missing.", all, f3);
    let f4 = vec![uri.clone()];
    assert(strings_view(f4@) =~= uris);
    push_completion_finding(&mut findings, checks, "context", checks.context_present,
        "research_context_present", "research_context_missing", "Research context is present.",
        "Research context is missing.", all, f4);
    let f5 = vec![uri.clone()];
    assert(strings_view(f5@) =~= uris);
    push_completion_finding(&mut findings, checks, "evidence", checks.evidence_present, "evidence_present",
        "evidence_missing", "Retrieval evidence references are present.",
        "Retrieval evidence references are missing.", all, f5);
    let f6 = vec![uri];
    assert(strings_view(f6@) =~= uris);
    push_completion_finding(&mut findings, checks, "claims", checks.claims_present, "claims_present",
        "claims_missing", "Scientist extracted claims from the research report.",
        "Scientist could not extract claims from the research report.", all, f6);
    let ghost fixed = findings_view(findings@);
    let crits = &checks.step.acceptance_criteria;
    let mut index: usize = 0;
    while index < crits.len()
        invariant
            index <= crits.len(),
            crits == &checks.step.acceptance_criteria,
            findings_view(findings@) == fixed + criteria_findings(*checks, index as int),
        decreases crits.len() - index,
    {
        let normalized = normalize_contract_text(crits[index].as_str());
        let satisfied = contains_string(&checks.checked_criteria, &normalized);
        let mut clause: Vec<usize> = Vec::new();
        if index < checks.step.goal_alignment.success_clauses.len() {
            clause.push(checks.step.goal_alignment.success_clauses[index]);
        }
        let n = decimal_text(index + 1);
        let ns = string_of(&n);
        let mut sx: Vec<char> = Vec::new();
        push_str(&mut sx, "acceptance_");
        append_chars(&mut sx, &n);
        let suffix = string_of(&sx);
        let mut ps: Vec<char> = Vec::new();
        push_str(&mut ps, "Acceptance criterion ");
        append_chars(&mut ps, &n);
        push_str(&mut ps, " is checked.");
        let mut fs: Vec<char> = Vec::new();
        push_str(&mut fs, "Acceptance criterion ");
        append_chars(&mut fs, &n);
        push_str(&mut fs, " is not checked.");
        let pass_summary = string_of(&ps);
        let fail_summary = string_of(&fs);
        let ghost before = findings_view(findings@);
        let fix = vec![crits[index].clone()];
        assert(strings_view(fix@) =~= seq![crits@[index as int]@]);
        assert(suffix@ =~= "acceptance_"@ + decimal((index + 1) as nat));
        assert(pass_summary@ =~= "Acceptance criterion "@ + decimal((index + 1) as nat) + " is checked."@);
        assert(fail_summary@ =~= "Acceptance criterion "@ + decimal((index + 1) as nat) + " is not checked."@);
        push_completion_finding(&mut findings, checks, suffix.as_str(), satisfied,
            "acceptance_criterion_checked", "acceptance_criterion_unchecked", pass_summary.as_str(),
            fail_summary.as_str(), &clause, fix);
        assert(clause@ =~= clause_at(*checks, index as int));
        assert(findings_view(findings@) =~= before.push(criterion_finding(*checks, index as int)));
        assert(findings_view(findings@) =~= fixed + criteria_findings(*checks, index + 1));
        index = index + 1;
    }
    assert(criteria_findings(*checks, crits@.len() as int) == criteria_findings(*checks, checks.step.acceptance_criteria@.len() as int));
    assert(findings_view(findings@) =~= completion_findings(*checks));
    findings
}

} // verus!
