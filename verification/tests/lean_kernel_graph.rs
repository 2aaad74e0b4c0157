use feroha::lean_kernel::{
    HybridLeanKernel, Proposition, PropositionGraph, PropositionId, PropositionKernel,
    PropositionRelation, RelationType, Violation, ViolationSeverity,
};

fn make_pid(id: &str) -> PropositionId {
    PropositionId {
        id: id.to_string(),
        content_hash: format!("hash_{}", id),
        human_readable: format!("Prop {}", id),
    }
}

fn make_prop(id: &str, content: &str) -> Proposition {
    Proposition {
        pid: make_pid(id),
        content: content.to_string(),
        source_agent_id: "test_agent".to_string(),
    }
}

fn relation(from: &str, to: &str, relation_type: RelationType) -> PropositionRelation {
    PropositionRelation {
        from: make_pid(from),
        to: make_pid(to),
        relation_type,
    }
}

fn graph(propositions: Vec<Proposition>, relations: Vec<PropositionRelation>) -> PropositionGraph {
    PropositionGraph {
        propositions,
        relations,
        source_agent_id: "agent".to_string(),
        timestamp: 0,
    }
}

#[test]
fn test_verify_empty_graph() {
    let result = HybridLeanKernel::verify(&graph(vec![], vec![]));
    assert!(result.passed);
    assert!(result.violations.is_empty());
    assert!(result.topology_valid);
    assert!(result.reference_valid);
    assert!(result.conflict_free);
}

#[test]
fn test_verify_valid_graph() {
    let g = graph(
        vec![
            make_prop("A", "All men are mortal"),
            make_prop("B", "Socrates is a man"),
            make_prop("C", "Socrates is mortal"),
        ],
        vec![relation("A", "C", RelationType::Implies)],
    );
    let result = HybridLeanKernel::verify(&g);
    assert!(result.passed);
    assert!(result.violations.is_empty());
    assert!(result.topology_valid);
    assert!(result.reference_valid);
    assert!(result.conflict_free);
}

#[test]
fn test_cycle_detection_simple() {
    let g = graph(
        vec![make_prop("A", "Claim A"), make_prop("B", "Claim B")],
        vec![
            relation("A", "B", RelationType::Implies),
            relation("B", "A", RelationType::Implies),
        ],
    );
    let result = HybridLeanKernel::verify(&g);
    assert!(!result.passed);
    assert!(!result.topology_valid);
    assert_eq!(result.violations.len(), 1);
    match &result.violations[0] {
        Violation::CycleDetected(ids) => {
            let display = result.violations[0].message();
            assert!(display.contains("Cycle detected"));
            assert!(ids.contains(&"A".to_string()));
            assert!(ids.contains(&"B".to_string()));
        }
        _ => panic!("Expected CycleDetected violation"),
    }
}

#[test]
fn test_cycle_detection_chain() {
    let g = graph(
        vec![make_prop("A", "Claim A"), make_prop("B", "Claim B"), make_prop("C", "Claim C")],
        vec![
            relation("A", "B", RelationType::Supports),
            relation("B", "C", RelationType::DependsOn),
            relation("C", "A", RelationType::Implies),
        ],
    );
    let result = HybridLeanKernel::verify(&g);
    assert!(!result.passed);
    assert!(!result.topology_valid);
    match &result.violations[0] {
        Violation::CycleDetected(ids) => {
            assert!(!ids.is_empty());
        }
        _ => panic!("Expected CycleDetected violation"),
    }
}

#[test]
fn test_dangling_reference() {
    let g = graph(
        vec![make_prop("A", "Claim A")],
        vec![relation("A", "NONEXISTENT", RelationType::Implies)],
    );
    let result = HybridLeanKernel::verify(&g);
    assert!(!result.passed);
    assert!(!result.reference_valid);
    match &result.violations[0] {
        Violation::DanglingReference(id) => {
            assert_eq!(id, "NONEXISTENT");
        }
        _ => panic!("Expected DanglingReference violation"),
    }
}

#[test]
fn test_direct_conflict() {
    let g = graph(
        vec![make_prop("A", "The sky is blue"), make_prop("B", "The sky is red")],
        vec![relation("A", "B", RelationType::Contradicts)],
    );
    let result = HybridLeanKernel::verify(&g);
    assert!(!result.passed);
    assert!(!result.conflict_free);
    match &result.violations[0] {
        Violation::DirectConflict(a_id, b_id) => {
            assert_eq!(a_id, "A");
            assert_eq!(b_id, "B");
        }
        _ => panic!("Expected DirectConflict violation"),
    }
}

#[test]
fn test_valid_graph_with_complex_relations() {
    let g = graph(
        vec![
            make_prop("A", "Foundation axiom"),
            make_prop("B", "Derived theorem"),
            make_prop("C", "Corollary"),
        ],
        vec![
            relation("A", "B", RelationType::Implies),
            relation("B", "C", RelationType::Supports),
        ],
    );
    let result = HybridLeanKernel::verify(&g);
    assert!(result.passed);
    assert!(result.topology_valid);
    assert!(result.reference_valid);
    assert!(result.conflict_free);
}

#[test]
fn proposition_kernel_reports_identity_and_scope() {
    let g = graph(vec![make_prop("A", "Claim A")], vec![]);
    let result = PropositionKernel::verify(&g);
    assert_eq!(result.kernel_name, "PropositionKernel");
    assert_eq!(result.scope, "proposition_graph_consistency");
    assert!(!result.is_truth_proof);
    assert!(result.passed);
}

#[test]
fn proposition_kernel_emits_diagnostics_with_repair_hints() {
    let g = graph(
        vec![make_prop("A", "Claim A")],
        vec![relation("A", "MISSING", RelationType::Implies)],
    );
    let result = PropositionKernel::verify(&g);
    assert!(!result.passed);
    assert_eq!(result.diagnostics.len(), 1);
    assert_eq!(result.diagnostics[0].severity, ViolationSeverity::Error);
    assert!(result.diagnostics[0]
        .repair_hint
        .as_ref()
        .unwrap()
        .contains("Add proposition"));
}
