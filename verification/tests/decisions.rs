use ctx_sync_core::clock::{date_from_ymd, parse_compact_date, Date};
use ctx_sync_core::model::decision::{Decision, DecisionId, DecisionStatus};
use ctx_sync_core::model::decisions::{
    duplicate_decision_seqs, effective_decisions, next_decision_seq, plan_renumber,
    renumber_decision, try_next_decision_seq, DuplicateSeq, Renumber,
};

fn day(d: u32) -> Date {
    date_from_ymd(2026, 9, d).unwrap()
}

fn decision(id: &str, status: DecisionStatus, supersedes: &[&str]) -> Decision {
    let id = DecisionId::parse(id).unwrap();
    Decision {
        date: parse_compact_date(id.date_str()).unwrap(),
        id,
        title: "t".into(),
        status,
        author: None,
        supersedes: supersedes.iter().map(|s| DecisionId::parse(s).unwrap()).collect(),
        context: String::new(),
        decision: String::new(),
        reason: String::new(),
        consequences: String::new(),
        extra_sections: vec![],
    }
}

fn ids(decisions: Vec<&Decision>) -> Vec<&str> {
    decisions.into_iter().map(|d| d.id.as_str()).collect()
}

#[test]
fn superseded_decisions_are_not_effective() {
    let decisions = [
        decision("20260923-002-b", DecisionStatus::Accepted, &["20260923-001-a"]),
        decision("20260923-001-a", DecisionStatus::Accepted, &[]),
    ];
    assert_eq!(ids(effective_decisions(&decisions)), ["20260923-002-b"]);
}

#[test]
fn only_accepted_decisions_are_effective() {
    let decisions = [
        decision("20260923-001-a", DecisionStatus::Proposed, &[]),
        decision("20260923-002-b", DecisionStatus::Rejected, &[]),
        decision("20260923-003-c", DecisionStatus::Superseded, &[]),
        decision("20260923-005-e", DecisionStatus::Accepted, &[]),
        decision("20260923-004-d", DecisionStatus::Accepted, &[]),
    ];
    assert_eq!(
        ids(effective_decisions(&decisions)),
        ["20260923-004-d", "20260923-005-e"]
    );
}

#[test]
fn next_seq_follows_the_largest_of_the_day() {
    let decisions = [
        decision("20260923-001-a", DecisionStatus::Accepted, &[]),
        decision("20260923-002-b", DecisionStatus::Accepted, &[]),
        decision("20260922-007-c", DecisionStatus::Accepted, &[]),
    ];
    assert_eq!(next_decision_seq(&decisions, day(23)), 3);
    assert_eq!(next_decision_seq(&decisions, day(24)), 1);
    assert_eq!(next_decision_seq(&[], day(23)), 1);
    assert_eq!(try_next_decision_seq(&decisions, day(22)), Some(8));
}

#[test]
fn next_seq_does_not_fill_gaps() {
    let decisions = [
        decision("20260923-001-a", DecisionStatus::Accepted, &[]),
        decision("20260923-003-c", DecisionStatus::Accepted, &[]),
    ];
    assert_eq!(next_decision_seq(&decisions, day(23)), 4);
}

#[test]
fn detects_duplicate_sequence_numbers() {
    let decisions = [
        decision("20260923-001-b", DecisionStatus::Accepted, &[]),
        decision("20260923-001-a", DecisionStatus::Accepted, &[]),
        decision("20260923-002-c", DecisionStatus::Accepted, &[]),
    ];
    assert_eq!(
        duplicate_decision_seqs(&decisions),
        vec![DuplicateSeq {
            date: "20260923".into(),
            seq: 1,
            ids: vec![
                DecisionId::parse("20260923-001-a").unwrap(),
                DecisionId::parse("20260923-001-b").unwrap(),
            ],
        }]
    );
    assert!(duplicate_decision_seqs(&decisions[1..]).is_empty());
}

#[test]
fn plans_remote_collisions_after_the_largest_used_sequence() {
    let decisions = [
        decision("20260923-001-a", DecisionStatus::Accepted, &[]),
        decision("20260923-001-b", DecisionStatus::Accepted, &[]),
        decision("20260923-002-c", DecisionStatus::Accepted, &[]),
    ];
    let local = [decisions[1].id.clone(), decisions[2].id.clone()];
    assert_eq!(
        plan_renumber(&decisions, &local),
        vec![Renumber {
            from: decisions[1].id.clone(),
            to: DecisionId::parse("20260923-003-b").unwrap(),
        }]
    );
}

#[test]
fn retains_the_first_local_decision_in_an_all_local_group() {
    let decisions = [
        decision("20260923-001-b", DecisionStatus::Accepted, &[]),
        decision("20260923-001-a", DecisionStatus::Accepted, &[]),
    ];
    let local: Vec<DecisionId> = decisions.iter().map(|d| d.id.clone()).collect();
    assert_eq!(
        plan_renumber(&decisions, &local),
        vec![Renumber {
            from: DecisionId::parse("20260923-001-b").unwrap(),
            to: DecisionId::parse("20260923-002-b").unwrap(),
        }]
    );
}

#[test]
fn planning_is_empty_without_duplicates_and_dates_are_independent() {
    let decisions = [
        decision("20260923-001-a", DecisionStatus::Accepted, &[]),
        decision("20260923-001-b", DecisionStatus::Accepted, &[]),
        decision("20260924-001-c", DecisionStatus::Accepted, &[]),
        decision("20260924-001-d", DecisionStatus::Accepted, &[]),
    ];
    let local = [decisions[1].id.clone(), decisions[3].id.clone()];
    assert!(plan_renumber(&decisions[..1], &local).is_empty());
    let plan = plan_renumber(&decisions, &local);
    assert_eq!(plan[0].to.as_str(), "20260923-002-b");
    assert_eq!(plan[1].to.as_str(), "20260924-002-d");
    let reversed = decisions.iter().rev().cloned().collect::<Vec<_>>();
    assert_eq!(plan_renumber(&reversed, &local), plan);
}

#[test]
fn renumbering_rewrites_superseded_ids() {
    let decision = decision("20260923-002-c", DecisionStatus::Accepted, &["20260923-001-b"]);
    let from = DecisionId::parse("20260923-001-b").unwrap();
    let to = DecisionId::parse("20260923-003-b").unwrap();
    let map = [Renumber { from, to: to.clone() }];
    let new_id = DecisionId::parse("20260923-004-c").unwrap();
    let changed = renumber_decision(&decision, &new_id, &map);
    assert_eq!(changed.id, new_id);
    assert_eq!(changed.supersedes, vec![to]);
    assert_eq!(decision.id.as_str(), "20260923-002-c");
    assert_eq!(decision.supersedes[0].as_str(), "20260923-001-b");
}
