use ctx_sync_core::bootstrap::report::{BootstrapReport, Finding};
use ctx_sync_core::clock::{date_from_ymd, parse_rfc3339, TimeDelta, Timestamp};
use ctx_sync_core::model::decision::{Decision, DecisionId, DecisionStatus};
use ctx_sync_core::model::worker::{Worker, WorkerStatus};
use ctx_sync_core::model::MdDoc;
use ctx_sync_core::ops::agent::{needs_attach, registration_name, resume_step, start_warnings, ResumeStep};
use ctx_sync_core::ops::attach::{check_attached_gist, missing_meta_error};
use ctx_sync_core::ops::bootstrap::apply_initial_context;
use ctx_sync_core::ops::conflict_resolve::{resolution_plan, resolve_commit_message, Resolution};
use ctx_sync_core::ops::decision::{
    decision_commit_message, decision_secret_warnings, plan_decision, resolve_supersedes,
    supersede_warning, supersedes_with, NewDecision,
};
use ctx_sync_core::ops::init::{init_hints, init_project_name, initial_documents};
use ctx_sync_core::ops::prune::{plan_prune, prune_commit_message, PruneReason};
use ctx_sync_core::ops::register::{abandon_worker, registered_worker, registration_needed};
use ctx_sync_core::repo_info::RepoInfo;
use ctx_sync_core::state::local::Protocol;
use ctx_sync_core::store::gist::RebaseStrategy;
use ctx_sync_core::Error;

fn t(s: &str) -> Timestamp {
    parse_rfc3339(s).unwrap()
}

fn accepted(id: &str, supersedes: &[&str]) -> Decision {
    Decision {
        id: DecisionId::parse(id).unwrap(),
        title: "t".into(),
        status: DecisionStatus::Accepted,
        date: date_from_ymd(2026, 9, 23).unwrap(),
        author: None,
        supersedes: supersedes.iter().map(|s| DecisionId::parse(s).unwrap()).collect(),
        context: String::new(),
        decision: String::new(),
        reason: String::new(),
        consequences: String::new(),
        extra_sections: vec![],
    }
}

fn new_decision(title: &str, supersedes: &[&str]) -> NewDecision {
    NewDecision {
        title: title.into(),
        context: None,
        decision: None,
        reason: Some("because".into()),
        consequences: None,
        supersedes: supersedes.iter().map(|s| s.to_string()).collect(),
        status: DecisionStatus::Accepted,
    }
}

#[test]
fn a_new_decision_takes_the_next_number_of_its_day() {
    let known = [accepted("20260923-001-a", &[]), accepted("20260923-002-b", &[])];
    let date = date_from_ymd(2026, 9, 23).unwrap();
    let d = plan_decision(&new_decision("  Use GitHub Gist ", &[" 20260923-001-a "]), 0x6f1c2b7e << 96, &known, date)
        .unwrap();
    assert_eq!(d.id.as_str(), "20260923-003-use-github-gist");
    assert_eq!(d.title, "Use GitHub Gist");
    assert_eq!(d.decision, "Use GitHub Gist");
    assert_eq!(d.reason, "because");
    assert_eq!(d.context, "");
    assert_eq!(d.author.as_deref(), Some("6f1c2b7e"));
    assert_eq!(d.supersedes, vec![DecisionId::parse("20260923-001-a").unwrap()]);
    assert_eq!(d.file_name(), "30-decision-20260923-003-use-github-gist.md");
    assert_eq!(decision_commit_message(&d.id), "ctx-sync: decision 20260923-003-use-github-gist");
}

#[test]
fn a_new_decision_needs_a_title_and_known_superseded_ids() {
    let known = [accepted("20260923-001-a", &[])];
    let date = date_from_ymd(2026, 9, 23).unwrap();
    let err = plan_decision(&new_decision("  ", &[]), 1, &known, date).unwrap_err();
    assert_eq!(err.message(), "invalid configuration: decision title is empty");
    let err = plan_decision(&new_decision("x", &["nope"]), 1, &known, date).unwrap_err();
    assert_eq!(err.message(), "invalid decision id: \"nope\"");
    let err = plan_decision(&new_decision("x", &["20260923-009-z"]), 1, &known, date).unwrap_err();
    assert_eq!(err.message(), "unknown decision id: 20260923-009-z");
    assert!(resolve_supersedes(&vec![], &known).unwrap().is_empty());
}

#[test]
fn decision_texts_are_scanned_for_credentials() {
    let token = ["ghp_", "0123456789abcdefghij0123"].concat();
    let mut input = new_decision("x", &[]);
    input.context = Some(token);
    let warnings = decision_secret_warnings("x", &input);
    assert_eq!(
        warnings,
        ["possible credential (github-token) in context; do not put secrets into ctx-sync context"]
    );
}

#[test]
fn superseding_warns_about_decisions_that_are_not_effective() {
    let known = [
        accepted("20260923-001-a", &[]),
        accepted("20260923-003-c", &["20260923-001-a"]),
        accepted("20260923-002-b", &["20260923-001-a"]),
        accepted("20260923-004-d", &[]),
    ];
    assert_eq!(
        supersede_warning("20260923-001-a", &known).unwrap().as_deref(),
        Some("decision 20260923-001-a is not effective (superseded by 20260923-002-b, 20260923-003-c)")
    );
    assert_eq!(supersede_warning("20260923-004-d", &known).unwrap(), None);
    let mut rejected = accepted("20260923-005-e", &[]);
    rejected.status = DecisionStatus::Rejected;
    assert_eq!(
        supersede_warning("20260923-005-e", &[rejected]).unwrap().as_deref(),
        Some("decision 20260923-005-e is not effective (status rejected)")
    );
    let err = supersede_warning("20260923-009-z", &known).unwrap_err();
    assert_eq!(err.message(), "unknown decision id: 20260923-009-z");
    assert_eq!(
        supersedes_with("a", vec!["b".into()]),
        ["a".to_string(), "b".to_string()]
    );
    assert_eq!(supersedes_with("a", vec!["b".into(), "a".into()]), ["b", "a"]);
}

#[test]
fn prune_plans_finished_and_stale_workers_but_never_mine() {
    let now = t("2026-09-26T18:00:00+09:00");
    let mut done = Worker::new(1, "done", now);
    done.status = WorkerStatus::Done;
    let mut gone = Worker::new(2, "gone", now);
    gone.status = WorkerStatus::Abandoned;
    let old = Worker::new(3, "old", t("2026-09-20T18:00:00+09:00"));
    let fresh = Worker::new(4, "fresh", now);
    let mut mine = Worker::new(5, "mine", now);
    mine.status = WorkerStatus::Done;
    let workers = [done, gone, old, fresh, mine];
    let plan = plan_prune(&workers, Some(5), None, now);
    let reasons: Vec<_> = plan.iter().map(|p| (p.name.as_str(), p.reason)).collect();
    assert_eq!(reasons, [("done", PruneReason::Done), ("gone", PruneReason::Abandoned)]);
    let plan = plan_prune(&workers, Some(5), Some(TimeDelta::try_days(1).unwrap()), now);
    let names: Vec<_> = plan.iter().map(|p| p.name.as_str()).collect();
    assert_eq!(names, ["done", "gone", "old"]);
    assert_eq!(plan[2].reason.as_str(), "stale");
    assert_eq!(plan[0].file_name, Worker::file_name_for(1));
    assert_eq!(prune_commit_message(3), "ctx-sync: prune 3 worker(s)");
}

#[test]
fn agent_start_decisions() {
    assert!(needs_attach(&Error::InvalidConfig(
        "this machine is not attached to gist abc; run attach".into()
    )));
    assert!(!needs_attach(&Error::InvalidConfig("other".into())));
    assert!(!needs_attach(&Error::General("this machine is not attached to gist abc".into())));
    assert_eq!(registration_name(Some("parser")).unwrap(), "parser");
    assert!(registration_name(None).is_err());
    assert_eq!(
        start_warnings(true, Some(&vec!["a.md".into(), "b.md".into()])),
        [
            "local context has unpushed commits; run `ctx-sync sync`",
            "unresolved context conflict: a.md, b.md; run `ctx-sync status`",
        ]
    );
    assert!(start_warnings(false, None).is_empty());
    let now = t("2026-09-26T18:00:00+09:00");
    let mut me = Worker::new(7, "parser", now);
    me.status = WorkerStatus::Done;
    let workers = [Worker::new(1, "other", now), me];
    assert_eq!(resume_step(&workers, 7, true), ResumeStep::Resume);
    assert_eq!(
        resume_step(&workers, 7, false),
        ResumeStep::Warn("your worker status is done; pass --resume to continue".into())
    );
    assert_eq!(resume_step(&workers, 1, false), ResumeStep::Nothing);
    assert_eq!(resume_step(&workers, 9, false), ResumeStep::Nothing);
}

#[test]
fn attach_and_init_checks() {
    assert!(check_attached_gist("abc", None).is_ok());
    assert!(check_attached_gist("abc", Some("abc")).is_ok());
    assert_eq!(
        check_attached_gist("abc", Some("def")).unwrap_err().message(),
        "invalid configuration: this project is already attached to gist def"
    );
    assert_eq!(
        missing_meta_error("abc").message(),
        "invalid configuration: gist abc is not a ctx-sync context (00-meta.json not found)"
    );
    assert_eq!(init_project_name(" demo ", false, false).unwrap(), "demo");
    assert_eq!(init_project_name("demo", true, true).unwrap(), "demo");
    assert!(init_project_name("demo", true, false).is_err());
    assert!(init_project_name("  ", false, false).is_err());
    let docs = initial_documents("demo");
    assert_eq!(docs[0].0, "10-project.md");
    assert_eq!(docs[1].0, "20-architecture.md");
    assert_eq!(init_hints(Protocol::Https).len(), 1);
    assert!(init_hints(Protocol::Ssh).is_empty());
}

#[test]
fn register_builds_and_abandons_worker_files() {
    let now = t("2026-09-26T18:00:00+09:00");
    assert!(registration_needed(false, false));
    assert!(registration_needed(true, true));
    assert!(!registration_needed(true, false));
    let repo = RepoInfo {
        branch: Some("main".into()),
        commit: Some("abc1234".into()),
        changed_files: vec![],
    };
    let w = registered_worker(3, "parser", repo, now);
    assert_eq!(w.branch.as_deref(), Some("main"));
    assert_eq!(w.status, WorkerStatus::Working);
    let later = t("2026-09-27T18:00:00+09:00");
    let gone = abandon_worker(w, later);
    assert_eq!(gone.status, WorkerStatus::Abandoned);
    assert_eq!(gone.last_updated, later);
}

#[test]
fn bootstrap_adds_the_initial_context_section_once() {
    let mut report = BootstrapReport::default();
    report.extend(vec![Finding::confirmed("Language", "Rust", None)]);
    let doc = apply_initial_context(None, "10-project.md", &report).unwrap();
    assert_eq!(doc.title, "Project");
    assert!(doc.section_body("Initial Context").unwrap().starts_with("### Confirmed"));
    let again = apply_initial_context(Some(doc), "10-project.md", &report).unwrap_err();
    assert_eq!(again.message(), "10-project.md already has an Initial Context section");
    let existing = MdDoc::parse("# Project\n\n## Goal\n\nx\n").unwrap();
    let doc = apply_initial_context(Some(existing), "10-project.md", &report).unwrap();
    assert_eq!(doc.sections.len(), 2);
}

#[test]
fn resolutions_name_their_strategy() {
    let files = vec!["20-architecture.md".to_string()];
    let (name, strategy) = resolution_plan(&Resolution::KeepLocal, &files).unwrap();
    assert_eq!((name, strategy), ("keep-local", RebaseStrategy::KeepLocal));
    let (name, strategy) = resolution_plan(&Resolution::KeepRemote, &files).unwrap();
    assert_eq!((name, strategy), ("keep-remote", RebaseStrategy::KeepRemote));
    let merged = Resolution::Merged(vec![("20-architecture.md".into(), "/tmp/x".into())]);
    assert_eq!(resolution_plan(&merged, &files).unwrap().0, "merged");
    let stray = Resolution::Merged(vec![("10-project.md".into(), "/tmp/x".into())]);
    assert_eq!(
        resolution_plan(&stray, &files).unwrap_err().message(),
        "10-project.md is not in conflict"
    );
    assert_eq!(
        resolve_commit_message(&files),
        "ctx-sync: resolve conflict in 20-architecture.md"
    );
}
