use ghreposync::github::model::Milestone;
use ghreposync::sync::RepoRef;
use ghreposync::sync::milestones::{MilestoneAction, MilestonePlan, plan_milestones};

fn repo(owner: &str, name: &str) -> RepoRef {
    RepoRef { owner: owner.to_string(), repo: name.to_string() }
}

fn milestone(number: u64, title: &str, description: Option<&str>, state: &str, due_on: Option<&str>) -> Milestone {
    Milestone {
        number,
        title: title.to_string(),
        description: description.map(|d| d.to_string()),
        state: state.to_string(),
        due_on: due_on.map(|d| d.to_string()),
    }
}

fn plan(source: &[Milestone], target: &[Milestone], dry_run: bool) -> MilestonePlan {
    plan_milestones(&repo("org", "template"), &repo("org", "app"), &source.to_vec(), &target.to_vec(), dry_run)
}

fn apply(target: &[Milestone], actions: Vec<MilestoneAction>) -> Vec<Milestone> {
    let mut out = target.to_vec();
    for a in actions {
        match a {
            MilestoneAction::Create(r) => out.push(Milestone {
                number: 0,
                title: r.title,
                description: r.description,
                state: r.state.unwrap_or_else(|| "open".to_string()),
                due_on: r.due_on,
            }),
            MilestoneAction::Update { number, request } => {
                for m in out.iter_mut().filter(|m| m.number == number) {
                    if let Some(t) = &request.title {
                        m.title = t.clone();
                    }
                    if let Some(d) = &request.description {
                        m.description = d.clone();
                    }
                    if let Some(s) = &request.state {
                        m.state = s.clone();
                    }
                    if let Some(d) = &request.due_on {
                        m.due_on = d.clone();
                    }
                }
            }
        }
    }
    out
}

#[test]
fn milestone_report_header() {
    let p = plan(&[], &[], true);
    assert_eq!(p.report.resource, "Milestones");
    assert_eq!(p.report.source, "org/template");
    assert_eq!(p.report.target, "org/app");
    assert!(p.report.dry_run);
}

#[test]
fn creates_missing_milestone_with_state() {
    let p = plan(&[milestone(3, "v1.0", Some("First"), "closed", Some("2024-01-01T00:00:00Z"))], &[], false);
    assert_eq!(p.report.created, vec!["v1.0".to_string()]);
    match &p.actions[0] {
        MilestoneAction::Create(r) => {
            assert_eq!(r.title, "v1.0");
            assert_eq!(r.description.as_deref(), Some("First"));
            assert_eq!(r.state.as_deref(), Some("closed"));
            assert_eq!(r.due_on.as_deref(), Some("2024-01-01T00:00:00Z"));
        }
        _ => panic!("expected a create request"),
    }
}

#[test]
fn updates_by_target_number() {
    let p = plan(&[milestone(1, "V1.0", None, "closed", None)], &[milestone(17, "v1.0", None, "open", None)], false);
    assert_eq!(p.report.updated, vec!["V1.0".to_string()]);
    match &p.actions[0] {
        MilestoneAction::Update { number, request } => {
            assert_eq!(*number, 17);
            assert_eq!(request.title, None);
            assert_eq!(request.state.as_deref(), Some("closed"));
            assert_eq!(request.description, None);
            assert_eq!(request.due_on, None);
        }
        _ => panic!("expected an update request"),
    }
}

#[test]
fn due_date_difference_is_an_update() {
    let p = plan(
        &[milestone(1, "m", None, "open", Some("2024-02-01T00:00:00Z"))],
        &[milestone(2, "m", None, "open", Some("2024-03-01T00:00:00Z"))],
        false,
    );
    assert_eq!(p.report.updated, vec!["m".to_string()]);
}

#[test]
fn identical_milestone_is_skipped() {
    let p = plan(&[milestone(1, "m", Some("d"), "open", None)], &[milestone(2, "M", Some("d"), "open", None)], false);
    assert_eq!(p.report.skipped, vec!["m".to_string()]);
    assert!(p.actions.is_empty());
}

#[test]
fn milestone_dry_run_sends_nothing() {
    let p = plan(&[milestone(1, "new", None, "open", None)], &[], true);
    assert_eq!(p.report.created, vec!["new".to_string()]);
    assert!(p.actions.is_empty());
}

#[test]
fn second_milestone_sync_changes_nothing() {
    let source = [
        milestone(1, "v1", Some("one"), "closed", Some("2024-01-01T00:00:00Z")),
        milestone(2, "v2", None, "open", None),
        milestone(3, "v3", Some("three"), "open", None),
    ];
    let target = [milestone(5, "V1", Some("one"), "open", Some("2024-01-01T00:00:00Z")), milestone(6, "v3", Some("three"), "open", None)];
    let first = plan(&source, &target, false);
    assert_eq!(first.report.updated, vec!["v1".to_string()]);
    assert_eq!(first.report.created, vec!["v2".to_string()]);
    assert_eq!(first.report.skipped, vec!["v3".to_string()]);
    let after = apply(&target, first.actions);
    let second = plan(&source, &after, false);
    assert!(second.actions.is_empty());
    assert_eq!(second.report.skipped.len(), 3);
}

#[test]
fn absent_due_date_and_description_are_cleared() {
    let source = [milestone(1, "v2", None, "open", None)];
    let target = [milestone(8, "v2", Some("old"), "open", Some("2024-05-01T00:00:00Z"))];
    let first = plan(&source, &target, false);
    assert_eq!(first.report.updated, vec!["v2".to_string()]);
    match &first.actions[0] {
        MilestoneAction::Update { number, request } => {
            assert_eq!(*number, 8);
            assert_eq!(request.description, Some(None));
            assert_eq!(request.due_on, Some(None));
        }
        _ => panic!("expected an update request"),
    }
    let after = apply(&target, first.actions);
    assert_eq!(after[0].due_on, None);
    assert_eq!(after[0].description, None);
    let second = plan(&source, &after, false);
    assert!(second.actions.is_empty());
}

#[test]
fn new_due_date_is_set() {
    let p = plan(
        &[milestone(1, "v3", Some("d"), "open", Some("2025-01-01T00:00:00Z"))],
        &[milestone(4, "v3", Some("d"), "open", None)],
        false,
    );
    match &p.actions[0] {
        MilestoneAction::Update { request, .. } => {
            assert_eq!(request.due_on, Some(Some("2025-01-01T00:00:00Z".to_string())));
            assert_eq!(request.description, Some(Some("d".to_string())));
        }
        _ => panic!("expected an update request"),
    }
}
