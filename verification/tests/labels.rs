use ghreposync::github::model::{Label, UpdateLabelRequest};
use ghreposync::sync::RepoRef;
use ghreposync::sync::labels::{LabelAction, LabelPlan, plan_labels};

fn repo(owner: &str, name: &str) -> RepoRef {
    RepoRef { owner: owner.to_string(), repo: name.to_string() }
}

fn label(id: u64, name: &str, color: &str, description: Option<&str>) -> Label {
    Label {
        id,
        name: name.to_string(),
        color: color.to_string(),
        description: description.map(|d| d.to_string()),
        default: false,
    }
}

fn plan(source: &[Label], target: &[Label], dry_run: bool) -> LabelPlan {
    plan_labels(&repo("org", "template"), &repo("org", "app"), &source.to_vec(), &target.to_vec(), dry_run)
}

/// The target's labels after the planned requests, as each request describes.
fn apply(target: &[Label], actions: Vec<LabelAction>) -> Vec<Label> {
    let mut out = target.to_vec();
    for a in actions {
        match a {
            LabelAction::Create(r) => out.push(Label {
                id: 0,
                name: r.name,
                color: r.color,
                description: r.description,
                default: false,
            }),
            LabelAction::Update { name, request: UpdateLabelRequest { new_name, color, description } } => {
                for l in out.iter_mut().filter(|l| l.name == name) {
                    if let Some(n) = &new_name {
                        l.name = n.clone();
                    }
                    if let Some(c) = &color {
                        l.color = c.clone();
                    }
                    if let Some(d) = &description {
                        l.description = d.clone();
                    }
                }
            }
        }
    }
    out
}

#[test]
fn label_report_header() {
    let p = plan(&[], &[], false);
    assert_eq!(p.report.resource, "Labels");
    assert_eq!(p.report.source, "org/template");
    assert_eq!(p.report.target, "org/app");
    assert!(!p.report.dry_run);
    assert!(p.actions.is_empty());
}

#[test]
fn creates_missing_label() {
    let p = plan(&[label(1, "bug", "d73a4a", Some("Something isn't working"))], &[], false);
    assert_eq!(p.report.created, vec!["bug".to_string()]);
    assert!(p.report.updated.is_empty());
    assert!(p.report.skipped.is_empty());
    assert_eq!(p.actions.len(), 1);
    match &p.actions[0] {
        LabelAction::Create(r) => {
            assert_eq!(r.name, "bug");
            assert_eq!(r.color, "d73a4a");
            assert_eq!(r.description.as_deref(), Some("Something isn't working"));
        }
        _ => panic!("expected a create request"),
    }
}

#[test]
fn updates_label_that_differs_matching_case_insensitively() {
    let p = plan(&[label(1, "Bug", "d73a4a", None)], &[label(9, "bug", "ffffff", None)], false);
    assert!(p.report.created.is_empty());
    assert_eq!(p.report.updated, vec!["Bug".to_string()]);
    match &p.actions[0] {
        LabelAction::Update { name, request } => {
            assert_eq!(name, "bug");
            assert_eq!(request.new_name, None);
            assert_eq!(request.color.as_deref(), Some("d73a4a"));
            assert_eq!(request.description, None);
        }
        _ => panic!("expected an update request"),
    }
}

#[test]
fn description_difference_is_an_update() {
    let p = plan(&[label(1, "docs", "0075ca", Some("new"))], &[label(2, "docs", "0075ca", Some("old"))], false);
    assert_eq!(p.report.updated, vec!["docs".to_string()]);
}

#[test]
fn identical_label_is_skipped_without_request() {
    let p = plan(&[label(1, "BUG", "d73a4a", Some("x"))], &[label(7, "bug", "d73a4a", Some("x"))], false);
    assert_eq!(p.report.skipped, vec!["BUG".to_string()]);
    assert!(p.actions.is_empty());
}

#[test]
fn dry_run_reports_the_same_and_sends_nothing() {
    let source = [label(1, "a", "111111", None), label(2, "b", "222222", None), label(3, "c", "333333", None)];
    let target = [label(4, "B", "999999", None), label(5, "c", "333333", None)];
    let real = plan(&source, &target, false);
    let dry = plan(&source, &target, true);
    assert!(dry.report.dry_run);
    assert!(dry.actions.is_empty());
    assert_eq!(real.report.created, dry.report.created);
    assert_eq!(real.report.updated, dry.report.updated);
    assert_eq!(real.report.skipped, dry.report.skipped);
    assert_eq!(real.actions.len(), 2);
}

#[test]
fn report_partitions_sources_in_order() {
    let source = [
        label(1, "a", "1", None),
        label(2, "b", "2", None),
        label(3, "c", "3", None),
        label(4, "d", "4", None),
    ];
    let target = [label(5, "b", "2", None), label(6, "d", "x", None)];
    let p = plan(&source, &target, false);
    assert_eq!(p.report.created, vec!["a".to_string(), "c".to_string()]);
    assert_eq!(p.report.updated, vec!["d".to_string()]);
    assert_eq!(p.report.skipped, vec!["b".to_string()]);
    assert_eq!(p.report.created.len() + p.report.updated.len() + p.report.skipped.len(), source.len());
    assert_eq!(p.actions.len(), p.report.created.len() + p.report.updated.len());
}

#[test]
fn last_of_duplicate_targets_is_matched() {
    let target = [label(1, "bug", "d73a4a", None), label(2, "BUG", "000000", None)];
    let p = plan(&[label(3, "Bug", "d73a4a", None)], &target, false);
    assert_eq!(p.report.updated, vec!["Bug".to_string()]);
    match &p.actions[0] {
        LabelAction::Update { name, .. } => assert_eq!(name, "BUG"),
        _ => panic!("expected an update request"),
    }
}

#[test]
fn second_label_sync_changes_nothing() {
    let source = [
        label(1, "bug", "d73a4a", Some("Something isn't working")),
        label(2, "Docs", "0075ca", None),
        label(3, "question", "d876e3", Some("Further information")),
    ];
    let target = [label(10, "BUG", "ffffff", Some("old")), label(11, "question", "d876e3", Some("Further information"))];
    let first = plan(&source, &target, false);
    assert_eq!(first.actions.len(), 2);
    let after = apply(&target, first.actions);
    let second = plan(&source, &after, false);
    assert!(second.actions.is_empty());
    assert!(second.report.created.is_empty());
    assert!(second.report.updated.is_empty());
    assert_eq!(second.report.skipped, vec!["bug".to_string(), "Docs".to_string(), "question".to_string()]);
}

#[test]
fn absent_description_clears_target() {
    let source = [label(1, "bug", "d73a4a", None)];
    let target = [label(2, "Bug", "d73a4a", Some("stale"))];
    let first = plan(&source, &target, false);
    assert_eq!(first.report.updated, vec!["bug".to_string()]);
    match &first.actions[0] {
        LabelAction::Update { name, request } => {
            assert_eq!(name, "Bug");
            assert_eq!(request.description, Some(None));
        }
        _ => panic!("expected an update request"),
    }
    let after = apply(&target, first.actions);
    assert_eq!(after[0].description, None);
    let second = plan(&source, &after, false);
    assert!(second.actions.is_empty());
    assert_eq!(second.report.skipped, vec!["bug".to_string()]);
}

#[test]
fn present_description_is_set() {
    let p = plan(&[label(1, "a", "1", Some("new"))], &[label(2, "a", "2", None)], false);
    match &p.actions[0] {
        LabelAction::Update { request, .. } => {
            assert_eq!(request.description, Some(Some("new".to_string())));
        }
        _ => panic!("expected an update request"),
    }
}
