use ghreposync::cli::{Resource, syncs_labels, syncs_milestones};

#[test]
fn all_selects_both() {
    let r = vec![Resource::All];
    assert!(syncs_labels(&r));
    assert!(syncs_milestones(&r));
}

#[test]
fn labels_only() {
    let r = vec![Resource::Labels];
    assert!(syncs_labels(&r));
    assert!(!syncs_milestones(&r));
}

#[test]
fn milestones_only() {
    let r = vec![Resource::Milestones];
    assert!(!syncs_labels(&r));
    assert!(syncs_milestones(&r));
}

#[test]
fn comma_list() {
    let r = vec![Resource::Labels, Resource::Milestones];
    assert!(syncs_labels(&r));
    assert!(syncs_milestones(&r));
    assert!(!syncs_labels(&vec![]));
}
