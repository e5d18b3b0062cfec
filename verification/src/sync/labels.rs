//! Planning a label sync: which labels are created, changed or left alone,
//! and which requests that takes.
use vstd::prelude::*;

use crate::github::model::{
    CreateLabelRequest, CreateLabelRequestView, Label, LabelView, UpdateLabelRequest,
    UpdateLabelRequestView, label_views,
};
use crate::sync::{
    Outcome, RepoRef, SyncReport, join_repo, last_index_with_key, last_with_key,
};
use vstd::utf8::is_ascii_chars;
use crate::text::{ascii_lowercase, same_up_to_ascii_case, copy_text, field_change, field_change_of, lowercase, same_text, to_lowercase};

verus! {

/// A request the label sync sends to the target repository.
#[derive(Debug)]
pub enum LabelAction {
    /// Create a label.
    Create(CreateLabelRequest),
    /// Change the label named `name`.
    Update { name: String, request: UpdateLabelRequest },
}

/// The content of a [`LabelAction`].
pub enum LabelActionView {
    Create(CreateLabelRequestView),
    Update(Seq<char>, UpdateLabelRequestView),
}

impl View for LabelAction {
    type V = LabelActionView;

    open spec fn view(&self) -> LabelActionView {
        match self {
            LabelAction::Create(r) => LabelActionView::Create(r@),
            LabelAction::Update { name, request } => LabelActionView::Update(name@, request@),
        }
    }
}

/// The contents of a list of actions.
pub open spec fn label_action_views(v: Seq<LabelAction>) -> Seq<LabelActionView> {
    v.map_values(|a: LabelAction| a@)
}

/// The report of a label sync and the requests it sends, in order.
pub struct LabelPlan {
    pub report: SyncReport,
    pub actions: Vec<LabelAction>,
}

/// The lower-case names of a list of labels, by which they are matched.
pub open spec fn label_keys(ts: Seq<LabelView>) -> Seq<Seq<char>> {
    ts.map_values(|t: LabelView| lowercase(t.name))
}

/// The target label that `l` is matched with: the last one whose name equals
/// its name up to case.
pub open spec fn label_match(ts: Seq<LabelView>, l: LabelView) -> Option<int> {
    last_with_key(label_keys(ts), lowercase(l.name))
}

/// Whether `existing` differs from `wanted` in what a sync copies.
pub open spec fn label_differs(existing: LabelView, wanted: LabelView) -> bool {
    existing.color != wanted.color || existing.description != wanted.description
}

/// What the sync does with source label `l` against target labels `ts`.
pub open spec fn label_outcome(ts: Seq<LabelView>, l: LabelView) -> Outcome {
    match label_match(ts, l) {
        None => Outcome::Created,
        Some(j) => if label_differs(ts[j], l) {
            Outcome::Updated
        } else {
            Outcome::Unchanged
        },
    }
}

/// The names of the source labels with outcome `o`, in source order.
pub open spec fn label_names_with(ss: Seq<LabelView>, ts: Seq<LabelView>, o: Outcome) -> Seq<
    Seq<char>,
>
    decreases ss.len(),
{
    if ss.len() == 0 {
        seq![]
    } else {
        let rest = label_names_with(ss.drop_last(), ts, o);
        if label_outcome(ts, ss.last()) == o {
            rest.push(ss.last().name)
        } else {
            rest
        }
    }
}

/// The request that creates a copy of `l`.
pub open spec fn create_label_request(l: LabelView) -> CreateLabelRequestView {
    CreateLabelRequestView { name: l.name, color: l.color, description: l.description }
}

/// The request that gives label `existing` the colour and description of `l`,
/// clearing its description when `l` has none.
pub open spec fn update_label_request(l: LabelView, existing: LabelView) -> UpdateLabelRequestView {
    UpdateLabelRequestView {
        new_name: None,
        color: Some(l.color),
        description: field_change(l.description, existing.description),
    }
}

/// The requests sent for source label `l`.
pub open spec fn label_actions_for(ts: Seq<LabelView>, l: LabelView) -> Seq<LabelActionView> {
    match label_outcome(ts, l) {
        Outcome::Created => seq![LabelActionView::Create(create_label_request(l))],
        Outcome::Updated => seq![
            LabelActionView::Update(
                ts[label_match(ts, l)->0].name,
                update_label_request(l, ts[label_match(ts, l)->0]),
            ),
        ],
        Outcome::Unchanged => seq![],
    }
}

/// The requests a sync of `ss` onto `ts` sends, in order.
pub open spec fn label_actions(ss: Seq<LabelView>, ts: Seq<LabelView>) -> Seq<LabelActionView>
    decreases ss.len(),
{
    if ss.len() == 0 {
        seq![]
    } else {
        label_actions(ss.drop_last(), ts) + label_actions_for(ts, ss.last())
    }
}

/// The lower-case name of each label.
fn label_keys_of(ts: &Vec<Label>) -> (keys: Vec<String>)
    ensures
        keys.deep_view() == label_keys(label_views(ts@)),
        forall|j: int|
            0 <= j < ts@.len() && is_ascii_chars(ts@[j].name@) ==> keys.deep_view()[j]
                == ascii_lowercase(ts@[j].name@),
{
    let mut keys: Vec<String> = Vec::new();
    let mut j: usize = 0;
    while j < ts.len()
        invariant
            j <= ts.len(),
            keys.deep_view() == label_keys(label_views(ts@)).take(j as int),
            forall|m: int|
                0 <= m < j && is_ascii_chars(ts@[m].name@) ==> keys.deep_view()[m]
                    == ascii_lowercase(ts@[m].name@),
        decreases ts.len() - j,
    {
        let k = to_lowercase(ts[j].name.as_str());
        let ghost before = keys.deep_view();
        keys.push(k);
        proof {
            assert(keys.deep_view() =~= before.push(k@));
            assert(label_keys(label_views(ts@)).take(j + 1) =~= label_keys(label_views(ts@)).take(
                j as int,
            ).push(k@));
        }
        j = j + 1;
    }
    proof {
        assert(label_keys(label_views(ts@)).take(j as int) =~= label_keys(label_views(ts@)));
    }
    keys
}

/// Plans the sync of `source_labels` (of `source`) onto `target_labels` (of
/// `target`). A source label whose name matches no target label's up to case
/// is created; one that matches the last such label is changed when colour or
/// description differ (an absent description clearing the target's) and left
/// alone otherwise. In a dry run no request is
/// planned; the report is the same either way.
pub fn plan_labels(
    source: &RepoRef,
    target: &RepoRef,
    source_labels: &Vec<Label>,
    target_labels: &Vec<Label>,
    dry_run: bool,
) -> (plan: LabelPlan)
    ensures
        plan.report.resource@ == "Labels"@,
        plan.report.source@ == join_repo(source.owner@, source.repo@),
        plan.report.target@ == join_repo(target.owner@, target.repo@),
        plan.report.dry_run == dry_run,
        plan.report.created.deep_view() == label_names_with(
            label_views(source_labels@),
            label_views(target_labels@),
            Outcome::Created,
        ),
        plan.report.updated.deep_view() == label_names_with(
            label_views(source_labels@),
            label_views(target_labels@),
            Outcome::Updated,
        ),
        plan.report.skipped.deep_view() == label_names_with(
            label_views(source_labels@),
            label_views(target_labels@),
            Outcome::Unchanged,
        ),
        label_action_views(plan.actions@) == if dry_run {
            Seq::<LabelActionView>::empty()
        } else {
            label_actions(label_views(source_labels@), label_views(target_labels@))
        },
        forall|i: int, j: int|
            0 <= i < label_views(source_labels@).len() && 0 <= j < label_views(target_labels@).len() && is_ascii_chars(
                label_views(source_labels@)[i].name,
            ) && is_ascii_chars(label_views(target_labels@)[j].name) && same_up_to_ascii_case(
                label_views(source_labels@)[i].name,
                label_views(target_labels@)[j].name,
            ) ==> label_outcome(label_views(target_labels@), label_views(source_labels@)[i])
                != Outcome::Created,
{
    let ghost ss = label_views(source_labels@);
    let ghost ts = label_views(target_labels@);
    let keys = label_keys_of(target_labels);
    proof {
        assert forall|j: int| 0 <= j < ts.len() && is_ascii_chars(ts[j].name) implies lowercase(
            ts[j].name,
        ) == ascii_lowercase(ts[j].name) by {
            assert(keys.deep_view()[j] == label_keys(ts)[j]);
        }
    }
    let mut created: Vec<String> = Vec::new();
    let mut updated: Vec<String> = Vec::new();
    let mut skipped: Vec<String> = Vec::new();
    let mut actions: Vec<LabelAction> = Vec::new();
    let mut i: usize = 0;
    while i < source_labels.len()
        invariant
            i <= source_labels.len(),
            ss == label_views(source_labels@),
            ts == label_views(target_labels@),
            keys.deep_view() == label_keys(ts),
            created.deep_view() == label_names_with(ss.take(i as int), ts, Outcome::Created),
            updated.deep_view() == label_names_with(ss.take(i as int), ts, Outcome::Updated),
            skipped.deep_view() == label_names_with(ss.take(i as int), ts, Outcome::Unchanged),
            label_action_views(actions@) == if dry_run {
                Seq::<LabelActionView>::empty()
            } else {
                label_actions(ss.take(i as int), ts)
            },
            forall|k: int|
                0 <= k < i && is_ascii_chars(ss[k].name) ==> lowercase(ss[k].name)
                    == ascii_lowercase(ss[k].name),
            forall|j: int|
                0 <= j < ts.len() && is_ascii_chars(ts[j].name) ==> lowercase(ts[j].name)
                    == ascii_lowercase(ts[j].name),
        decreases source_labels.len() - i,
    {
        let label = &source_labels[i];
        let ghost l = label@;
        let ghost done = ss.take(i as int);
        proof {
            assert(ss.take(i + 1).drop_last() =~= done);
            assert(ss.take(i + 1).last() == l);
        }
        let key = to_lowercase(label.name.as_str());
        let found = last_index_with_key(&keys, &key);
        let ghost created0 = created.deep_view();
        let ghost updated0 = updated.deep_view();
        let ghost skipped0 = skipped.deep_view();
        let ghost actions0 = label_action_views(actions@);
        match found {
            Some(j) => {
                proof { lemma_last_index_in_bounds(label_keys(ts), key@, j as int); }
                let existing = &target_labels[j];
                if !(existing.color == label.color) || !same_text(
                    &existing.description,
                    &label.description,
                ) {
                    if !dry_run {
                        let action = LabelAction::Update {
                            name: existing.name.clone(),
                            request: UpdateLabelRequest {
                                new_name: None,
                                color: Some(label.color.clone()),
                                description: field_change_of(
                                    &label.description,
                                    &existing.description,
                                ),
                            },
                        };
                        actions.push(action);
                        proof {
                            assert(label_action_views(actions@) =~= actions0.push(action@));
                        }
                    }
                    updated.push(label.name.clone());
                    proof {
                        assert(updated.deep_view() =~= updated0.push(l.name));
                    }
                } else {
                    skipped.push(label.name.clone());
                    proof {
                        assert(skipped.deep_view() =~= skipped0.push(l.name));
                    }
                }
            },
            None => {
                if !dry_run {
                    let action = LabelAction::Create(
                        CreateLabelRequest {
                            name: label.name.clone(),
                            color: label.color.clone(),
                            description: copy_text(&label.description),
                        },
                    );
                    actions.push(action);
                    proof {
                        assert(label_action_views(actions@) =~= actions0.push(action@));
                    }
                }
                created.push(label.name.clone());
                proof {
                    assert(created.deep_view() =~= created0.push(l.name));
                }
            },
        }
        i = i + 1;
    }
    proof {
        assert(ss.take(i as int) =~= ss);
        assert forall|i: int, j: int|
            0 <= i < ss.len() && 0 <= j < ts.len() && is_ascii_chars(ss[i].name) && is_ascii_chars(
                ts[j].name,
            ) && same_up_to_ascii_case(ss[i].name, ts[j].name) implies label_outcome(ts, ss[i])
            != Outcome::Created by {
            crate::sync::label_laws::lemma_label_ascii_case_variants_match(ts, ss[i], j);
        }
    }
    proof { reveal_strlit("Labels"); }
    LabelPlan {
        report: SyncReport {
            resource: "Labels",
            source: source.full_name(),
            target: target.full_name(),
            created,
            updated,
            skipped,
            dry_run,
        },
        actions,
    }
}

proof fn lemma_last_index_in_bounds(keys: Seq<Seq<char>>, k: Seq<char>, j: int)
    requires
        last_with_key(keys, k) == Some(j),
    ensures
        0 <= j < keys.len(),
        keys[j] == k,
{
    crate::sync::lemma_last_with_key(keys, k);
}

} // verus!
