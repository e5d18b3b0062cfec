//! Planning a milestone sync: which milestones are created, changed or left
//! alone, and which requests that takes.
use vstd::prelude::*;

use crate::github::model::{
    CreateMilestoneRequest, CreateMilestoneRequestView, Milestone, MilestoneView,
    UpdateMilestoneRequest, UpdateMilestoneRequestView, milestone_views,
};
use crate::sync::{
    Outcome, RepoRef, SyncReport, join_repo, last_index_with_key, last_with_key,
};
use vstd::utf8::is_ascii_chars;
use crate::text::{ascii_lowercase, same_up_to_ascii_case, copy_text, field_change, field_change_of, lowercase, same_text, to_lowercase};

verus! {

/// A request the milestone sync sends to the target repository.
#[derive(Debug)]
pub enum MilestoneAction {
    /// Create a milestone.
    Create(CreateMilestoneRequest),
    /// Change the milestone with number `number`.
    Update { number: u64, request: UpdateMilestoneRequest },
}

/// The content of a [`MilestoneAction`].
pub enum MilestoneActionView {
    Create(CreateMilestoneRequestView),
    Update(u64, UpdateMilestoneRequestView),
}

impl View for MilestoneAction {
    type V = MilestoneActionView;

    open spec fn view(&self) -> MilestoneActionView {
        match self {
            MilestoneAction::Create(r) => MilestoneActionView::Create(r@),
            MilestoneAction::Update { number, request } => MilestoneActionView::Update(
                *number,
                request@,
            ),
        }
    }
}

/// The contents of a list of actions.
pub open spec fn milestone_action_views(v: Seq<MilestoneAction>) -> Seq<MilestoneActionView> {
    v.map_values(|a: MilestoneAction| a@)
}

/// The report of a milestone sync and the requests it sends, in order.
pub struct MilestonePlan {
    pub report: SyncReport,
    pub actions: Vec<MilestoneAction>,
}

/// The lower-case titles of a list of milestones, by which they are matched.
pub open spec fn milestone_keys(ts: Seq<MilestoneView>) -> Seq<Seq<char>> {
    ts.map_values(|t: MilestoneView| lowercase(t.title))
}

/// The target milestone that `m` is matched with: the last one whose title
/// equals its title up to case.
pub open spec fn milestone_match(ts: Seq<MilestoneView>, m: MilestoneView) -> Option<int> {
    last_with_key(milestone_keys(ts), lowercase(m.title))
}

/// Whether `existing` differs from `wanted` in what a sync copies.
pub open spec fn milestone_differs(existing: MilestoneView, wanted: MilestoneView) -> bool {
    existing.description != wanted.description || existing.state != wanted.state
        || existing.due_on != wanted.due_on
}

/// What the sync does with source milestone `m` against target milestones `ts`.
pub open spec fn milestone_outcome(ts: Seq<MilestoneView>, m: MilestoneView) -> Outcome {
    match milestone_match(ts, m) {
        None => Outcome::Created,
        Some(j) => if milestone_differs(ts[j], m) {
            Outcome::Updated
        } else {
            Outcome::Unchanged
        },
    }
}

/// The titles of the source milestones with outcome `o`, in source order.
pub open spec fn milestone_titles_with(
    ss: Seq<MilestoneView>,
    ts: Seq<MilestoneView>,
    o: Outcome,
) -> Seq<Seq<char>>
    decreases ss.len(),
{
    if ss.len() == 0 {
        seq![]
    } else {
        let rest = milestone_titles_with(ss.drop_last(), ts, o);
        if milestone_outcome(ts, ss.last()) == o {
            rest.push(ss.last().title)
        } else {
            rest
        }
    }
}

/// The request that creates a copy of `m`.
pub open spec fn create_milestone_request(m: MilestoneView) -> CreateMilestoneRequestView {
    CreateMilestoneRequestView {
        title: m.title,
        description: m.description,
        state: Some(m.state),
        due_on: m.due_on,
    }
}

/// The request that gives milestone `existing` the description, state and due
/// date of `m`, clearing a description or due date that `m` lacks.
pub open spec fn update_milestone_request(m: MilestoneView, existing: MilestoneView) -> UpdateMilestoneRequestView {
    UpdateMilestoneRequestView {
        title: None,
        description: field_change(m.description, existing.description),
        state: Some(m.state),
        due_on: field_change(m.due_on, existing.due_on),
    }
}

/// The requests sent for source milestone `m`.
pub open spec fn milestone_actions_for(ts: Seq<MilestoneView>, m: MilestoneView) -> Seq<
    MilestoneActionView,
> {
    match milestone_outcome(ts, m) {
        Outcome::Created => seq![MilestoneActionView::Create(create_milestone_request(m))],
        Outcome::Updated => seq![
            MilestoneActionView::Update(
                ts[milestone_match(ts, m)->0].number,
                update_milestone_request(m, ts[milestone_match(ts, m)->0]),
            ),
        ],
        Outcome::Unchanged => seq![],
    }
}

/// The requests a sync of `ss` onto `ts` sends, in order.
pub open spec fn milestone_actions(ss: Seq<MilestoneView>, ts: Seq<MilestoneView>) -> Seq<
    MilestoneActionView,
>
    decreases ss.len(),
{
    if ss.len() == 0 {
        seq![]
    } else {
        milestone_actions(ss.drop_last(), ts) + milestone_actions_for(ts, ss.last())
    }
}

/// The lower-case title of each milestone.
fn milestone_keys_of(ts: &Vec<Milestone>) -> (keys: Vec<String>)
    ensures
        keys.deep_view() == milestone_keys(milestone_views(ts@)),
        forall|j: int|
            0 <= j < ts@.len() && is_ascii_chars(ts@[j].title@) ==> keys.deep_view()[j]
                == ascii_lowercase(ts@[j].title@),
{
    let mut keys: Vec<String> = Vec::new();
    let mut j: usize = 0;
    while j < ts.len()
        invariant
            j <= ts.len(),
            keys.deep_view() == milestone_keys(milestone_views(ts@)).take(j as int),
            forall|m: int|
                0 <= m < j && is_ascii_chars(ts@[m].title@) ==> keys.deep_view()[m]
                    == ascii_lowercase(ts@[m].title@),
        decreases ts.len() - j,
    {
        let k = to_lowercase(ts[j].title.as_str());
        let ghost before = keys.deep_view();
        keys.push(k);
        proof {
            assert(keys.deep_view() =~= before.push(k@));
            assert(milestone_keys(milestone_views(ts@)).take(j + 1) =~= milestone_keys(
                milestone_views(ts@),
            ).take(j as int).push(k@));
        }
        j = j + 1;
    }
    proof {
        assert(milestone_keys(milestone_views(ts@)).take(j as int) =~= milestone_keys(
            milestone_views(ts@),
        ));
    }
    keys
}

/// Plans the sync of `source_milestones` (of `source`) onto
/// `target_milestones` (of `target`). A source milestone whose title matches
/// no target milestone's up to case is created; one that matches the last such
/// milestone is changed when description, state or due date differ (an absent
/// description or due date clearing the target's) and left alone otherwise. In a dry run no request is planned; the report is the same
/// either way.
pub fn plan_milestones(
    source: &RepoRef,
    target: &RepoRef,
    source_milestones: &Vec<Milestone>,
    target_milestones: &Vec<Milestone>,
    dry_run: bool,
) -> (plan: MilestonePlan)
    ensures
        plan.report.resource@ == "Milestones"@,
        plan.report.source@ == join_repo(source.owner@, source.repo@),
        plan.report.target@ == join_repo(target.owner@, target.repo@),
        plan.report.dry_run == dry_run,
        plan.report.created.deep_view() == milestone_titles_with(
            milestone_views(source_milestones@),
            milestone_views(target_milestones@),
            Outcome::Created,
        ),
        plan.report.updated.deep_view() == milestone_titles_with(
            milestone_views(source_milestones@),
            milestone_views(target_milestones@),
            Outcome::Updated,
        ),
        plan.report.skipped.deep_view() == milestone_titles_with(
            milestone_views(source_milestones@),
            milestone_views(target_milestones@),
            Outcome::Unchanged,
        ),
        milestone_action_views(plan.actions@) == if dry_run {
            Seq::<MilestoneActionView>::empty()
        } else {
            milestone_actions(milestone_views(source_milestones@), milestone_views(target_milestones@))
        },
        forall|i: int, j: int|
            0 <= i < milestone_views(source_milestones@).len() && 0 <= j < milestone_views(target_milestones@).len() && is_ascii_chars(
                milestone_views(source_milestones@)[i].title,
            ) && is_ascii_chars(milestone_views(target_milestones@)[j].title) && same_up_to_ascii_case(
                milestone_views(source_milestones@)[i].title,
                milestone_views(target_milestones@)[j].title,
            ) ==> milestone_outcome(milestone_views(target_milestones@), milestone_views(source_milestones@)[i])
                != Outcome::Created,
{
    let ghost ss = milestone_views(source_milestones@);
    let ghost ts = milestone_views(target_milestones@);
    let keys = milestone_keys_of(target_milestones);
    proof {
        assert forall|j: int| 0 <= j < ts.len() && is_ascii_chars(ts[j].title) implies lowercase(
            ts[j].title,
        ) == ascii_lowercase(ts[j].title) by {
            assert(keys.deep_view()[j] == milestone_keys(ts)[j]);
        }
    }
    let mut created: Vec<String> = Vec::new();
    let mut updated: Vec<String> = Vec::new();
    let mut skipped: Vec<String> = Vec::new();
    let mut actions: Vec<MilestoneAction> = Vec::new();
    let mut i: usize = 0;
    while i < source_milestones.len()
        invariant
            i <= source_milestones.len(),
            ss == milestone_views(source_milestones@),
            ts == milestone_views(target_milestones@),
            keys.deep_view() == milestone_keys(ts),
            created.deep_view() == milestone_titles_with(ss.take(i as int), ts, Outcome::Created),
            updated.deep_view() == milestone_titles_with(ss.take(i as int), ts, Outcome::Updated),
            skipped.deep_view() == milestone_titles_with(
                ss.take(i as int),
                ts,
                Outcome::Unchanged,
            ),
            milestone_action_views(actions@) == if dry_run {
                Seq::<MilestoneActionView>::empty()
            } else {
                milestone_actions(ss.take(i as int), ts)
            },
            forall|k: int|
                0 <= k < i && is_ascii_chars(ss[k].title) ==> lowercase(ss[k].title)
                    == ascii_lowercase(ss[k].title),
            forall|j: int|
                0 <= j < ts.len() && is_ascii_chars(ts[j].title) ==> lowercase(ts[j].title)
                    == ascii_lowercase(ts[j].title),
        decreases source_milestones.len() - i,
    {
        let milestone = &source_milestones[i];
        let ghost m = milestone@;
        let ghost done = ss.take(i as int);
        proof {
            assert(ss.take(i + 1).drop_last() =~= done);
            assert(ss.take(i + 1).last() == m);
        }
        let key = to_lowercase(milestone.title.as_str());
        let found = last_index_with_key(&keys, &key);
        let ghost created0 = created.deep_view();
        let ghost updated0 = updated.deep_view();
        let ghost skipped0 = skipped.deep_view();
        let ghost actions0 = milestone_action_views(actions@);
        match found {
            Some(j) => {
                proof { crate::sync::lemma_last_with_key(milestone_keys(ts), key@); }
                let existing = &target_milestones[j];
                if !same_text(&existing.description, &milestone.description) || !(existing.state
                    == milestone.state) || !same_text(&existing.due_on, &milestone.due_on) {
                    if !dry_run {
                        let action = MilestoneAction::Update {
                            number: existing.number,
                            request: UpdateMilestoneRequest {
                                title: None,
                                description: field_change_of(
                                    &milestone.description,
                                    &existing.description,
                                ),
                                state: Some(milestone.state.clone()),
                                due_on: field_change_of(&milestone.due_on, &existing.due_on),
                            },
                        };
                        actions.push(action);
                        proof {
                            assert(milestone_action_views(actions@) =~= actions0.push(action@));
                        }
                    }
                    updated.push(milestone.title.clone());
                    proof {
                        assert(updated.deep_view() =~= updated0.push(m.title));
                    }
                } else {
                    skipped.push(milestone.title.clone());
                    proof {
                        assert(skipped.deep_view() =~= skipped0.push(m.title));
                    }
                }
            },
            None => {
                if !dry_run {
                    let action = MilestoneAction::Create(
                        CreateMilestoneRequest {
                            title: milestone.title.clone(),
                            description: copy_text(&milestone.description),
                            state: Some(milestone.state.clone()),
                            due_on: copy_text(&milestone.due_on),
                        },
                    );
                    actions.push(action);
                    proof {
                        assert(milestone_action_views(actions@) =~= actions0.push(action@));
                    }
                }
                created.push(milestone.title.clone());
                proof {
                    assert(created.deep_view() =~= created0.push(m.title));
                }
            },
        }
        i = i + 1;
    }
    proof {
        assert(ss.take(i as int) =~= ss);
        assert forall|i: int, j: int|
            0 <= i < ss.len() && 0 <= j < ts.len() && is_ascii_chars(ss[i].title) && is_ascii_chars(
                ts[j].title,
            ) && same_up_to_ascii_case(ss[i].title, ts[j].title) implies milestone_outcome(ts, ss[i])
            != Outcome::Created by {
            crate::sync::milestone_laws::lemma_milestone_ascii_case_variants_match(ts, ss[i], j);
        }
    }
    proof { reveal_strlit("Milestones"); }
    MilestonePlan {
        report: SyncReport {
            resource: "Milestones",
            source: source.full_name(),
            target: target.full_name(),
            created,
            updated,
            skipped,
            dry_run,
        },
        actions,
    }
}

} // verus!
