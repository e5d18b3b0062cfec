//! What holds of every milestone sync plan: how the report partitions the
//! source milestones, when a milestone is created, and that running a sync a
//! second time after the first one was applied changes nothing.
use vstd::prelude::*;

use crate::github::model::{
    CreateMilestoneRequestView, MilestoneView, UpdateMilestoneRequestView,
};
use crate::sync::milestones::{
    MilestoneActionView, create_milestone_request, milestone_actions, milestone_actions_for,
    milestone_keys, milestone_match, milestone_outcome, milestone_titles_with,
    update_milestone_request,
};
use crate::sync::{
    Outcome, last_with_key, lemma_last_with_key, lemma_last_with_key_absent,
    lemma_last_with_key_at, lemma_last_with_key_push,
};
use crate::text::{ascii_lowercase, lemma_ascii_lowercase_ignores_case, lowercase, same_up_to_ascii_case};
use vstd::utf8::is_ascii_chars;

verus! {

/// Every source milestone is reported exactly once: as created, updated or unchanged.
pub proof fn lemma_milestone_report_partition(ss: Seq<MilestoneView>, ts: Seq<MilestoneView>)
    ensures
        milestone_titles_with(ss, ts, Outcome::Created).len() + milestone_titles_with(
            ss,
            ts,
            Outcome::Updated,
        ).len() + milestone_titles_with(ss, ts, Outcome::Unchanged).len() == ss.len(),
    decreases ss.len(),
{
    if ss.len() > 0 {
        lemma_milestone_report_partition(ss.drop_last(), ts);
    }
}

/// One request is sent per created or updated milestone and none per unchanged one.
pub proof fn lemma_milestone_request_count(ss: Seq<MilestoneView>, ts: Seq<MilestoneView>)
    ensures
        milestone_actions(ss, ts).len() == milestone_titles_with(ss, ts, Outcome::Created).len()
            + milestone_titles_with(ss, ts, Outcome::Updated).len(),
    decreases ss.len(),
{
    if ss.len() > 0 {
        lemma_milestone_request_count(ss.drop_last(), ts);
    }
}

/// A source milestone is created exactly when no target milestone has its
/// title up to case.
pub proof fn lemma_milestone_created_iff_unmatched(ts: Seq<MilestoneView>, m: MilestoneView)
    ensures
        (milestone_outcome(ts, m) == Outcome::Created) <==> (forall|j: int|
            0 <= j < ts.len() ==> lowercase(#[trigger] ts[j].title) != lowercase(m.title)),
{
    let keys = milestone_keys(ts);
    lemma_last_with_key(keys, lowercase(m.title));
    assert forall|j: int| 0 <= j < ts.len() implies keys[j] == lowercase(#[trigger] ts[j].title) by {}
}

/// The milestone a create request makes: the request's title, description,
/// state (open when absent) and due date. GitHub gives it a new number; the
/// model writes 0, which no existing milestone has, as numbers start at 1.
pub open spec fn created_milestone(r: CreateMilestoneRequestView) -> MilestoneView {
    MilestoneView {
        number: 0,
        title: r.title,
        description: r.description,
        state: match r.state {
            Some(s) => s,
            None => seq!['o', 'p', 'e', 'n'],
        },
        due_on: r.due_on,
    }
}

/// A milestone after an update request: each field the request carries
/// replaces the milestone's (a carried empty description or due date clears
/// it), each field it leaves out stays.
pub open spec fn updated_milestone(t: MilestoneView, r: UpdateMilestoneRequestView) -> MilestoneView {
    MilestoneView {
        number: t.number,
        title: match r.title {
            Some(x) => x,
            None => t.title,
        },
        description: match r.description {
            Some(d) => d,
            None => t.description,
        },
        state: match r.state {
            Some(x) => x,
            None => t.state,
        },
        due_on: match r.due_on {
            Some(d) => d,
            None => t.due_on,
        },
    }
}

/// The milestones of a repository after one request, as the request
/// describes: a create adds a milestone at the end; an update changes the
/// milestone with the given number.
pub open spec fn apply_milestone_action(ts: Seq<MilestoneView>, a: MilestoneActionView) -> Seq<
    MilestoneView,
> {
    match a {
        MilestoneActionView::Create(r) => ts.push(created_milestone(r)),
        MilestoneActionView::Update(number, r) => ts.map_values(
            |t: MilestoneView| if t.number == number { updated_milestone(t, r) } else { t },
        ),
    }
}

/// The milestones of a repository after a list of requests, applied in order.
pub open spec fn apply_milestone_actions(
    ts: Seq<MilestoneView>,
    acts: Seq<MilestoneActionView>,
) -> Seq<MilestoneView>
    decreases acts.len(),
{
    if acts.len() == 0 {
        ts
    } else {
        apply_milestone_action(apply_milestone_actions(ts, acts.drop_last()), acts.last())
    }
}

proof fn lemma_apply_concat(
    ts: Seq<MilestoneView>,
    a: Seq<MilestoneActionView>,
    b: Seq<MilestoneActionView>,
)
    ensures
        apply_milestone_actions(ts, a + b) == apply_milestone_actions(
            apply_milestone_actions(ts, a),
            b,
        ),
    decreases b.len(),
{
    if b.len() == 0 {
        assert(a + b =~= a);
    } else {
        assert((a + b).drop_last() =~= a + b.drop_last());
        assert((a + b).last() == b.last());
        lemma_apply_concat(ts, a, b.drop_last());
    }
}

proof fn lemma_one_action(u: Seq<MilestoneView>, a: MilestoneActionView)
    ensures
        apply_milestone_actions(u, seq![a]) == apply_milestone_action(u, a),
        apply_milestone_actions(u, Seq::<MilestoneActionView>::empty()) == u,
{
    assert(seq![a].drop_last() =~= Seq::<MilestoneActionView>::empty());
    assert(apply_milestone_actions(u, Seq::<MilestoneActionView>::empty()) == u);
    assert(apply_milestone_actions(u, seq![a].drop_last()) == u);
    assert(seq![a].last() == a);
}

/// Whether one of the first `n` source milestones has key `k`.
spec fn key_seen(ss: Seq<MilestoneView>, n: int, k: Seq<char>) -> bool {
    exists|j: int| 0 <= j < n && lowercase(#[trigger] ss[j].title) == k
}

/// Whether two milestones agree in what a sync copies.
pub open spec fn same_fields(a: MilestoneView, b: MilestoneView) -> bool {
    a.description == b.description && a.state == b.state && a.due_on == b.due_on
}

/// Whether the milestone that `m` is matched with in `u` has its description,
/// state and due date.
spec fn milestone_settled(u: Seq<MilestoneView>, m: MilestoneView) -> bool {
    match milestone_match(u, m) {
        Some(x) => same_fields(u[x], m),
        None => false,
    }
}

/// How the target's milestones `u` stand after the requests for the first
/// `n` source milestones.
spec fn synced_prefix(
    ss: Seq<MilestoneView>,
    ts: Seq<MilestoneView>,
    n: int,
    u: Seq<MilestoneView>,
) -> bool {
    &&& u.len() >= ts.len()
    &&& forall|x: int|
        0 <= x < ts.len() ==> #[trigger] u[x].title == ts[x].title && u[x].number
            == ts[x].number
    &&& forall|x: int|
        ts.len() <= x < u.len() ==> key_seen(ss, n, lowercase(#[trigger] u[x].title))
            && last_with_key(milestone_keys(ts), lowercase(u[x].title)) is None && u[x].number == 0
    &&& forall|x: int|
        0 <= x < ts.len() && !key_seen(ss, n, lowercase(ts[x].title)) ==> #[trigger] u[x]
            == ts[x]
    &&& forall|j: int| 0 <= j < n ==> milestone_settled(u, #[trigger] ss[j])
}

/// The target's milestones have distinct numbers, all at least 1, as GitHub
/// numbers them.
pub open spec fn numbered_as_github(ts: Seq<MilestoneView>) -> bool {
    &&& forall|x: int| 0 <= x < ts.len() ==> #[trigger] ts[x].number > 0
    &&& forall|x: int, y: int|
        0 <= x < ts.len() && 0 <= y < ts.len() && #[trigger] ts[x].number == #[trigger] ts[y].number
            ==> x == y
}

/// Source milestones with the same title up to case carry the same
/// description, state and due date.
pub open spec fn same_key_same_fields(ss: Seq<MilestoneView>) -> bool {
    forall|i: int, j: int|
        0 <= i < ss.len() && 0 <= j < ss.len() && lowercase(#[trigger] ss[i].title) == lowercase(
            #[trigger] ss[j].title,
        ) ==> same_fields(ss[i], ss[j])
}

proof fn lemma_match_kept(
    ss: Seq<MilestoneView>,
    ts: Seq<MilestoneView>,
    n: int,
    u: Seq<MilestoneView>,
    k: Seq<char>,
)
    requires
        synced_prefix(ss, ts, n, u),
    ensures
        last_with_key(milestone_keys(ts), k) is Some ==> last_with_key(milestone_keys(u), k)
            == last_with_key(milestone_keys(ts), k),
        !key_seen(ss, n, k) ==> last_with_key(milestone_keys(u), k) == last_with_key(
            milestone_keys(ts),
            k,
        ),
{
    let k0 = milestone_keys(ts);
    let ku = milestone_keys(u);
    assert forall|x: int| 0 <= x < ts.len() implies ku[x] == k0[x] by {
        assert(u[x].title == ts[x].title);
    }
    lemma_last_with_key(k0, k);
    match last_with_key(k0, k) {
        Some(y) => {
            assert forall|m: int| y < m < ku.len() implies ku[m] != k by {
                if m < ts.len() {
                    assert(ku[m] == k0[m]);
                } else {
                    assert(ku[m] == lowercase(u[m].title));
                }
            }
            lemma_last_with_key_at(ku, k, y);
        },
        None => {
            if !key_seen(ss, n, k) {
                assert forall|m: int| 0 <= m < ku.len() implies ku[m] != k by {
                    if m < ts.len() {
                        assert(ku[m] == k0[m]);
                    } else {
                        assert(ku[m] == lowercase(u[m].title));
                    }
                }
                lemma_last_with_key_absent(ku, k);
            }
        },
    }
}

proof fn lemma_key_seen_grow(ss: Seq<MilestoneView>, n: int, k: Seq<char>)
    requires
        0 <= n < ss.len(),
    ensures
        key_seen(ss, n + 1, k) <==> (key_seen(ss, n, k) || lowercase(ss[n].title) == k),
{
    if lowercase(ss[n].title) == k {
        assert(key_seen(ss, n + 1, k));
    }
    if key_seen(ss, n + 1, k) && lowercase(ss[n].title) != k {
        let j = choose|j: int| 0 <= j < n + 1 && lowercase(#[trigger] ss[j].title) == k;
        assert(key_seen(ss, n, k));
    }
    if key_seen(ss, n, k) {
        let j = choose|j: int| 0 <= j < n && lowercase(#[trigger] ss[j].title) == k;
        assert(key_seen(ss, n + 1, k));
    }
}

#[verifier::spinoff_prover]
#[verifier::rlimit(50)]
proof fn lemma_sync_step(ss: Seq<MilestoneView>, ts: Seq<MilestoneView>, n: int, u: Seq<MilestoneView>)
    requires
        0 <= n < ss.len(),
        synced_prefix(ss, ts, n, u),
        numbered_as_github(ts),
        same_key_same_fields(ss),
    ensures
        synced_prefix(ss, ts, n + 1, apply_milestone_actions(u, milestone_actions_for(ts, ss[n]))),
{
    let s = ss[n];
    let k = lowercase(s.title);
    let k0 = milestone_keys(ts);
    let ku = milestone_keys(u);
    lemma_last_with_key(k0, k);
    lemma_match_kept(ss, ts, n, u, k);
    assert forall|kk: Seq<char>| key_seen(ss, n, kk) implies key_seen(ss, n + 1, kk) by {
        lemma_key_seen_grow(ss, n, kk);
    }
    assert(key_seen(ss, n + 1, k)) by {
        lemma_key_seen_grow(ss, n, k);
    }
    match milestone_outcome(ts, s) {
        Outcome::Created => {
            let a = MilestoneActionView::Create(create_milestone_request(s));
            assert(milestone_actions_for(ts, s) == seq![a]);
            lemma_one_action(u, a);
            let v = created_milestone(create_milestone_request(s));
            let u2 = u.push(v);
            assert(apply_milestone_actions(u, milestone_actions_for(ts, s)) == u2);
            assert(milestone_keys(u2) =~= ku.push(k));
            assert forall|x: int| ts.len() <= x < u2.len() implies key_seen(
                ss,
                n + 1,
                lowercase(#[trigger] u2[x].title),
            ) && last_with_key(milestone_keys(ts), lowercase(u2[x].title)) is None && u2[x].number
                == 0 by {
                if x < u.len() {
                    assert(u2[x] == u[x]);
                }
            }
            assert forall|x: int|
                0 <= x < ts.len() && !key_seen(ss, n + 1, lowercase(ts[x].title)) implies #[trigger] u2[x]
                == ts[x] by {
                lemma_key_seen_grow(ss, n, lowercase(ts[x].title));
                assert(u2[x] == u[x]);
            }
            assert forall|j: int| 0 <= j < n + 1 implies milestone_settled(u2, #[trigger] ss[j]) by {
                let kj = lowercase(ss[j].title);
                lemma_last_with_key_push(ku, k, kj);
                if kj == k {
                    assert(milestone_match(u2, ss[j]) == Some(u.len() as int));
                } else {
                    assert(milestone_settled(u, ss[j]));
                    let x = milestone_match(u, ss[j])->0;
                    lemma_last_with_key(ku, kj);
                    assert(u2[x] == u[x]);
                }
            }
        },
        Outcome::Updated => {
            let y = milestone_match(ts, s)->0;
            let nb = ts[y].number;
            let r = update_milestone_request(s, ts[y]);
            let a = MilestoneActionView::Update(nb, r);
            assert(milestone_actions_for(ts, s) == seq![a]);
            lemma_one_action(u, a);
            let u2 = u.map_values(
                |t: MilestoneView| if t.number == nb { updated_milestone(t, r) } else { t },
            );
            assert(apply_milestone_actions(u, milestone_actions_for(ts, s)) == u2);
            assert forall|x: int| 0 <= x < u.len() implies #[trigger] u2[x].title == u[x].title
                && u2[x].number == u[x].number by {}
            assert(milestone_keys(u2) =~= ku);
            assert(k0[y] == lowercase(ts[y].title));
            assert forall|x: int| 0 <= x < u.len() && u[x].number == nb implies x == y by {
                let t = u[x].title;
                if x < ts.len() {
                    assert(u[x].number == ts[x].number);
                } else {
                    assert(u[x].number == 0);
                }
            }
            assert forall|x: int|
                0 <= x < ts.len() && !key_seen(ss, n + 1, lowercase(ts[x].title)) implies #[trigger] u2[x]
                == ts[x] by {
                lemma_key_seen_grow(ss, n, lowercase(ts[x].title));
                assert(u[x] == ts[x]);
            }
            assert forall|x: int| ts.len() <= x < u2.len() implies key_seen(
                ss,
                n + 1,
                lowercase(#[trigger] u2[x].title),
            ) && last_with_key(milestone_keys(ts), lowercase(u2[x].title)) is None && u2[x].number
                == 0 by {
                assert(u2[x].title == u[x].title);
                assert(u[x].number == 0);
            }
            assert forall|j: int| 0 <= j < n + 1 implies milestone_settled(u2, #[trigger] ss[j]) by {
                let kj = lowercase(ss[j].title);
                lemma_last_with_key(ku, kj);
                if j < n {
                    assert(milestone_settled(u, ss[j]));
                    let x = milestone_match(u, ss[j])->0;
                    if u[x].number == nb {
                        assert(x == y);
                        assert(ku[x] == lowercase(u[x].title));
                        assert(lowercase(ss[j].title) == lowercase(ss[n].title));
                    }
                } else {
                    assert(milestone_match(u, s) == Some(y));
                    assert(u[y].number == nb);
                    if key_seen(ss, n, k) {
                        let j0 = choose|j0: int| 0 <= j0 < n && lowercase(#[trigger] ss[j0].title) == k;
                        assert(milestone_settled(u, ss[j0]));
                        assert(lowercase(ss[j0].title) == lowercase(ss[n].title));
                    } else {
                        assert(u[y] == ts[y]);
                        assert(milestone_match(ts, ss[n]) is Some);
                    }
                }
            }
        },
        Outcome::Unchanged => {
            let y = milestone_match(ts, s)->0;
            assert(milestone_actions_for(ts, s) =~= Seq::<MilestoneActionView>::empty());
            lemma_one_action(u, MilestoneActionView::Create(create_milestone_request(s)));
            assert forall|x: int|
                0 <= x < ts.len() && !key_seen(ss, n + 1, lowercase(ts[x].title)) implies #[trigger] u[x]
                == ts[x] by {
                lemma_key_seen_grow(ss, n, lowercase(ts[x].title));
            }
            assert forall|j: int| 0 <= j < n + 1 implies milestone_settled(u, #[trigger] ss[j]) by {
                if j == n {
                    assert(milestone_match(u, s) == Some(y));
                    if key_seen(ss, n, k) {
                        let j0 = choose|j0: int| 0 <= j0 < n && lowercase(#[trigger] ss[j0].title) == k;
                        assert(milestone_settled(u, ss[j0]));
                        assert(lowercase(ss[j0].title) == lowercase(ss[n].title));
                    } else {
                        assert(u[y] == ts[y]);
                    }
                }
            }
        },
    }
}

proof fn lemma_sync_prefix(ss: Seq<MilestoneView>, ts: Seq<MilestoneView>, n: int)
    requires
        0 <= n <= ss.len(),
        numbered_as_github(ts),
        same_key_same_fields(ss),
    ensures
        synced_prefix(ss, ts, n, apply_milestone_actions(ts, milestone_actions(ss.take(n), ts))),
    decreases n,
{
    if n == 0 {
        assert(ss.take(0).len() == 0);
        assert(milestone_actions(ss.take(0), ts) == Seq::<MilestoneActionView>::empty());
    } else {
        lemma_sync_prefix(ss, ts, n - 1);
        let before = milestone_actions(ss.take(n - 1), ts);
        let u = apply_milestone_actions(ts, before);
        lemma_sync_step(ss, ts, n - 1, u);
        assert(ss.take(n).drop_last() =~= ss.take(n - 1));
        assert(ss.take(n).last() == ss[n - 1]);
        lemma_apply_concat(ts, before, milestone_actions_for(ts, ss[n - 1]));
    }
}

/// When every source milestone is unchanged, a sync sends nothing and
/// reports every milestone as unchanged.
pub proof fn lemma_milestone_all_unchanged(ss: Seq<MilestoneView>, u: Seq<MilestoneView>)
    requires
        forall|i: int|
            0 <= i < ss.len() ==> milestone_outcome(u, #[trigger] ss[i]) == Outcome::Unchanged,
    ensures
        milestone_actions(ss, u) == Seq::<MilestoneActionView>::empty(),
        milestone_titles_with(ss, u, Outcome::Created) == Seq::<Seq<char>>::empty(),
        milestone_titles_with(ss, u, Outcome::Updated) == Seq::<Seq<char>>::empty(),
        milestone_titles_with(ss, u, Outcome::Unchanged) == ss.map_values(
            |m: MilestoneView| m.title,
        ),
    decreases ss.len(),
{
    if ss.len() > 0 {
        let rest = ss.drop_last();
        assert forall|i: int| 0 <= i < rest.len() implies milestone_outcome(u, #[trigger] rest[i])
            == Outcome::Unchanged by {
            assert(rest[i] == ss[i]);
        }
        lemma_milestone_all_unchanged(rest, u);
        assert(milestone_outcome(u, ss.last()) == Outcome::Unchanged);
        assert(ss.map_values(|m: MilestoneView| m.title) =~= rest.map_values(
            |m: MilestoneView| m.title,
        ).push(ss.last().title));
    }
}

/// Syncing again after a sync's requests were applied to the target changes
/// nothing: every source milestone is then unchanged and no request is sent.
/// This holds for targets numbered as GitHub numbers them, unless two source
/// milestones with the same title up to case differ in description, state or
/// due date.
pub proof fn lemma_milestone_sync_idempotent(ss: Seq<MilestoneView>, ts: Seq<MilestoneView>)
    requires
        numbered_as_github(ts),
        same_key_same_fields(ss),
    ensures
        ({
            let after = apply_milestone_actions(ts, milestone_actions(ss, ts));
            &&& forall|i: int|
                0 <= i < ss.len() ==> milestone_outcome(after, #[trigger] ss[i])
                    == Outcome::Unchanged
            &&& milestone_actions(ss, after) == Seq::<MilestoneActionView>::empty()
            &&& milestone_titles_with(ss, after, Outcome::Created) == Seq::<Seq<char>>::empty()
            &&& milestone_titles_with(ss, after, Outcome::Updated) == Seq::<Seq<char>>::empty()
            &&& milestone_titles_with(ss, after, Outcome::Unchanged) == ss.map_values(
                |m: MilestoneView| m.title,
            )
        }),
{
    lemma_sync_prefix(ss, ts, ss.len() as int);
    assert(ss.take(ss.len() as int) =~= ss);
    let after = apply_milestone_actions(ts, milestone_actions(ss, ts));
    assert forall|i: int| 0 <= i < ss.len() implies milestone_outcome(after, #[trigger] ss[i])
        == Outcome::Unchanged by {
        assert(milestone_settled(after, ss[i]));
    }
    lemma_milestone_all_unchanged(ss, after);
}

/// Whether a request leaves every milestone's title as it is.
spec fn retitles_nothing(a: MilestoneActionView) -> bool {
    match a {
        MilestoneActionView::Create(_) => true,
        MilestoneActionView::Update(_, r) => r.title is None,
    }
}

proof fn lemma_plan_retitles_nothing(ss: Seq<MilestoneView>, ts: Seq<MilestoneView>)
    ensures
        forall|i: int|
            0 <= i < milestone_actions(ss, ts).len() ==> retitles_nothing(
                #[trigger] milestone_actions(ss, ts)[i],
            ),
    decreases ss.len(),
{
    if ss.len() > 0 {
        lemma_plan_retitles_nothing(ss.drop_last(), ts);
        let a = milestone_actions(ss.drop_last(), ts);
        let b = milestone_actions_for(ts, ss.last());
        assert forall|i: int| 0 <= i < (a + b).len() implies retitles_nothing(#[trigger] (a + b)[i]) by {
            if i >= a.len() {
                assert((a + b)[i] == b[i - a.len()]);
            }
        }
    }
}

proof fn lemma_apply_keeps_titles(ts: Seq<MilestoneView>, acts: Seq<MilestoneActionView>)
    requires
        forall|i: int| 0 <= i < acts.len() ==> retitles_nothing(#[trigger] acts[i]),
    ensures
        apply_milestone_actions(ts, acts).len() >= ts.len(),
        forall|x: int|
            0 <= x < ts.len() ==> #[trigger] apply_milestone_actions(ts, acts)[x].title
                == ts[x].title && apply_milestone_actions(ts, acts)[x].number == ts[x].number,
    decreases acts.len(),
{
    if acts.len() > 0 {
        let rest = acts.drop_last();
        assert forall|i: int| 0 <= i < rest.len() implies retitles_nothing(#[trigger] rest[i]) by {
            assert(rest[i] == acts[i]);
        }
        lemma_apply_keeps_titles(ts, rest);
        let u = apply_milestone_actions(ts, rest);
        assert(retitles_nothing(acts[acts.len() - 1]));
        match acts.last() {
            MilestoneActionView::Create(r) => {
                assert forall|x: int| 0 <= x < ts.len() implies #[trigger] apply_milestone_actions(
                    ts,
                    acts,
                )[x].title == ts[x].title && apply_milestone_actions(ts, acts)[x].number
                    == ts[x].number by {
                    assert(u.push(created_milestone(r))[x] == u[x]);
                }
            },
            MilestoneActionView::Update(number, r) => {
                assert forall|x: int| 0 <= x < ts.len() implies #[trigger] apply_milestone_actions(
                    ts,
                    acts,
                )[x].title == ts[x].title && apply_milestone_actions(ts, acts)[x].number
                    == ts[x].number by {
                    assert(u[x].title == ts[x].title);
                }
            },
        }
    }
}

/// A sync never deletes, renames or renumbers a milestone: after its requests
/// the target still has every milestone it had, at the same place, with the
/// same title and number.
pub proof fn lemma_milestone_sync_never_deletes(ss: Seq<MilestoneView>, ts: Seq<MilestoneView>)
    ensures
        ({
            let after = apply_milestone_actions(ts, milestone_actions(ss, ts));
            &&& after.len() >= ts.len()
            &&& forall|x: int|
                0 <= x < ts.len() ==> #[trigger] after[x].title == ts[x].title && after[x].number
                    == ts[x].number
        }),
{
    lemma_plan_retitles_nothing(ss, ts);
    lemma_apply_keeps_titles(ts, milestone_actions(ss, ts));
}

/// The titles a report lists under an outcome are exactly the titles, as
/// written in the source, of the source milestones with that outcome, in source
/// order: the created, updated and unchanged lists split the source titles.
pub proof fn lemma_milestone_report_lists_source_titles(ss: Seq<MilestoneView>, ts: Seq<MilestoneView>, o: Outcome)
    ensures
        milestone_titles_with(ss, ts, o) == ss.filter(|x: MilestoneView| milestone_outcome(ts, x) == o).map_values(
            |x: MilestoneView| x.title,
        ),
    decreases ss.len(),
{
    reveal(Seq::filter);
    if ss.len() > 0 {
        lemma_milestone_report_lists_source_titles(ss.drop_last(), ts, o);
        let pred = |x: MilestoneView| milestone_outcome(ts, x) == o;
        let rest = ss.drop_last().filter(pred);
        if pred(ss.last()) {
            assert(rest.push(ss.last()).map_values(|x: MilestoneView| x.title) =~= rest.map_values(
                |x: MilestoneView| x.title,
            ).push(ss.last().title));
        }
    }
}

/// Matching ignores case: a source milestone whose title is, up to the case of
/// ASCII letters, the title of some target milestone is never created, when
/// lower-casing both titles maps exactly their ASCII capitals to small letters
/// (as `to_lowercase` does on ASCII text).
pub proof fn lemma_milestone_ascii_case_variants_match(ts: Seq<MilestoneView>, l: MilestoneView, j: int)
    requires
        0 <= j < ts.len(),
        is_ascii_chars(l.title) ==> lowercase(l.title) == ascii_lowercase(l.title),
        is_ascii_chars(ts[j].title) ==> lowercase(ts[j].title) == ascii_lowercase(ts[j].title),
        is_ascii_chars(l.title),
        is_ascii_chars(ts[j].title),
        same_up_to_ascii_case(l.title, ts[j].title),
    ensures
        milestone_outcome(ts, l) != Outcome::Created,
{
    lemma_ascii_lowercase_ignores_case(l.title, ts[j].title);
    lemma_milestone_created_iff_unmatched(ts, l);
}

} // verus!
