//! What holds of every label sync plan: how the report partitions the source
//! labels, when a label is created, and that running a sync a second time
//! after the first one was applied changes nothing.
use vstd::prelude::*;

use crate::github::model::{LabelView, UpdateLabelRequestView, CreateLabelRequestView};
use crate::sync::labels::{
    LabelActionView, create_label_request, label_actions, label_actions_for,
    label_keys, label_match, label_names_with, label_outcome, update_label_request,
};
use crate::sync::{
    Outcome, last_with_key, lemma_last_with_key, lemma_last_with_key_absent,
    lemma_last_with_key_at, lemma_last_with_key_push,
};
use crate::text::{ascii_lowercase, lemma_ascii_lowercase_ignores_case, lowercase, same_up_to_ascii_case};
use vstd::utf8::is_ascii_chars;

verus! {

/// Every source label is reported exactly once: as created, updated or unchanged.
pub proof fn lemma_label_report_partition(ss: Seq<LabelView>, ts: Seq<LabelView>)
    ensures
        label_names_with(ss, ts, Outcome::Created).len() + label_names_with(
            ss,
            ts,
            Outcome::Updated,
        ).len() + label_names_with(ss, ts, Outcome::Unchanged).len() == ss.len(),
    decreases ss.len(),
{
    if ss.len() > 0 {
        lemma_label_report_partition(ss.drop_last(), ts);
    }
}

/// One request is sent per created or updated label and none per unchanged one.
pub proof fn lemma_label_request_count(ss: Seq<LabelView>, ts: Seq<LabelView>)
    ensures
        label_actions(ss, ts).len() == label_names_with(ss, ts, Outcome::Created).len()
            + label_names_with(ss, ts, Outcome::Updated).len(),
    decreases ss.len(),
{
    if ss.len() > 0 {
        lemma_label_request_count(ss.drop_last(), ts);
    }
}

/// A source label is created exactly when no target label has its name up to case.
pub proof fn lemma_label_created_iff_unmatched(ts: Seq<LabelView>, l: LabelView)
    ensures
        (label_outcome(ts, l) == Outcome::Created) <==> (forall|j: int|
            0 <= j < ts.len() ==> lowercase(#[trigger] ts[j].name) != lowercase(l.name)),
{
    let keys = label_keys(ts);
    lemma_last_with_key(keys, lowercase(l.name));
    assert forall|j: int| 0 <= j < ts.len() implies keys[j] == lowercase(#[trigger] ts[j].name) by {}
}

/// The label a create request makes: the request's name, colour and
/// description (the id GitHub assigns plays no part in matching and is
/// modelled as 0; a new label is not a default one).
pub open spec fn created_label(r: CreateLabelRequestView) -> LabelView {
    LabelView { id: 0, name: r.name, color: r.color, description: r.description, default: false }
}

/// A label after an update request: each field the request carries replaces
/// the label's (a carried empty description clears it), each field it leaves
/// out stays.
pub open spec fn updated_label(t: LabelView, r: UpdateLabelRequestView) -> LabelView {
    LabelView {
        id: t.id,
        name: match r.new_name {
            Some(n) => n,
            None => t.name,
        },
        color: match r.color {
            Some(c) => c,
            None => t.color,
        },
        description: match r.description {
            Some(d) => d,
            None => t.description,
        },
        default: t.default,
    }
}

/// The labels of a repository after one request, as the request describes:
/// a create adds a label at the end; an update changes every label with the
/// given name.
pub open spec fn apply_label_action(ts: Seq<LabelView>, a: LabelActionView) -> Seq<LabelView> {
    match a {
        LabelActionView::Create(r) => ts.push(created_label(r)),
        LabelActionView::Update(name, r) => ts.map_values(
            |t: LabelView| if t.name == name { updated_label(t, r) } else { t },
        ),
    }
}

/// The labels of a repository after a list of requests, applied in order.
pub open spec fn apply_label_actions(ts: Seq<LabelView>, acts: Seq<LabelActionView>) -> Seq<
    LabelView,
>
    decreases acts.len(),
{
    if acts.len() == 0 {
        ts
    } else {
        apply_label_action(apply_label_actions(ts, acts.drop_last()), acts.last())
    }
}

proof fn lemma_apply_concat(ts: Seq<LabelView>, a: Seq<LabelActionView>, b: Seq<LabelActionView>)
    ensures
        apply_label_actions(ts, a + b) == apply_label_actions(apply_label_actions(ts, a), b),
    decreases b.len(),
{
    if b.len() == 0 {
        assert(a + b =~= a);
    } else {
        assert((a + b).drop_last() =~= a + b.drop_last());
        assert((a + b).last() == b.last());
        lemma_apply_concat(ts, a, b.drop_last());
    }
}

/// Whether one of the first `n` source labels has key `k`.
spec fn key_seen(ss: Seq<LabelView>, n: int, k: Seq<char>) -> bool {
    exists|j: int| 0 <= j < n && lowercase(#[trigger] ss[j].name) == k
}

/// Whether the label that `l` is matched with in `u` has its colour and description.
spec fn label_settled(u: Seq<LabelView>, l: LabelView) -> bool {
    match label_match(u, l) {
        Some(x) => u[x].color == l.color && u[x].description == l.description,
        None => false,
    }
}

/// How the target's labels `u` stand after the requests for the first `n`
/// source labels: the labels the target had keep their names, the added ones carry
/// keys of those sources that matched nothing, labels of untouched keys are as
/// they were, and each of the `n` sources is settled.
spec fn synced_prefix(ss: Seq<LabelView>, ts: Seq<LabelView>, n: int, u: Seq<LabelView>) -> bool {
    &&& u.len() >= ts.len()
    &&& forall|x: int| 0 <= x < ts.len() ==> #[trigger] u[x].name == ts[x].name
    &&& forall|x: int|
        ts.len() <= x < u.len() ==> key_seen(ss, n, lowercase(#[trigger] u[x].name))
            && last_with_key(label_keys(ts), lowercase(u[x].name)) is None
    &&& forall|x: int|
        0 <= x < ts.len() && !key_seen(ss, n, lowercase(ts[x].name)) ==> #[trigger] u[x] == ts[x]
    &&& forall|j: int| 0 <= j < n ==> label_settled(u, #[trigger] ss[j])
}

/// Source labels with the same name up to case carry the same colour and description.
pub open spec fn same_key_same_fields(ss: Seq<LabelView>) -> bool {
    forall|i: int, j: int|
        0 <= i < ss.len() && 0 <= j < ss.len() && lowercase(#[trigger] ss[i].name) == lowercase(
            #[trigger] ss[j].name,
        ) ==> ss[i].color == ss[j].color && ss[i].description == ss[j].description
}

proof fn lemma_match_kept(ss: Seq<LabelView>, ts: Seq<LabelView>, n: int, u: Seq<LabelView>, k: Seq<char>)
    requires
        synced_prefix(ss, ts, n, u),
    ensures
        last_with_key(label_keys(ts), k) is Some ==> last_with_key(label_keys(u), k)
            == last_with_key(label_keys(ts), k),
        !key_seen(ss, n, k) ==> last_with_key(label_keys(u), k) == last_with_key(label_keys(ts), k),
{
    let k0 = label_keys(ts);
    let ku = label_keys(u);
    assert forall|x: int| 0 <= x < ts.len() implies ku[x] == k0[x] by {
        assert(u[x].name == ts[x].name);
    }
    lemma_last_with_key(k0, k);
    match last_with_key(k0, k) {
        Some(y) => {
            assert forall|m: int| y < m < ku.len() implies ku[m] != k by {
                if m < ts.len() {
                    assert(ku[m] == k0[m]);
                } else {
                    assert(ku[m] == lowercase(u[m].name));
                }
            }
            lemma_last_with_key_at(ku, k, y);
        },
        None => {
            if !key_seen(ss, n, k) {
                assert forall|m: int| 0 <= m < ku.len() implies ku[m] != k by {
                    if m < ts.len() {
                        assert(ku[m] == k0[m]);
                    } else {
                        assert(ku[m] == lowercase(u[m].name));
                    }
                }
                lemma_last_with_key_absent(ku, k);
            }
        },
    }
}

proof fn lemma_key_seen_grow(ss: Seq<LabelView>, n: int, k: Seq<char>)
    requires
        0 <= n < ss.len(),
    ensures
        key_seen(ss, n + 1, k) <==> (key_seen(ss, n, k) || lowercase(ss[n].name) == k),
{
    if lowercase(ss[n].name) == k {
        assert(key_seen(ss, n + 1, k));
    }
    if key_seen(ss, n + 1, k) && lowercase(ss[n].name) != k {
        let j = choose|j: int| 0 <= j < n + 1 && lowercase(#[trigger] ss[j].name) == k;
        assert(key_seen(ss, n, k));
    }
    if key_seen(ss, n, k) {
        let j = choose|j: int| 0 <= j < n && lowercase(#[trigger] ss[j].name) == k;
        assert(key_seen(ss, n + 1, k));
    }
}

proof fn lemma_one_action(u: Seq<LabelView>, a: LabelActionView)
    ensures
        apply_label_actions(u, seq![a]) == apply_label_action(u, a),
        apply_label_actions(u, Seq::<LabelActionView>::empty()) == u,
{
    assert(seq![a].drop_last() =~= Seq::<LabelActionView>::empty());
    assert(apply_label_actions(u, Seq::<LabelActionView>::empty()) == u);
    assert(apply_label_actions(u, seq![a].drop_last()) == u);
    assert(seq![a].last() == a);
}

/// The labels a source label's requests leave are settled for it, when the
/// sources before it already were.
#[verifier::spinoff_prover]
#[verifier::rlimit(50)]
proof fn lemma_sync_step(ss: Seq<LabelView>, ts: Seq<LabelView>, n: int, u: Seq<LabelView>)
    requires
        0 <= n < ss.len(),
        synced_prefix(ss, ts, n, u),
        same_key_same_fields(ss),
    ensures
        synced_prefix(ss, ts, n + 1, apply_label_actions(u, label_actions_for(ts, ss[n]))),
{
    let s = ss[n];
    let k = lowercase(s.name);
    let k0 = label_keys(ts);
    let ku = label_keys(u);
    lemma_last_with_key(k0, k);
    lemma_match_kept(ss, ts, n, u, k);
    assert forall|kk: Seq<char>| key_seen(ss, n, kk) implies key_seen(ss, n + 1, kk) by {
        lemma_key_seen_grow(ss, n, kk);
    }
    assert(key_seen(ss, n + 1, k)) by {
        lemma_key_seen_grow(ss, n, k);
    }
    match label_outcome(ts, s) {
        Outcome::Created => {
            let a = LabelActionView::Create(create_label_request(s));
            assert(label_actions_for(ts, s) == seq![a]);
            lemma_one_action(u, a);
            let v = created_label(create_label_request(s));
            let u2 = u.push(v);
            assert(apply_label_actions(u, label_actions_for(ts, s)) == u2);
            assert(label_keys(u2) =~= ku.push(k));
            assert forall|x: int| ts.len() <= x < u2.len() implies key_seen(
                ss,
                n + 1,
                lowercase(#[trigger] u2[x].name),
            ) && last_with_key(label_keys(ts), lowercase(u2[x].name)) is None by {
                if x < u.len() {
                    assert(u2[x] == u[x]);
                }
            }
            assert forall|x: int|
                0 <= x < ts.len() && !key_seen(ss, n + 1, lowercase(ts[x].name)) implies #[trigger] u2[x]
                == ts[x] by {
                lemma_key_seen_grow(ss, n, lowercase(ts[x].name));
                assert(u2[x] == u[x]);
            }
            assert forall|j: int| 0 <= j < n + 1 implies label_settled(u2, #[trigger] ss[j]) by {
                let kj = lowercase(ss[j].name);
                lemma_last_with_key_push(ku, k, kj);
                if kj == k {
                    assert(label_match(u2, ss[j]) == Some(u.len() as int));
                } else {
                    assert(label_settled(u, ss[j]));
                    let x = label_match(u, ss[j])->0;
                    lemma_last_with_key(ku, kj);
                    assert(u2[x] == u[x]);
                }
            }
        },
        Outcome::Updated => {
            let y = label_match(ts, s)->0;
            let nm = ts[y].name;
            let r = update_label_request(s, ts[y]);
            let a = LabelActionView::Update(nm, r);
            assert(label_actions_for(ts, s) == seq![a]);
            lemma_one_action(u, a);
            let u2 = u.map_values(|t: LabelView| if t.name == nm { updated_label(t, r) } else { t });
            assert(apply_label_actions(u, label_actions_for(ts, s)) == u2);
            assert forall|x: int| 0 <= x < u.len() implies #[trigger] u2[x].name == u[x].name by {}
            assert(label_keys(u2) =~= ku);
            assert(k0[y] == lowercase(nm));
            assert forall|x: int|
                0 <= x < ts.len() && !key_seen(ss, n + 1, lowercase(ts[x].name)) implies #[trigger] u2[x]
                == ts[x] by {
                lemma_key_seen_grow(ss, n, lowercase(ts[x].name));
                assert(u[x] == ts[x]);
            }
            assert forall|j: int| 0 <= j < n + 1 implies label_settled(u2, #[trigger] ss[j]) by {
                let kj = lowercase(ss[j].name);
                lemma_last_with_key(ku, kj);
                if j < n {
                    assert(label_settled(u, ss[j]));
                    let x = label_match(u, ss[j])->0;
                    if u[x].name == nm {
                        assert(ku[x] == lowercase(u[x].name));
                        assert(lowercase(ss[j].name) == lowercase(ss[n].name));
                    }
                } else {
                    assert(label_match(u, s) == Some(y));
                    assert(u[y].name == nm);
                    if s.description is None {
                        if key_seen(ss, n, k) {
                            let j0 = choose|j0: int| 0 <= j0 < n && lowercase(#[trigger] ss[j0].name) == k;
                            assert(label_settled(u, ss[j0]));
                            assert(lowercase(ss[j0].name) == lowercase(ss[n].name));
                        } else {
                            assert(u[y] == ts[y]);
                            assert(label_match(ts, ss[n]) is Some);
                        }
                    }
                }
            }
        },
        Outcome::Unchanged => {
            let y = label_match(ts, s)->0;
            assert(label_actions_for(ts, s) =~= Seq::<LabelActionView>::empty());
            lemma_one_action(u, LabelActionView::Create(create_label_request(s)));
            assert forall|x: int|
                0 <= x < ts.len() && !key_seen(ss, n + 1, lowercase(ts[x].name)) implies #[trigger] u[x]
                == ts[x] by {
                lemma_key_seen_grow(ss, n, lowercase(ts[x].name));
            }
            assert forall|j: int| 0 <= j < n + 1 implies label_settled(u, #[trigger] ss[j]) by {
                if j == n {
                    assert(label_match(u, s) == Some(y));
                    if key_seen(ss, n, k) {
                        let j0 = choose|j0: int| 0 <= j0 < n && lowercase(#[trigger] ss[j0].name) == k;
                        assert(label_settled(u, ss[j0]));
                        assert(lowercase(ss[j0].name) == lowercase(ss[n].name));
                    } else {
                        assert(u[y] == ts[y]);
                    }
                }
            }
        },
    }
}

proof fn lemma_sync_prefix(ss: Seq<LabelView>, ts: Seq<LabelView>, n: int)
    requires
        0 <= n <= ss.len(),
        same_key_same_fields(ss),
    ensures
        synced_prefix(ss, ts, n, apply_label_actions(ts, label_actions(ss.take(n), ts))),
    decreases n,
{
    if n == 0 {
        assert(ss.take(0).len() == 0);
        assert(label_actions(ss.take(0), ts) == Seq::<LabelActionView>::empty());
    } else {
        lemma_sync_prefix(ss, ts, n - 1);
        let before = label_actions(ss.take(n - 1), ts);
        let u = apply_label_actions(ts, before);
        lemma_sync_step(ss, ts, n - 1, u);
        assert(ss.take(n).drop_last() =~= ss.take(n - 1));
        assert(ss.take(n).last() == ss[n - 1]);
        lemma_apply_concat(ts, before, label_actions_for(ts, ss[n - 1]));
    }
}

/// When every source label is unchanged, a sync sends nothing and reports
/// every label as unchanged.
pub proof fn lemma_label_all_unchanged(ss: Seq<LabelView>, u: Seq<LabelView>)
    requires
        forall|i: int| 0 <= i < ss.len() ==> label_outcome(u, #[trigger] ss[i]) == Outcome::Unchanged,
    ensures
        label_actions(ss, u) == Seq::<LabelActionView>::empty(),
        label_names_with(ss, u, Outcome::Created) == Seq::<Seq<char>>::empty(),
        label_names_with(ss, u, Outcome::Updated) == Seq::<Seq<char>>::empty(),
        label_names_with(ss, u, Outcome::Unchanged) == ss.map_values(|l: LabelView| l.name),
    decreases ss.len(),
{
    if ss.len() > 0 {
        let rest = ss.drop_last();
        assert forall|i: int| 0 <= i < rest.len() implies label_outcome(u, #[trigger] rest[i])
            == Outcome::Unchanged by {
            assert(rest[i] == ss[i]);
        }
        lemma_label_all_unchanged(rest, u);
        assert(label_outcome(u, ss.last()) == Outcome::Unchanged);
        assert(ss.map_values(|l: LabelView| l.name) =~= rest.map_values(|l: LabelView| l.name).push(
            ss.last().name,
        ));
    }
}

/// Syncing again after a sync's requests were applied to the target changes
/// nothing: every source label is then unchanged and no request is sent.
/// This holds unless two source labels with the same name up to case differ
/// in colour or description.
pub proof fn lemma_label_sync_idempotent(ss: Seq<LabelView>, ts: Seq<LabelView>)
    requires
        same_key_same_fields(ss),
    ensures
        ({
            let after = apply_label_actions(ts, label_actions(ss, ts));
            &&& forall|i: int|
                0 <= i < ss.len() ==> label_outcome(after, #[trigger] ss[i]) == Outcome::Unchanged
            &&& label_actions(ss, after) == Seq::<LabelActionView>::empty()
            &&& label_names_with(ss, after, Outcome::Created) == Seq::<Seq<char>>::empty()
            &&& label_names_with(ss, after, Outcome::Updated) == Seq::<Seq<char>>::empty()
            &&& label_names_with(ss, after, Outcome::Unchanged) == ss.map_values(
                |l: LabelView| l.name,
            )
        }),
{
    lemma_sync_prefix(ss, ts, ss.len() as int);
    assert(ss.take(ss.len() as int) =~= ss);
    let after = apply_label_actions(ts, label_actions(ss, ts));
    assert forall|i: int| 0 <= i < ss.len() implies label_outcome(after, #[trigger] ss[i])
        == Outcome::Unchanged by {
        assert(label_settled(after, ss[i]));
    }
    lemma_label_all_unchanged(ss, after);
}

/// Whether a request leaves every label's name as it is.
spec fn renames_nothing(a: LabelActionView) -> bool {
    match a {
        LabelActionView::Create(_) => true,
        LabelActionView::Update(_, r) => r.new_name is None,
    }
}

proof fn lemma_plan_renames_nothing(ss: Seq<LabelView>, ts: Seq<LabelView>)
    ensures
        forall|i: int|
            0 <= i < label_actions(ss, ts).len() ==> renames_nothing(
                #[trigger] label_actions(ss, ts)[i],
            ),
    decreases ss.len(),
{
    if ss.len() > 0 {
        lemma_plan_renames_nothing(ss.drop_last(), ts);
        let a = label_actions(ss.drop_last(), ts);
        let b = label_actions_for(ts, ss.last());
        assert forall|i: int| 0 <= i < (a + b).len() implies renames_nothing(#[trigger] (a + b)[i]) by {
            if i >= a.len() {
                assert((a + b)[i] == b[i - a.len()]);
            }
        }
    }
}

proof fn lemma_apply_keeps_names(ts: Seq<LabelView>, acts: Seq<LabelActionView>)
    requires
        forall|i: int| 0 <= i < acts.len() ==> renames_nothing(#[trigger] acts[i]),
    ensures
        apply_label_actions(ts, acts).len() >= ts.len(),
        forall|x: int|
            0 <= x < ts.len() ==> #[trigger] apply_label_actions(ts, acts)[x].name == ts[x].name,
    decreases acts.len(),
{
    if acts.len() > 0 {
        let rest = acts.drop_last();
        assert forall|i: int| 0 <= i < rest.len() implies renames_nothing(#[trigger] rest[i]) by {
            assert(rest[i] == acts[i]);
        }
        lemma_apply_keeps_names(ts, rest);
        let u = apply_label_actions(ts, rest);
        assert(renames_nothing(acts[acts.len() - 1]));
        match acts.last() {
            LabelActionView::Create(r) => {
                assert forall|x: int| 0 <= x < ts.len() implies #[trigger] apply_label_actions(
                    ts,
                    acts,
                )[x].name == ts[x].name by {
                    assert(u.push(created_label(r))[x] == u[x]);
                }
            },
            LabelActionView::Update(name, r) => {},
        }
    }
}

/// A sync never deletes or renames a label: after its requests the target
/// still has every label it had, at the same place and under the same name.
pub proof fn lemma_label_sync_never_deletes(ss: Seq<LabelView>, ts: Seq<LabelView>)
    ensures
        ({
            let after = apply_label_actions(ts, label_actions(ss, ts));
            &&& after.len() >= ts.len()
            &&& forall|x: int| 0 <= x < ts.len() ==> #[trigger] after[x].name == ts[x].name
        }),
{
    lemma_plan_renames_nothing(ss, ts);
    lemma_apply_keeps_names(ts, label_actions(ss, ts));
}

/// The names a report lists under an outcome are exactly the names, as
/// written in the source, of the source labels with that outcome, in source
/// order: the created, updated and unchanged lists split the source names.
pub proof fn lemma_label_report_lists_source_names(ss: Seq<LabelView>, ts: Seq<LabelView>, o: Outcome)
    ensures
        label_names_with(ss, ts, o) == ss.filter(|x: LabelView| label_outcome(ts, x) == o).map_values(
            |x: LabelView| x.name,
        ),
    decreases ss.len(),
{
    reveal(Seq::filter);
    if ss.len() > 0 {
        lemma_label_report_lists_source_names(ss.drop_last(), ts, o);
        let pred = |x: LabelView| label_outcome(ts, x) == o;
        let rest = ss.drop_last().filter(pred);
        if pred(ss.last()) {
            assert(rest.push(ss.last()).map_values(|x: LabelView| x.name) =~= rest.map_values(
                |x: LabelView| x.name,
            ).push(ss.last().name));
        }
    }
}

/// Matching ignores case: a source label whose name is, up to the case of
/// ASCII letters, the name of some target label is never created, when
/// lower-casing both names maps exactly their ASCII capitals to small letters
/// (as `to_lowercase` does on ASCII text).
pub proof fn lemma_label_ascii_case_variants_match(ts: Seq<LabelView>, l: LabelView, j: int)
    requires
        0 <= j < ts.len(),
        is_ascii_chars(l.name) ==> lowercase(l.name) == ascii_lowercase(l.name),
        is_ascii_chars(ts[j].name) ==> lowercase(ts[j].name) == ascii_lowercase(ts[j].name),
        is_ascii_chars(l.name),
        is_ascii_chars(ts[j].name),
        same_up_to_ascii_case(l.name, ts[j].name),
    ensures
        label_outcome(ts, l) != Outcome::Created,
{
    lemma_ascii_lowercase_ignores_case(l.name, ts[j].name);
    lemma_label_created_iff_unmatched(ts, l);
}

} // verus!
