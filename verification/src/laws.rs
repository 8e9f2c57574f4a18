//! Properties that hold across the tracker's operations.

use vstd::prelude::*;

use crate::cards::{done_count, fresh_task, has_id, missing_from, tag_accepted, toggled};
use crate::model::{CardModel, DataModel, TaskModel};
use crate::state::{active_index, archived_current, can_sync, synced_message, synced_state, StateModel};
use crate::stats::{all_cards, domain_counts};
use crate::domains::{default_domains_model, default_task_count, entry_keys, keys_unique};
use crate::lookup::{is_first_of, keys_distinct, lemma_first_index_found, lemma_first_index_none, lemma_first_index_same, lemma_first_index_some};
use crate::series::{add_to_groups, by_time, group_index, group_names, grouped, lemma_by_time_is_stable_sort, point_of, series_of, SeriesPoint};
use crate::state::{shown, visibility_index, visibility_names, with_visibility};
use crate::text::{file_safe, is_path_unsafe, is_white_space, lemma_trimmed, lemma_trimmed_idempotent, trimmed};
use crate::state::with_card;

verus! {

proof fn lemma_missing_is_from_template(template: Seq<TaskModel>, existing: Seq<TaskModel>, k: int)
    requires
        0 <= k < template.len(),
        !has_id(existing, template[k].id),
    ensures
        exists|m: int| 0 <= m < missing_from(template, existing).len()
            && #[trigger] missing_from(template, existing)[m] == template[k],
    decreases template.len(),
{
    let rest = missing_from(template.drop_last(), existing);
    if k == template.len() - 1 {
        assert(missing_from(template, existing) == rest.push(template.last()));
        assert(missing_from(template, existing)[rest.len() as int] == template[k]);
    } else {
        assert(template.drop_last()[k] == template[k]);
        lemma_missing_is_from_template(template.drop_last(), existing, k);
        let m = choose|m: int| 0 <= m < rest.len() && #[trigger] rest[m] == template[k];
        if has_id(existing, template.last().id) {
            assert(missing_from(template, existing)[m] == template[k]);
        } else {
            assert(missing_from(template, existing)[m] == template[k]);
        }
    }
}

proof fn lemma_nothing_missing(template: Seq<TaskModel>, existing: Seq<TaskModel>)
    requires
        forall|k: int| 0 <= k < template.len() ==> has_id(existing, #[trigger] template[k].id),
    ensures
        missing_from(template, existing) == Seq::<TaskModel>::empty(),
    decreases template.len(),
{
    if template.len() > 0 {
        assert forall|k: int| 0 <= k < template.drop_last().len() implies has_id(existing, #[trigger] template.drop_last()[k].id) by {
            assert(template.drop_last()[k] == template[k]);
        }
        lemma_nothing_missing(template.drop_last(), existing);
        assert(has_id(existing, template[template.len() - 1].id));
    }
}

/// After a sync, every template task's identifier is on the card.
pub proof fn lemma_sync_covers_template(template: Seq<TaskModel>, tasks: Seq<TaskModel>)
    ensures
        forall|k: int| 0 <= k < template.len()
            ==> has_id(tasks + missing_from(template, tasks), #[trigger] template[k].id),
{
    let all = tasks + missing_from(template, tasks);
    assert forall|k: int| 0 <= k < template.len() implies has_id(all, #[trigger] template[k].id) by {
        if has_id(tasks, template[k].id) {
            let w = choose|w: int| 0 <= w < tasks.len() && tasks[w].id == template[k].id;
            assert(all[w] == tasks[w]);
        } else {
            lemma_missing_is_from_template(template, tasks, k);
            let m = choose|m: int| 0 <= m < missing_from(template, tasks).len()
                && #[trigger] missing_from(template, tasks)[m] == template[k];
            assert(all[tasks.len() + m] == template[k]);
        }
    }
}

/// Syncing a card with its template a second time changes nothing but the status
/// line, which then reports that no task was missing.
pub proof fn lemma_sync_idempotent(s: StateModel, ci: int)
    requires
        can_sync(s, ci),
    ensures
        can_sync(synced_state(s, ci), ci),
        synced_state(synced_state(s, ci), ci).data == synced_state(s, ci).data,
        synced_state(synced_state(s, ci), ci).status_message == synced_message(0),
{
    let c = s.data.open_cards[ci];
    let d = crate::domains::key_index(s.data.domains, c.domain).unwrap();
    let template = s.data.domains[d].domain.template_tasks;
    let s1 = synced_state(s, ci);
    let c1 = s1.data.open_cards[ci];
    assert(c1.domain == c.domain);
    assert(s1.data.domains == s.data.domains);
    lemma_sync_covers_template(template, c.tasks);
    lemma_nothing_missing(template, c1.tasks);
    assert(c1.tasks + Seq::<TaskModel>::empty() =~= c1.tasks);
    assert(s1.data.open_cards.update(ci, CardModel { tasks: c1.tasks, ..c1 }) =~= s1.data.open_cards);
}

/// Flipping the completion of a task twice gives back the task.
pub proof fn lemma_toggle_twice(t: TaskModel)
    ensures
        toggled(toggled(t)) == t,
{
}

/// Flipping the completion of the same task of a card twice gives back the card's tasks.
pub proof fn lemma_toggle_twice_restores_tasks(ts: Seq<TaskModel>, i: int)
    requires
        0 <= i < ts.len(),
    ensures
        ts.update(i, toggled(ts[i])).update(i, toggled(ts.update(i, toggled(ts[i]))[i])) == ts,
{
    assert(ts.update(i, toggled(ts[i])).update(i, toggled(ts.update(i, toggled(ts[i]))[i])) =~= ts);
}

/// Removing the tag that was just added gives back the card's tags.
pub proof fn lemma_remove_undoes_add_tag(tags: Seq<Seq<char>>, tag: Seq<char>)
    ensures
        tags.push(tag).remove(tags.len() as int) == tags,
{
    assert(tags.push(tag).remove(tags.len() as int) =~= tags);
}

/// Deleting the task that was just added gives back the card's tasks.
pub proof fn lemma_delete_undoes_add_task(ts: Seq<TaskModel>, id: u128, description: Seq<char>)
    ensures
        ts.push(fresh_task(id, description)).remove(ts.len() as int) == ts,
{
    assert(ts.push(fresh_task(id, description)).remove(ts.len() as int) =~= ts);
}

/// A card's tags never repeat: adding a tag keeps them distinct.
pub proof fn lemma_add_tag_keeps_tags_distinct(tags: Seq<Seq<char>>, tag: Seq<char>)
    requires
        tags.no_duplicates(),
    ensures
        (if tag_accepted(tags, tag) { tags.push(tag) } else { tags }).no_duplicates(),
{
    if tag_accepted(tags, tag) {
        let r = tags.push(tag);
        assert forall|i: int, j: int| 0 <= i < r.len() && 0 <= j < r.len() && i != j implies r[i] != r[j] by {
            if i == tags.len() {
                assert(tags[j] == r[j]);
            } else if j == tags.len() {
                assert(tags[i] == r[i]);
            }
        }
    }
}

/// Archiving the selected card loses no card and adds none: the open and archived
/// cards together hold the same cards as before.
pub proof fn lemma_archive_keeps_every_card(d: DataModel)
    ensures
        all_cards(archived_current(d)).len() == all_cards(d).len(),
        all_cards(archived_current(d)).to_multiset() == all_cards(d).to_multiset(),
{
    broadcast use vstd::seq_lib::group_seq_properties;
    broadcast use vstd::multiset::group_multiset_axioms;

    if d.current_card_index is Some && d.current_card_index.unwrap() < d.open_cards.len() {
        let idx = d.current_card_index.unwrap();
        let o = d.open_cards;
        let a = d.archived_cards;
        let i = idx as int;
        vstd::seq_lib::lemma_multiset_commutative(o.remove(i), a.push(o[i]));
        vstd::seq_lib::lemma_multiset_commutative(o, a);
        o.to_multiset_ensures();
        a.to_multiset_ensures();
        assert(o.remove(i).to_multiset() =~= o.to_multiset().remove(o[i]));
        assert(a.push(o[i]).to_multiset() =~= a.to_multiset().insert(o[i]));
        assert(o.to_multiset().count(o[i]) > 0) by {
            assert(o.contains(o[i]));
        }
        assert(o.remove(i).to_multiset().add(a.push(o[i]).to_multiset())
            =~= o.to_multiset().add(a.to_multiset()));
    }
}

/// The card the daily page shows is always an open card, and there is one
/// exactly when some card is open.
pub proof fn lemma_active_index_valid(current: Option<usize>, len: nat)
    ensures
        active_index(current, len) matches Some(i) ==> 0 <= i < len,
        active_index(current, len) is None <==> len == 0,
{
}

/// After a card is opened it is the one the daily page shows: it is selected at
/// the last position.
pub proof fn lemma_opened_card_is_shown(n: nat)
    requires
        n < usize::MAX,
    ensures
        active_index(Some(n as usize), n + 1) == Some(n as int),
{
}


/// What is recorded for a domain's visibility is what is read back, and recording
/// it for one domain leaves what is read for every other domain as it was.
pub proof fn lemma_visibility_read_after_write(
    vs: Seq<(Seq<char>, bool)>,
    name: Seq<char>,
    visible: bool,
    other: Seq<char>,
)
    ensures
        shown(with_visibility(vs, name, visible), name) == visible,
        other != name ==> shown(with_visibility(vs, name, visible), other) == shown(vs, other),
{
    let w = with_visibility(vs, name, visible);
    let ks = visibility_names(vs);
    let kw = visibility_names(w);
    lemma_first_index_some(ks, name);
    lemma_first_index_none(ks, name);
    match visibility_index(vs, name) {
        Some(i) => {
            assert(w == vs.update(i, (name, visible)));
            assert(is_first_of(kw, name, i)) by {
                assert forall|j: int| 0 <= j < i implies kw[j] != name by {
                    assert(kw[j] == ks[j]);
                }
            }
            lemma_first_index_found(kw, name, i);
            if other != name {
                assert forall|j: int| 0 <= j < ks.len() implies (ks[j] == other <==> kw[j] == other) by {
                    if j == i {
                        assert(ks[j] == name);
                    }
                }
                lemma_first_index_same(ks, kw, other);
                lemma_first_index_some(ks, other);
                if let Some(k) = visibility_index(vs, other) {
                    assert(k != i);
                }
            }
        },
        None => {
            assert(w == vs.push((name, visible)));
            assert(is_first_of(kw, name, vs.len() as int)) by {
                assert forall|j: int| 0 <= j < vs.len() implies kw[j] != name by {
                    assert(kw[j] == ks[j]);
                }
            }
            lemma_first_index_found(kw, name, vs.len() as int);
            if other != name {
                assert forall|j: int| 0 <= j < ks.len() implies (ks[j] == other <==> kw[j] == other) by {
                    assert(kw[j] == ks[j]);
                }
                lemma_first_index_same(ks, kw, other);
                lemma_first_index_some(ks, other);
            }
        },
    }
}

/// The export file name made from a domain holds no space and no slash, is as
/// long as the domain's name, and keeps every other character in place.
pub proof fn lemma_file_safe_name(s: Seq<char>)
    ensures
        file_safe(s).len() == s.len(),
        forall|k: int| 0 <= k < s.len() ==> !is_path_unsafe(#[trigger] file_safe(s)[k]),
        forall|k: int| 0 <= k < s.len() && !is_path_unsafe(s[k]) ==> #[trigger] file_safe(s)[k] == s[k],
{
}

/// The starting table holds three domains, each found under its own name, and no
/// two under the same key; their templates hold four, three and two tasks.
pub proof fn lemma_default_domains_well_formed(ids: Seq<u128>)
    requires
        ids.len() == default_task_count(),
    ensures
        default_domains_model(ids).len() == 3,
        keys_unique(default_domains_model(ids)),
        forall|k: int| 0 <= k < 3 ==> #[trigger] default_domains_model(ids)[k].key
            == default_domains_model(ids)[k].domain.name,
        default_domains_model(ids)[0].domain.template_tasks.len() == 4,
        default_domains_model(ids)[1].domain.template_tasks.len() == 3,
        default_domains_model(ids)[2].domain.template_tasks.len() == 2,
{
    reveal_strlit("Zcash Node Operations");
    reveal_strlit("Linux Server Maintenance");
    reveal_strlit("Crypto Portfolio & Privacy");
    let m = default_domains_model(ids);
    let ks = entry_keys(m);
    assert(ks[0].len() == 21);
    assert(ks[1].len() == 24);
    assert(ks[2].len() == 26);
}

/// Archiving every open card loses no card and adds none.
pub proof fn lemma_archive_all_keeps_every_card(d: DataModel)
    ensures
        (d.archived_cards + d.open_cards).to_multiset() == all_cards(d).to_multiset(),
{
    vstd::seq_lib::lemma_seq_union_to_multiset_commutative(d.archived_cards, d.open_cards);
}

/// The number of points in the groups.
pub open spec fn point_count(gs: Seq<(Seq<char>, Seq<SeriesPoint>)>) -> nat
    decreases gs.len(),
{
    if gs.len() == 0 {
        0
    } else {
        point_count(gs.drop_last()) + gs.last().1.len()
    }
}

proof fn lemma_point_count_update(gs: Seq<(Seq<char>, Seq<SeriesPoint>)>, i: int, g: (Seq<char>, Seq<SeriesPoint>))
    requires
        0 <= i < gs.len(),
    ensures
        point_count(gs.update(i, g)) == point_count(gs) - gs[i].1.len() + g.1.len(),
    decreases gs.len(),
{
    if i < gs.len() - 1 {
        assert(gs.update(i, g).drop_last() =~= gs.drop_last().update(i, g));
        lemma_point_count_update(gs.drop_last(), i, g);
    } else {
        assert(gs.update(i, g).drop_last() =~= gs.drop_last());
    }
}

proof fn lemma_point_count_sorted(gs: Seq<(Seq<char>, Seq<SeriesPoint>)>)
    ensures
        point_count(gs.map_values(|g: (Seq<char>, Seq<SeriesPoint>)| (g.0, by_time(g.1))))
            == point_count(gs),
    decreases gs.len(),
{
    if gs.len() > 0 {
        let f = |g: (Seq<char>, Seq<SeriesPoint>)| (g.0, by_time(g.1));
        assert(gs.map_values(f).drop_last() =~= gs.drop_last().map_values(f));
        lemma_point_count_sorted(gs.drop_last());
        lemma_by_time_is_stable_sort(gs.last().1);
    }
}

proof fn lemma_grouped_partition(cs: Seq<CardModel>)
    ensures
        point_count(grouped(cs)) == cs.len(),
        keys_distinct(group_names(grouped(cs))),
    decreases cs.len(),
{
    if cs.len() > 0 {
        let gs = grouped(cs.drop_last());
        lemma_grouped_partition(cs.drop_last());
        let name = cs.last().domain;
        let p = point_of(cs.last());
        let ks = group_names(gs);
        lemma_first_index_some(ks, name);
        lemma_first_index_none(ks, name);
        match group_index(gs, name) {
            Some(i) => {
                lemma_point_count_update(gs, i, (name, gs[i].1.push(p)));
                let r = gs.update(i, (name, gs[i].1.push(p)));
                assert(group_names(r) =~= ks);
            },
            None => {
                let r = gs.push((name, seq![p]));
                assert(r.drop_last() =~= gs);
                let kr = group_names(r);
                assert forall|a: int, b: int| 0 <= a < kr.len() && 0 <= b < kr.len() && a != b
                    implies kr[a] != kr[b] by {
                    if a < gs.len() && b < gs.len() {
                        assert(kr[a] == ks[a] && kr[b] == ks[b]);
                    } else if a < gs.len() {
                        assert(kr[a] == ks[a]);
                    } else {
                        assert(kr[b] == ks[b]);
                    }
                }
            },
        }
    }
}

/// The completion graph shows each card exactly once: its series hold as many
/// points as there are cards, and no two series are for the same domain.
pub proof fn lemma_series_partition(cs: Seq<CardModel>)
    ensures
        point_count(series_of(cs)) == cs.len(),
        keys_distinct(group_names(series_of(cs))),
{
    lemma_grouped_partition(cs);
    lemma_point_count_sorted(grouped(cs));
    let g = grouped(cs);
    let s = series_of(cs);
    assert(group_names(s) =~= group_names(g));
}


/// Recording visibilities never gives one domain two entries.
pub proof fn lemma_visibility_keeps_names_distinct(vs: Seq<(Seq<char>, bool)>, name: Seq<char>, visible: bool)
    requires
        keys_distinct(visibility_names(vs)),
    ensures
        keys_distinct(visibility_names(with_visibility(vs, name, visible))),
{
    let ks = visibility_names(vs);
    let w = with_visibility(vs, name, visible);
    let kw = visibility_names(w);
    lemma_first_index_some(ks, name);
    lemma_first_index_none(ks, name);
    match visibility_index(vs, name) {
        Some(i) => {
            assert(kw =~= ks);
        },
        None => {
            assert forall|a: int, b: int| 0 <= a < kw.len() && 0 <= b < kw.len() && a != b
                implies kw[a] != kw[b] by {
                if a < vs.len() && b < vs.len() {
                    assert(kw[a] == ks[a] && kw[b] == ks[b]);
                } else if a < vs.len() {
                    assert(kw[a] == ks[a]);
                } else {
                    assert(kw[b] == ks[b]);
                }
            }
        },
    }
}


/// A card's tags are distinct, none is empty, and each is already trimmed.
pub open spec fn tags_clean(tags: Seq<Seq<char>>) -> bool {
    &&& tags.no_duplicates()
    &&& forall|k: int| 0 <= k < tags.len() ==> (#[trigger] tags[k]).len() > 0 && trimmed(tags[k]) == tags[k]
}

/// The tags of every open card are clean.
pub open spec fn open_tags_clean(s: StateModel) -> bool {
    forall|i: int| 0 <= i < s.data.open_cards.len() ==> tags_clean(#[trigger] s.data.open_cards[i].tags)
}

/// Card tags stay clean under the daily page's tag actions: a new card has none,
/// adding the trimmed tag field keeps them clean, adding a tag that is already
/// trimmed keeps them clean, and removing one keeps them clean.
pub proof fn lemma_card_tags_stay_clean(tags: Seq<Seq<char>>, text: Seq<char>, tag: Seq<char>, t: int)
    requires
        tags_clean(tags),
    ensures
        tags_clean(Seq::empty()),
        tags_clean(
            if tag_accepted(tags, trimmed(text)) { tags.push(trimmed(text)) } else { tags },
        ),
        trimmed(tag) == tag ==> tags_clean(
            if tag_accepted(tags, tag) { tags.push(tag) } else { tags },
        ),
        0 <= t < tags.len() ==> tags_clean(tags.remove(t)),
{
    lemma_trimmed_idempotent(text);
    lemma_add_tag_keeps_tags_distinct(tags, trimmed(text));
    lemma_add_tag_keeps_tags_distinct(tags, tag);
    if tag_accepted(tags, trimmed(text)) {
        let a = tags.push(trimmed(text));
        assert forall|k: int| 0 <= k < a.len() implies (#[trigger] a[k]).len() > 0 && trimmed(a[k]) == a[k] by {
            if k < tags.len() {
                assert(a[k] == tags[k]);
            }
        }
    }
    if tag_accepted(tags, tag) && trimmed(tag) == tag {
        let b = tags.push(tag);
        assert forall|k: int| 0 <= k < b.len() implies (#[trigger] b[k]).len() > 0
            && trimmed(b[k]) == b[k] by {
            if k < tags.len() {
                assert(b[k] == tags[k]);
            }
        }
    }
    if 0 <= t < tags.len() {
        let r = tags.remove(t);
        assert forall|k: int| 0 <= k < r.len() implies (#[trigger] r[k]).len() > 0 && trimmed(r[k]) == r[k] by {
            if k < t {
                assert(r[k] == tags[k]);
            } else {
                assert(r[k] == tags[k + 1]);
            }
        }
        assert forall|i: int, j: int| 0 <= i < r.len() && 0 <= j < r.len() && i != j implies r[i] != r[j] by {
            let ii = if i < t { i } else { i + 1 };
            let jj = if j < t { j } else { j + 1 };
            assert(r[i] == tags[ii] && r[j] == tags[jj]);
        }
    }
}

/// The tags of all open cards stay clean when one card's tags are replaced by
/// clean tags (as every tag action of the daily page does), and when a card with
/// no tags is opened.
pub proof fn lemma_open_tags_stay_clean(s: StateModel, idx: int, c: CardModel)
    requires
        open_tags_clean(s),
        tags_clean(c.tags),
    ensures
        0 <= idx < s.data.open_cards.len() ==> open_tags_clean(with_card(s, idx, c)),
        open_tags_clean(StateModel {
            data: DataModel { open_cards: s.data.open_cards.push(c), ..s.data },
            ..s
        }),
{
    let pushed = s.data.open_cards.push(c);
    assert forall|i: int| 0 <= i < pushed.len() implies tags_clean(#[trigger] pushed[i].tags) by {
        if i < s.data.open_cards.len() {
            assert(pushed[i] == s.data.open_cards[i]);
        }
    }
    if 0 <= idx < s.data.open_cards.len() {
        let u = with_card(s, idx, c).data.open_cards;
        assert forall|i: int| 0 <= i < u.len() implies tags_clean(#[trigger] u[i].tags) by {
            if i != idx {
                assert(u[i] == s.data.open_cards[i]);
            }
        }
    }
}

/// A blank tag or task field adds nothing: its trimmed text is empty, so no tag
/// is accepted from it and no task is added.
pub proof fn lemma_blank_field_adds_nothing(tags: Seq<Seq<char>>, text: Seq<char>)
    requires
        forall|k: int| 0 <= k < text.len() ==> is_white_space(#[trigger] text[k]),
    ensures
        trimmed(text).len() == 0,
        !tag_accepted(tags, trimmed(text)),
{
    lemma_trimmed(text);
}


/// The completed tasks of a list, in order.
pub open spec fn completed_tasks(ts: Seq<TaskModel>) -> Seq<TaskModel> {
    ts.filter(|t: TaskModel| t.completed)
}

/// The cards of the domain `name`, in order.
pub open spec fn cards_of(cs: Seq<CardModel>, name: Seq<char>) -> Seq<CardModel> {
    cs.filter(|c: CardModel| c.domain == name)
}

/// A card's completed count is the number of its tasks that are completed,
/// whatever else the tasks hold.
pub proof fn lemma_done_count_counts_completed(ts: Seq<TaskModel>)
    ensures
        done_count(ts) == completed_tasks(ts).len(),
    decreases ts.len(),
{
    reveal(Seq::filter);
    if ts.len() > 0 {
        lemma_done_count_counts_completed(ts.drop_last());
    }
}

/// When every task is completed the count is the number of tasks; when none is, it is zero.
pub proof fn lemma_done_count_extremes(ts: Seq<TaskModel>)
    ensures
        (forall|k: int| 0 <= k < ts.len() ==> (#[trigger] ts[k]).completed) ==> done_count(ts) == ts.len(),
        (forall|k: int| 0 <= k < ts.len() ==> !(#[trigger] ts[k]).completed) ==> done_count(ts) == 0,
    decreases ts.len(),
{
    if ts.len() > 0 {
        let t = ts.drop_last();
        assert forall|k: int| 0 <= k < t.len() implies #[trigger] t[k] == ts[k] by {}
        lemma_done_count_extremes(t);
        if forall|k: int| 0 <= k < ts.len() ==> (#[trigger] ts[k]).completed {
            assert forall|k: int| 0 <= k < t.len() implies (#[trigger] t[k]).completed by {
                assert(t[k] == ts[k]);
            }
            assert(ts[ts.len() - 1].completed);
        }
        if forall|k: int| 0 <= k < ts.len() ==> !(#[trigger] ts[k]).completed {
            assert forall|k: int| 0 <= k < t.len() implies !(#[trigger] t[k]).completed by {
                assert(t[k] == ts[k]);
            }
            assert(!ts[ts.len() - 1].completed);
        }
    }
}

/// A tag is accepted exactly when it is not empty and no tag of the card equals it.
pub proof fn lemma_tag_accepted_exactly(tags: Seq<Seq<char>>, tag: Seq<char>)
    ensures
        tag_accepted(tags, tag) <==> (tag.len() != 0 && forall|k: int| 0 <= k < tags.len() ==> #[trigger] tags[k] != tag),
{
    if !tags.contains(tag) {
        assert forall|k: int| 0 <= k < tags.len() implies #[trigger] tags[k] != tag by {}
    } else {
        let k = choose|k: int| 0 <= k < tags.len() && tags[k] == tag;
        assert(tags[k] == tag);
    }
}

/// Archiving moves exactly the selected card: the open cards before it stay in
/// place, those after it move up by one, the archive keeps its cards and gains
/// the selected card at its end.
pub proof fn lemma_archive_moves_selected(d: DataModel, i: usize)
    requires
        d.current_card_index == Some(i),
        i < d.open_cards.len(),
    ensures
        archived_current(d).open_cards.len() == d.open_cards.len() - 1,
        forall|k: int| 0 <= k < i ==> #[trigger] archived_current(d).open_cards[k] == d.open_cards[k],
        forall|k: int| i <= k < d.open_cards.len() - 1 ==> #[trigger] archived_current(d).open_cards[k]
            == d.open_cards[k + 1],
        archived_current(d).archived_cards.len() == d.archived_cards.len() + 1,
        forall|k: int| 0 <= k < d.archived_cards.len() ==> #[trigger] archived_current(d).archived_cards[k]
            == d.archived_cards[k],
        archived_current(d).archived_cards[d.archived_cards.len() as int] == d.open_cards[i as int],
        archived_current(d).current_card_index == if d.open_cards.len() == 1 { None } else { Some(0usize) },
        archived_current(d).domains == d.domains,
{
}

/// The counts for a domain are, in order, those of the cards whose domain is
/// that name, whatever the cards' tags or labels.
pub proof fn lemma_domain_counts_by_domain(cs: Seq<CardModel>, name: Seq<char>)
    ensures
        domain_counts(cs, name) == cards_of(cs, name).map_values(
            |c: CardModel| (done_count(c.tasks), c.tasks.len()),
        ),
    decreases cs.len(),
{
    reveal(Seq::filter);
    if cs.len() > 0 {
        lemma_domain_counts_by_domain(cs.drop_last(), name);
        let f = |c: CardModel| (done_count(c.tasks), c.tasks.len());
        let prev = cards_of(cs.drop_last(), name);
        if cs.last().domain == name {
            assert(prev.push(cs.last()).map_values(f) =~= prev.map_values(f).push(f(cs.last())));
        }
    }
}

/// The cards of `name` among `cs` followed by one more card.
proof fn lemma_cards_of_push(cs: Seq<CardModel>, c: CardModel, name: Seq<char>)
    ensures
        cards_of(cs.push(c), name) == if c.domain == name { cards_of(cs, name).push(c) } else { cards_of(cs, name) },
{
    reveal(Seq::filter);
    assert(cs.push(c).drop_last() =~= cs);
}

/// The graph groups the cards by their domain: every card's domain names a
/// series, and each series holds, in order, the points of exactly the cards
/// whose domain is its name.
pub proof fn lemma_grouped_by_domain(cs: Seq<CardModel>)
    ensures
        forall|k: int| 0 <= k < cs.len() ==> group_names(grouped(cs)).contains(#[trigger] cs[k].domain),
        forall|g: int| 0 <= g < grouped(cs).len() ==> (#[trigger] grouped(cs)[g]).1
            == cards_of(cs, grouped(cs)[g].0).map_values(|c: CardModel| point_of(c)),
        forall|g: int| 0 <= g < grouped(cs).len() ==> cards_of(cs, (#[trigger] grouped(cs)[g]).0).len() > 0,
    decreases cs.len(),
{
    if cs.len() > 0 {
        let prev = cs.drop_last();
        lemma_grouped_by_domain(prev);
        let gs = grouped(prev);
        let c = cs.last();
        let name = c.domain;
        let p = point_of(c);
        let f = |x: CardModel| point_of(x);
        assert(cs =~= prev.push(c));
        let ks = group_names(gs);
        lemma_first_index_some(ks, name);
        lemma_first_index_none(ks, name);
        let r = grouped(cs);
        assert(r == add_to_groups(gs, name, p));
        assert forall|n: Seq<char>| true implies cards_of(cs, n) == if name == n { cards_of(prev, n).push(c) } else { cards_of(prev, n) } by {
            lemma_cards_of_push(prev, c, n);
        }
        match group_index(gs, name) {
            Some(i) => {
                assert(r == gs.update(i, (name, gs[i].1.push(p))));
                assert(gs[i].0 == name);
                assert forall|g: int| 0 <= g < r.len() implies (#[trigger] r[g]).1
                    == cards_of(cs, r[g].0).map_values(f) by {
                    lemma_cards_of_push(prev, c, r[g].0);
                    if g == i {
                        assert(cards_of(prev, name).push(c).map_values(f)
                            =~= cards_of(prev, name).map_values(f).push(p));
                    } else {
                        assert(r[g] == gs[g]);
                        assert(gs[g].0 != name) by {
                            assert(ks[g] == gs[g].0);
                            assert(ks[i] == gs[i].0);
                            lemma_grouped_partition_names(prev);
                        }
                    }
                }
                assert forall|g: int| 0 <= g < r.len() implies cards_of(cs, (#[trigger] r[g]).0).len() > 0 by {
                    lemma_cards_of_push(prev, c, r[g].0);
                    if g != i {
                        assert(r[g] == gs[g]);
                    }
                }
                assert forall|k: int| 0 <= k < cs.len() implies group_names(r).contains(#[trigger] cs[k].domain) by {
                    if k < prev.len() {
                        assert(cs[k] == prev[k]);
                        let j = choose|j: int| 0 <= j < ks.len() && ks[j] == prev[k].domain;
                        assert(group_names(r)[j] == ks[j]);
                    } else {
                        assert(group_names(r)[i] == name);
                    }
                }
            },
            None => {
                assert(r == gs.push((name, seq![p])));
                assert forall|g: int| 0 <= g < r.len() implies (#[trigger] r[g]).1
                    == cards_of(cs, r[g].0).map_values(f) by {
                    lemma_cards_of_push(prev, c, r[g].0);
                    if g < gs.len() {
                        assert(r[g] == gs[g]);
                        assert(ks[g] == gs[g].0);
                    } else {
                        assert(r[g].0 == name);
                        assert forall|k: int| 0 <= k < prev.len() implies #[trigger] prev[k].domain != name by {
                            if prev[k].domain == name {
                                assert(ks.contains(prev[k].domain));
                            }
                        }
                        lemma_no_cards_of(prev, name);
                        assert(Seq::<CardModel>::empty().push(c).map_values(f) =~= seq![p]);
                    }
                }
                assert forall|g: int| 0 <= g < r.len() implies cards_of(cs, (#[trigger] r[g]).0).len() > 0 by {
                    lemma_cards_of_push(prev, c, r[g].0);
                    if g < gs.len() {
                        assert(r[g] == gs[g]);
                    }
                }
                assert forall|k: int| 0 <= k < cs.len() implies group_names(r).contains(#[trigger] cs[k].domain) by {
                    if k < prev.len() {
                        assert(cs[k] == prev[k]);
                        let j = choose|j: int| 0 <= j < ks.len() && ks[j] == prev[k].domain;
                        assert(group_names(r)[j] == ks[j]);
                    } else {
                        assert(group_names(r)[gs.len() as int] == name);
                    }
                }
            },
        }
    }
}

proof fn lemma_no_cards_of(cs: Seq<CardModel>, name: Seq<char>)
    requires
        forall|k: int| 0 <= k < cs.len() ==> #[trigger] cs[k].domain != name,
    ensures
        cards_of(cs, name) == Seq::<CardModel>::empty(),
    decreases cs.len(),
{
    reveal(Seq::filter);
    if cs.len() > 0 {
        let t = cs.drop_last();
        assert forall|k: int| 0 <= k < t.len() implies #[trigger] t[k].domain != name by {
            assert(t[k] == cs[k]);
        }
        lemma_no_cards_of(t, name);
        assert(cs[cs.len() - 1].domain != name);
    }
}

proof fn lemma_grouped_partition_names(cs: Seq<CardModel>)
    ensures
        keys_distinct(group_names(grouped(cs))),
{
    lemma_series_partition(cs);
    lemma_grouped_partition(cs);
}

/// The series of the graph are named by the cards' domains: every card's domain
/// names a series, and each series holds exactly the points of the cards of its
/// domain, stably sorted by time.
pub proof fn lemma_series_by_domain(cs: Seq<CardModel>)
    ensures
        forall|k: int| 0 <= k < cs.len() ==> group_names(series_of(cs)).contains(#[trigger] cs[k].domain),
        forall|g: int| 0 <= g < series_of(cs).len() ==> (#[trigger] series_of(cs)[g]).1
            == by_time(cards_of(cs, series_of(cs)[g].0).map_values(|c: CardModel| point_of(c))),
{
    lemma_grouped_by_domain(cs);
    let gs = grouped(cs);
    let s = series_of(cs);
    assert(group_names(s) =~= group_names(gs));
    assert forall|g: int| 0 <= g < s.len() implies (#[trigger] s[g]).1
        == by_time(cards_of(cs, s[g].0).map_values(|c: CardModel| point_of(c))) by {
        assert(s[g] == (gs[g].0, by_time(gs[g].1)));
    }
}

} // verus!
