//! The completion-over-time graph: one series of points per domain, each in
//! time order, the points of equal time in the order of the cards.

use vstd::prelude::*;

use crate::cards::done_count;
use crate::lookup::{first_index, lemma_first_index_found, lemma_first_index_none};
use crate::model::{CardModel, DailyCard};
use crate::state::TodoState;
use crate::stats::all_cards;

verus! {

/// One point of the graph: a card's creation time (whole seconds), its completed
/// tasks and its tasks.
#[derive(Clone, Copy, Debug, PartialEq, Eq, Structural)]
pub struct SeriesPoint {
    pub timestamp: i64,
    pub done: usize,
    pub total: usize,
}

/// The points of one domain.
#[derive(Clone, Debug)]
pub struct DomainSeries {
    pub domain: String,
    pub points: Vec<SeriesPoint>,
}

impl View for DomainSeries {
    type V = (Seq<char>, Seq<SeriesPoint>);

    open spec fn view(&self) -> (Seq<char>, Seq<SeriesPoint>) {
        (self.domain@, self.points@)
    }
}

impl DeepView for DomainSeries {
    type V = (Seq<char>, Seq<SeriesPoint>);

    open spec fn deep_view(&self) -> (Seq<char>, Seq<SeriesPoint>) {
        self@
    }
}

/// The point a card contributes.
pub open spec fn point_of(c: CardModel) -> SeriesPoint {
    SeriesPoint {
        timestamp: c.created_at.secs,
        done: done_count(c.tasks) as usize,
        total: c.tasks.len() as usize,
    }
}

/// The domains of the groups, in order.
pub open spec fn group_names(gs: Seq<(Seq<char>, Seq<SeriesPoint>)>) -> Seq<Seq<char>> {
    gs.map_values(|g: (Seq<char>, Seq<SeriesPoint>)| g.0)
}

/// The position of the first group for `name`, if there is one.
pub open spec fn group_index(gs: Seq<(Seq<char>, Seq<SeriesPoint>)>, name: Seq<char>) -> Option<int> {
    first_index(group_names(gs), name)
}

/// The groups after adding the point `p` of domain `name`: appended to the group
/// of `name`, or in a new group at the end.
pub open spec fn add_to_groups(
    gs: Seq<(Seq<char>, Seq<SeriesPoint>)>,
    name: Seq<char>,
    p: SeriesPoint,
) -> Seq<(Seq<char>, Seq<SeriesPoint>)> {
    match group_index(gs, name) {
        Some(i) => gs.update(i, (name, gs[i].1.push(p))),
        None => gs.push((name, seq![p])),
    }
}

/// The points of the cards grouped by domain, groups in the order their domain
/// first appears, points in the order of the cards.
pub open spec fn grouped(cs: Seq<CardModel>) -> Seq<(Seq<char>, Seq<SeriesPoint>)>
    decreases cs.len(),
{
    if cs.len() == 0 {
        Seq::empty()
    } else {
        add_to_groups(grouped(cs.drop_last()), cs.last().domain, point_of(cs.last()))
    }
}

/// `p` put into `s` after every leading point that is not later than it.
pub open spec fn insert_by_time(s: Seq<SeriesPoint>, p: SeriesPoint) -> Seq<SeriesPoint>
    decreases s.len(),
{
    if s.len() == 0 {
        seq![p]
    } else if s[0].timestamp > p.timestamp {
        seq![p] + s
    } else {
        seq![s[0]] + insert_by_time(s.drop_first(), p)
    }
}

/// The points stably sorted by time.
pub open spec fn by_time(ps: Seq<SeriesPoint>) -> Seq<SeriesPoint>
    decreases ps.len(),
{
    if ps.len() == 0 {
        Seq::empty()
    } else {
        insert_by_time(by_time(ps.drop_last()), ps.last())
    }
}

/// The series of the graph for the cards.
pub open spec fn series_of(cs: Seq<CardModel>) -> Seq<(Seq<char>, Seq<SeriesPoint>)> {
    grouped(cs).map_values(|g: (Seq<char>, Seq<SeriesPoint>)| (g.0, by_time(g.1)))
}

/// The points are in time order.
pub open spec fn time_ordered(s: Seq<SeriesPoint>) -> bool {
    forall|i: int, j: int| 0 <= i < j < s.len() ==> s[i].timestamp <= s[j].timestamp
}

/// The points of `s` at time `t`, in order.
pub open spec fn at_time(s: Seq<SeriesPoint>, t: i64) -> Seq<SeriesPoint>
    decreases s.len(),
{
    if s.len() == 0 {
        Seq::empty()
    } else {
        let r = at_time(s.drop_last(), t);
        if s.last().timestamp == t {
            r.push(s.last())
        } else {
            r
        }
    }
}

proof fn lemma_insert_at(s: Seq<SeriesPoint>, p: SeriesPoint, j: int)
    requires
        0 <= j <= s.len(),
        forall|k: int| 0 <= k < j ==> s[k].timestamp <= p.timestamp,
        j < s.len() ==> s[j].timestamp > p.timestamp,
    ensures
        insert_by_time(s, p) == s.insert(j, p),
    decreases s.len(),
{
    if s.len() == 0 {
        assert(s.insert(j, p) =~= seq![p]);
    } else if j == 0 {
        assert(seq![p] + s =~= s.insert(0, p));
    } else {
        let t = s.drop_first();
        assert forall|k: int| 0 <= k < j - 1 implies t[k].timestamp <= p.timestamp by {
            assert(t[k] == s[k + 1]);
        }
        lemma_insert_at(t, p, j - 1);
        assert(seq![s[0]] + t.insert(j - 1, p) =~= s.insert(j, p));
    }
}

/// The position at which `insert_by_time` puts `p`: after the leading points not later than it.
pub open spec fn insert_position(s: Seq<SeriesPoint>, p: SeriesPoint) -> int
    decreases s.len(),
{
    if s.len() == 0 {
        0
    } else if s[0].timestamp > p.timestamp {
        0
    } else {
        1 + insert_position(s.drop_first(), p)
    }
}

proof fn lemma_insert_position(s: Seq<SeriesPoint>, p: SeriesPoint)
    requires
        time_ordered(s),
    ensures
        0 <= insert_position(s, p) <= s.len(),
        forall|k: int| 0 <= k < insert_position(s, p) ==> s[k].timestamp <= p.timestamp,
        forall|k: int| insert_position(s, p) <= k < s.len() ==> s[k].timestamp > p.timestamp,
    decreases s.len(),
{
    if s.len() > 0 && s[0].timestamp <= p.timestamp {
        let t = s.drop_first();
        assert(time_ordered(t)) by {
            assert forall|i: int, j: int| 0 <= i < j < t.len() implies t[i].timestamp <= t[j].timestamp by {
                assert(t[i] == s[i + 1] && t[j] == s[j + 1]);
            }
        }
        lemma_insert_position(t, p);
        assert forall|k: int| 0 <= k < insert_position(s, p) implies s[k].timestamp <= p.timestamp by {
            if k > 0 {
                assert(s[k] == t[k - 1]);
            }
        }
        assert forall|k: int| insert_position(s, p) <= k < s.len() implies s[k].timestamp > p.timestamp by {
            assert(s[k] == t[k - 1]);
        }
    }
}

proof fn lemma_at_time_concat(a: Seq<SeriesPoint>, b: Seq<SeriesPoint>, t: i64)
    ensures
        at_time(a + b, t) == at_time(a, t) + at_time(b, t),
    decreases b.len(),
{
    if b.len() == 0 {
        assert(a + b =~= a);
        assert(at_time(a, t) + at_time(b, t) =~= at_time(a, t));
    } else {
        assert((a + b).drop_last() =~= a + b.drop_last());
        lemma_at_time_concat(a, b.drop_last(), t);
        if b.last().timestamp == t {
            assert(at_time(a, t) + at_time(b.drop_last(), t).push(b.last())
                =~= (at_time(a, t) + at_time(b.drop_last(), t)).push(b.last()));
        }
    }
}

proof fn lemma_at_time_none(s: Seq<SeriesPoint>, t: i64)
    requires
        forall|k: int| 0 <= k < s.len() ==> s[k].timestamp != t,
    ensures
        at_time(s, t) == Seq::<SeriesPoint>::empty(),
    decreases s.len(),
{
    if s.len() > 0 {
        lemma_at_time_none(s.drop_last(), t);
    }
}

/// Inserting into points in time order keeps them in time order, keeps the points
/// at each time in their order, and puts the new point after those of its time.
proof fn lemma_insert_by_time(s: Seq<SeriesPoint>, p: SeriesPoint)
    requires
        time_ordered(s),
    ensures
        time_ordered(insert_by_time(s, p)),
        insert_by_time(s, p).len() == s.len() + 1,
        forall|t: i64| #[trigger] at_time(insert_by_time(s, p), t)
            == if p.timestamp == t { at_time(s, t).push(p) } else { at_time(s, t) },
{
    lemma_insert_position(s, p);
    let j = insert_position(s, p);
    lemma_insert_at(s, p, j);
    let r = s.insert(j, p);
    assert forall|a: int, b: int| 0 <= a < b < r.len() implies r[a].timestamp <= r[b].timestamp by {
        if a < j && b > j {
            assert(r[a] == s[a] && r[b] == s[b - 1]);
        }
    }
    assert forall|t: i64| #[trigger] at_time(insert_by_time(s, p), t)
        == if p.timestamp == t { at_time(s, t).push(p) } else { at_time(s, t) } by {
        let front = s.subrange(0, j);
        let back = s.subrange(j, s.len() as int);
        let single = seq![p];
        assert(r =~= front + (single + back));
        assert(s =~= front + back);
        lemma_at_time_concat(front, single + back, t);
        lemma_at_time_concat(single, back, t);
        lemma_at_time_concat(front, back, t);
        assert(single.drop_last() =~= Seq::<SeriesPoint>::empty());
        assert(single.last() == p);
        assert(at_time(Seq::<SeriesPoint>::empty(), t) == Seq::<SeriesPoint>::empty());
        if p.timestamp == t {
            assert(at_time(single, t) =~= seq![p]);
            assert forall|k: int| 0 <= k < back.len() implies back[k].timestamp != t by {
                assert(back[k] == s[j + k]);
            }
            lemma_at_time_none(back, t);
            assert(at_time(r, t) =~= at_time(front, t) + seq![p]);
            assert(at_time(s, t) =~= at_time(front, t));
            assert(at_time(front, t) + seq![p] =~= at_time(front, t).push(p));
        } else {
            assert(at_time(single, t) =~= Seq::<SeriesPoint>::empty());
            assert(at_time(r, t) =~= at_time(front, t) + at_time(back, t));
        }
    }
}

/// The graph's order of points is a stable sort by time: the points come out in
/// time order, as many as went in, and the points of each time keep the order
/// of their cards.
pub proof fn lemma_by_time_is_stable_sort(ps: Seq<SeriesPoint>)
    ensures
        time_ordered(by_time(ps)),
        by_time(ps).len() == ps.len(),
        forall|t: i64| #[trigger] at_time(by_time(ps), t) == at_time(ps, t),
    decreases ps.len(),
{
    if ps.len() == 0 {
        assert forall|t: i64| #[trigger] at_time(by_time(ps), t) == at_time(ps, t) by {}
    } else {
        lemma_by_time_is_stable_sort(ps.drop_last());
        lemma_insert_by_time(by_time(ps.drop_last()), ps.last());
        assert forall|t: i64| #[trigger] at_time(by_time(ps), t) == at_time(ps, t) by {
            assert(at_time(by_time(ps.drop_last()), t) == at_time(ps.drop_last(), t));
        }
    }
}

fn insert_point(v: &mut Vec<SeriesPoint>, p: SeriesPoint)
    ensures
        final(v)@ == insert_by_time(old(v)@, p),
{
    let mut j: usize = 0;
    while j < v.len() && v[j].timestamp <= p.timestamp
        invariant
            j <= v.len(),
            forall|k: int| 0 <= k < j ==> v@[k].timestamp <= p.timestamp,
        decreases v.len() - j,
    {
        j = j + 1;
    }
    proof {
        lemma_insert_at(v@, p, j as int);
    }
    v.insert(j, p);
}

fn sort_by_time(v: &Vec<SeriesPoint>) -> (r: Vec<SeriesPoint>)
    ensures
        r@ == by_time(v@),
{
    let mut r: Vec<SeriesPoint> = Vec::new();
    let mut i: usize = 0;
    while i < v.len()
        invariant
            i <= v.len(),
            r@ == by_time(v@.take(i as int)),
        decreases v.len() - i,
    {
        assert(v@.take(i + 1).drop_last() =~= v@.take(i as int));
        insert_point(&mut r, v[i]);
        i = i + 1;
    }
    assert(v@.take(v.len() as int) =~= v@);
    r
}

fn find_group(gs: &Vec<DomainSeries>, name: &String) -> (r: Option<usize>)
    ensures
        match r {
            Some(i) => group_index(gs.deep_view(), name@) == Some(i as int),
            None => group_index(gs.deep_view(), name@) is None,
        },
{
    let ghost es = gs.deep_view();
    let mut i: usize = 0;
    while i < gs.len()
        invariant
            i <= gs.len(),
            es == gs.deep_view(),
            forall|j: int| 0 <= j < i ==> es[j].0 != name@,
        decreases gs.len() - i,
    {
        assert(es[i as int] == gs@[i as int]@);
        if gs[i].domain == *name {
            proof {
                lemma_first_index_found(group_names(es), name@, i as int);
            }
            return Some(i);
        }
        i = i + 1;
    }
    proof {
        lemma_first_index_none(group_names(es), name@);
    }
    None
}

fn add_point(gs: &mut Vec<DomainSeries>, name: &String, p: SeriesPoint)
    ensures
        final(gs).deep_view() == add_to_groups(old(gs).deep_view(), name@, p),
{
    let ghost before = gs.deep_view();
    match find_group(gs, name) {
        Some(i) => {
            assert(before[i as int] == gs@[i as int]@);
            gs[i].points.push(p);
            assert(gs.deep_view() =~= before.update(i as int, (name@, before[i as int].1.push(p))));
        },
        None => {
            let mut points: Vec<SeriesPoint> = Vec::new();
            points.push(p);
            let g = DomainSeries { domain: name.clone(), points };
            assert(g@ == (name@, seq![p]));
            gs.push(g);
            assert(gs.deep_view() =~= before.push((name@, seq![p])));
        },
    }
}

fn group_cards(cards: &Vec<DailyCard>, gs: &mut Vec<DomainSeries>)
    ensures
        forall|pre: Seq<CardModel>| #[trigger] grouped(pre) == old(gs).deep_view()
            ==> grouped(pre + cards.deep_view()) == final(gs).deep_view(),
{
    let ghost cs = cards.deep_view();
    let ghost start = gs.deep_view();
    let mut i: usize = 0;
    while i < cards.len()
        invariant
            i <= cards.len(),
            cs == cards.deep_view(),
            start == old(gs).deep_view(),
            forall|pre: Seq<CardModel>| #[trigger] grouped(pre) == start
                ==> grouped(pre + cs.take(i as int)) == gs.deep_view(),
        decreases cards.len() - i,
    {
        assert(cs[i as int] == cards@[i as int]@);
        let counts = cards[i].completion_counts();
        let p = SeriesPoint { timestamp: cards[i].created_at.secs, done: counts.0, total: counts.1 };
        assert(p == point_of(cs[i as int]));
        add_point(gs, &cards[i].domain, p);
        assert forall|pre: Seq<CardModel>| #[trigger] grouped(pre) == start
            implies grouped(pre + cs.take(i + 1)) == gs.deep_view() by {
            assert((pre + cs.take(i + 1)).drop_last() =~= pre + cs.take(i as int));
            assert((pre + cs.take(i + 1)).last() == cs[i as int]);
        }
        i = i + 1;
    }
    assert(cs.take(cards.len() as int) =~= cs);
}

impl TodoState {
    /// The series of the completion graph over all cards, open ones first: one per
    /// domain in the order the domain first appears, each with the points of its
    /// cards stably sorted by creation time.
    pub fn completion_series(&self) -> (r: Vec<DomainSeries>)
        ensures
            r.deep_view() == series_of(all_cards(self@.data)),
            forall|k: int| 0 <= k < all_cards(self@.data).len()
                ==> group_names(r.deep_view()).contains(#[trigger] all_cards(self@.data)[k].domain),
            forall|g: int| 0 <= g < r.deep_view().len() ==> (#[trigger] r.deep_view()[g]).1
                == by_time(crate::laws::cards_of(all_cards(self@.data), r.deep_view()[g].0).map_values(
                    |c: CardModel| point_of(c),
                )),
    {
        proof {
            crate::laws::lemma_series_by_domain(all_cards(self@.data));
        }
        let mut gs: Vec<DomainSeries> = Vec::new();
        assert(gs.deep_view() =~= grouped(Seq::<CardModel>::empty()));
        group_cards(&self.data.open_cards, &mut gs);
        assert(Seq::<CardModel>::empty() + self@.data.open_cards =~= self@.data.open_cards);
        group_cards(&self.data.archived_cards, &mut gs);
        let ghost g = gs.deep_view();
        assert(g == grouped(all_cards(self@.data)));
        let mut r: Vec<DomainSeries> = Vec::new();
        let mut i: usize = 0;
        while i < gs.len()
            invariant
                i <= gs.len(),
                g == gs.deep_view(),
                r.deep_view() == g.take(i as int).map_values(
                    |x: (Seq<char>, Seq<SeriesPoint>)| (x.0, by_time(x.1)),
                ),
            decreases gs.len() - i,
        {
            assert(g[i as int] == gs@[i as int]@);
            let points = sort_by_time(&gs[i].points);
            let s = DomainSeries { domain: gs[i].domain.clone(), points };
            let ghost before = r.deep_view();
            assert(s@ == (g[i as int].0, by_time(g[i as int].1)));
            r.push(s);
            assert(r.deep_view() =~= before.push((g[i as int].0, by_time(g[i as int].1))));
            assert(r.deep_view() =~= g.take(i + 1).map_values(
                |x: (Seq<char>, Seq<SeriesPoint>)| (x.0, by_time(x.1)),
            ));
            i = i + 1;
        }
        assert(g.take(gs.len() as int) =~= g);
        r
    }
}

} // verus!
