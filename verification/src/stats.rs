//! The totals shown on the performance page.

use vstd::prelude::*;

use crate::cards::{done_count, lemma_done_count_bounded};
use crate::model::{CardModel, DataModel, DailyCard};
use crate::state::TodoState;

verus! {

/// Every card, open ones first, then archived ones, each list in its order.
pub open spec fn all_cards(d: DataModel) -> Seq<CardModel> {
    d.open_cards + d.archived_cards
}

/// The number of tasks on the cards.
pub open spec fn task_total(cs: Seq<CardModel>) -> nat
    decreases cs.len(),
{
    if cs.len() == 0 {
        0
    } else {
        task_total(cs.drop_last()) + cs.last().tasks.len()
    }
}

/// The number of completed tasks on the cards.
pub open spec fn done_total(cs: Seq<CardModel>) -> nat
    decreases cs.len(),
{
    if cs.len() == 0 {
        0
    } else {
        done_total(cs.drop_last()) + done_count(cs.last().tasks)
    }
}

/// The cards never hold more completed tasks than tasks.
pub proof fn lemma_done_total_bounded(cs: Seq<CardModel>)
    ensures
        done_total(cs) <= task_total(cs),
    decreases cs.len(),
{
    if cs.len() > 0 {
        lemma_done_total_bounded(cs.drop_last());
        lemma_done_count_bounded(cs.last().tasks);
    }
}

/// For each card of the domain `name`, in order: its completed tasks and its tasks.
pub open spec fn domain_counts(cs: Seq<CardModel>, name: Seq<char>) -> Seq<(nat, nat)>
    decreases cs.len(),
{
    if cs.len() == 0 {
        Seq::empty()
    } else {
        let rest = domain_counts(cs.drop_last(), name);
        if cs.last().domain == name {
            rest.push((done_count(cs.last().tasks), cs.last().tasks.len()))
        } else {
            rest
        }
    }
}

/// The task totals of `cs` followed by `more` are those of each added up.
pub proof fn lemma_totals_concat(cs: Seq<CardModel>, more: Seq<CardModel>)
    ensures
        task_total(cs + more) == task_total(cs) + task_total(more),
        done_total(cs + more) == done_total(cs) + done_total(more),
    decreases more.len(),
{
    if more.len() == 0 {
        assert(cs + more =~= cs);
    } else {
        assert((cs + more).drop_last() =~= cs + more.drop_last());
        lemma_totals_concat(cs, more.drop_last());
    }
}

/// Adds to `tasks` and `done` the totals of the cards.
fn add_totals(cards: &Vec<DailyCard>, tasks: usize, done: usize) -> (r: (usize, usize))
    requires
        tasks + task_total(cards.deep_view()) <= usize::MAX,
        done <= tasks,
    ensures
        r.0 == tasks + task_total(cards.deep_view()),
        r.1 == done + done_total(cards.deep_view()),
        r.1 <= r.0,
{
    let ghost cs = cards.deep_view();
    let mut t = tasks;
    let mut d = done;
    let mut i: usize = 0;
    proof {
        lemma_done_total_bounded(cs);
    }
    while i < cards.len()
        invariant
            i <= cards.len(),
            cs == cards.deep_view(),
            tasks + task_total(cs) <= usize::MAX,
            done <= tasks,
            t == tasks + task_total(cs.take(i as int)),
            d == done + done_total(cs.take(i as int)),
            d <= t,
        decreases cards.len() - i,
    {
        assert(cs.take(i + 1).drop_last() =~= cs.take(i as int));
        assert(cs[i as int] == cards@[i as int]@);
        proof {
            lemma_totals_concat(cs.take(i + 1), cs.skip(i + 1));
            assert(cs.take(i + 1) + cs.skip(i + 1) =~= cs);
        }
        let (c_done, c_total) = cards[i].completion_counts();
        t = t + c_total;
        d = d + c_done;
        i = i + 1;
    }
    assert(cs.take(cards.len() as int) =~= cs);
    (t, d)
}

/// Appends the counts of the cards of the domain `name`.
fn push_domain_counts(cards: &Vec<DailyCard>, name: &String, out: &mut Vec<(usize, usize)>)
    ensures
        final(out)@.len() == old(out)@.len() + domain_counts(cards.deep_view(), name@).len(),
        forall|k: int| 0 <= k < old(out)@.len() ==> final(out)@[k] == old(out)@[k],
        forall|k: int| 0 <= k < domain_counts(cards.deep_view(), name@).len() ==>
            (final(out)@[old(out)@.len() + k].0 as nat, final(out)@[old(out)@.len() + k].1 as nat)
                == #[trigger] domain_counts(cards.deep_view(), name@)[k],
{
    let ghost cs = cards.deep_view();
    let ghost base = old(out)@;
    let mut i: usize = 0;
    while i < cards.len()
        invariant
            i <= cards.len(),
            cs == cards.deep_view(),
            base == old(out)@,
            out@.len() == base.len() + domain_counts(cs.take(i as int), name@).len(),
            forall|k: int| 0 <= k < base.len() ==> out@[k] == base[k],
            forall|k: int| 0 <= k < domain_counts(cs.take(i as int), name@).len() ==>
                (out@[base.len() + k].0 as nat, out@[base.len() + k].1 as nat)
                    == #[trigger] domain_counts(cs.take(i as int), name@)[k],
        decreases cards.len() - i,
    {
        assert(cs.take(i + 1).drop_last() =~= cs.take(i as int));
        assert(cs[i as int] == cards@[i as int]@);
        if cards[i].domain == *name {
            let counts = cards[i].completion_counts();
            out.push((counts.0, counts.1));
        }
        i = i + 1;
    }
    assert(cs.take(cards.len() as int) =~= cs);
}

impl TodoState {
    /// Whether any card exists, open or archived: the performance page has
    /// something to show.
    pub fn has_cards(&self) -> (r: bool)
        ensures
            r == (all_cards(self@.data).len() > 0),
    {
        self.data.open_cards.len() > 0 || self.data.archived_cards.len() > 0
    }

    /// The number of cards, open and archived: the days tracked.
    pub fn tracked_card_count(&self) -> (r: usize)
        requires
            all_cards(self@.data).len() <= usize::MAX,
        ensures
            r == all_cards(self@.data).len(),
    {
        self.data.open_cards.len() + self.data.archived_cards.len()
    }

    /// The number of tasks and of completed tasks over all cards, open and archived.
    pub fn total_counts(&self) -> (r: (usize, usize))
        requires
            task_total(all_cards(self@.data)) <= usize::MAX,
        ensures
            r.0 == task_total(all_cards(self@.data)),
            r.1 == done_total(all_cards(self@.data)),
            r.1 <= r.0,
    {
        proof {
            lemma_totals_concat(self@.data.open_cards, self@.data.archived_cards);
            lemma_done_total_bounded(all_cards(self@.data));
        }
        let first = add_totals(&self.data.open_cards, 0, 0);
        add_totals(&self.data.archived_cards, first.0, first.1)
    }

    /// For each card of the domain `name`, open ones first, then archived ones:
    /// its completed tasks and its tasks.
    pub fn domain_card_counts(&self, name: &String) -> (r: Vec<(usize, usize)>)
        ensures
            r@.len() == domain_counts(all_cards(self@.data), name@).len(),
            forall|k: int| 0 <= k < r@.len() ==>
                (r@[k].0 as nat, r@[k].1 as nat) == #[trigger] domain_counts(all_cards(self@.data), name@)[k],
            r@.len() == crate::laws::cards_of(all_cards(self@.data), name@).len(),
            forall|k: int| 0 <= k < r@.len() ==> (#[trigger] r@[k].0 as nat, r@[k].1 as nat) == (
                done_count(crate::laws::cards_of(all_cards(self@.data), name@)[k].tasks),
                crate::laws::cards_of(all_cards(self@.data), name@)[k].tasks.len(),
            ),
    {
        proof {
            crate::laws::lemma_domain_counts_by_domain(all_cards(self@.data), name@);
        }
        let mut r: Vec<(usize, usize)> = Vec::new();
        push_domain_counts(&self.data.open_cards, name, &mut r);
        push_domain_counts(&self.data.archived_cards, name, &mut r);
        proof {
            lemma_domain_counts_concat(self@.data.open_cards, self@.data.archived_cards, name@);
            let cs = crate::laws::cards_of(all_cards(self@.data), name@);
            let dc = domain_counts(all_cards(self@.data), name@);
            assert(dc.len() == cs.len());
            assert forall|k: int| 0 <= k < r@.len() implies (#[trigger] r@[k].0 as nat, r@[k].1 as nat) == (
                done_count(cs[k].tasks),
                cs[k].tasks.len(),
            ) by {
                assert(dc[k] == (done_count(cs[k].tasks), cs[k].tasks.len()));
            }
        }
        r
    }
}

/// The counts for `cs` followed by `more` are those of `cs`, then those of `more`.
pub proof fn lemma_domain_counts_concat(cs: Seq<CardModel>, more: Seq<CardModel>, name: Seq<char>)
    ensures
        domain_counts(cs + more, name) == domain_counts(cs, name) + domain_counts(more, name),
    decreases more.len(),
{
    if more.len() == 0 {
        assert(cs + more =~= cs);
        assert(domain_counts(cs, name) + domain_counts(more, name) =~= domain_counts(cs, name));
    } else {
        assert((cs + more).drop_last() =~= cs + more.drop_last());
        lemma_domain_counts_concat(cs, more.drop_last(), name);
        let a = domain_counts(cs, name);
        let b = domain_counts(more.drop_last(), name);
        if more.last().domain == name {
            assert(a + b.push((done_count(more.last().tasks), more.last().tasks.len()))
                =~= (a + b).push((done_count(more.last().tasks), more.last().tasks.len())));
        }
    }
}

} // verus!
