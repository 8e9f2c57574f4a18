//! A single daily card: its progress, its label, and the edits made to it.

use vstd::prelude::*;
use vstd::string::StringExecFns;

use crate::model::{copy_tasks, CardModel, DailyCard, TaskModel, Task, Timestamp};
use crate::text::{file_safe, file_safe_text, join_strings, seq_join, contains_text};

verus! {

/// How many of the tasks are completed.
pub open spec fn done_count(ts: Seq<TaskModel>) -> nat
    decreases ts.len(),
{
    if ts.len() == 0 {
        0
    } else {
        done_count(ts.drop_last()) + if ts.last().completed { 1nat } else { 0nat }
    }
}

/// No list has more completed tasks than tasks.
pub proof fn lemma_done_count_bounded(ts: Seq<TaskModel>)
    ensures
        done_count(ts) <= ts.len(),
    decreases ts.len(),
{
    if ts.len() > 0 {
        lemma_done_count_bounded(ts.drop_last());
    }
}

/// Whether some task of the list has the identifier.
pub open spec fn has_id(ts: Seq<TaskModel>, id: u128) -> bool {
    exists|k: int| 0 <= k < ts.len() && ts[k].id == id
}

/// The template tasks, in order, whose identifiers no task of `existing` has.
pub open spec fn missing_from(template: Seq<TaskModel>, existing: Seq<TaskModel>) -> Seq<TaskModel>
    decreases template.len(),
{
    if template.len() == 0 {
        Seq::empty()
    } else {
        let rest = missing_from(template.drop_last(), existing);
        if has_id(existing, template.last().id) {
            rest
        } else {
            rest.push(template.last())
        }
    }
}

/// The label of a card in the list of open cards: its tags joined by a comma
/// and a space, or its domain when it has no tags.
pub open spec fn card_label(c: CardModel) -> Seq<char> {
    if c.tags.len() > 0 {
        seq_join(c.tags, ", "@)
    } else {
        c.domain
    }
}

/// The name of the file a card is exported to.
pub open spec fn export_name(c: CardModel) -> Seq<char> {
    file_safe(c.domain) + "_"@ + c.date + ".json"@
}

/// A task as the card's text field adds it: not completed, without notes or tags.
pub open spec fn fresh_task(id: u128, description: Seq<char>) -> TaskModel {
    TaskModel { id, description, completed: false, notes: None, tags: Seq::empty() }
}

/// The task with its completion flipped.
pub open spec fn toggled(t: TaskModel) -> TaskModel {
    TaskModel { completed: !t.completed, ..t }
}

/// Whether the tag would be added to a card with these tags.
pub open spec fn tag_accepted(tags: Seq<Seq<char>>, tag: Seq<char>) -> bool {
    tag.len() > 0 && !tags.contains(tag)
}

fn ids_of(tasks: &Vec<Task>) -> (r: Vec<u128>)
    ensures
        r@.len() == tasks@.len(),
        forall|k: int| 0 <= k < r@.len() ==> r@[k] == #[trigger] tasks@[k].id,
{
    let mut r: Vec<u128> = Vec::new();
    let mut i: usize = 0;
    while i < tasks.len()
        invariant
            i <= tasks.len(),
            r@.len() == i,
            forall|k: int| 0 <= k < i ==> r@[k] == #[trigger] tasks@[k].id,
        decreases tasks.len() - i,
    {
        r.push(tasks[i].id);
        i = i + 1;
    }
    r
}

fn contains_id(ids: &Vec<u128>, id: u128) -> (r: bool)
    ensures
        r == (exists|k: int| 0 <= k < ids@.len() && ids@[k] == id),
{
    let mut i: usize = 0;
    while i < ids.len()
        invariant
            i <= ids.len(),
            forall|k: int| 0 <= k < i ==> ids@[k] != id,
        decreases ids.len() - i,
    {
        if ids[i] == id {
            return true;
        }
        i = i + 1;
    }
    false
}

impl DailyCard {
    /// A new card for the domain found under `key`, holding its template tasks.
    pub fn for_domain(
        id: u128,
        key: &String,
        template: &Vec<Task>,
        date: String,
        created_at: Timestamp,
    ) -> (r: DailyCard)
        ensures
            r@ == (CardModel {
                id,
                domain: key@,
                date: date@,
                tasks: template.deep_view(),
                created_at,
                tags: Seq::empty(),
            }),
    {
        let r = DailyCard {
            id,
            domain: key.clone(),
            date,
            tasks: copy_tasks(template),
            created_at,
            tags: Vec::new(),
        };
        assert(r.tags.deep_view() =~= Seq::<Seq<char>>::empty());
        r
    }

    /// The number of completed tasks and the number of tasks.
    pub fn completion_counts(&self) -> (r: (usize, usize))
        ensures
            r.0 == done_count(self@.tasks),
            r.0 == crate::laws::completed_tasks(self@.tasks).len(),
            r.1 == self@.tasks.len(),
            r.0 <= r.1,
    {
        proof {
            crate::laws::lemma_done_count_counts_completed(self@.tasks);
        }
        let ghost ts = self.tasks.deep_view();
        let mut done: usize = 0;
        let mut i: usize = 0;
        while i < self.tasks.len()
            invariant
                ts == self.tasks.deep_view(),
                i <= self.tasks.len(),
                done == done_count(ts.take(i as int)),
                done <= i,
            decreases self.tasks.len() - i,
        {
            assert(ts.take(i + 1).drop_last() =~= ts.take(i as int));
            assert(ts[i as int] == self.tasks@[i as int]@);
            if self.tasks[i].completed {
                done = done + 1;
            }
            i = i + 1;
        }
        assert(ts.take(self.tasks.len() as int) =~= ts);
        (done, self.tasks.len())
    }

    /// The label shown for the card in the list of open cards.
    pub fn display_name(&self) -> (r: String)
        ensures
            r@ == card_label(self@),
    {
        if self.tags.len() > 0 {
            join_strings(&self.tags, ", ")
        } else {
            self.domain.clone()
        }
    }

    /// The name of the file the card is exported to: the domain with spaces and
    /// slashes made underscores, an underscore, the date, and `.json`.
    pub fn export_file_name(&self) -> (r: String)
        ensures
            r@ == export_name(self@),
    {
        let mut r = file_safe_text(self.domain.as_str());
        r.append("_");
        r.append(self.date.as_str());
        r.append(".json");
        r
    }

    /// Adds the tag unless it is empty or already on the card; says whether it was added.
    pub fn add_tag(&mut self, tag: String) -> (added: bool)
        ensures
            added == tag_accepted(old(self)@.tags, tag@),
            added == (tag@.len() > 0 && !old(self)@.tags.contains(tag@)),
            final(self)@ == (CardModel {
                tags: if added { old(self)@.tags.push(tag@) } else { old(self)@.tags },
                ..old(self)@
            }),
    {
        if tag.as_str().is_empty() {
            return false;
        }
        if contains_text(&self.tags, &tag) {
            return false;
        }
        let ghost before = self.tags.deep_view();
        self.tags.push(tag);
        assert(self.tags.deep_view() =~= before.push(tag@));
        true
    }

    /// Removes the tag at position `t`.
    pub fn remove_tag(&mut self, t: usize)
        requires
            t < old(self)@.tags.len(),
        ensures
            final(self)@ == (CardModel { tags: old(self)@.tags.remove(t as int), ..old(self)@ }),
    {
        let ghost before = self.tags.deep_view();
        self.tags.remove(t);
        assert(self.tags.deep_view() =~= before.remove(t as int));
    }

    /// Adds a task with the given identifier and description at the end.
    pub fn add_task(&mut self, id: u128, description: String)
        ensures
            final(self)@ == (CardModel {
                tasks: old(self)@.tasks.push(fresh_task(id, description@)),
                ..old(self)@
            }),
    {
        let ghost before = self.tasks.deep_view();
        let t = Task { id, description, completed: false, notes: None, tags: Vec::new() };
        assert(t.tags.deep_view() =~= Seq::<Seq<char>>::empty());
        self.tasks.push(t);
        assert(self.tasks.deep_view() =~= before.push(fresh_task(id, t@.description)));
    }

    /// Flips the completion of the task at position `i`.
    pub fn toggle_task(&mut self, i: usize)
        requires
            i < old(self)@.tasks.len(),
        ensures
            final(self)@ == (CardModel {
                tasks: old(self)@.tasks.update(i as int, toggled(old(self)@.tasks[i as int])),
                ..old(self)@
            }),
    {
        let ghost before = self.tasks.deep_view();
        let mut t = self.tasks.remove(i);
        t.completed = !t.completed;
        self.tasks.insert(i, t);
        assert(self.tasks.deep_view() =~= before.update(i as int, toggled(before[i as int])));
    }

    /// Removes the task at position `i`.
    pub fn delete_task(&mut self, i: usize)
        requires
            i < old(self)@.tasks.len(),
        ensures
            final(self)@ == (CardModel { tasks: old(self)@.tasks.remove(i as int), ..old(self)@ }),
    {
        let ghost before = self.tasks.deep_view();
        self.tasks.remove(i);
        assert(self.tasks.deep_view() =~= before.remove(i as int));
    }

    /// Appends each template task whose identifier no task of the card
    /// had before the call; returns how many were appended.
    pub fn sync_from_template(&mut self, template: &Vec<Task>) -> (added: usize)
        ensures
            final(self)@ == (CardModel {
                tasks: old(self)@.tasks + missing_from(template.deep_view(), old(self)@.tasks),
                ..old(self)@
            }),
            added == missing_from(template.deep_view(), old(self)@.tasks).len(),
    {
        let ghost before = self.tasks.deep_view();
        let ghost tmpl = template.deep_view();
        let existing = ids_of(&self.tasks);
        let mut added: usize = 0;
        let mut i: usize = 0;
        while i < template.len()
            invariant
                i <= template.len(),
                tmpl == template.deep_view(),
                before.len() == existing@.len(),
                forall|k: int| 0 <= k < before.len() ==> existing@[k] == #[trigger] before[k].id,
                self.tasks.deep_view() == before + missing_from(tmpl.take(i as int), before),
                added == missing_from(tmpl.take(i as int), before).len(),
                added <= i,
                self.id == old(self).id,
                self.domain == old(self).domain,
                self.date == old(self).date,
                self.created_at == old(self).created_at,
                self.tags == old(self).tags,
                before == old(self).tasks.deep_view(),
            decreases template.len() - i,
        {
            assert(tmpl.take(i + 1).drop_last() =~= tmpl.take(i as int));
            assert(tmpl[i as int] == template@[i as int]@);
            let id = template[i].id;
            let known = contains_id(&existing, id);
            if known {
                proof {
                    let k = choose|k: int| 0 <= k < existing@.len() && existing@[k] == id;
                    assert(before[k].id == id);
                }
                assert(has_id(before, id));
            } else {
                assert forall|k: int| 0 <= k < before.len() implies before[k].id != id by {
                    assert(existing@[k] == before[k].id);
                }
                assert(!has_id(before, id));
                let ghost prev = self.tasks.deep_view();
                self.tasks.push(template[i].copy_of());
                assert(self.tasks.deep_view() =~= prev.push(tmpl[i as int]));
                added = added + 1;
            }
            i = i + 1;
        }
        assert(tmpl.take(template.len() as int) =~= tmpl);
        added
    }
}

} // verus!
