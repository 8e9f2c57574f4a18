//! The data of the tracker and its mathematical model.

use vstd::prelude::*;

verus! {

/// An instant, as seconds and nanoseconds since the Unix epoch (UTC).
#[derive(Clone, Copy, Debug, PartialEq, Eq, Structural)]
pub struct Timestamp {
    pub secs: i64,
    pub nanos: u32,
}

/// A colour given by its red, green and blue components.
#[derive(Clone, Copy, Debug, PartialEq, Eq, Structural)]
pub struct Rgb {
    pub r: u8,
    pub g: u8,
    pub b: u8,
}

/// One item of a card or of a domain's template.
#[derive(Clone, Debug)]
pub struct Task {
    pub id: u128,
    pub description: String,
    pub completed: bool,
    pub notes: Option<String>,
    pub tags: Vec<String>,
}

/// The model of a task: its fields, with text as sequences of characters.
pub struct TaskModel {
    pub id: u128,
    pub description: Seq<char>,
    pub completed: bool,
    pub notes: Option<Seq<char>>,
    pub tags: Seq<Seq<char>>,
}

/// A card opened for one domain on one day.
#[derive(Clone, Debug)]
pub struct DailyCard {
    pub id: u128,
    pub domain: String,
    pub date: String,
    pub tasks: Vec<Task>,
    pub created_at: Timestamp,
    pub tags: Vec<String>,
}

/// The model of a card.
pub struct CardModel {
    pub id: u128,
    pub domain: Seq<char>,
    pub date: Seq<char>,
    pub tasks: Seq<TaskModel>,
    pub created_at: Timestamp,
    pub tags: Seq<Seq<char>>,
}

/// An area of work, with its colour and the tasks a new card starts with.
#[derive(Clone, Debug)]
pub struct Domain {
    pub name: String,
    pub accent: Rgb,
    pub template_tasks: Vec<Task>,
}

/// The model of a domain.
pub struct DomainModel {
    pub name: Seq<char>,
    pub accent: Rgb,
    pub template_tasks: Seq<TaskModel>,
}

/// An entry of the domain table: the key it is found by, and the domain.
#[derive(Clone, Debug)]
pub struct DomainEntry {
    pub key: String,
    pub domain: Domain,
}

/// The model of a domain table entry.
pub struct EntryModel {
    pub key: Seq<char>,
    pub domain: DomainModel,
}

/// Everything the tracker keeps between sessions.
#[derive(Clone, Debug)]
pub struct AppData {
    pub domains: Vec<DomainEntry>,
    pub open_cards: Vec<DailyCard>,
    pub archived_cards: Vec<DailyCard>,
    pub current_card_index: Option<usize>,
}

/// The model of the saved data.
pub struct DataModel {
    pub domains: Seq<EntryModel>,
    pub open_cards: Seq<CardModel>,
    pub archived_cards: Seq<CardModel>,
    pub current_card_index: Option<usize>,
}

pub open spec fn opt_text(o: Option<String>) -> Option<Seq<char>> {
    match o {
        Some(s) => Some(s@),
        None => None,
    }
}

impl View for Task {
    type V = TaskModel;

    open spec fn view(&self) -> TaskModel {
        TaskModel {
            id: self.id,
            description: self.description@,
            completed: self.completed,
            notes: opt_text(self.notes),
            tags: self.tags.deep_view(),
        }
    }
}

impl DeepView for Task {
    type V = TaskModel;

    open spec fn deep_view(&self) -> TaskModel {
        self@
    }
}

impl View for DailyCard {
    type V = CardModel;

    open spec fn view(&self) -> CardModel {
        CardModel {
            id: self.id,
            domain: self.domain@,
            date: self.date@,
            tasks: self.tasks.deep_view(),
            created_at: self.created_at,
            tags: self.tags.deep_view(),
        }
    }
}

impl DeepView for DailyCard {
    type V = CardModel;

    open spec fn deep_view(&self) -> CardModel {
        self@
    }
}

impl View for Domain {
    type V = DomainModel;

    open spec fn view(&self) -> DomainModel {
        DomainModel {
            name: self.name@,
            accent: self.accent,
            template_tasks: self.template_tasks.deep_view(),
        }
    }
}

impl View for DomainEntry {
    type V = EntryModel;

    open spec fn view(&self) -> EntryModel {
        EntryModel { key: self.key@, domain: self.domain@ }
    }
}

impl DeepView for DomainEntry {
    type V = EntryModel;

    open spec fn deep_view(&self) -> EntryModel {
        self@
    }
}

impl View for AppData {
    type V = DataModel;

    open spec fn view(&self) -> DataModel {
        DataModel {
            domains: self.domains.deep_view(),
            open_cards: self.open_cards.deep_view(),
            archived_cards: self.archived_cards.deep_view(),
            current_card_index: self.current_card_index,
        }
    }
}

/// A new list holding the same strings.
pub fn copy_strings(v: &Vec<String>) -> (r: Vec<String>)
    ensures
        r.deep_view() == v.deep_view(),
{
    let mut r: Vec<String> = Vec::new();
    let mut i: usize = 0;
    while i < v.len()
        invariant
            i <= v.len(),
            r.len() == i,
            forall|j: int| 0 <= j < i ==> #[trigger] r@[j]@ == v@[j]@,
        decreases v.len() - i,
    {
        r.push(v[i].clone());
        i = i + 1;
    }
    assert(r.deep_view() =~= v.deep_view());
    r
}

impl Task {
    /// A task with the same fields as this one.
    pub fn copy_of(&self) -> (r: Task)
        ensures
            r@ == self@,
    {
        let notes = match &self.notes {
            Some(n) => Some(n.clone()),
            None => None,
        };
        Task {
            id: self.id,
            description: self.description.clone(),
            completed: self.completed,
            notes,
            tags: copy_strings(&self.tags),
        }
    }
}

/// A new list holding the same tasks.
pub fn copy_tasks(v: &Vec<Task>) -> (r: Vec<Task>)
    ensures
        r.deep_view() == v.deep_view(),
{
    let mut r: Vec<Task> = Vec::new();
    let mut i: usize = 0;
    while i < v.len()
        invariant
            i <= v.len(),
            r.len() == i,
            forall|j: int| 0 <= j < i ==> #[trigger] r@[j]@ == v@[j]@,
        decreases v.len() - i,
    {
        r.push(v[i].copy_of());
        i = i + 1;
    }
    assert(r.deep_view() =~= v.deep_view());
    r
}

} // verus!
