//! The state behind the tracker's screens, and what each user action does to it.
//! Each action that changes the saved data answers whether the data should be
//! written back to disk; the caller does the writing.

use vstd::prelude::*;
use vstd::string::StringExecFns;

use crate::cards::{card_label, export_name, fresh_task, tag_accepted, toggled, missing_from};
use crate::lookup::{first_index, lemma_first_index_found, lemma_first_index_none};
use crate::domains::{entry_keys, accent_of, find_domain, key_index, accent_color};
use crate::model::{AppData, CardModel, DailyCard, DataModel, Rgb, Timestamp};
use crate::outside::{format_utc, new_uuid, utc_formatted, utc_now};
use crate::text::{decimal, decimal_string, trim_text, trimmed};
use crate::domains::keys_unique;
use crate::lookup::keys_distinct;

verus! {

/// The page the window shows.
#[derive(Clone, Copy, Debug, PartialEq, Eq, Structural)]
pub enum Screen {
    Daily,
    Performance,
}

/// The colour scheme of the window.
#[derive(Clone, Copy, Debug, PartialEq, Eq, Structural)]
pub enum Theme {
    Dark,
    Light,
}

/// Whether the completion graph shows the domain `name`.
#[derive(Clone, Debug)]
pub struct Visibility {
    pub name: String,
    pub visible: bool,
}

/// Everything the window remembers while it runs, besides its scale and the
/// place of its data file.
#[derive(Clone, Debug)]
pub struct TodoState {
    pub data: AppData,
    pub current_view: Screen,
    pub theme: Theme,
    pub new_task_text: String,
    pub new_tag_text: String,
    pub status_message: String,
    pub visible_domains: Vec<Visibility>,
}

/// The model of the window's state.
pub struct StateModel {
    pub data: DataModel,
    pub current_view: Screen,
    pub theme: Theme,
    pub new_task_text: Seq<char>,
    pub new_tag_text: Seq<char>,
    pub status_message: Seq<char>,
    pub visible_domains: Seq<(Seq<char>, bool)>,
}

impl View for Visibility {
    type V = (Seq<char>, bool);

    open spec fn view(&self) -> (Seq<char>, bool) {
        (self.name@, self.visible)
    }
}

impl DeepView for Visibility {
    type V = (Seq<char>, bool);

    open spec fn deep_view(&self) -> (Seq<char>, bool) {
        self@
    }
}

impl View for TodoState {
    type V = StateModel;

    open spec fn view(&self) -> StateModel {
        StateModel {
            data: self.data@,
            current_view: self.current_view,
            theme: self.theme,
            new_task_text: self.new_task_text@,
            new_tag_text: self.new_tag_text@,
            status_message: self.status_message@,
            visible_domains: self.visible_domains.deep_view(),
        }
    }
}

/// The card that the daily page shows, given the selection and the number of open cards:
/// the selected card while it exists, the first card when the selection is past the end,
/// the last card when nothing is selected, and none when no card is open.
pub open spec fn active_index(current: Option<usize>, len: nat) -> Option<int> {
    if len == 0 {
        None
    } else {
        match current {
            Some(i) => if i < len { Some(i as int) } else { Some(0) },
            None => Some(len - 1),
        }
    }
}

/// The status line after a sync that appended `n` tasks.
pub open spec fn synced_message(n: nat) -> Seq<char> {
    "Synced "@ + decimal(n) + " missing task(s)"@
}

/// The status line after an export.
pub open spec fn export_message(written: bool, path: Seq<char>) -> Seq<char> {
    if written {
        "Exported to "@ + path
    } else {
        "Failed to write export file"@
    }
}

/// The domain names of the visibility entries, in order.
pub open spec fn visibility_names(vs: Seq<(Seq<char>, bool)>) -> Seq<Seq<char>> {
    vs.map_values(|v: (Seq<char>, bool)| v.0)
}

/// The position of the first visibility entry for `name`, if there is one.
pub open spec fn visibility_index(vs: Seq<(Seq<char>, bool)>, name: Seq<char>) -> Option<int> {
    first_index(visibility_names(vs), name)
}

/// Whether the graph shows the domain: as recorded, and shown when nothing is recorded.
pub open spec fn shown(vs: Seq<(Seq<char>, bool)>, name: Seq<char>) -> bool {
    match visibility_index(vs, name) {
        Some(i) => vs[i].1,
        None => true,
    }
}

/// The entries after recording `visible` for `name`: the entry for `name` updated,
/// or a new entry at the end.
pub open spec fn with_visibility(vs: Seq<(Seq<char>, bool)>, name: Seq<char>, visible: bool) -> Seq<(Seq<char>, bool)> {
    match visibility_index(vs, name) {
        Some(i) => vs.update(i, (name, visible)),
        None => vs.push((name, visible)),
    }
}

/// The data model after `archive_current_card` on `d`.
pub open spec fn archived_current(d: DataModel) -> DataModel {
    match d.current_card_index {
        Some(idx) => if idx < d.open_cards.len() {
            DataModel {
                open_cards: d.open_cards.remove(idx as int),
                archived_cards: d.archived_cards.push(d.open_cards[idx as int]),
                current_card_index: if d.open_cards.len() == 1 { None } else { Some(0) },
                ..d
            }
        } else {
            d
        },
        None => d,
    }
}

/// The label of the button that switches the theme.
pub open spec fn theme_switch_label(t: Theme) -> Seq<char> {
    match t {
        Theme::Dark => "☀ Light"@,
        Theme::Light => "🌙 Dark"@,
    }
}

/// The other theme.
pub open spec fn other_theme(t: Theme) -> Theme {
    match t {
        Theme::Dark => Theme::Light,
        Theme::Light => Theme::Dark,
    }
}

impl AppData {
    /// The data is well formed: no two domains of the table share a key, as in
    /// a map from key to domain.
    pub open spec fn wf(&self) -> bool {
        keys_unique(self@.domains)
    }

    /// Data with the given domains and no cards.
    pub fn with_domains(domains: Vec<crate::model::DomainEntry>) -> (r: AppData)
        ensures
            r@ == (DataModel {
                domains: domains.deep_view(),
                open_cards: Seq::empty(),
                archived_cards: Seq::empty(),
                current_card_index: None,
            }),
            r.wf() == keys_unique(domains.deep_view()),
    {
        let r = AppData {
            domains,
            open_cards: Vec::new(),
            archived_cards: Vec::new(),
            current_card_index: None,
        };
        assert(r.open_cards.deep_view() =~= Seq::<CardModel>::empty());
        assert(r.archived_cards.deep_view() =~= Seq::<CardModel>::empty());
        r
    }
}

impl TodoState {
    /// The state is well formed: its data is, and the graph's visibility
    /// records name each domain at most once.
    pub open spec fn wf(&self) -> bool {
        self.data.wf() && keys_distinct(visibility_names(self@.visible_domains))
    }

    /// The state of a window that has just opened on `data`: the daily page, the
    /// dark theme, empty text fields, the status "Ready", no visibility choices.
    pub fn new(data: AppData) -> (r: TodoState)
        ensures
            r@ == (StateModel {
                data: data@,
                current_view: Screen::Daily,
                theme: Theme::Dark,
                new_task_text: Seq::empty(),
                new_tag_text: Seq::empty(),
                status_message: "Ready"@,
                visible_domains: Seq::empty(),
            }),
            r.wf() == data.wf(),
    {
        let r = TodoState {
            data,
            current_view: Screen::Daily,
            theme: Theme::Dark,
            new_task_text: String::new(),
            new_tag_text: String::new(),
            status_message: "Ready".to_owned(),
            visible_domains: Vec::new(),
        };
        assert(r.visible_domains.deep_view() =~= Seq::<(Seq<char>, bool)>::empty());
        r
    }

    /// The colour of the domain found under `name`, grey when there is none.
    pub fn get_accent_color(&self, name: &String) -> (r: Rgb)
        ensures
            r == accent_of(self@.data.domains, name@),
    {
        accent_color(&self.data.domains, name)
    }

    /// Shows the given page.
    pub fn set_view(&mut self, view: Screen)
        ensures
            final(self)@ == (StateModel { current_view: view, ..old(self)@ }),
            old(self).wf() ==> final(self).wf(),
    {
        self.current_view = view;
    }

    /// Switches between the dark and the light theme.
    pub fn toggle_theme(&mut self)
        ensures
            final(self)@ == (StateModel { theme: other_theme(old(self)@.theme), ..old(self)@ }),
            old(self).wf() ==> final(self).wf(),
    {
        self.theme = match self.theme {
            Theme::Dark => Theme::Light,
            Theme::Light => Theme::Dark,
        };
    }

    /// The label of the button that switches the theme.
    pub fn theme_toggle_label(&self) -> (r: &'static str)
        ensures
            r@ == theme_switch_label(self.theme),
    {
        match self.theme {
            Theme::Dark => "☀ Light",
            Theme::Light => "🌙 Dark",
        }
    }

    /// The position of the card the daily page shows, if any.
    pub fn active_card_index(&self) -> (r: Option<usize>)
        ensures
            match r {
                Some(i) => active_index(self.data.current_card_index, self@.data.open_cards.len())
                    == Some(i as int),
                None => active_index(self.data.current_card_index, self@.data.open_cards.len())
                    is None,
            },
    {
        let len = self.data.open_cards.len();
        if len == 0 {
            return None;
        }
        match self.data.current_card_index {
            Some(i) => if i < len { Some(i) } else { Some(0) },
            None => Some(len - 1),
        }
    }

    /// Selects the open card at position `i`.
    pub fn select_card(&mut self, i: usize)
        ensures
            final(self)@ == (StateModel {
                data: DataModel { current_card_index: Some(i), ..old(self)@.data },
                ..old(self)@
            }),
            old(self).wf() ==> final(self).wf(),
    {
        self.data.current_card_index = Some(i);
    }
}


/// The state after syncing the card at position `ci` with the template of its
/// domain, when the card and the domain exist.
pub open spec fn synced_state(s: StateModel, ci: int) -> StateModel {
    let c = s.data.open_cards[ci];
    let d = key_index(s.data.domains, c.domain).unwrap();
    let added = missing_from(s.data.domains[d].domain.template_tasks, c.tasks);
    StateModel {
        data: DataModel {
            open_cards: s.data.open_cards.update(ci, CardModel { tasks: c.tasks + added, ..c }),
            ..s.data
        },
        status_message: synced_message(added.len()),
        ..s
    }
}

/// Whether a sync of the card at position `ci` does anything: the card exists
/// and the table holds its domain.
pub open spec fn can_sync(s: StateModel, ci: int) -> bool {
    0 <= ci < s.data.open_cards.len() && key_index(s.data.domains, s.data.open_cards[ci].domain) is Some
}

/// The open cards after editing the card at position `idx` into `c`.
pub open spec fn with_card(s: StateModel, idx: int, c: CardModel) -> StateModel {
    StateModel {
        data: DataModel { open_cards: s.data.open_cards.update(idx, c), ..s.data },
        ..s
    }
}

/// The visibility entries after recording every key of the table as shown, in order.
pub open spec fn all_shown(keys: Seq<Seq<char>>) -> Seq<(Seq<char>, bool)>
    decreases keys.len(),
{
    if keys.len() == 0 {
        Seq::empty()
    } else {
        with_visibility(all_shown(keys.drop_last()), keys.last(), true)
    }
}


impl TodoState {
    /// Appends to the card at position `card_index` the template tasks of its domain
    /// that it lacks, and reports how many in the status line. Nothing happens when
    /// there is no such card or its domain is not in the table. Answers whether
    /// the data should be saved.
    pub fn sync_missing_tasks(&mut self, card_index: usize) -> (saved: bool)
        ensures
            saved == can_sync(old(self)@, card_index as int),
            final(self)@ == if saved { synced_state(old(self)@, card_index as int) } else { old(self)@ },
            old(self).wf() ==> final(self).wf(),
    {
        if card_index >= self.data.open_cards.len() {
            return false;
        }
        let ghost s0 = self@;
        let found = find_domain(&self.data.domains, &self.data.open_cards[card_index].domain);
        match found {
            None => false,
            Some(d) => {
                assert(s0.data.open_cards[card_index as int] == self.data.open_cards@[card_index as int]@);
                assert(s0.data.domains[d as int] == self.data.domains@[d as int]@);
                let added = self.data.open_cards[card_index].sync_from_template(
                    &self.data.domains[d].domain.template_tasks,
                );
                let mut msg = "Synced ".to_owned();
                msg.append(decimal_string(added).as_str());
                msg.append(" missing task(s)");
                self.status_message = msg;
                assert(self.data.open_cards.deep_view() =~= synced_state(s0, card_index as int).data.open_cards);
                true
            },
        }
    }

    /// Moves the selected open card to the archive and selects the first open card,
    /// or nothing when none is left. Nothing happens when the selection is not an
    /// open card. Answers whether the data should be saved.
    pub fn archive_current_card(&mut self) -> (saved: bool)
        ensures
            saved == (old(self)@.data.current_card_index matches Some(i)
                && i < old(self)@.data.open_cards.len()),
            final(self)@ == (StateModel { data: archived_current(old(self)@.data), ..old(self)@ }),
            old(self)@.data.current_card_index is Some
                && old(self)@.data.current_card_index.unwrap() < old(self)@.data.open_cards.len() ==> (
                final(self)@.data.open_cards == old(self)@.data.open_cards.remove(
                    old(self)@.data.current_card_index.unwrap() as int,
                ) && final(self)@.data.archived_cards == old(self)@.data.archived_cards.push(
                    old(self)@.data.open_cards[old(self)@.data.current_card_index.unwrap() as int],
                )),
            old(self).wf() ==> final(self).wf(),
    {
        match self.data.current_card_index {
            Some(idx) => {
                if idx < self.data.open_cards.len() {
                    let ghost open0 = self.data.open_cards.deep_view();
                    let ghost arch0 = self.data.archived_cards.deep_view();
                    let card = self.data.open_cards.remove(idx);
                    assert(card@ == open0[idx as int]);
                    self.data.archived_cards.push(card);
                    self.data.current_card_index = if self.data.open_cards.is_empty() {
                        None
                    } else {
                        Some(0)
                    };
                    assert(self.data.open_cards.deep_view() =~= open0.remove(idx as int));
                    assert(self.data.archived_cards.deep_view() =~= arch0.push(open0[idx as int]));
                    true
                } else {
                    false
                }
            },
            None => false,
        }
    }

    /// Moves every open card, in order, to the end of the archive and clears the
    /// selection. The data should then be saved.
    pub fn archive_all(&mut self) -> (saved: bool)
        ensures
            saved,
            final(self)@ == (StateModel {
                data: DataModel {
                    open_cards: Seq::empty(),
                    archived_cards: old(self)@.data.archived_cards + old(self)@.data.open_cards,
                    current_card_index: None,
                    ..old(self)@.data
                },
                ..old(self)@
            }),
            old(self).wf() ==> final(self).wf(),
    {
        let ghost open0 = self.data.open_cards.deep_view();
        let ghost arch0 = self.data.archived_cards.deep_view();
        self.data.archived_cards.append(&mut self.data.open_cards);
        self.data.current_card_index = None;
        assert(self.data.open_cards.deep_view() =~= Seq::<CardModel>::empty());
        assert(self.data.archived_cards.deep_view() =~= arch0 + open0);
        true
    }

    /// Empties the archive and says so in the status line. The data should then be saved.
    pub fn reset_history(&mut self) -> (saved: bool)
        ensures
            saved,
            final(self)@ == (StateModel {
                data: DataModel { archived_cards: Seq::empty(), ..old(self)@.data },
                status_message: "History cleared"@,
                ..old(self)@
            }),
            old(self).wf() ==> final(self).wf(),
    {
        self.data.archived_cards.clear();
        self.status_message = "History cleared".to_owned();
        assert(self.data.archived_cards.deep_view() =~= Seq::<CardModel>::empty());
        true
    }

    /// Opens a card with the given identifier, date and creation time for the domain
    /// found under `key`, holding its template tasks, and selects it. Nothing happens
    /// when the table has no such domain. Answers whether the data should be saved.
    pub fn open_card_with(
        &mut self,
        key: &String,
        id: u128,
        date: String,
        created_at: Timestamp,
    ) -> (saved: bool)
        ensures
            saved == (key_index(old(self)@.data.domains, key@) is Some),
            final(self)@ == if saved {
                StateModel {
                    data: DataModel {
                        open_cards: old(self)@.data.open_cards.push(CardModel {
                            id,
                            domain: key@,
                            date: date@,
                            tasks: old(self)@.data.domains[key_index(old(self)@.data.domains, key@).unwrap()].domain.template_tasks,
                            created_at,
                            tags: Seq::empty(),
                        }),
                        current_card_index: Some(old(self)@.data.open_cards.len() as usize),
                        ..old(self)@.data
                    },
                    ..old(self)@
                }
            } else {
                old(self)@
            },
    {
        match find_domain(&self.data.domains, key) {
            None => false,
            Some(d) => {
                let ghost open0 = self.data.open_cards.deep_view();
                assert(self.data.domains.deep_view()[d as int] == self.data.domains@[d as int]@);
                let card = DailyCard::for_domain(
                    id,
                    key,
                    &self.data.domains[d].domain.template_tasks,
                    date,
                    created_at,
                );
                self.data.open_cards.push(card);
                self.data.current_card_index = Some(self.data.open_cards.len() - 1);
                assert(self.data.open_cards.deep_view() =~= open0.push(card@));
                true
            },
        }
    }

    /// Opens a card for the domain found under `key`, created now, dated with the
    /// UTC day of that instant written as `%Y-%m-%d`, with a fresh random identifier,
    /// and selects it. Nothing happens when the table has no such domain, or when
    /// chrono cannot write the date of the instant. Answers whether the data should
    /// be saved.
    pub fn open_card(&mut self, key: &String) -> (saved: bool)
        ensures
            key_index(old(self)@.data.domains, key@) is None ==> !saved,
            !saved ==> final(self)@ == old(self)@,
            key_index(old(self)@.data.domains, key@) is Some && !saved ==> exists|t: Timestamp|
                t.secs >= 0 && t.nanos < 1_000_000_000
                && #[trigger] utc_formatted(t.secs, t.nanos, "%Y-%m-%d"@) is None,
            saved ==> {
                let c = final(self)@.data.open_cards.last();
                &&& key_index(old(self)@.data.domains, key@) is Some
                &&& final(self)@.data.open_cards.len() == old(self)@.data.open_cards.len() + 1
                &&& final(self)@.data.open_cards == old(self)@.data.open_cards.push(c)
                &&& c.domain == key@
                &&& c.tasks == old(self)@.data.domains[key_index(old(self)@.data.domains, key@).unwrap()].domain.template_tasks
                &&& c.tags == Seq::<Seq<char>>::empty()
                &&& c.created_at.secs >= 0
                &&& c.created_at.nanos < 1_000_000_000
                &&& utc_formatted(c.created_at.secs, c.created_at.nanos, "%Y-%m-%d"@) == Some(c.date)
                &&& c.id & crate::outside::uuid_v4_mask() == crate::outside::uuid_v4_bits()
                &&& final(self)@ == (StateModel {
                    data: DataModel {
                        open_cards: final(self)@.data.open_cards,
                        current_card_index: Some(old(self)@.data.open_cards.len() as usize),
                        ..old(self)@.data
                    },
                    ..old(self)@
                })
            },
            old(self).wf() ==> final(self).wf(),
    {
        match find_domain(&self.data.domains, key) {
            None => false,
            Some(_) => {
                let created_at = utc_now();
                match format_utc(created_at, "%Y-%m-%d") {
                    None => false,
                    Some(date) => {
                        let id = new_uuid();
                        let r = self.open_card_with(key, id, date, created_at);
                        r
                    },
                }
            },
        }
    }

    /// Where the selected card is exported: its position and the file name, when
    /// the selection is an open card.
    pub fn export_target(&self) -> (r: Option<(usize, String)>)
        ensures
            match r {
                Some((i, name)) => self.data.current_card_index == Some(i)
                    && i < self@.data.open_cards.len()
                    && name@ == export_name(self@.data.open_cards[i as int]),
                None => !(self.data.current_card_index matches Some(i)
                    && i < self@.data.open_cards.len()),
            },
    {
        match self.data.current_card_index {
            Some(idx) => {
                if idx < self.data.open_cards.len() {
                    assert(self@.data.open_cards[idx as int] == self.data.open_cards@[idx as int]@);
                    Some((idx, self.data.open_cards[idx].export_file_name()))
                } else {
                    None
                }
            },
            None => None,
        }
    }

    /// Reports in the status line how writing the export file to `path` went.
    pub fn record_export(&mut self, written: bool, path: String)
        ensures
            final(self)@ == (StateModel {
                status_message: export_message(written, path@),
                ..old(self)@
            }),
            old(self).wf() ==> final(self).wf(),
    {
        if written {
            let mut msg = "Exported to ".to_owned();
            msg.append(path.as_str());
            self.status_message = msg;
        } else {
            self.status_message = "Failed to write export file".to_owned();
        }
    }

    /// The label of the open card at position `idx`.
    pub fn card_display_name(&self, idx: usize) -> (r: String)
        requires
            idx < self@.data.open_cards.len(),
        ensures
            r@ == card_label(self@.data.open_cards[idx as int]),
    {
        assert(self@.data.open_cards[idx as int] == self.data.open_cards@[idx as int]@);
        self.data.open_cards[idx].display_name()
    }

    /// Adds `tag` to the open card at position `idx` unless it is empty or the card
    /// has it already; when added, empties the tag field. Answers whether the data
    /// should be saved, which is whether the tag was added.
    pub fn add_card_tag_text(&mut self, idx: usize, tag: String) -> (saved: bool)
        requires
            idx < old(self)@.data.open_cards.len(),
        ensures
            saved == tag_accepted(old(self)@.data.open_cards[idx as int].tags, tag@),
            final(self)@ == if saved {
                StateModel {
                    new_tag_text: Seq::empty(),
                    ..with_card(old(self)@, idx as int, CardModel {
                        tags: old(self)@.data.open_cards[idx as int].tags.push(tag@),
                        ..old(self)@.data.open_cards[idx as int]
                    })
                }
            } else {
                old(self)@
            },
            old(self).wf() ==> final(self).wf(),
    {
        let ghost open0 = self.data.open_cards.deep_view();
        assert(open0[idx as int] == self.data.open_cards@[idx as int]@);
        let added = self.data.open_cards[idx].add_tag(tag);
        if added {
            self.new_tag_text = String::new();
        }
        proof {
            if added {
                assert(self.data.open_cards.deep_view() =~= open0.update(idx as int, self.data.open_cards@[idx as int]@));
            } else {
                assert(self.data.open_cards.deep_view() =~= open0);
            }
        }
        added
    }

    /// Adds the text of the tag field, trimmed, to the open card at position `idx`
    /// (see `add_card_tag_text`).
    pub fn add_card_tag(&mut self, idx: usize) -> (saved: bool)
        requires
            idx < old(self)@.data.open_cards.len(),
        ensures
            saved == tag_accepted(old(self)@.data.open_cards[idx as int].tags, trimmed(old(self)@.new_tag_text)),
            final(self)@ == if saved {
                StateModel {
                    new_tag_text: Seq::empty(),
                    ..with_card(old(self)@, idx as int, CardModel {
                        tags: old(self)@.data.open_cards[idx as int].tags.push(trimmed(old(self)@.new_tag_text)),
                        ..old(self)@.data.open_cards[idx as int]
                    })
                }
            } else {
                old(self)@
            },
            old(self).wf() ==> final(self).wf(),
    {
        let tag = trim_text(self.new_tag_text.as_str());
        self.add_card_tag_text(idx, tag)
    }

    /// Removes the tag at position `t` of the open card at position `idx`. The data
    /// should then be saved.
    pub fn remove_card_tag(&mut self, idx: usize, t: usize) -> (saved: bool)
        requires
            idx < old(self)@.data.open_cards.len(),
            t < old(self)@.data.open_cards[idx as int].tags.len(),
        ensures
            saved,
            final(self)@ == with_card(old(self)@, idx as int, CardModel {
                tags: old(self)@.data.open_cards[idx as int].tags.remove(t as int),
                ..old(self)@.data.open_cards[idx as int]
            }),
            old(self).wf() ==> final(self).wf(),
    {
        let ghost open0 = self.data.open_cards.deep_view();
        assert(open0[idx as int] == self.data.open_cards@[idx as int]@);
        self.data.open_cards[idx].remove_tag(t);
        assert(self.data.open_cards.deep_view() =~= open0.update(idx as int, self.data.open_cards@[idx as int]@));
        true
    }

    /// Adds a task described by `description` with identifier `id` to the open card
    /// at position `idx`, unless the description is empty; when added, empties the
    /// task field. Answers whether the data should be saved, which is whether the
    /// task was added.
    pub fn add_card_task_with(&mut self, idx: usize, id: u128, description: String) -> (saved: bool)
        requires
            idx < old(self)@.data.open_cards.len(),
        ensures
            saved == (description@.len() > 0),
            final(self)@ == if saved {
                StateModel {
                    new_task_text: Seq::empty(),
                    ..with_card(old(self)@, idx as int, CardModel {
                        tasks: old(self)@.data.open_cards[idx as int].tasks.push(fresh_task(id, description@)),
                        ..old(self)@.data.open_cards[idx as int]
                    })
                }
            } else {
                old(self)@
            },
            old(self).wf() ==> final(self).wf(),
    {
        if description.as_str().is_empty() {
            return false;
        }
        let ghost open0 = self.data.open_cards.deep_view();
        assert(open0[idx as int] == self.data.open_cards@[idx as int]@);
        self.data.open_cards[idx].add_task(id, description);
        self.new_task_text = String::new();
        assert(self.data.open_cards.deep_view() =~= open0.update(idx as int, self.data.open_cards@[idx as int]@));
        true
    }

    /// Adds the text of the task field, trimmed, as a new task with a fresh random
    /// identifier to the open card at position `idx`, unless it is empty (see
    /// `add_card_task_with`).
    pub fn add_card_task(&mut self, idx: usize) -> (saved: bool)
        requires
            idx < old(self)@.data.open_cards.len(),
        ensures
            saved == (trimmed(old(self)@.new_task_text).len() > 0),
            !saved ==> final(self)@ == old(self)@,
            saved ==> exists|id: u128| id & crate::outside::uuid_v4_mask() == crate::outside::uuid_v4_bits()
                && final(self)@ == (StateModel {
                    new_task_text: Seq::empty(),
                    ..with_card(old(self)@, idx as int, CardModel {
                        tasks: old(self)@.data.open_cards[idx as int].tasks.push(
                            fresh_task(id, trimmed(old(self)@.new_task_text)),
                        ),
                        ..old(self)@.data.open_cards[idx as int]
                    })
                }),
            old(self).wf() ==> final(self).wf(),
    {
        let description = trim_text(self.new_task_text.as_str());
        if description.as_str().is_empty() {
            return false;
        }
        let id = new_uuid();
        self.add_card_task_with(idx, id, description)
    }

    /// Flips the completion of task `i` of the open card at position `idx`. The data
    /// should then be saved.
    pub fn toggle_card_task(&mut self, idx: usize, i: usize) -> (saved: bool)
        requires
            idx < old(self)@.data.open_cards.len(),
            i < old(self)@.data.open_cards[idx as int].tasks.len(),
        ensures
            saved,
            final(self)@ == with_card(old(self)@, idx as int, CardModel {
                tasks: old(self)@.data.open_cards[idx as int].tasks.update(
                    i as int,
                    toggled(old(self)@.data.open_cards[idx as int].tasks[i as int]),
                ),
                ..old(self)@.data.open_cards[idx as int]
            }),
            old(self).wf() ==> final(self).wf(),
    {
        let ghost open0 = self.data.open_cards.deep_view();
        assert(open0[idx as int] == self.data.open_cards@[idx as int]@);
        self.data.open_cards[idx].toggle_task(i);
        assert(self.data.open_cards.deep_view() =~= open0.update(idx as int, self.data.open_cards@[idx as int]@));
        true
    }

    /// Removes task `i` of the open card at position `idx`. The data should then be saved.
    pub fn delete_card_task(&mut self, idx: usize, i: usize) -> (saved: bool)
        requires
            idx < old(self)@.data.open_cards.len(),
            i < old(self)@.data.open_cards[idx as int].tasks.len(),
        ensures
            saved,
            final(self)@ == with_card(old(self)@, idx as int, CardModel {
                tasks: old(self)@.data.open_cards[idx as int].tasks.remove(i as int),
                ..old(self)@.data.open_cards[idx as int]
            }),
            old(self).wf() ==> final(self).wf(),
    {
        let ghost open0 = self.data.open_cards.deep_view();
        assert(open0[idx as int] == self.data.open_cards@[idx as int]@);
        self.data.open_cards[idx].delete_task(i);
        assert(self.data.open_cards.deep_view() =~= open0.update(idx as int, self.data.open_cards@[idx as int]@));
        true
    }
}


fn find_visibility(vs: &Vec<Visibility>, name: &String) -> (r: Option<usize>)
    ensures
        match r {
            Some(i) => visibility_index(vs.deep_view(), name@) == Some(i as int),
            None => visibility_index(vs.deep_view(), name@) is None,
        },
{
    let ghost es = vs.deep_view();
    let mut i: usize = 0;
    while i < vs.len()
        invariant
            i <= vs.len(),
            es == vs.deep_view(),
            forall|j: int| 0 <= j < i ==> es[j].0 != name@,
        decreases vs.len() - i,
    {
        assert(es[i as int] == vs@[i as int]@);
        if vs[i].name == *name {
            proof {
                lemma_first_index_found(visibility_names(es), name@, i as int);
            }
            return Some(i);
        }
        i = i + 1;
    }
    proof {
        lemma_first_index_none(visibility_names(es), name@);
    }
    None
}

fn record_visibility(vs: &mut Vec<Visibility>, name: String, visible: bool)
    ensures
        final(vs).deep_view() == with_visibility(old(vs).deep_view(), name@, visible),
{
    let ghost before = vs.deep_view();
    match find_visibility(vs, &name) {
        Some(i) => {
            vs.set(i, Visibility { name, visible });
            assert(vs.deep_view() =~= before.update(i as int, (name@, visible)));
        },
        None => {
            let ghost n = name@;
            vs.push(Visibility { name, visible });
            assert(vs.deep_view() =~= before.push((n, visible)));
        },
    }
}

impl TodoState {
    /// Whether the completion graph shows the domain `name`: as recorded, and
    /// shown when nothing is recorded for it.
    pub fn domain_visible(&self, name: &String) -> (r: bool)
        ensures
            r == shown(self@.visible_domains, name@),
    {
        match find_visibility(&self.visible_domains, name) {
            Some(i) => {
                assert(self@.visible_domains[i as int] == self.visible_domains@[i as int]@);
                self.visible_domains[i].visible
            },
            None => true,
        }
    }

    /// Records whether the completion graph shows the domain `name`.
    pub fn set_domain_visible(&mut self, name: String, visible: bool)
        ensures
            final(self)@ == (StateModel {
                visible_domains: with_visibility(old(self)@.visible_domains, name@, visible),
                ..old(self)@
            }),
            old(self).wf() ==> final(self).wf(),
    {
        proof {
            if keys_distinct(visibility_names(self@.visible_domains)) {
                crate::laws::lemma_visibility_keeps_names_distinct(self@.visible_domains, name@, visible);
            }
        }
        record_visibility(&mut self.visible_domains, name, visible);
    }

    /// When no visibility is recorded yet, records every domain of the table as shown.
    pub fn ensure_visible_domains(&mut self)
        ensures
            final(self)@ == (StateModel {
                visible_domains: if old(self)@.visible_domains.len() == 0 {
                    all_shown(entry_keys(old(self)@.data.domains))
                } else {
                    old(self)@.visible_domains
                },
                ..old(self)@
            }),
            old(self).wf() ==> final(self).wf(),
    {
        if self.visible_domains.len() > 0 {
            return;
        }
        let ghost keys = entry_keys(self@.data.domains);
        assert(self.visible_domains.deep_view() =~= all_shown(keys.take(0)));
        assert(visibility_names(self@.visible_domains) =~= Seq::<Seq<char>>::empty());
        let mut i: usize = 0;
        while i < self.data.domains.len()
            invariant
                i <= self.data.domains.len(),
                keys == entry_keys(self@.data.domains),
                keys.len() == self.data.domains.len(),
                self.visible_domains.deep_view() == all_shown(keys.take(i as int)),
                self.data == old(self).data,
                self.current_view == old(self).current_view,
                self.theme == old(self).theme,
                self.new_task_text == old(self).new_task_text,
                self.new_tag_text == old(self).new_tag_text,
                self.status_message == old(self).status_message,
                keys_distinct(visibility_names(self@.visible_domains)),
            decreases self.data.domains.len() - i,
        {
            assert(keys.take(i + 1).drop_last() =~= keys.take(i as int));
            assert(keys[i as int] == self.data.domains@[i as int].key@);
            let key = self.data.domains[i].key.clone();
            proof {
                crate::laws::lemma_visibility_keeps_names_distinct(self@.visible_domains, key@, true);
            }
            record_visibility(&mut self.visible_domains, key, true);
            i = i + 1;
        }
        assert(keys.take(self.data.domains.len() as int) =~= keys);
    }
}

} // verus!
