//! The domain table: the domains a fresh installation starts with, and lookups by key.

use vstd::prelude::*;

use crate::lookup::{first_index, keys_distinct, lemma_first_index_found, lemma_first_index_none};
use crate::model::{AppData, Domain, DomainEntry, DomainModel, EntryModel, Rgb, Task, TaskModel};

verus! {

/// The keys of the table, in order.
pub open spec fn entry_keys(es: Seq<EntryModel>) -> Seq<Seq<char>> {
    es.map_values(|e: EntryModel| e.key)
}

/// The position of the first entry whose key is `name`, if there is one.
pub open spec fn key_index(es: Seq<EntryModel>, name: Seq<char>) -> Option<int> {
    first_index(entry_keys(es), name)
}

/// No two entries of the table have the same key.
pub open spec fn keys_unique(es: Seq<EntryModel>) -> bool {
    keys_distinct(entry_keys(es))
}

/// The colour shown for a domain that the table does not hold.
pub open spec fn fallback_accent() -> Rgb {
    Rgb { r: 150, g: 150, b: 150 }
}

/// The colour of the domain found under `name`, or the grey fallback.
pub open spec fn accent_of(es: Seq<EntryModel>, name: Seq<char>) -> Rgb {
    match key_index(es, name) {
        Some(i) => es[i].domain.accent,
        None => fallback_accent(),
    }
}

/// A template task, not completed, with no notes and one tag.
pub open spec fn template_task_model(id: u128, description: Seq<char>, tag: Seq<char>) -> TaskModel {
    TaskModel { id, description, completed: false, notes: None, tags: seq![tag] }
}

/// The model of one entry of the starting table.
pub open spec fn default_entry(name: Seq<char>, accent: Rgb, tasks: Seq<TaskModel>) -> EntryModel {
    EntryModel { key: name, domain: DomainModel { name, accent, template_tasks: tasks } }
}

/// The table a fresh installation starts with, its template tasks given the identifiers in order.
pub open spec fn default_domains_model(ids: Seq<u128>) -> Seq<EntryModel> {
    seq![
        default_entry(
            "Zcash Node Operations"@,
            Rgb { r: 0, g: 150, b: 136 },
            seq![
                template_task_model(ids[0], "Check zebrad sync height and status"@, "node"@),
                template_task_model(ids[1], "Verify local shielded balance"@, "shielded"@),
                template_task_model(ids[2], "Review recent Orchard activity"@, "orchard"@),
                template_task_model(ids[3], "Check Grafana dashboards for anomalies"@, "monitoring"@),
            ],
        ),
        default_entry(
            "Linux Server Maintenance"@,
            Rgb { r: 255, g: 152, b: 0 },
            seq![
                template_task_model(ids[4], "Run system updates and reboot if needed"@, "update"@),
                template_task_model(ids[5], "Check disk space and logs"@, "storage"@),
                template_task_model(ids[6], "Verify Tailscale and SSH access"@, "network"@),
            ],
        ),
        default_entry(
            "Crypto Portfolio & Privacy"@,
            Rgb { r: 103, g: 58, b: 183 },
            seq![
                template_task_model(ids[7], "Review shielded ZEC balance and recent txs"@, "privacy"@),
                template_task_model(ids[8], "Check portfolio allocation and alerts"@, "portfolio"@),
            ],
        ),
    ]
}

/// How many template tasks the starting table holds.
pub open spec fn default_task_count() -> nat {
    9
}

fn template_task(id: u128, description: &str, tag: &str) -> (r: Task)
    ensures
        r@ == template_task_model(id, description@, tag@),
{
    let mut tags: Vec<String> = Vec::new();
    tags.push(tag.to_owned());
    let r = Task { id, description: description.to_owned(), completed: false, notes: None, tags };
    assert(r.tags.deep_view() =~= seq![tag@]);
    r
}

fn default_entry_of(name: &str, accent: Rgb, tasks: Vec<Task>) -> (r: DomainEntry)
    ensures
        r@ == default_entry(name@, accent, tasks.deep_view()),
{
    DomainEntry {
        key: name.to_owned(),
        domain: Domain { name: name.to_owned(), accent, template_tasks: tasks },
    }
}

/// The starting table, its template tasks taking the identifiers in order.
pub fn default_domains_from_ids(ids: &Vec<u128>) -> (r: Vec<DomainEntry>)
    requires
        ids@.len() == default_task_count(),
    ensures
        r.deep_view() == default_domains_model(ids@),
        keys_unique(r.deep_view()),
{
    let mut zcash: Vec<Task> = Vec::new();
    zcash.push(template_task(ids[0], "Check zebrad sync height and status", "node"));
    zcash.push(template_task(ids[1], "Verify local shielded balance", "shielded"));
    zcash.push(template_task(ids[2], "Review recent Orchard activity", "orchard"));
    zcash.push(template_task(ids[3], "Check Grafana dashboards for anomalies", "monitoring"));
    let mut linux: Vec<Task> = Vec::new();
    linux.push(template_task(ids[4], "Run system updates and reboot if needed", "update"));
    linux.push(template_task(ids[5], "Check disk space and logs", "storage"));
    linux.push(template_task(ids[6], "Verify Tailscale and SSH access", "network"));
    let mut crypto: Vec<Task> = Vec::new();
    crypto.push(template_task(ids[7], "Review shielded ZEC balance and recent txs", "privacy"));
    crypto.push(template_task(ids[8], "Check portfolio allocation and alerts", "portfolio"));
    let ghost zm = zcash.deep_view();
    let ghost lm = linux.deep_view();
    let ghost cm = crypto.deep_view();
    let mut r: Vec<DomainEntry> = Vec::new();
    r.push(default_entry_of("Zcash Node Operations", Rgb { r: 0, g: 150, b: 136 }, zcash));
    r.push(default_entry_of("Linux Server Maintenance", Rgb { r: 255, g: 152, b: 0 }, linux));
    r.push(default_entry_of("Crypto Portfolio & Privacy", Rgb { r: 103, g: 58, b: 183 }, crypto));
    let ghost m = default_domains_model(ids@);
    assert(zm =~= m[0].domain.template_tasks);
    assert(lm =~= m[1].domain.template_tasks);
    assert(cm =~= m[2].domain.template_tasks);
    assert(r.deep_view() =~= m);
    proof {
        crate::laws::lemma_default_domains_well_formed(ids@);
    }
    r
}

/// Finds the first entry whose key is `name`.
pub fn find_domain(domains: &Vec<DomainEntry>, name: &String) -> (r: Option<usize>)
    ensures
        match r {
            Some(i) => key_index(domains.deep_view(), name@) == Some(i as int),
            None => key_index(domains.deep_view(), name@) is None,
        },
{
    let ghost es = domains.deep_view();
    let mut i: usize = 0;
    while i < domains.len()
        invariant
            i <= domains.len(),
            es == domains.deep_view(),
            forall|j: int| 0 <= j < i ==> es[j].key != name@,
        decreases domains.len() - i,
    {
        assert(es[i as int] == domains@[i as int]@);
        if domains[i].key == *name {
            proof {
                lemma_first_index_found(entry_keys(es), name@, i as int);
            }
            return Some(i);
        }
        i = i + 1;
    }
    proof {
        lemma_first_index_none(entry_keys(es), name@);
    }
    None
}

/// The colour of the domain found under `name`, grey when there is none.
pub fn accent_color(domains: &Vec<DomainEntry>, name: &String) -> (r: Rgb)
    ensures
        r == accent_of(domains.deep_view(), name@),
{
    match find_domain(domains, name) {
        Some(i) => {
            assert(domains.deep_view()[i as int] == domains@[i as int]@);
            domains[i].domain.accent
        },
        None => Rgb { r: 150, g: 150, b: 150 },
    }
}


/// Every identifier carries the version and variant bits of a random UUID.
pub open spec fn all_random_ids(ids: Seq<u128>) -> bool {
    forall|k: int| 0 <= k < ids.len() ==> #[trigger] ids[k] & crate::outside::uuid_v4_mask()
        == crate::outside::uuid_v4_bits()
}

impl AppData {
    /// The table a fresh installation starts with: three domains, their template
    /// tasks given fresh random identifiers.
    pub fn default_domains() -> (r: Vec<DomainEntry>)
        ensures
            exists|ids: Seq<u128>| ids.len() == default_task_count() && all_random_ids(ids)
                && #[trigger] default_domains_model(ids) == r.deep_view(),
            keys_unique(r.deep_view()),
    {
        let mut ids: Vec<u128> = Vec::new();
        let mut i: usize = 0;
        while i < 9
            invariant
                i <= 9,
                ids@.len() == i,
                all_random_ids(ids@),
            decreases 9 - i,
        {
            let id = crate::outside::new_uuid();
            ids.push(id);
            i = i + 1;
        }
        let r = default_domains_from_ids(&ids);
        assert(default_domains_model(ids@) == r.deep_view());
        r
    }

    /// The data of a fresh installation: the starting domains and no cards.
    pub fn with_default_domains() -> (r: AppData)
        ensures
            exists|ids: Seq<u128>| ids.len() == default_task_count() && all_random_ids(ids)
                && #[trigger] default_domains_model(ids) == r@.domains,
            keys_unique(r@.domains),
            r.wf(),
            r@.open_cards.len() == 0,
            r@.archived_cards.len() == 0,
            r@.current_card_index is None,
    {
        let domains = AppData::default_domains();
        AppData::with_domains(domains)
    }
}

} // verus!
