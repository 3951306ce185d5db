//! The store of orbs.

use vstd::prelude::*;

use crate::id::OrbId;
use crate::lists::{in_order, lemma_filter};
use crate::log::{keep, latest, load, loaded, views, Duplicate, Entry};
use crate::orb::{opt_id_is, Orb, OrbType, OrbView};
use crate::task::TaskStatus;
use crate::text::texts;
use crate::time::{earlier, law_earlier_is_total_order};

verus! {

impl Duplicate for Orb {
    fn duplicate(&self) -> (r: Orb) {
        self.clone()
    }
}

impl Entry for Orb {
    type Key = Seq<char>;

    open spec fn key(v: OrbView) -> Seq<char> {
        v.id
    }

    open spec fn older(a: OrbView, b: OrbView) -> bool {
        earlier(a.created_at, b.created_at)
    }

    proof fn older_is_order(a: OrbView, b: OrbView, c: OrbView) {
        law_earlier_is_total_order(a.created_at, b.created_at, c.created_at);
        law_earlier_is_total_order(b.created_at, a.created_at, c.created_at);
        law_earlier_is_total_order(c.created_at, b.created_at, a.created_at);
    }

    fn same_key(&self, other: &Orb) -> (r: bool) {
        self.id == other.id
    }

    fn is_older(&self, other: &Orb) -> (r: bool) {
        self.created_at.is_before(&other.created_at)
    }
}

/// Append-only store for orbs.
///
/// Each mutation is appended as a full record. Reading replays the log and keeps the latest
/// version of each orb (by ID). Tombstoned orbs are excluded from queries unless explicitly
/// requested.
pub struct OrbStore {
    path: String,
    log: Vec<Orb>,
}

/// What an [`OrbStore`] holds: the path of its file, and the records in the order in which
/// they were appended.
#[verifier::ext_equal]
pub struct OrbStoreView {
    pub path: Seq<char>,
    pub log: Seq<OrbView>,
}

impl View for OrbStore {
    type V = OrbStoreView;

    closed spec fn view(&self) -> OrbStoreView {
        OrbStoreView { path: self.path@, log: views(self.log@) }
    }
}

impl OrbStoreView {
    /// The latest version of every orb, oldest orb first.
    pub open spec fn everything(self) -> Seq<OrbView> {
        loaded::<Orb>(self.log)
    }

    /// The latest version of every orb that is not tombstoned, oldest orb first.
    pub open spec fn live(self) -> Seq<OrbView> {
        self.everything().filter(|o: OrbView| !o.is_tombstoned())
    }

    /// The latest version of an orb, unless it is tombstoned.
    pub open spec fn find(self, id: Seq<char>) -> Option<OrbView> {
        match latest::<Orb>(self.log, id) {
            Some(o) => if o.is_tombstoned() {
                None
            } else {
                Some(o)
            },
            None => None,
        }
    }
}

impl OrbStore {
    /// A store at the given path with no records.
    pub fn new(path: &str) -> (store: OrbStore)
        ensures
            store@ == (OrbStoreView { path: path@, log: Seq::empty() }),
    {
        let store = OrbStore { path: path.to_owned(), log: Vec::new() };
        assert(store@ =~= (OrbStoreView { path: path@, log: Seq::empty() }));
        store
    }

    /// A store at the given path with the given records.
    pub fn from_log(path: &str, log: Vec<Orb>) -> (store: OrbStore)
        ensures
            store@ == (OrbStoreView { path: path@, log: views(log@) }),
    {
        OrbStore { path: path.to_owned(), log }
    }

    /// Returns the path to the store file.
    pub fn path(&self) -> (path: &str)
        ensures
            path@ == self@.path,
    {
        self.path.as_str()
    }

    /// Appends an orb to the store.
    pub fn append(&mut self, orb: &Orb)
        ensures
            final(self)@ == (OrbStoreView { log: old(self)@.log.push(orb@), ..old(self)@ }),
    {
        self.log.push(orb.clone());
        assert(self@ =~= (OrbStoreView { log: old(self)@.log.push(orb@), ..old(self)@ }));
    }

    /// Reads all non-tombstoned orbs, deduplicating by ID (latest wins).
    pub fn load_all(&self) -> (r: Vec<Orb>)
        ensures
            views(r@) == self@.live(),
    {
        let all = load(&self.log);
        let ghost pred = |o: OrbView| !o.is_tombstoned();
        let f = |o: &Orb| -> (b: bool)
            ensures
                b == !o@.is_tombstoned(),
        {
            !o.is_tombstoned()
        };
        keep(&all, f, Ghost(pred))
    }

    /// Reads all orbs including tombstoned ones, deduplicating by ID (latest wins).
    pub fn load_all_including_tombstoned(&self) -> (r: Vec<Orb>)
        ensures
            views(r@) == self@.everything(),
    {
        load(&self.log)
    }

    /// Loads orbs filtered by effective `TaskStatus`.
    pub fn load_by_status(&self, status: TaskStatus) -> (r: Vec<Orb>)
        ensures
            views(r@) == self@.live().filter(|o: OrbView| o.effective_status() == status),
    {
        let all = self.load_all();
        let ghost pred = |o: OrbView| o.effective_status() == status;
        let f = |o: &Orb| -> (b: bool)
            ensures
                b == (o@.effective_status() == status),
        {
            o.effective_status() == status
        };
        keep(&all, f, Ghost(pred))
    }

    /// Loads orbs filtered by `OrbType`.
    pub fn load_by_type(&self, orb_type: &OrbType) -> (r: Vec<Orb>)
        ensures
            views(r@) == self@.live().filter(|o: OrbView| o.orb_type == orb_type@),
    {
        let all = self.load_all();
        let ghost pred = |o: OrbView| o.orb_type == orb_type@;
        let f = |o: &Orb| -> (b: bool)
            ensures
                b == (o@.orb_type == orb_type@),
        {
            o.orb_type == *orb_type
        };
        keep(&all, f, Ghost(pred))
    }

    /// Loads a single orb by ID, or None if not found (excludes tombstoned).
    pub fn load_by_id(&self, id: &OrbId) -> (r: Option<Orb>)
        ensures
            match r {
                Some(o) => self@.find(id@) == Some(o@),
                None => self@.find(id@) is None,
            },
    {
        let ghost log = self@.log;
        let mut i: usize = self.log.len();
        assert(log.take(i as int) =~= log);
        while i > 0
            invariant
                i <= self.log@.len(),
                log == views(self.log@),
                log == self@.log,
                latest::<Orb>(log, id@) == latest::<Orb>(log.take(i as int), id@),
            decreases i,
        {
            assert(log.take(i as int).drop_last() =~= log.take(i - 1));
            if self.log[i - 1].id == *id {
                let o = self.log[i - 1].clone();
                if o.is_tombstoned() {
                    return None;
                }
                return Some(o);
            }
            i -= 1;
        }
        None
    }

    /// Loads children of a given parent ID.
    pub fn load_children(&self, parent_id: &OrbId) -> (r: Vec<Orb>)
        ensures
            views(r@) == self@.live().filter(|o: OrbView| o.parent_id == Some(parent_id@)),
    {
        let all = self.load_all();
        let ghost pred = |o: OrbView| o.parent_id == Some(parent_id@);
        let f = |o: &Orb| -> (b: bool)
            ensures
                b == (o@.parent_id == Some(parent_id@)),
        {
            opt_id_is(&o.parent_id, parent_id)
        };
        keep(&all, f, Ghost(pred))
    }

    /// Updates an orb by appending its new state.
    pub fn update(&mut self, orb: &Orb)
        ensures
            final(self)@ == (OrbStoreView { log: old(self)@.log.push(orb@), ..old(self)@ }),
    {
        self.append(orb);
    }

    /// Returns all existing IDs, each once (for collision checking during ID generation).
    pub fn existing_ids(&self) -> (r: Vec<String>)
        ensures
            texts(r@) == self@.everything().map_values(|o: OrbView| o.id),
    {
        let all = load(&self.log);
        let ghost everything = self@.everything();
        let mut r: Vec<String> = Vec::new();
        let mut i: usize = 0;
        while i < all.len()
            invariant
                i <= all@.len(),
                views(all@) == everything,
                r@.len() == i,
                forall|j: int| 0 <= j < i ==> (#[trigger] r@[j])@ == everything[j].id,
            decreases all@.len() - i,
        {
            r.push(all[i].id.as_str().to_owned());
            assert(views(all@)[i as int] == all@[i as int]@);
            i += 1;
        }
        assert(texts(r@) =~= everything.map_values(|o: OrbView| o.id));
        r
    }
}

/// What was appended last for an orb is what is found under its ID, unless it is tombstoned,
/// and all other orbs are found as before.
pub proof fn law_append_then_find(store: OrbStoreView, orb: OrbView, other: Seq<char>)
    ensures
        ({
            let after = OrbStoreView { log: store.log.push(orb), ..store };
            &&& after.find(orb.id) == if orb.is_tombstoned() {
                None
            } else {
                Some(orb)
            }
            &&& other != orb.id ==> after.find(other) == store.find(other)
        }),
{
    crate::log::law_last_write_wins::<Orb>(store.log, orb, other);
}

/// The live orbs are exactly those that are found under their ID, each once.
pub proof fn law_live_is_found(store: OrbStoreView, orb: OrbView)
    ensures
        store.live().contains(orb) <==> store.find(orb.id) == Some(orb),
        forall|a: int, b: int|
            0 <= a < b < store.live().len() ==> (#[trigger] store.live()[a]).id != (
            #[trigger] store.live()[b]).id,
{
    crate::log::law_loaded::<Orb>(store.log);
    crate::log::lemma_latest::<Orb>(store.log, orb.id);
    let all = store.everything();
    let pred = |o: OrbView| !o.is_tombstoned();
    lemma_filter(all, pred);
    let live = store.live();
    assert forall|a: int, b: int| 0 <= a < b < live.len() implies (#[trigger] live[a]).id != (
    #[trigger] live[b]).id by {
        assert(in_order(all, live[a], live[b]));
        let (i, j) = choose|i: int, j: int|
            0 <= i < j < all.len() && all[i] == live[a] && all[j] == live[b];
        assert(Orb::key(all[i]) != Orb::key(all[j]));
    }
}

/// Two records are of the same orb exactly if they have the same identifier, and an orb is older
/// than another if it was created earlier.
pub proof fn law_orb_identity(a: OrbView, b: OrbView)
    ensures
        <Orb as Entry>::key(a) == <Orb as Entry>::key(b) <==> a.id == b.id,
        <Orb as Entry>::older(a, b) <==> earlier(a.created_at, b.created_at),
{
}

/// What counts of an orb is the record that was written last for it.
pub proof fn law_latest_record(store: OrbStoreView, i: int)
    requires
        0 <= i < store.log.len(),
        forall|j: int| i < j < store.log.len() ==> (#[trigger] store.log[j]).id != store.log[i].id,
    ensures
        store.everything().contains(store.log[i]),
        store.log[i].is_tombstoned() ==> store.find(store.log[i].id) is None,
        !store.log[i].is_tombstoned() ==> store.find(store.log[i].id) == Some(store.log[i])
            && store.live().contains(store.log[i]),
{
    crate::dep_store::law_orb_named(store.log, i);
    crate::log::law_loaded::<Orb>(store.log);
    law_live_is_found(store, store.log[i]);
}

/// An orb that was never written is not found.
pub proof fn law_unknown_orb(store: OrbStoreView, id: Seq<char>)
    requires
        forall|j: int| 0 <= j < store.log.len() ==> (#[trigger] store.log[j]).id != id,
    ensures
        store.find(id) is None,
{
    crate::log::lemma_latest::<Orb>(store.log, id);
    let f = crate::log::first_place::<Orb>(store.log, id) as int;
    if store.find(id) is Some {
        assert(store.log[f].id == id);
    }
}

/// Orbs come in the order in which they were created, tombstoned ones aside.
pub proof fn law_oldest_first(store: OrbStoreView, a: int, b: int)
    ensures
        0 <= a < b < store.live().len() ==> !earlier(
            store.live()[b].created_at,
            store.live()[a].created_at,
        ),
        0 <= a < b < store.everything().len() ==> !earlier(
            store.everything()[b].created_at,
            store.everything()[a].created_at,
        ) && store.everything()[a].id != store.everything()[b].id,
{
    let all = store.everything();
    let live = store.live();
    let pred = |o: OrbView| !o.is_tombstoned();
    crate::log::law_loaded::<Orb>(store.log);
    lemma_filter(all, pred);
    crate::time::lemma_earlier_all();
    if 0 <= a < b < all.len() {
        assert(crate::log::comes_before::<Orb>(store.log, all[a], all[b]));
        assert(Orb::key(all[a]) != Orb::key(all[b]));
    }
    if 0 <= a < b < live.len() {
        assert(in_order(all, live[a], live[b]));
        let (i, j) = choose|i: int, j: int|
            0 <= i < j < all.len() && all[i] == live[a] && all[j] == live[b];
        assert(crate::log::comes_before::<Orb>(store.log, all[i], all[j]));
    }
}

/// What is loaded by a status are exactly the live orbs that count as being in it; by a type, those
/// of that type; and as children, those of that parent.
pub proof fn law_loaded_by(
    store: OrbStoreView,
    status: TaskStatus,
    orb_type: crate::orb::OrbTypeView,
    parent: Seq<char>,
    o: OrbView,
)
    ensures
        store.live().filter(|x: OrbView| x.effective_status() == status).contains(o)
            <==> store.find(o.id) == Some(o) && o.effective_status() == status,
        store.live().filter(|x: OrbView| x.orb_type == orb_type).contains(o) <==> store.find(o.id)
            == Some(o) && o.orb_type == orb_type,
        store.live().filter(|x: OrbView| x.parent_id == Some(parent)).contains(o) <==> store.find(
            o.id,
        ) == Some(o) && o.parent_id == Some(parent),
{
    law_live_is_found(store, o);
    lemma_filter(store.live(), |x: OrbView| x.effective_status() == status);
    lemma_filter(store.live(), |x: OrbView| x.orb_type == orb_type);
    lemma_filter(store.live(), |x: OrbView| x.parent_id == Some(parent));
}

} // verus!
