//! The card database: authored cards and crests keyed by id, catalog facts,
//! and where each definition came from.

use vstd::prelude::*;
use crate::card::{
    card_ability_list, card_id_text, crest_ability_list, is_card_id_text, ability_zone, Ability, AbilityZone, Card,
    CardId, CardOrCrest, CatalogRecord, Crest, EventName,
};
use crate::error::LoadError;
use crate::oracle::catalog_pos;
use crate::refs::{card_unbound, crest_unbound, lemma_ascending_least, least_text, names};

verus! {

/// Authored cards and crests, catalog facts, and the label each definition
/// was loaded from (keyed by card id text or crest id).
#[derive(Debug)]
pub struct CardDb {
    pub cards: Vec<Card>,
    pub crests: Vec<Crest>,
    pub catalog: Vec<(String, CatalogRecord)>,
    pub paths: Vec<(String, String)>,
}

/// Position of the first card with id `id`, from `k` on; -1 if none.
pub open spec fn card_pos(cards: Seq<Card>, id: CardId, k: int) -> int
    decreases cards.len() - k,
{
    if k < 0 || k >= cards.len() {
        -1
    } else if crate::card::card_id(cards[k]) == id {
        k
    } else {
        card_pos(cards, id, k + 1)
    }
}

/// Position of the first crest with id `id`, from `k` on; -1 if none.
pub open spec fn crest_pos(crests: Seq<Crest>, id: Seq<char>, k: int) -> int
    decreases crests.len() - k,
{
    if k < 0 || k >= crests.len() {
        -1
    } else if crests[k].id@ == id {
        k
    } else {
        crest_pos(crests, id, k + 1)
    }
}

/// Position of the first path entry with key `key`, from `k` on; -1 if none.
pub open spec fn path_pos(paths: Seq<(String, String)>, key: Seq<char>, k: int) -> int
    decreases paths.len() - k,
{
    if k < 0 || k >= paths.len() {
        -1
    } else if paths[k].0@ == key {
        k
    } else {
        path_pos(paths, key, k + 1)
    }
}

/// Some path entry has key `key`.
pub open spec fn has_key(paths: Seq<(String, String)>, key: Seq<char>) -> bool {
    exists|j: int| 0 <= j < paths.len() && (#[trigger] paths[j]).0@ == key
}

proof fn lemma_path_pos(paths: Seq<(String, String)>, key: Seq<char>, k: int)
    requires
        0 <= k <= paths.len(),
    ensures
        path_pos(paths, key, k) >= 0 <==> exists|j: int| k <= j < paths.len() && (#[trigger] paths[j]).0@ == key,
        path_pos(paths, key, k) >= 0 ==> k <= path_pos(paths, key, k) < paths.len() && paths[path_pos(
            paths,
            key,
            k,
        )].0@ == key,
    decreases paths.len() - k,
{
    if k < paths.len() {
        lemma_path_pos(paths, key, k + 1);
        if paths[k].0@ != key {
            assert forall|j: int| k <= j < paths.len() && (#[trigger] paths[j]).0@ == key implies k + 1 <= j by {}
        }
    }
}

/// A list of abilities prints a `When` for `event` working from `zone`.
pub open spec fn prints_when(abs: Seq<Ability>, event: EventName, zone: AbilityZone) -> bool {
    exists|i: int|
        0 <= i < abs.len() && (#[trigger] abs[i] matches Ability::When { event: e, .. } && e == event
            && ability_zone(abs[i]) == zone)
}

/// A list of abilities prints a start-of-turn (`start`) or end-of-turn
/// ability working from `zone`.
pub open spec fn prints_boundary(abs: Seq<Ability>, zone: AbilityZone, start: bool) -> bool {
    exists|i: int|
        0 <= i < abs.len() && (if start {
            #[trigger] abs[i] is StartOfTurn
        } else {
            abs[i] is EndOfTurn
        }) && ability_zone(abs[i]) == zone
}

impl CardDb {
    /// No two cards share an id, no two crests share an id, and no two
    /// definitions share a key.
    pub open spec fn wf(self) -> bool {
        &&& forall|i: int, j: int|
            0 <= i < j < self.cards@.len() ==> crate::card::card_id(#[trigger] self.cards@[i]) != crate::card::card_id(
                #[trigger] self.cards@[j],
            )
        &&& forall|i: int, j: int|
            0 <= i < j < self.crests@.len() ==> (#[trigger] self.crests@[i]).id@ != (#[trigger] self.crests@[j]).id@
        &&& forall|i: int, j: int|
            0 <= i < j < self.paths@.len() ==> (#[trigger] self.paths@[i]).0@ != (#[trigger] self.paths@[j]).0@
        &&& forall|i: int|
            0 <= i < self.cards@.len() ==> has_key(self.paths@, card_id_text(crate::card::card_id(#[trigger] self.cards@[i])))
        &&& forall|i: int| 0 <= i < self.crests@.len() ==> has_key(self.paths@, (#[trigger] self.crests@[i]).id@)
        &&& forall|i: int, j: int|
            0 <= i < j < self.catalog@.len() ==> (#[trigger] self.catalog@[i]).0@ != (#[trigger] self.catalog@[j]).0@
    }

    /// An empty database.
    pub fn empty() -> (r: Self)
        ensures
            r.wf(),
            r.cards@.len() == 0 && r.crests@.len() == 0 && r.catalog@.len() == 0 && r.paths@.len() == 0,
    {
        CardDb { cards: Vec::new(), crests: Vec::new(), catalog: Vec::new(), paths: Vec::new() }
    }

    fn card_index(&self, id: CardId) -> (r: Option<usize>)
        ensures
            r is Some == (card_pos(self.cards@, id, 0) >= 0),
            r is Some ==> r->0 == card_pos(self.cards@, id, 0) && r->0 < self.cards@.len(),
    {
        let mut k: usize = 0;
        while k < self.cards.len()
            invariant
                0 <= k <= self.cards.len(),
                card_pos(self.cards@, id, 0) == card_pos(self.cards@, id, k as int),
            decreases self.cards.len() - k,
        {
            if self.cards[k].id() == id {
                return Some(k);
            }
            k = k + 1;
        }
        None
    }

    fn crest_index(&self, id: &str) -> (r: Option<usize>)
        ensures
            r is Some == (crest_pos(self.crests@, id@, 0) >= 0),
            r is Some ==> r->0 == crest_pos(self.crests@, id@, 0) && r->0 < self.crests@.len(),
    {
        let key = String::from_str(id);
        let mut k: usize = 0;
        while k < self.crests.len()
            invariant
                0 <= k <= self.crests.len(),
                key@ == id@,
                crest_pos(self.crests@, id@, 0) == crest_pos(self.crests@, id@, k as int),
            decreases self.crests.len() - k,
        {
            if self.crests[k].id == key {
                return Some(k);
            }
            k = k + 1;
        }
        None
    }

    fn path_index(&self, key: &String) -> (r: Option<usize>)
        ensures
            r is Some == (path_pos(self.paths@, key@, 0) >= 0),
            r is Some ==> r->0 == path_pos(self.paths@, key@, 0) && r->0 < self.paths@.len(),
    {
        let mut k: usize = 0;
        while k < self.paths.len()
            invariant
                0 <= k <= self.paths.len(),
                path_pos(self.paths@, key@, 0) == path_pos(self.paths@, key@, k as int),
            decreases self.paths.len() - k,
        {
            if self.paths[k].0 == *key {
                return Some(k);
            }
            k = k + 1;
        }
        None
    }

    /// The card with id `id`, or `MissingCard(id)`.
    pub fn card(&self, id: CardId) -> (r: Result<&Card, LoadError>)
        ensures
            r is Ok == (card_pos(self.cards@, id, 0) >= 0),
            r matches Ok(c) ==> *c == self.cards@[card_pos(self.cards@, id, 0)],
            r matches Err(e) ==> e matches LoadError::MissingCard(m) && m == id,
    {
        match self.card_index(id) {
            Some(k) => Ok(&self.cards[k]),
            None => Err(LoadError::MissingCard(id)),
        }
    }

    /// The crest with id `id`, or `MissingCrest(id)`.
    pub fn crest(&self, id: &str) -> (r: Result<&Crest, LoadError>)
        ensures
            r is Ok == (crest_pos(self.crests@, id@, 0) >= 0),
            r matches Ok(c) ==> *c == self.crests@[crest_pos(self.crests@, id@, 0)],
            r matches Err(e) ==> e matches LoadError::MissingCrest(m) && m@ == id@,
    {
        match self.crest_index(id) {
            Some(k) => Ok(&self.crests[k]),
            None => Err(LoadError::MissingCrest(String::from_str(id))),
        }
    }

    pub fn has_card(&self, id: CardId) -> (r: bool)
        ensures
            r == (card_pos(self.cards@, id, 0) >= 0),
    {
        self.card_index(id).is_some()
    }

    /// The card `id` prints a `When` for `(event, zone)`.
    pub fn card_has_when(&self, id: CardId, event: EventName, zone: AbilityZone) -> (r: bool)
        ensures
            r == (card_pos(self.cards@, id, 0) >= 0 && prints_when(
                card_ability_list(self.cards@[card_pos(self.cards@, id, 0)]),
                event,
                zone,
            )),
    {
        match self.card_index(id) {
            Some(k) => abilities_print_when(self.cards[k].abilities(), event, zone),
            None => false,
        }
    }

    /// The crest `id` prints a `When` for `(event, zone)`.
    pub fn crest_has_when(&self, id: &str, event: EventName, zone: AbilityZone) -> (r: bool)
        ensures
            r == (crest_pos(self.crests@, id@, 0) >= 0 && prints_when(
                crest_ability_list(self.crests@[crest_pos(self.crests@, id@, 0)]),
                event,
                zone,
            )),
    {
        match self.crest_index(id) {
            Some(k) => abilities_print_when(self.crests[k].abilities(), event, zone),
            None => false,
        }
    }

    /// Some card prints a `When` for `(event, zone)`.
    pub fn zone_has_when(&self, event: EventName, zone: AbilityZone) -> (r: bool)
        ensures
            r == exists|k: int|
                0 <= k < self.cards@.len() && prints_when(card_ability_list(#[trigger] self.cards@[k]), event, zone),
    {
        let mut k: usize = 0;
        while k < self.cards.len()
            invariant
                0 <= k <= self.cards.len(),
                forall|j: int| 0 <= j < k ==> !prints_when(card_ability_list(#[trigger] self.cards@[j]), event, zone),
            decreases self.cards.len() - k,
        {
            if abilities_print_when(self.cards[k].abilities(), event, zone) {
                return true;
            }
            k = k + 1;
        }
        false
    }

    /// Some card prints a start-of-turn (`start`) or end-of-turn ability in
    /// `zone`.
    pub fn zone_has_boundary(&self, zone: AbilityZone, start: bool) -> (r: bool)
        ensures
            r == exists|k: int|
                0 <= k < self.cards@.len() && prints_boundary(card_ability_list(#[trigger] self.cards@[k]), zone, start),
    {
        let mut k: usize = 0;
        while k < self.cards.len()
            invariant
                0 <= k <= self.cards.len(),
                forall|j: int|
                    0 <= j < k ==> !prints_boundary(card_ability_list(#[trigger] self.cards@[j]), zone, start),
            decreases self.cards.len() - k,
        {
            if abilities_print_boundary(self.cards[k].abilities(), zone, start) {
                return true;
            }
            k = k + 1;
        }
        false
    }
}

fn abilities_print_when(abs: &[Ability], event: EventName, zone: AbilityZone) -> (r: bool)
    ensures
        r == prints_when(abs@, event, zone),
{
    let mut i: usize = 0;
    while i < abs.len()
        invariant
            0 <= i <= abs.len(),
            forall|j: int|
                0 <= j < i ==> !(#[trigger] abs@[j] matches Ability::When { event: e, .. } && e == event && ability_zone(
                    abs@[j],
                ) == zone),
        decreases abs.len() - i,
    {
        if let Ability::When { event: e, .. } = &abs[i] {
            if *e == event && abs[i].zone() == zone {
                return true;
            }
        }
        i = i + 1;
    }
    false
}

fn abilities_print_boundary(abs: &[Ability], zone: AbilityZone, start: bool) -> (r: bool)
    ensures
        r == prints_boundary(abs@, zone, start),
{
    let mut i: usize = 0;
    while i < abs.len()
        invariant
            0 <= i <= abs.len(),
            forall|j: int|
                0 <= j < i ==> !((if start {
                    #[trigger] abs@[j] is StartOfTurn
                } else {
                    abs@[j] is EndOfTurn
                }) && ability_zone(abs@[j]) == zone),
        decreases abs.len() - i,
    {
        let hit = match &abs[i] {
            Ability::StartOfTurn { .. } => start,
            Ability::EndOfTurn { .. } => !start,
            _ => false,
        };
        if hit && abs[i].zone() == zone {
            return true;
        }
        i = i + 1;
    }
    false
}


impl CardDb {
    /// Adds one parsed definition loaded from `label`. A definition whose
    /// key (card id text or crest id) is already present is skipped when
    /// `skip_existing`, else refused as a duplicate; a definition that uses
    /// a bound name none of its effects produces is refused; anything else
    /// is added with its label.
    pub fn load_entry(&mut self, label: &str, parsed: CardOrCrest, skip_existing: bool) -> (r: Result<(), LoadError>)
        requires
            old(self).wf(),
        ensures
            final(self).wf(),
            final(self).catalog@ == old(self).catalog@,
            ({
                let key = match parsed {
                    CardOrCrest::Card(c) => card_id_text(crate::card::card_id(c)),
                    CardOrCrest::Crest(c) => c.id@,
                };
                let unbound = match parsed {
                    CardOrCrest::Card(c) => card_unbound(c),
                    CardOrCrest::Crest(c) => crest_unbound(c),
                };
                if has_key(old(self).paths@, key) {
                    &&& r is Ok <==> skip_existing
                    &&& r matches Err(e) ==> (e matches LoadError::Duplicate { id, first, second } && id@ == key
                        && second@ == label@ && has_key(old(self).paths@, key))
                    &&& final(self).cards@ == old(self).cards@ && final(self).crests@ == old(self).crests@
                    &&& final(self).paths@ == old(self).paths@
                } else if unbound.len() > 0 || !unbound.finite() {
                    &&& r matches Err(e) && e matches LoadError::UnboundRef { card, name } && card@ == key
                        && least_text(unbound, name@)
                    &&& final(self).cards@ == old(self).cards@ && final(self).crests@ == old(self).crests@
                    &&& final(self).paths@ == old(self).paths@
                } else {
                    &&& r is Ok
                    &&& final(self).paths@.len() == old(self).paths@.len() + 1
                    &&& final(self).paths@.drop_last() == old(self).paths@
                    &&& final(self).paths@.last().0@ == key && final(self).paths@.last().1@ == label@
                    &&& match parsed {
                        CardOrCrest::Card(c) => final(self).cards@ == old(self).cards@.push(c)
                            && final(self).crests@ == old(self).crests@,
                        CardOrCrest::Crest(c) => final(self).crests@ == old(self).crests@.push(c)
                            && final(self).cards@ == old(self).cards@,
                    }
                }
            }),
    {
        let key = match &parsed {
            CardOrCrest::Card(c) => c.id().as_str(),
            CardOrCrest::Crest(c) => String::from_str(c.id.as_str()),
        };
        proof {
            lemma_path_pos(self.paths@, key@, 0);
        }
        if let Some(k) = self.path_index(&key) {
            if skip_existing {
                return Ok(());
            }
            let first = String::from_str(self.paths[k].1.as_str());
            return Err(LoadError::Duplicate { id: key, first, second: String::from_str(label) });
        }
        let unbound = match &parsed {
            CardOrCrest::Card(c) => c.unbound_refs(),
            CardOrCrest::Crest(c) => c.unbound_refs(),
        };
        proof {
            vstd::seq_lib::seq_to_set_is_finite(crate::card::string_views(unbound@));
            crate::card::string_views(unbound@).unique_seq_to_set();
            assert(names(unbound@).len() == unbound@.len()) by {
                reveal(crate::card::string_views);
            }
        }
        if unbound.len() > 0 {
            let name = String::from_str(unbound[0].as_str());
            assert(least_text(names(unbound@), unbound@[0]@)) by {
                reveal(crate::card::string_views);
                assert(crate::card::string_views(unbound@)[0] == unbound@[0]@);
                lemma_ascending_least(crate::card::string_views(unbound@));
            }
            return Err(LoadError::UnboundRef { card: key, name });
        }
        let ghost old_paths = self.paths@;
        self.paths.push((key, String::from_str(label)));
        match parsed {
            CardOrCrest::Card(c) => {
                self.cards.push(c);
            },
            CardOrCrest::Crest(c) => {
                self.crests.push(c);
            },
        }
        proof {
            assert forall|i: int| 0 <= i < self.paths@.len() - 1 implies (#[trigger] self.paths@[i]).0@ != key@ by {
                if self.paths@[i].0@ == key@ {
                    assert(old_paths[i].0@ == key@);
                }
            }
            assert forall|i: int| 0 <= i < self.cards@.len() implies has_key(
                self.paths@,
                card_id_text(crate::card::card_id(#[trigger] self.cards@[i])),
            ) by {
                if i < old(self).cards@.len() {
                    let k = choose|j: int|
                        0 <= j < old_paths.len() && (#[trigger] old_paths[j]).0@ == card_id_text(
                            crate::card::card_id(old(self).cards@[i]),
                        );
                    assert(self.paths@[k] == old_paths[k]);
                } else {
                    assert(self.paths@[self.paths@.len() - 1].0@ == key@);
                }
            }
            assert forall|i: int| 0 <= i < self.crests@.len() implies has_key(self.paths@, (#[trigger] self.crests@[i]).id@) by {
                if i < old(self).crests@.len() {
                    let k = choose|j: int|
                        0 <= j < old_paths.len() && (#[trigger] old_paths[j]).0@ == old(self).crests@[i].id@;
                    assert(self.paths@[k] == old_paths[k]);
                } else {
                    assert(self.paths@[self.paths@.len() - 1].0@ == key@);
                }
            }
            assert forall|i: int, j: int| 0 <= i < j < self.cards@.len() implies crate::card::card_id(
                #[trigger] self.cards@[i],
            ) != crate::card::card_id(#[trigger] self.cards@[j]) by {
                if j == self.cards@.len() - 1 && self.cards@.len() > old(self).cards@.len() {
                    if crate::card::card_id(self.cards@[i]) == crate::card::card_id(self.cards@[j]) {
                        assert(has_key(old_paths, card_id_text(crate::card::card_id(old(self).cards@[i]))));
                    }
                }
            }
            assert forall|i: int, j: int| 0 <= i < j < self.crests@.len() implies (#[trigger] self.crests@[i]).id@
                != (#[trigger] self.crests@[j]).id@ by {
                if j == self.crests@.len() - 1 && self.crests@.len() > old(self).crests@.len() {
                    if self.crests@[i].id@ == self.crests@[j].id@ {
                        assert(has_key(old_paths, old(self).crests@[i].id@));
                    }
                }
            }
            assert(self.paths@.drop_last() =~= old_paths);
        }
        Ok(())
    }

    /// Adds a catalog fact keyed by a card id text; other keys are ignored,
    /// and a fact for a key already present replaces it, so each key keeps
    /// one fact.
    pub fn add_catalog(&mut self, key: String, rec: CatalogRecord)
        requires
            old(self).wf(),
        ensures
            final(self).wf(),
            final(self).cards@ == old(self).cards@ && final(self).crests@ == old(self).crests@,
            final(self).paths@ == old(self).paths@,
            !is_card_id_text(key@) ==> final(self).catalog@ == old(self).catalog@,
            is_card_id_text(key@) ==> ({
                let k = catalog_pos(old(self).catalog@, key@, 0);
                if k >= 0 {
                    &&& final(self).catalog@.len() == old(self).catalog@.len()
                    &&& forall|j: int|
                        0 <= j < old(self).catalog@.len() && j != k ==> #[trigger] final(self).catalog@[j] == old(
                            self,
                        ).catalog@[j]
                    &&& final(self).catalog@[k].0@ == key@
                    &&& final(self).catalog@[k].1 == rec
                } else {
                    &&& final(self).catalog@.len() == old(self).catalog@.len() + 1
                    &&& final(self).catalog@.drop_last() == old(self).catalog@
                    &&& final(self).catalog@.last().0@ == key@
                    &&& final(self).catalog@.last().1 == rec
                }
            }),
    {
        if CardId::parse(key.as_str()).is_none() {
            return;
        }
        let mut i: usize = 0;
        while i < self.catalog.len()
            invariant
                0 <= i <= self.catalog.len(),
                self.catalog@ == old(self).catalog@,
                self.cards@ == old(self).cards@,
                self.crests@ == old(self).crests@,
                self.paths@ == old(self).paths@,
                is_card_id_text(key@),
                old(self).wf(),
                forall|j: int| 0 <= j < i ==> (#[trigger] self.catalog@[j]).0@ != key@,
                catalog_pos(old(self).catalog@, key@, 0) == catalog_pos(old(self).catalog@, key@, i as int),
            decreases self.catalog.len() - i,
        {
            if self.catalog[i].0 == key {
                let ghost before = self.catalog@;
                self.catalog.set(i, (key, rec));
                proof {
                    assert forall|a: int, b: int|
                        0 <= a < b < self.catalog@.len() implies (#[trigger] self.catalog@[a]).0@ != (
                        #[trigger] self.catalog@[b]).0@ by {
                        assert(before[a].0@ != before[b].0@);
                    }
                }
                return;
            }
            i = i + 1;
        }
        let ghost before = self.catalog@;
        self.catalog.push((key, rec));
        proof {
            assert(self.catalog@.drop_last() =~= before);
            assert forall|a: int, b: int|
                0 <= a < b < self.catalog@.len() implies (#[trigger] self.catalog@[a]).0@ != (
                #[trigger] self.catalog@[b]).0@ by {
                if b == self.catalog@.len() - 1 {
                    assert(before[a].0@ != key@);
                } else {
                    assert(before[a].0@ != before[b].0@);
                }
            }
        }
    }
}


proof fn lemma_card_pos(cards: Seq<Card>, id: CardId, k: int)
    requires
        0 <= k <= cards.len(),
    ensures
        card_pos(cards, id, k) < 0 ==> forall|j: int| k <= j < cards.len() ==> crate::card::card_id(#[trigger] cards[j]) != id,
        card_pos(cards, id, k) >= 0 ==> k <= card_pos(cards, id, k) < cards.len() && crate::card::card_id(
            cards[card_pos(cards, id, k)],
        ) == id && forall|j: int| k <= j < card_pos(cards, id, k) ==> crate::card::card_id(#[trigger] cards[j]) != id,
    decreases cards.len() - k,
{
    if k < cards.len() {
        lemma_card_pos(cards, id, k + 1);
    }
}

proof fn lemma_crest_pos(crests: Seq<Crest>, id: Seq<char>, k: int)
    requires
        0 <= k <= crests.len(),
    ensures
        crest_pos(crests, id, k) < 0 ==> forall|j: int| k <= j < crests.len() ==> (#[trigger] crests[j]).id@ != id,
        crest_pos(crests, id, k) >= 0 ==> k <= crest_pos(crests, id, k) < crests.len() && crests[crest_pos(
            crests,
            id,
            k,
        )].id@ == id && forall|j: int| k <= j < crest_pos(crests, id, k) ==> (#[trigger] crests[j]).id@ != id,
    decreases crests.len() - k,
{
    if k < crests.len() {
        lemma_crest_pos(crests, id, k + 1);
    }
}

proof fn lemma_path_first(paths: Seq<(String, String)>, key: Seq<char>, k: int)
    requires
        0 <= k <= paths.len(),
    ensures
        path_pos(paths, key, k) < 0 ==> forall|j: int| k <= j < paths.len() ==> (#[trigger] paths[j]).0@ != key,
        path_pos(paths, key, k) >= 0 ==> k <= path_pos(paths, key, k) < paths.len() && paths[path_pos(
            paths,
            key,
            k,
        )].0@ == key && forall|j: int| k <= j < path_pos(paths, key, k) ==> (#[trigger] paths[j]).0@ != key,
    decreases paths.len() - k,
{
    if k < paths.len() {
        lemma_path_first(paths, key, k + 1);
    }
}

proof fn lemma_catalog_first(cat: Seq<(String, CatalogRecord)>, key: Seq<char>, k: int)
    requires
        0 <= k <= cat.len(),
    ensures
        catalog_pos(cat, key, k) < 0 ==> forall|j: int| k <= j < cat.len() ==> (#[trigger] cat[j]).0@ != key,
        catalog_pos(cat, key, k) >= 0 ==> k <= catalog_pos(cat, key, k) < cat.len() && cat[catalog_pos(
            cat,
            key,
            k,
        )].0@ == key && forall|j: int| k <= j < catalog_pos(cat, key, k) ==> (#[trigger] cat[j]).0@ != key,
    decreases cat.len() - k,
{
    if k < cat.len() {
        lemma_catalog_first(cat, key, k + 1);
    }
}

impl CardDb {
    fn catalog_index(&self, key: &String) -> (r: Option<usize>)
        ensures
            r is Some == (catalog_pos(self.catalog@, key@, 0) >= 0),
            r is Some ==> r->0 == catalog_pos(self.catalog@, key@, 0) && r->0 < self.catalog@.len(),
    {
        let mut k: usize = 0;
        while k < self.catalog.len()
            invariant
                0 <= k <= self.catalog.len(),
                catalog_pos(self.catalog@, key@, 0) == catalog_pos(self.catalog@, key@, k as int),
            decreases self.catalog.len() - k,
        {
            if self.catalog[k].0 == *key {
                return Some(k);
            }
            k = k + 1;
        }
        None
    }

    /// Whether the database is well formed (`wf`): ids and keys unique, and
    /// every card and crest has the label it was loaded from.
    pub fn is_wf(&self) -> (r: bool)
        ensures
            r == self.wf(),
    {
        let mut i: usize = 0;
        while i < self.cards.len()
            invariant
                0 <= i <= self.cards.len(),
                forall|a: int, b: int|
                    0 <= a < b < i ==> crate::card::card_id(#[trigger] self.cards@[a]) != crate::card::card_id(
                        #[trigger] self.cards@[b],
                    ),
                forall|a: int| 0 <= a < i ==> has_key(self.paths@, card_id_text(crate::card::card_id(#[trigger] self.cards@[a]))),
            decreases self.cards.len() - i,
        {
            let id = self.cards[i].id();
            proof {
                lemma_card_pos(self.cards@, id, 0);
            }
            match self.card_index(id) {
                Some(p) => {
                    if p != i {
                        return false;
                    }
                },
                None => {
                    return false;
                },
            }
            let key = id.as_str();
            proof {
                lemma_path_first(self.paths@, key@, 0);
            }
            if self.path_index(&key).is_none() {
                return false;
            }
            i = i + 1;
        }
        let mut i: usize = 0;
        while i < self.crests.len()
            invariant
                0 <= i <= self.crests.len(),
                forall|a: int, b: int|
                    0 <= a < b < i ==> (#[trigger] self.crests@[a]).id@ != (#[trigger] self.crests@[b]).id@,
                forall|a: int| 0 <= a < i ==> has_key(self.paths@, (#[trigger] self.crests@[a]).id@),
            decreases self.crests.len() - i,
        {
            let id = &self.crests[i].id;
            proof {
                lemma_crest_pos(self.crests@, id@, 0);
                lemma_path_first(self.paths@, id@, 0);
            }
            match self.crest_index(id.as_str()) {
                Some(p) => {
                    if p != i {
                        return false;
                    }
                },
                None => {
                    return false;
                },
            }
            if self.path_index(id).is_none() {
                return false;
            }
            i = i + 1;
        }
        let mut i: usize = 0;
        while i < self.paths.len()
            invariant
                0 <= i <= self.paths.len(),
                forall|a: int, b: int| 0 <= a < b < i ==> (#[trigger] self.paths@[a]).0@ != (#[trigger] self.paths@[b]).0@,
            decreases self.paths.len() - i,
        {
            proof {
                lemma_path_first(self.paths@, self.paths@[i as int].0@, 0);
            }
            match self.path_index(&self.paths[i].0) {
                Some(p) => {
                    if p != i {
                        return false;
                    }
                },
                None => {
                    return false;
                },
            }
            i = i + 1;
        }
        let mut i: usize = 0;
        while i < self.catalog.len()
            invariant
                0 <= i <= self.catalog.len(),
                forall|a: int, b: int|
                    0 <= a < b < i ==> (#[trigger] self.catalog@[a]).0@ != (#[trigger] self.catalog@[b]).0@,
            decreases self.catalog.len() - i,
        {
            proof {
                lemma_catalog_first(self.catalog@, self.catalog@[i as int].0@, 0);
            }
            match self.catalog_index(&self.catalog[i].0) {
                Some(p) => {
                    if p != i {
                        return false;
                    }
                },
                None => {
                    return false;
                },
            }
            i = i + 1;
        }
        true
    }
}

} // verus!
