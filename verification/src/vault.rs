//! The vault pallet: accounts pay a fee to register element hashes, attach
//! sources to the elements they own, and the root origin can delete elements.

use crate::dispatch::{ensure_root, ensure_signed, logged, signer, DispatchError, Origin};
use crate::reward::Reward;
use std::collections::HashMap;
use vstd::prelude::*;

verus! {

broadcast use vstd::std_specs::hash::group_hash_axioms;

/// Most sources that an element can hold.
pub const MAX_SOURCES: usize = 100;

/// Longest source, in bytes.
pub const MAX_SOURCE_LEN: usize = 100;

/// Most elements listed under one account.
pub const MAX_ELEMENTS: usize = 100_000;

/// What the vault keeps for each element.
#[derive(Clone, Debug, PartialEq, Eq)]
pub struct Data {
    /// Sequence number of the element.
    pub element_id: u64,
    /// Account that added the element.
    pub owner: u64,
    /// Time at which the element was added.
    pub timestamp: u64,
    /// Sources attached by the owner, oldest first.
    pub sources: Vec<Vec<u8>>,
}

/// The mathematical value of a `Data`.
pub struct DataView {
    pub element_id: u64,
    pub owner: u64,
    pub timestamp: u64,
    pub sources: Seq<Seq<u8>>,
}

impl View for Data {
    type V = DataView;

    open spec fn view(&self) -> DataView {
        DataView {
            element_id: self.element_id,
            owner: self.owner,
            timestamp: self.timestamp,
            sources: self.sources@.map_values(|s: Vec<u8>| s@),
        }
    }
}

/// Errors of the pallet.
#[derive(Clone, Copy, Debug, PartialEq, Eq, Structural)]
pub enum Error {
    AlreadyInVault,
    CannotBeAddedToVault,
    InsufficientFund,
    NotOwned,
    NotFound,
    SourcesFull,
    AccountFull,
}

/// Events that the pallet deposits.
#[derive(Clone, Debug, PartialEq, Eq)]
pub enum Event {
    AddedToVault { element_id: u64, who: u64 },
    DeletedFromVault { element_id: u64 },
    SourceAdded { element_id: u64, source: Vec<u8> },
}

/// Parameters of the pallet.
#[derive(Clone, Copy, Debug, PartialEq, Eq, Structural)]
pub struct Config {
    /// Fee charged for adding an element.
    pub fee_price: u128,
}

/// The vault pallet's storage.
pub struct Pallet {
    config: Config,
    vault: HashMap<u64, Data>,
    account_elements: HashMap<u64, Vec<u64>>,
    next_vault_element_id: u64,
    events: Vec<Event>,
}

impl Pallet {
    /// The pallet's parameters.
    pub closed spec fn conf(&self) -> Config {
        self.config
    }

    /// Elements by hash.
    pub closed spec fn elements(&self) -> Map<u64, DataView> {
        Map::new(|k: u64| self.vault@.contains_key(k), |k: u64| self.vault@[k]@)
    }

    /// Element hashes listed under each account, in order of addition.
    pub closed spec fn listed(&self) -> Map<u64, Seq<u64>> {
        Map::new(
            |k: u64| self.account_elements@.contains_key(k),
            |k: u64| self.account_elements@[k]@,
        )
    }

    /// The id that the next element gets.
    pub closed spec fn next_id(&self) -> u64 {
        self.next_vault_element_id
    }

    /// Events deposited so far, oldest first.
    pub closed spec fn event_log(&self) -> Seq<Event> {
        self.events@
    }

    /// Storage invariant: sources and account lists are within their bounds,
    /// every element id was handed out before, and no two elements share one.
    pub open spec fn wf(&self) -> bool {
        &&& forall|e: u64| #[trigger]
            self.elements().contains_key(e) ==> {
                let d = self.elements()[e];
                &&& d.sources.len() <= MAX_SOURCES
                &&& forall|i: int|
                    0 <= i < d.sources.len() ==> #[trigger] d.sources[i].len() <= MAX_SOURCE_LEN
                &&& d.element_id < self.next_id()
            }
        &&& forall|a: u64| #[trigger]
            self.listed().contains_key(a) ==> self.listed()[a].len() <= MAX_ELEMENTS
        &&& forall|e1: u64, e2: u64|
            #![trigger self.elements()[e1], self.elements()[e2]]
            self.elements().contains_key(e1) && self.elements().contains_key(e2) && e1 != e2
                ==> self.elements()[e1].element_id != self.elements()[e2].element_id
    }

    /// Empty storage with the given parameters.
    pub fn new(config: Config) -> (p: Pallet)
        ensures
            p.wf(),
            p.conf() == config,
            p.elements() == Map::<u64, DataView>::empty(),
            p.listed() == Map::<u64, Seq<u64>>::empty(),
            p.next_id() == 0,
            p.event_log() == Seq::<Event>::empty(),
    {
        let p = Pallet {
            config,
            vault: HashMap::new(),
            account_elements: HashMap::new(),
            next_vault_element_id: 0,
            events: Vec::new(),
        };
        assert(p.elements() =~= Map::<u64, DataView>::empty());
        assert(p.listed() =~= Map::<u64, Seq<u64>>::empty());
        p
    }

    /// The element stored under `element`, if any.
    pub fn vault_element(&self, element: u64) -> (r: Option<&Data>)
        ensures
            match r {
                Some(d) => self.elements().contains_key(element) && d@ == self.elements()[element],
                None => !self.elements().contains_key(element),
            },
    {
        self.vault.get(&element)
    }

    /// The element hashes listed under `account`, if any.
    pub fn account_elements(&self, account: u64) -> (r: Option<&Vec<u64>>)
        ensures
            match r {
                Some(v) => self.listed().contains_key(account) && v@ == self.listed()[account],
                None => !self.listed().contains_key(account),
            },
    {
        self.account_elements.get(&account)
    }

    /// The id that the next element gets.
    pub fn next_vault_element_id(&self) -> (r: u64)
        ensures
            r == self.next_id(),
    {
        self.next_vault_element_id
    }

    /// Events deposited so far, oldest first.
    pub fn events(&self) -> (r: &Vec<Event>)
        ensures
            r@ == self.event_log(),
    {
        &self.events
    }

    /// The most recent event, if any.
    pub fn last_event(&self) -> (r: Option<&Event>)
        ensures
            match r {
                Some(e) => self.event_log().len() > 0 && *e == self.event_log().last(),
                None => self.event_log().len() == 0,
            },
    {
        if self.events.len() == 0 {
            None
        } else {
            Some(&self.events[self.events.len() - 1])
        }
    }

    /// The pallet's parameters.
    pub fn config(&self) -> (c: Config)
        ensures
            c == self.conf(),
    {
        self.config
    }

    /// The owner of `element`, if it is in the vault.
    pub fn account_id_of(&self, element: &u64) -> (r: Option<u64>)
        ensures
            r == (if self.elements().contains_key(*element) {
                Some(self.elements()[*element].owner)
            } else {
                None
            }),
    {
        match self.vault.get(element) {
            Some(data) => Some(data.owner),
            None => None,
        }
    }

    /// The fee that adding `element` on behalf of `origin` would charge, and
    /// to whom: none for an unsigned call or an element already in the vault.
    pub open spec fn fee_due_for(&self, origin: Origin, element: u64) -> Option<(u64, u128)> {
        match signer(origin) {
            Some(who) => if self.elements().contains_key(element) {
                None
            } else {
                Some((who, self.conf().fee_price))
            },
            None => None,
        }
    }

    /// The fee that adding `element` on behalf of `origin` would charge, and
    /// to whom: none for an unsigned call or an element already in the vault.
    /// The balances ledger withdraws it and hands the outcome to `add_element`.
    pub fn fee_due(&self, origin: Origin, element: u64) -> (r: Option<(u64, u128)>)
        ensures
            r == self.fee_due_for(origin, element),
    {
        match origin {
            Origin::Signed(who) => if self.vault.contains_key(&element) {
                None
            } else {
                Some((who, self.config.fee_price))
            },
            _ => None,
        }
    }

    /// The element hashes listed under `who` once `element` is added for it:
    /// appended while the list has room.
    pub open spec fn listed_after_add(&self, who: u64, element: u64) -> Seq<u64> {
        let prev = if self.listed().contains_key(who) {
            self.listed()[who]
        } else {
            Seq::<u64>::empty()
        };
        if prev.len() < MAX_ELEMENTS {
            prev.push(element)
        } else {
            prev
        }
    }

    /// Whether `next` is this storage after `who` added `element` at time
    /// `now`: the element gets the next id, its owner and an empty list of
    /// sources, and is listed under its owner while the list has room.
    pub open spec fn added(&self, next: &Pallet, who: u64, element: u64, now: u64, block: u64) -> bool {
        let id = self.next_id();
        &&& next.elements() == self.elements().insert(
            element,
            DataView {
                element_id: id,
                owner: who,
                timestamp: now,
                sources: Seq::<Seq<u8>>::empty(),
            },
        )
        &&& next.listed() == self.listed().insert(who, self.listed_after_add(who, element))
        &&& next.next_id() == id + 1
        &&& next.conf() == self.conf()
        &&& next.event_log() == logged(self.event_log(), block, Event::AddedToVault { element_id: id, who })
    }

    /// Whether `next` is this storage after `element` was deleted: only the
    /// vault entry goes; lists and ids stay.
    pub open spec fn deleted(&self, next: &Pallet, element: u64, block: u64) -> bool {
        &&& next.elements() == self.elements().remove(element)
        &&& next.listed() == self.listed()
        &&& next.next_id() == self.next_id()
        &&& next.conf() == self.conf()
        &&& next.event_log() == logged(
            self.event_log(),
            block,
            Event::DeletedFromVault { element_id: self.elements()[element].element_id },
        )
    }

    /// A signed account adds `element` at time `now`, once `fee` (the outcome
    /// of withdrawing `fee_due`) succeeded: the element gets the next id and
    /// its owner, is listed under the owner while the list has room, and the
    /// owner's contribution is recorded by `rewards`.
    pub fn add_element<R: Reward>(
        &mut self,
        origin: Origin,
        element: u64,
        fee: Result<(), DispatchError>,
        now: u64,
        block: u64,
        rewards: &mut R,
    ) -> (res: Result<(), DispatchError>)
        requires
            old(self).wf(),
            old(self).fee_due_for(origin, element) is Some && fee is Ok ==> {
                &&& old(self).next_id() < u64::MAX
                &&& old(rewards).can_contribute(signer(origin)->0)
            },
        ensures
            final(self).wf(),
            signer(origin) is None ==> res == Err::<(), DispatchError>(DispatchError::BadOrigin),
            signer(origin) is Some && old(self).elements().contains_key(element) ==> res == Err::<
                (),
                DispatchError,
            >(DispatchError::Vault(Error::AlreadyInVault)),
            old(self).fee_due_for(origin, element) is Some ==> match fee {
                Err(e) => res == Err::<(), DispatchError>(e),
                Ok(_) => res is Ok,
            },
            res is Err ==> *final(self) == *old(self) && *final(rewards) == *old(rewards),
            res is Ok ==> {
                let who = signer(origin)->0;
                &&& old(self).added(&*final(self), who, element, now, block)
                &&& old(rewards).records_contribution(&*final(rewards), who)
            },
    {
        let who = ensure_signed(origin)?;
        if self.vault.contains_key(&element) {
            return Err(DispatchError::Vault(Error::AlreadyInVault));
        }
        fee?;
        let element_id = self.next_vault_element_id;
        let data = Data { element_id, timestamp: now, sources: Vec::new(), owner: who };
        let ghost old_elements = self.elements();
        self.vault.insert(element, data);
        proof {
            assert(data@.sources =~= Seq::<Seq<u8>>::empty());
            assert(self.elements() =~= old_elements.insert(element, data@));
        }
        let ghost old_listed = self.listed();
        assert(old_listed == old(self).listed());
        let mut listed = match self.account_elements.remove(&who) {
            Some(v) => v,
            None => Vec::new(),
        };
        assert(listed@ == (if old_listed.contains_key(who) {
            old_listed[who]
        } else {
            Seq::<u64>::empty()
        }));
        if listed.len() < MAX_ELEMENTS {
            listed.push(element);
        }
        self.account_elements.insert(who, listed);
        proof {
            assert(self.listed() =~= old_listed.insert(who, listed@));
        }
        self.next_vault_element_id = element_id + 1;
        rewards.add_contribution(&who);
        if block != 0 {
            self.events.push(Event::AddedToVault { element_id, who });
        }
        proof {
            let els = self.elements();
            assert forall|e: u64| #[trigger] els.contains_key(e) implies {
                let d = els[e];
                &&& d.sources.len() <= MAX_SOURCES
                &&& forall|i: int|
                    0 <= i < d.sources.len() ==> #[trigger] d.sources[i].len() <= MAX_SOURCE_LEN
                &&& d.element_id < self.next_id()
            } by {
                if e != element {
                    assert(old_elements.contains_key(e));
                }
            }
            assert forall|e1: u64, e2: u64|
                els.contains_key(e1) && els.contains_key(e2) && e1 != e2 implies #[trigger] els[e1].element_id
                != #[trigger] els[e2].element_id by {
                if e1 != element && e2 != element {
                    assert(old_elements[e1] == els[e1]);
                    assert(old_elements[e2] == els[e2]);
                } else if e1 == element {
                    assert(old_elements.contains_key(e2));
                } else {
                    assert(old_elements.contains_key(e1));
                }
            }
            assert forall|a: u64| #[trigger] self.listed().contains_key(a) implies self.listed()[a].len()
                <= MAX_ELEMENTS by {
                if a != who {
                    assert(old_listed.contains_key(a));
                } else if old_listed.contains_key(who) {
                    assert(old(self).listed().contains_key(who));
                }
            }
        }
        Ok(())
    }

    /// The error, if any, that attaching a source to `element` on behalf of
    /// `origin` ends with.
    pub open spec fn source_error(&self, origin: Origin, element: u64) -> Option<DispatchError> {
        match signer(origin) {
            None => Some(DispatchError::BadOrigin),
            Some(who) => if !self.elements().contains_key(element) {
                Some(DispatchError::Vault(Error::NotFound))
            } else if self.elements()[element].owner != who {
                Some(DispatchError::Vault(Error::NotOwned))
            } else if self.elements()[element].sources.len() >= MAX_SOURCES {
                Some(DispatchError::Vault(Error::SourcesFull))
            } else {
                None
            },
        }
    }

    /// The owner of `element` appends `source` to the element's sources while
    /// they have room.
    pub fn set_element_source(
        &mut self,
        origin: Origin,
        element: u64,
        source: Vec<u8>,
        block: u64,
    ) -> (res:
        Result<(), DispatchError>)
        requires
            old(self).wf(),
            source@.len() <= MAX_SOURCE_LEN,
        ensures
            final(self).wf(),
            match old(self).source_error(origin, element) {
                Some(e) => res == Err::<(), DispatchError>(e) && *final(self) == *old(self),
                None => {
                    let d = old(self).elements()[element];
                    &&& res is Ok
                    &&& final(self).elements() == old(self).elements().insert(
                        element,
                        DataView {
                            element_id: d.element_id,
                            owner: d.owner,
                            timestamp: d.timestamp,
                            sources: d.sources.push(source@),
                        },
                    )
                    &&& final(self).listed() == old(self).listed()
                    &&& final(self).next_id() == old(self).next_id()
                    &&& final(self).conf() == old(self).conf()
                    &&& final(self).event_log() == logged(
                        old(self).event_log(),
                        block,
                        Event::SourceAdded { element_id: d.element_id, source },
                    )
                },
            },
    {
        let who = ensure_signed(origin)?;
        match self.vault.get(&element) {
            None => { return Err(DispatchError::Vault(Error::NotFound)) },
            Some(data) => {
                if data.owner != who {
                    return Err(DispatchError::Vault(Error::NotOwned));
                }
                if data.sources.len() >= MAX_SOURCES {
                    return Err(DispatchError::Vault(Error::SourcesFull));
                }
            },
        }
        let ghost old_elements = self.elements();
        let ghost old_listed = self.listed();
        let mut data = match self.vault.remove(&element) {
            Some(d) => d,
            None => { return Err(DispatchError::Vault(Error::NotFound)) },
        };
        let ghost old_data = data;
        let copy = source.clone();
        assert(copy@ =~= source@);
        data.sources.push(copy);
        let element_id = data.element_id;
        proof {
            assert(data@.sources =~= old_data@.sources.push(source@));
        }
        self.vault.insert(element, data);
        if block != 0 {
            self.events.push(Event::SourceAdded { element_id, source });
        }
        proof {
            let els = self.elements();
            assert(els =~= old_elements.insert(element, data@));
            assert(self.listed() =~= old_listed);
            assert forall|e: u64| #[trigger] els.contains_key(e) implies {
                let d = els[e];
                &&& d.sources.len() <= MAX_SOURCES
                &&& forall|i: int|
                    0 <= i < d.sources.len() ==> #[trigger] d.sources[i].len() <= MAX_SOURCE_LEN
                &&& d.element_id < self.next_id()
            } by {
                assert(old_elements.contains_key(e));
                if e == element {
                    let d = els[e];
                    assert forall|i: int|
                        0 <= i < d.sources.len() implies #[trigger] d.sources[i].len()
                        <= MAX_SOURCE_LEN by {
                        if i < d.sources.len() - 1 {
                            assert(d.sources[i] == old_elements[e].sources[i]);
                        }
                    }
                }
            }
            assert forall|e1: u64, e2: u64|
                els.contains_key(e1) && els.contains_key(e2) && e1 != e2 implies #[trigger] els[e1].element_id
                != #[trigger] els[e2].element_id by {
                assert(old_elements.contains_key(e1));
                assert(old_elements.contains_key(e2));
                assert(els[e1].element_id == old_elements[e1].element_id);
                assert(els[e2].element_id == old_elements[e2].element_id);
            }
        }
        Ok(())
    }

    /// The root origin removes `element` from the vault; its owner's list of
    /// elements is left as it is.
    pub fn delete_element(&mut self, origin: Origin, element: u64, block: u64) -> (res: Result<
        (),
        DispatchError,
    >)
        ensures
            origin != Origin::Root ==> res == Err::<(), DispatchError>(DispatchError::BadOrigin),
            origin == Origin::Root && !old(self).elements().contains_key(element) ==> res == Err::<
                (),
                DispatchError,
            >(DispatchError::Vault(Error::NotFound)),
            res is Err ==> *final(self) == *old(self),
            res is Ok <==> origin == Origin::Root && old(self).elements().contains_key(element),
            res is Ok ==> old(self).deleted(&*final(self), element, block),
            old(self).wf() ==> final(self).wf(),
    {
        ensure_root(origin)?;
        if !self.vault.contains_key(&element) {
            return Err(DispatchError::Vault(Error::NotFound));
        }
        let ghost old_elements = self.elements();
        let ghost old_listed = self.listed();
        match self.vault.remove(&element) {
            Some(data) => {
                if block != 0 {
                    self.events.push(Event::DeletedFromVault { element_id: data.element_id });
                }
                proof {
                    let els = self.elements();
                    assert(els =~= old_elements.remove(element));
                    assert(self.listed() =~= old_listed);
                    if old(self).wf() {
                        assert forall|e1: u64, e2: u64|
                            els.contains_key(e1) && els.contains_key(e2) && e1 != e2 implies #[trigger] els[e1].element_id
                            != #[trigger] els[e2].element_id by {
                            assert(old_elements.contains_key(e1));
                            assert(old_elements.contains_key(e2));
                            assert(els[e1] == old_elements[e1]);
                            assert(els[e2] == old_elements[e2]);
                        }
                        assert forall|e: u64| #[trigger] els.contains_key(e) implies {
                            let d = els[e];
                            &&& d.sources.len() <= MAX_SOURCES
                            &&& forall|i: int|
                                0 <= i < d.sources.len() ==> #[trigger] d.sources[i].len() <= MAX_SOURCE_LEN
                            &&& d.element_id < self.next_id()
                        } by {
                            assert(old_elements.contains_key(e));
                            assert(els[e] == old_elements[e]);
                        }
                    }
                }
                Ok(())
            },
            None => Err(DispatchError::Vault(Error::NotFound)),
        }
    }
}

/// Once `who` has added `element`, the vault answers that `who` owns it, under
/// the id that was next.
pub proof fn lemma_owner_after_add(
    before: &Pallet,
    after: &Pallet,
    who: u64,
    element: u64,
    now: u64,
    block: u64,
)
    requires
        before.added(after, who, element, now, block),
    ensures
        after.elements().contains_key(element),
        after.elements()[element].owner == who,
        after.elements()[element].element_id == before.next_id(),
        after.elements()[element].sources.len() == 0,
{
}

/// Deleting an element that was just added restores the vault's elements;
/// the element id stays used.
pub proof fn lemma_delete_undoes_add(
    before: &Pallet,
    middle: &Pallet,
    after: &Pallet,
    who: u64,
    element: u64,
    now: u64,
    block: u64,
)
    requires
        !before.elements().contains_key(element),
        before.added(middle, who, element, now, block),
        middle.deleted(after, element, block),
    ensures
        after.elements() == before.elements(),
        after.next_id() == before.next_id() + 1,
{
    assert(after.elements() =~= before.elements());
}

/// An element deleted and added again gets the next id, not its old one: ids
/// are never reused.
pub proof fn lemma_readd_gets_new_id(
    before: &Pallet,
    middle: &Pallet,
    after: &Pallet,
    who: u64,
    element: u64,
    now: u64,
    block: u64,
    block2: u64,
)
    requires
        before.wf(),
        before.elements().contains_key(element),
        before.deleted(middle, element, block),
        middle.added(after, who, element, now, block2),
    ensures
        after.elements()[element].element_id == before.next_id(),
        after.elements()[element].element_id != before.elements()[element].element_id,
        after.next_id() == before.next_id() + 1,
{
}

} // verus!
