use std::collections::HashMap;
use vstd::prelude::*;

use crate::balances::{AccountData, Balance, Balances, LedgerError};
use crate::genome::{crossover, crossover_spec, random_value, blake2_128_of, random_payload, AccountId, Kitty, RandomSeed};

verus! {

/// A kitty's identifier. Ids are handed out from 1 upwards, never reused.
pub type KittyIndex = u32;

/// Why the registry refused an operation.
#[derive(Clone, Copy, Debug, PartialEq, Eq, Structural)]
pub enum Error {
    KittiesCountOverflow,
    InvalidKittyIndex,
    NotCorrectOwner,
    BreedFromSameParent,
    NotForSale,
    NotEnoughBalance,
    KittyAlreadyOwned,
    SameOwner,
}

/// An error of an operation that also moves currency: one of the registry's
/// own, or one that the ledger reported and that is passed on unchanged.
#[derive(Clone, Copy, Debug, PartialEq, Eq, Structural)]
pub enum DispatchError {
    Module(Error),
    Ledger(LedgerError),
}

/// A notification emitted by a successful operation.
#[derive(Clone, Copy, Debug, PartialEq, Eq, Structural)]
pub enum Event {
    KittyCreated(AccountId, KittyIndex),
    KittyTransfered(AccountId, AccountId, KittyIndex),
    KittySale(AccountId, KittyIndex, Option<Balance>),
    ErrorSalePrice(AccountId, KittyIndex),
}

/// The registry's state, seen as maps.
pub struct PalletView {
    /// The next id to hand out; absent before the first kitty.
    pub count: Option<KittyIndex>,
    pub genomes: Map<KittyIndex, Kitty>,
    pub owners: Map<KittyIndex, AccountId>,
    pub prices: Map<KittyIndex, Balance>,
    /// The collateral that creating a kitty reserves.
    pub reserve: Balance,
    pub events: Seq<Event>,
}

/// The id that the next kitty gets, or the overflow error when the counter
/// has reached its maximum.
pub open spec fn next_id_spec(count: Option<KittyIndex>) -> Result<KittyIndex, Error> {
    match count {
        None => Ok(1u32),
        Some(c) => if c == u32::MAX {
            Err(Error::KittiesCountOverflow)
        } else {
            Ok(c)
        },
    }
}

/// The id the counter stands at: 1 before the first kitty.
pub open spec fn counter_of(count: Option<KittyIndex>) -> int {
    match count {
        None => 1,
        Some(c) => c as int,
    }
}

impl PalletView {
    /// Every kitty has a genome and an owner, only kitties have prices, and
    /// every id lies between 1 and the counter.
    pub open spec fn wf(&self) -> bool {
        &&& self.genomes.dom() == self.owners.dom()
        &&& self.prices.dom().subset_of(self.genomes.dom())
        &&& self.count matches Some(c) ==> c >= 1
        &&& forall|id: KittyIndex| #[trigger]
            self.genomes.contains_key(id) ==> (self.count matches Some(c) && 1 <= id < c)
    }

    /// `post` is `self` with kitty `id` minted for `owner` with `genome`.
    pub open spec fn minted(&self, post: PalletView, owner: AccountId, genome: Kitty, id: KittyIndex) -> bool {
        &&& next_id_spec(self.count) == Ok::<KittyIndex, Error>(id)
        &&& post.count == Some((id + 1) as KittyIndex)
        &&& post.genomes == self.genomes.insert(id, genome)
        &&& post.owners == self.owners.insert(id, owner)
        &&& post.prices == self.prices
        &&& post.reserve == self.reserve
        &&& post.events == self.events.push(Event::KittyCreated(owner, id))
    }

    /// What breeding `first` and `second` for `who` reports: the new id, or
    /// the first check that fails.
    pub open spec fn breed_check(&self, who: AccountId, first: KittyIndex, second: KittyIndex) -> Result<KittyIndex, Error> {
        if first == second {
            Err(Error::BreedFromSameParent)
        } else if !self.owners.contains_key(first) || !self.owners.contains_key(second) {
            Err(Error::InvalidKittyIndex)
        } else if self.owners[first] != who || self.owners[second] != who {
            Err(Error::NotCorrectOwner)
        } else {
            next_id_spec(self.count)
        }
    }

    /// What transferring `id` from `sender` to `target` reports.
    pub open spec fn transfer_check(&self, sender: AccountId, target: AccountId, id: KittyIndex) -> Result<(), Error> {
        if sender == target {
            Err(Error::SameOwner)
        } else if !self.owners.contains_key(id) {
            Err(Error::InvalidKittyIndex)
        } else if self.owners[id] != sender {
            Err(Error::NotCorrectOwner)
        } else {
            Ok(())
        }
    }

    /// What a purchase of `id` by `buyer` reports before any currency moves.
    pub open spec fn buy_check(&self, buyer: AccountId, id: KittyIndex) -> Result<(), Error> {
        if !self.owners.contains_key(id) {
            Err(Error::InvalidKittyIndex)
        } else if self.owners[id] == buyer {
            Err(Error::KittyAlreadyOwned)
        } else if !self.prices.contains_key(id) {
            Err(Error::NotForSale)
        } else {
            Ok(())
        }
    }
}

/// Id allocation fails exactly when the counter has reached the largest id.
pub proof fn lemma_next_id_overflow(count: Option<KittyIndex>)
    ensures
        next_id_spec(count) == Err::<KittyIndex, Error>(Error::KittiesCountOverflow) <==> count == Some(
            u32::MAX,
        ),
        next_id_spec(count) is Err <==> count == Some(u32::MAX),
{
}

/// Minting keeps the registry well formed, and the new id exceeds every id
/// already in use.
pub proof fn lemma_minted_wf(pre: PalletView, post: PalletView, owner: AccountId, genome: Kitty, id: KittyIndex)
    requires
        pre.wf(),
        pre.minted(post, owner, genome, id),
    ensures
        post.wf(),
        !pre.genomes.contains_key(id),
        forall|k: KittyIndex| #[trigger] pre.genomes.contains_key(k) ==> k < id,
{
    assert(post.genomes.dom() =~= post.owners.dom());
}

/// Along any sequence of mints from a well-formed registry the ids handed
/// out strictly increase, each was free when it was handed out, and the
/// registry stays well formed.
pub proof fn lemma_mint_sequence(
    states: Seq<PalletView>,
    owners: Seq<AccountId>,
    genomes: Seq<Kitty>,
    ids: Seq<KittyIndex>,
)
    requires
        states.len() == ids.len() + 1,
        owners.len() == ids.len(),
        genomes.len() == ids.len(),
        states[0].wf(),
        forall|i: int|
            0 <= i < ids.len() ==> #[trigger] states[i].minted(states[i + 1], owners[i], genomes[i], ids[i]),
    ensures
        forall|i: int, j: int| 0 <= i < j < ids.len() ==> ids[i] < ids[j],
        forall|i: int| 0 <= i < ids.len() ==> !(#[trigger] states[i].genomes.contains_key(ids[i])),
        forall|i: int| 0 <= i < states.len() ==> #[trigger] states[i].wf(),
    decreases ids.len(),
{
    if ids.len() > 0 {
        let n = ids.len() - 1;
        let ps = states.drop_last();
        let po = owners.drop_last();
        let pg = genomes.drop_last();
        let pi = ids.drop_last();
        assert forall|i: int| 0 <= i < pi.len() implies #[trigger] ps[i].minted(ps[i + 1], po[i], pg[i], pi[i]) by {
            assert(states[i].minted(states[i + 1], owners[i], genomes[i], ids[i]));
        }
        lemma_mint_sequence(ps, po, pg, pi);
        assert(ps[n].wf());
        assert(states[n].minted(states[n + 1], owners[n], genomes[n], ids[n]));
        lemma_minted_wf(states[n], states[n + 1], owners[n], genomes[n], ids[n]);
        if n > 0 {
            let m = n - 1;
            assert(states[m].minted(states[m + 1], owners[m], genomes[m], ids[m]));
            assert(ids[n] == ids[n - 1] + 1);
        }
        assert forall|i: int, j: int| 0 <= i < j < ids.len() implies ids[i] < ids[j] by {
            if j < n {
                assert(pi[i] < pi[j]);
            } else if i < n - 1 {
                assert(pi[i] < pi[n - 1]);
            }
        }
        assert forall|i: int| 0 <= i < ids.len() implies !(#[trigger] states[i].genomes.contains_key(ids[i])) by {
            if i < n {
                assert(!ps[i].genomes.contains_key(pi[i]));
            }
        }
        assert forall|i: int| 0 <= i < states.len() implies #[trigger] states[i].wf() by {
            if i <= n {
                assert(ps[i].wf());
            }
        }
    }
}

/// Along a run of states where no step lowers the counter, the counter at a
/// later state is at least the counter at an earlier one.
pub proof fn lemma_counter_monotone(states: Seq<PalletView>, a: int, b: int)
    requires
        0 <= a <= b < states.len(),
        forall|k: int|
            0 <= k < states.len() - 1 ==> counter_of((#[trigger] states[k]).count) <= counter_of(
                states[k + 1].count,
            ),
    ensures
        counter_of(states[a].count) <= counter_of(states[b].count),
    decreases b - a,
{
    if a < b {
        lemma_counter_monotone(states, a, b - 1);
        assert(counter_of(states[b - 1].count) <= counter_of(states[(b - 1) + 1].count));
    }
}

/// Ids handed out by mints strictly increase across any run of operations,
/// whatever happens between the mints, as long as no step lowers the
/// counter (no operation of `Pallet` does); two mints in a row give
/// consecutive ids.
pub proof fn lemma_ids_increase_across_operations(
    states: Seq<PalletView>,
    i: int,
    j: int,
    owner_i: AccountId,
    genome_i: Kitty,
    id_i: KittyIndex,
    owner_j: AccountId,
    genome_j: Kitty,
    id_j: KittyIndex,
)
    requires
        0 <= i < j,
        j + 1 < states.len(),
        forall|k: int|
            0 <= k < states.len() - 1 ==> counter_of((#[trigger] states[k]).count) <= counter_of(
                states[k + 1].count,
            ),
        states[i].minted(states[i + 1], owner_i, genome_i, id_i),
        states[j].minted(states[j + 1], owner_j, genome_j, id_j),
    ensures
        id_i < id_j,
        j == i + 1 ==> id_j == id_i + 1,
{
    lemma_counter_monotone(states, i + 1, j);
}

/// An account after `value` of its free funds were reserved.
pub open spec fn after_reserve(d: AccountData, value: Balance) -> AccountData {
    AccountData { free: (d.free - value) as u64, reserved: (d.reserved + value) as u64 }
}

/// An account after up to `value` of its reservation was released.
pub open spec fn after_unreserve(d: AccountData, value: Balance) -> AccountData {
    let actual = if d.reserved < value { d.reserved } else { value };
    AccountData { free: (d.free + actual) as u64, reserved: (d.reserved - actual) as u64 }
}

/// Whether `value` can be reserved from an account holding `d`: its free
/// funds cover it.
pub open spec fn can_reserve(d: AccountData, value: Balance) -> bool {
    value <= d.free
}

/// The kitty registry and marketplace.
pub struct Pallet {
    kitties_count: Option<KittyIndex>,
    kitties: HashMap<KittyIndex, Kitty>,
    owners: HashMap<KittyIndex, AccountId>,
    prices: HashMap<KittyIndex, Balance>,
    reserve_of_kitty_create: Balance,
    events: Vec<Event>,
}

impl View for Pallet {
    type V = PalletView;

    closed spec fn view(&self) -> PalletView {
        PalletView {
            count: self.kitties_count,
            genomes: self.kitties@,
            owners: self.owners@,
            prices: self.prices@,
            reserve: self.reserve_of_kitty_create,
            events: self.events@,
        }
    }
}

impl Pallet {
    pub open spec fn wf(&self) -> bool {
        self@.wf()
    }

    /// An empty registry whose kitties each cost `reserve_of_kitty_create`
    /// of collateral to create.
    pub fn new(reserve_of_kitty_create: Balance) -> (r: Pallet)
        ensures
            r.wf(),
            r@.count is None,
            r@.genomes.is_empty(),
            r@.owners.is_empty(),
            r@.prices.is_empty(),
            r@.reserve == reserve_of_kitty_create,
            r@.events.len() == 0,
    {
        let r = Pallet {
            kitties_count: None,
            kitties: HashMap::new(),
            owners: HashMap::new(),
            prices: HashMap::new(),
            reserve_of_kitty_create,
            events: Vec::new(),
        };
        assert(r@.genomes =~= Map::empty());
        r
    }

    /// An empty registry whose counter starts at `count` instead of being
    /// absent, so that the first kitty gets id `count`.
    pub fn with_count(reserve_of_kitty_create: Balance, count: KittyIndex) -> (r: Pallet)
        requires
            count >= 1,
        ensures
            r.wf(),
            r@.count == Some(count),
            r@.genomes.is_empty(),
            r@.owners.is_empty(),
            r@.prices.is_empty(),
            r@.reserve == reserve_of_kitty_create,
            r@.events.len() == 0,
    {
        let mut r = Pallet::new(reserve_of_kitty_create);
        r.kitties_count = Some(count);
        r
    }

    /// The counter: the id the next kitty gets, absent before the first.
    pub fn kitties_count(&self) -> (r: Option<KittyIndex>)
        ensures
            r == self@.count,
    {
        self.kitties_count
    }

    /// The genome of kitty `kitty_id`, if it exists.
    pub fn get_kitties(&self, kitty_id: KittyIndex) -> (r: Option<Kitty>)
        ensures
            r == (if self@.genomes.contains_key(kitty_id) {
                Some(self@.genomes[kitty_id])
            } else {
                None
            }),
    {
        match self.kitties.get(&kitty_id) {
            Some(k) => Some(*k),
            None => None,
        }
    }

    /// The owner of kitty `kitty_id`, if it exists.
    pub fn kitty_owner(&self, kitty_id: KittyIndex) -> (r: Option<AccountId>)
        ensures
            r == (if self@.owners.contains_key(kitty_id) {
                Some(self@.owners[kitty_id])
            } else {
                None
            }),
    {
        match self.owners.get(&kitty_id) {
            Some(o) => Some(*o),
            None => None,
        }
    }

    /// The price kitty `kitty_id` is listed at, if it is for sale.
    pub fn kitties_price(&self, kitty_id: KittyIndex) -> (r: Option<Balance>)
        ensures
            r == (if self@.prices.contains_key(kitty_id) {
                Some(self@.prices[kitty_id])
            } else {
                None
            }),
    {
        match self.prices.get(&kitty_id) {
            Some(p) => Some(*p),
            None => None,
        }
    }

    /// The collateral that creating a kitty reserves.
    pub fn reserve_of_kitty_create(&self) -> (r: Balance)
        ensures
            r == self@.reserve,
    {
        self.reserve_of_kitty_create
    }

    /// The events emitted so far, oldest first.
    pub fn events(&self) -> (r: &Vec<Event>)
        ensures
            r@ == self@.events,
    {
        &self.events
    }

    /// The id the next kitty gets: 1 before the first kitty, the counter
    /// after; fails when the counter is at its maximum.
    pub fn next_id(&self) -> (r: Result<KittyIndex, Error>)
        ensures
            r == next_id_spec(self@.count),
    {
        match self.kitties_count {
            Some(id) => {
                if id == u32::MAX {
                    Err(Error::KittiesCountOverflow)
                } else {
                    Ok(id)
                }
            },
            None => Ok(1u32),
        }
    }

    /// Records a new kitty with genome `dna` for `owner` under the next id,
    /// advances the counter and emits a creation event. Fails, changing
    /// nothing, when no id is left.
    pub fn mint(&mut self, owner: AccountId, dna: [u8; 16]) -> (r: Result<KittyIndex, Error>)
        requires
            old(self).wf(),
        ensures
            final(self).wf(),
            r == next_id_spec(old(self)@.count),
            counter_of(old(self)@.count) <= counter_of(final(self)@.count),
            r matches Ok(id) ==> !old(self)@.genomes.contains_key(id) && old(self)@.minted(
                final(self)@,
                owner,
                Kitty(dna),
                id,
            ),
            r is Err ==> final(self)@ == old(self)@,
    {
        let id = match self.next_id() {
            Ok(id) => id,
            Err(e) => {
                return Err(e);
            },
        };
        self.kitties.insert(id, Kitty(dna));
        self.owners.insert(id, owner);
        self.kitties_count = Some(id + 1);
        self.events.push(Event::KittyCreated(owner, id));
        assert(final(self)@.genomes.dom() =~= final(self)@.owners.dom());
        Ok(id)
    }

    /// Creates a kitty for `sender` with a freshly drawn genome, reserving the
    /// creation collateral from `sender` first. Fails with `NotEnoughBalance`
    /// when `sender`'s free funds do not cover the collateral, and otherwise
    /// with `KittiesCountOverflow` when no id is left; either way nothing
    /// changes.
    pub fn create(
        &mut self,
        currency: &mut Balances,
        sender: AccountId,
        seed: &RandomSeed,
        index: Option<u32>,
    ) -> (r: Result<KittyIndex, DispatchError>)
        requires
            old(self).wf(),
            old(currency).wf(),
        ensures
            final(self).wf(),
            final(currency).wf(),
            !can_reserve(old(currency).account(sender), old(self)@.reserve) ==> r == Err::<
                KittyIndex,
                DispatchError,
            >(DispatchError::Module(Error::NotEnoughBalance)),
            can_reserve(old(currency).account(sender), old(self)@.reserve) && old(self)@.count == Some(u32::MAX)
                ==> r == Err::<KittyIndex, DispatchError>(DispatchError::Module(Error::KittiesCountOverflow)),
            r is Ok <==> (can_reserve(old(currency).account(sender), old(self)@.reserve) && old(self)@.count != Some(
                u32::MAX,
            )),
            r matches Ok(id) ==> {
                &&& !old(self)@.genomes.contains_key(id)
                &&& old(self)@.minted(final(self)@, sender, final(self)@.genomes[id], id)
                &&& final(self)@.genomes[id].0@ == blake2_128_of(random_payload(*seed, sender, index))
                &&& final(currency).is_update(
                    old(currency),
                    sender,
                    after_reserve(old(currency).account(sender), old(self)@.reserve),
                )
            },
            r is Err ==> final(self)@ == old(self)@ && final(currency).agrees_with(old(currency)),
            counter_of(old(self)@.count) <= counter_of(final(self)@.count),
    {
        let funds = currency.get_account(sender);
        if funds.free < self.reserve_of_kitty_create {
            return Err(DispatchError::Module(Error::NotEnoughBalance));
        }
        if let Err(e) = self.next_id() {
            return Err(DispatchError::Module(e));
        }
        if currency.reserve(sender, self.reserve_of_kitty_create).is_err() {
            return Err(DispatchError::Module(Error::NotEnoughBalance));
        }
        let dna = random_value(seed, sender, index);
        match self.mint(sender, dna) {
            Ok(id) => Ok(id),
            Err(e) => Err(DispatchError::Module(e)),
        }
    }

    fn transfer_kitty(&mut self, source: AccountId, target: AccountId, kitty_id: KittyIndex)
        requires
            old(self).wf(),
            old(self)@.owners.contains_key(kitty_id),
        ensures
            final(self).wf(),
            final(self)@ == (PalletView {
                owners: old(self)@.owners.insert(kitty_id, target),
                events: old(self)@.events.push(Event::KittyTransfered(source, target, kitty_id)),
                ..old(self)@
            }),
    {
        self.owners.insert(kitty_id, target);
        self.events.push(Event::KittyTransfered(source, target, kitty_id));
        assert(final(self)@.genomes.dom() =~= final(self)@.owners.dom());
    }

    /// Hands kitty `kitty_id` from `sender` to `target`. Fails with
    /// `SameOwner` when the two are one account, with `InvalidKittyIndex`
    /// when the kitty does not exist and with `NotCorrectOwner` when
    /// `sender` does not own it; then nothing changes. No collateral moves.
    pub fn transfer(&mut self, sender: AccountId, target: AccountId, kitty_id: KittyIndex) -> (r: Result<(), Error>)
        requires
            old(self).wf(),
        ensures
            final(self).wf(),
            r == old(self)@.transfer_check(sender, target, kitty_id),
            counter_of(old(self)@.count) == counter_of(final(self)@.count),
            sender == target ==> r == Err::<(), Error>(Error::SameOwner),
            sender != target && old(self)@.owners.contains_key(kitty_id) && old(self)@.owners[kitty_id] != sender
                ==> r == Err::<(), Error>(Error::NotCorrectOwner),
            r is Ok ==> final(self)@.owners[kitty_id] == target && forall|k: KittyIndex|
                k != kitty_id ==> (#[trigger] final(self)@.owners.contains_key(k) == old(self)@.owners.contains_key(k)
                    && final(self)@.owners[k] == old(self)@.owners[k]),
            r is Ok ==> final(self)@ == (PalletView {
                owners: old(self)@.owners.insert(kitty_id, target),
                events: old(self)@.events.push(Event::KittyTransfered(sender, target, kitty_id)),
                ..old(self)@
            }),
            r is Err ==> final(self)@ == old(self)@,
    {
        if sender == target {
            return Err(Error::SameOwner);
        }
        match self.owners.get(&kitty_id) {
            None => {
                return Err(Error::InvalidKittyIndex);
            },
            Some(owner) => {
                if *owner != sender {
                    return Err(Error::NotCorrectOwner);
                }
            },
        }
        self.transfer_kitty(sender, target, kitty_id);
        Ok(())
    }

    /// Breeds kitties `first` and `second` of `who` under a given selector:
    /// the new kitty's genome takes each bit from `first` where the
    /// selector's bit is 1 and from `second` where it is 0. Fails, changing
    /// nothing, with the first check of `breed_check` that does not hold.
    pub fn breed_with_selector(
        &mut self,
        who: AccountId,
        first: KittyIndex,
        second: KittyIndex,
        selector: &[u8; 16],
    ) -> (r: Result<KittyIndex, Error>)
        requires
            old(self).wf(),
        ensures
            final(self).wf(),
            r == old(self)@.breed_check(who, first, second),
            counter_of(old(self)@.count) <= counter_of(final(self)@.count),
            first == second ==> r == Err::<KittyIndex, Error>(Error::BreedFromSameParent),
            r matches Ok(id) ==> {
                &&& !old(self)@.genomes.contains_key(id)
                &&& old(self)@.minted(final(self)@, who, final(self)@.genomes[id], id)
                &&& final(self)@.genomes[id].0@ == crossover_spec(
                    selector@,
                    old(self)@.genomes[first].0@,
                    old(self)@.genomes[second].0@,
                )
            },
            r is Err ==> final(self)@ == old(self)@,
    {
        if first == second {
            return Err(Error::BreedFromSameParent);
        }
        let owner1 = match self.owners.get(&first) {
            Some(o) => *o,
            None => {
                return Err(Error::InvalidKittyIndex);
            },
        };
        let owner2 = match self.owners.get(&second) {
            Some(o) => *o,
            None => {
                return Err(Error::InvalidKittyIndex);
            },
        };
        if owner1 != who || owner2 != who {
            return Err(Error::NotCorrectOwner);
        }
        let dna1 = match self.kitties.get(&first) {
            Some(k) => k.0,
            None => {
                return Err(Error::InvalidKittyIndex);
            },
        };
        let dna2 = match self.kitties.get(&second) {
            Some(k) => k.0,
            None => {
                return Err(Error::InvalidKittyIndex);
            },
        };
        let new_dna = crossover(selector, &dna1, &dna2);
        self.mint(who, new_dna)
    }

    /// Breeds kitties `first` and `second` of `who` with a freshly drawn
    /// selector. Breeding reserves no collateral.
    pub fn breed(
        &mut self,
        who: AccountId,
        first: KittyIndex,
        second: KittyIndex,
        seed: &RandomSeed,
        index: Option<u32>,
    ) -> (r: Result<KittyIndex, Error>)
        requires
            old(self).wf(),
        ensures
            final(self).wf(),
            r == old(self)@.breed_check(who, first, second),
            counter_of(old(self)@.count) <= counter_of(final(self)@.count),
            first == second ==> r == Err::<KittyIndex, Error>(Error::BreedFromSameParent),
            r matches Ok(id) ==> {
                &&& !old(self)@.genomes.contains_key(id)
                &&& old(self)@.minted(final(self)@, who, final(self)@.genomes[id], id)
                &&& final(self)@.genomes[id].0@ == crossover_spec(
                    blake2_128_of(random_payload(*seed, who, index)),
                    old(self)@.genomes[first].0@,
                    old(self)@.genomes[second].0@,
                )
            },
            r is Err ==> final(self)@ == old(self)@,
    {
        let selector = random_value(seed, who, index);
        self.breed_with_selector(who, first, second, &selector)
    }

    /// Lists kitty `kitty_id` of `who` at `price`, or withdraws it from sale
    /// when `price` is absent. Fails with `NotCorrectOwner`, changing nothing,
    /// unless `who` owns the kitty.
    pub fn sell(&mut self, who: AccountId, kitty_id: KittyIndex, price: Option<Balance>) -> (r: Result<(), Error>)
        requires
            old(self).wf(),
        ensures
            final(self).wf(),
            r is Ok <==> (old(self)@.owners.contains_key(kitty_id) && old(self)@.owners[kitty_id] == who),
            counter_of(old(self)@.count) == counter_of(final(self)@.count),
            r is Err ==> r == Err::<(), Error>(Error::NotCorrectOwner) && final(self)@ == old(self)@,
            r is Ok ==> final(self)@ == (PalletView {
                prices: match price {
                    Some(p) => old(self)@.prices.insert(kitty_id, p),
                    None => old(self)@.prices.remove(kitty_id),
                },
                events: old(self)@.events.push(
                    match price {
                        Some(_) => Event::KittySale(who, kitty_id, price),
                        None => Event::ErrorSalePrice(who, kitty_id),
                    },
                ),
                ..old(self)@
            }),
    {
        match self.owners.get(&kitty_id) {
            Some(owner) => {
                if *owner != who {
                    return Err(Error::NotCorrectOwner);
                }
            },
            None => {
                return Err(Error::NotCorrectOwner);
            },
        }
        match price {
            Some(p) => {
                self.prices.insert(kitty_id, p);
                self.events.push(Event::KittySale(who, kitty_id, price));
            },
            None => {
                self.prices.remove(&kitty_id);
                self.events.push(Event::ErrorSalePrice(who, kitty_id));
            },
        }
        Ok(())
    }

    /// `buyer` buys kitty `kitty_id` at its listed price. Before any currency
    /// moves it fails with `InvalidKittyIndex` when the kitty does not exist,
    /// `KittyAlreadyOwned` when `buyer` owns it, `NotForSale` when it has no
    /// price and `NotEnoughBalance` when the collateral cannot be reserved
    /// from `buyer`. Then the seller's collateral is released and the price
    /// is paid from `buyer` to the seller: the seller must end at or above
    /// the existential deposit and the buyer must keep it. An error of the
    /// payment is passed on and the whole purchase undone. On success the
    /// listing is cleared and `buyer` owns the kitty.
    pub fn buy(&mut self, currency: &mut Balances, buyer: AccountId, kitty_id: KittyIndex) -> (r: Result<(), DispatchError>)
        requires
            old(self).wf(),
            old(currency).wf(),
        ensures
            final(self).wf(),
            final(currency).wf(),
            counter_of(old(self)@.count) == counter_of(final(self)@.count),
            ({
                let v = old(self)@;
                let b0 = old(currency).account(buyer);
                let seller = v.owners[kitty_id];
                let price = v.prices[kitty_id];
                let b1 = after_reserve(b0, v.reserve);
                let s1 = after_unreserve(old(currency).account(seller), v.reserve);
                let paid = Balances::transfer_rule(b1, s1, price, old(currency).min_balance(), true);
                &&& v.buy_check(buyer, kitty_id) matches Err(e) ==> r == Err::<(), DispatchError>(DispatchError::Module(e))
                &&& v.buy_check(buyer, kitty_id) is Ok && !can_reserve(b0, v.reserve) ==> r == Err::<(), DispatchError>(
                    DispatchError::Module(Error::NotEnoughBalance),
                )
                &&& v.buy_check(buyer, kitty_id) is Ok && can_reserve(b0, v.reserve) && price != 0 ==> (paid matches Err(e) ==> r == Err::<(), DispatchError>(DispatchError::Ledger(e)))
                &&& r is Ok <==> (v.buy_check(buyer, kitty_id) is Ok && can_reserve(b0, v.reserve) && (price == 0 || paid is Ok))
                &&& r is Ok ==> {
                    &&& final(self)@ == (PalletView {
                        owners: v.owners.insert(kitty_id, buyer),
                        prices: v.prices.remove(kitty_id),
                        events: v.events.push(Event::KittyTransfered(seller, buyer, kitty_id)),
                        ..v
                    })
                    &&& final(currency).account(buyer) == (AccountData { free: (b1.free - price) as u64, reserved: b1.reserved })
                    &&& final(currency).account(seller) == (AccountData { free: (s1.free + price) as u64, reserved: s1.reserved })
                    &&& forall|a: AccountId| a != buyer && a != seller ==> #[trigger] final(currency).account(a) == old(currency).account(a)
                    &&& final(currency).min_balance() == old(currency).min_balance()
                }
            }),
            old(self)@.owners.contains_key(kitty_id) && old(self)@.owners[kitty_id] == buyer ==> r == Err::<
                (),
                DispatchError,
            >(DispatchError::Module(Error::KittyAlreadyOwned)),
            old(self)@.owners.contains_key(kitty_id) && old(self)@.owners[kitty_id] != buyer
                && !old(self)@.prices.contains_key(kitty_id) ==> r == Err::<(), DispatchError>(
                DispatchError::Module(Error::NotForSale),
            ),
            r is Err ==> final(self)@ == old(self)@ && final(currency).agrees_with(old(currency)),
    {
        let seller = match self.owners.get(&kitty_id) {
            Some(o) => *o,
            None => {
                return Err(DispatchError::Module(Error::InvalidKittyIndex));
            },
        };
        if seller == buyer {
            return Err(DispatchError::Module(Error::KittyAlreadyOwned));
        }
        let price = match self.prices.get(&kitty_id) {
            Some(p) => *p,
            None => {
                return Err(DispatchError::Module(Error::NotForSale));
            },
        };
        let reserve = self.reserve_of_kitty_create;
        let buyer_before = currency.get_account(buyer);
        let seller_before = currency.get_account(seller);
        assert(old(currency).free(buyer) + old(currency).reserved(buyer) <= u64::MAX);
        assert(old(currency).free(seller) + old(currency).reserved(seller) <= u64::MAX);
        if currency.reserve(buyer, reserve).is_err() {
            return Err(DispatchError::Module(Error::NotEnoughBalance));
        }
        currency.unreserve(seller, reserve);
        if let Err(e) = currency.transfer(buyer, seller, price, true) {
            currency.set_account(seller, seller_before);
            currency.set_account(buyer, buyer_before);
            return Err(DispatchError::Ledger(e));
        }
        self.prices.remove(&kitty_id);
        self.transfer_kitty(seller, buyer, kitty_id);
        Ok(())
    }
}

} // verus!
