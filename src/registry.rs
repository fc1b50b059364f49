use vstd::prelude::*;

use crate::utils::{bytes_eq, bytes_to_upper, upper};

verus! {

/// The kind of token a ticker was registered for.
#[derive(Clone, Copy, Debug, PartialEq, Eq, Structural)]
pub enum TokenType {
    AssetToken,
    ConfidentialAssetToken,
    Erc20Token,
}

impl Default for TokenType {
    fn default() -> (r: Self)
        ensures
            r == TokenType::AssetToken,
    {
        TokenType::AssetToken
    }
}

/// What the registry records for a ticker.
#[derive(Clone, Copy, Debug, PartialEq, Eq, Structural)]
pub struct RegistryEntry {
    pub token_type: u32,
    pub owner: u64,
}

/// Why a registration was refused.
#[derive(Clone, Copy, Debug, PartialEq, Eq, Structural)]
pub enum RegistryError {
    /// The ticker, in upper case, is registered already.
    TickerExists,
}

/// The global ticker namespace. Keys are stored in upper case, so that two
/// tickers that differ only in case are one ticker.
pub struct Module {
    entries: Vec<(Vec<u8>, RegistryEntry)>,
    model: Ghost<Map<Seq<u8>, RegistryEntry>>,
}

impl View for Module {
    type V = Map<Seq<u8>, RegistryEntry>;

    closed spec fn view(&self) -> Map<Seq<u8>, RegistryEntry> {
        self.model@
    }
}

impl Module {
    /// The stored entries agree with the model, keys are unique and every
    /// key is in canonical form.
    pub closed spec fn wf(&self) -> bool {
        &&& forall|i: int|
            0 <= i < self.entries@.len() ==> {
                &&& #[trigger] self.model@.contains_key(self.entries@[i].0@)
                &&& self.model@[self.entries@[i].0@] == self.entries@[i].1
            }
        &&& forall|k: Seq<u8>|
            #[trigger] self.model@.contains_key(k) ==> exists|i: int|
                0 <= i < self.entries@.len() && #[trigger] self.entries@[i].0@ == k
        &&& forall|k: Seq<u8>| #[trigger] self.model@.contains_key(k) ==> upper(k) == k
    }

    /// An empty registry.
    pub fn new() -> (r: Module)
        ensures
            r.wf(),
            r@ == Map::<Seq<u8>, RegistryEntry>::empty(),
    {
        Module { entries: Vec::new(), model: Ghost(Map::empty()) }
    }

    /// Position of the canonical ticker `t` among the stored entries.
    fn find(&self, t: &Vec<u8>) -> (r: Option<usize>)
        requires
            self.wf(),
        ensures
            match r {
                Some(i) => i < self.entries@.len() && self.entries@[i as int].0@ == t@,
                None => !self@.contains_key(t@),
            },
    {
        let mut i: usize = 0;
        while i < self.entries.len()
            invariant
                i <= self.entries@.len(),
                forall|j: int| 0 <= j < i ==> self.entries@[j].0@ != t@,
            decreases self.entries@.len() - i,
        {
            if bytes_eq(&self.entries[i].0, t) {
                return Some(i);
            }
            i = i + 1;
        }
        None
    }

    /// The entry of `ticker`, compared without regard to case.
    pub fn get(&self, ticker: Vec<u8>) -> (r: Option<RegistryEntry>)
        requires
            self.wf(),
        ensures
            r == (if self@.contains_key(upper(ticker@)) {
                Some(self@[upper(ticker@)])
            } else {
                None
            }),
    {
        let t = bytes_to_upper(ticker.as_slice());
        match self.find(&t) {
            Some(i) => Some(self.entries[i].1),
            None => None,
        }
    }

    /// Registers `ticker` (in upper case) with `entry`, unless it is taken.
    pub fn put(&mut self, ticker: Vec<u8>, entry: &RegistryEntry) -> (r: Result<(), RegistryError>)
        requires
            old(self).wf(),
        ensures
            final(self).wf(),
            r == (if old(self)@.contains_key(upper(ticker@)) {
                Err(RegistryError::TickerExists)
            } else {
                Ok(())
            }),
            r is Ok ==> final(self)@ == old(self)@.insert(upper(ticker@), *entry),
            r is Err ==> final(self)@ == old(self)@,
    {
        let t = bytes_to_upper(ticker.as_slice());
        if self.find(&t).is_some() {
            return Err(RegistryError::TickerExists);
        }
        let ghost k = t@;
        let ghost old_entries = self.entries@;
        self.entries.push((t, *entry));
        self.model = Ghost(self.model@.insert(k, *entry));
        assert forall|i: int| 0 <= i < self.entries@.len() implies {
            &&& #[trigger] self.model@.contains_key(self.entries@[i].0@)
            &&& self.model@[self.entries@[i].0@] == self.entries@[i].1
        } by {
            if i < old_entries.len() {
                assert(self.entries@[i] == old_entries[i]);
            }
        }
        assert forall|q: Seq<u8>| #[trigger] self.model@.contains_key(q) implies exists|i: int|
            0 <= i < self.entries@.len() && #[trigger] self.entries@[i].0@ == q by {
            if q == k {
                assert(self.entries@[old_entries.len() as int].0@ == q);
            } else {
                let i = choose|i: int| 0 <= i < old_entries.len() && #[trigger] old_entries[i].0@ == q;
                assert(self.entries@[i] == old_entries[i]);
            }
        }
        assert(upper(k) == k) by {
            assert(upper(upper(ticker@)) =~= upper(ticker@));
        }
        Ok(())
    }
}

} // verus!
