use vstd::hash_map::StringHashMap;
use vstd::prelude::*;

verus! {

/// The symbols seen so far, each name with the handle to its data.
///
/// A handle is cheap to clone. Entries are made on first reference and never
/// removed or replaced.
#[verifier::reject_recursive_types(H)]
pub struct Registry<H> {
    symbols: StringHashMap<H>,
}

impl<H> View for Registry<H> {
    type V = Map<Seq<char>, H>;

    closed spec fn view(&self) -> Map<Seq<char>, H> {
        self.symbols@
    }
}

impl<H> Default for Registry<H> {
    fn default() -> (registry: Self)
        ensures
            registry@ == Map::<Seq<char>, H>::empty(),
    {
        Registry { symbols: StringHashMap::new() }
    }
}

impl<H: Clone> Registry<H> {
    /// Returns a clone of the handle of `symbol`, if it has one. This needs
    /// shared access only.
    pub fn get(&self, symbol: &str) -> (handle: Option<H>)
        ensures
            match handle {
                Some(handle) => self@.contains_key(symbol@) && cloned(self@[symbol@], handle),
                None => !self@.contains_key(symbol@),
            },
    {
        match self.symbols.get(symbol) {
            Some(handle) => Some(handle.clone()),
            None => None,
        }
    }
}

impl<H: Clone + Default> Registry<H> {
    /// Returns a clone of the handle of `symbol`, after making a default one
    /// if it had none. This needs exclusive access.
    pub fn get_or_create(&mut self, symbol: &str) -> (handle: H)
        ensures
            final(self)@.dom() == old(self)@.dom().insert(symbol@),
            forall|name: Seq<char>|
                old(self)@.contains_key(name) ==> final(self)@[name] == old(self)@[name],
            !old(self)@.contains_key(symbol@) ==> call_ensures(
                H::default,
                (),
                final(self)@[symbol@],
            ),
            cloned(final(self)@[symbol@], handle),
    {
        if !self.symbols.contains_key(symbol) {
            self.symbols.insert(symbol.to_owned(), H::default());
        }
        assert(final(self)@.dom() =~= old(self)@.dom().insert(symbol@));
        self.symbols.get(symbol).unwrap().clone()
    }
}

} // verus!
