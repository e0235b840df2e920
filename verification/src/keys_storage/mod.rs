use crate::keys_storage::error::{Error, ErrorView};
use crate::string_set::{distinct, lemma_distinct, texts, StringSet};
use vstd::prelude::*;

pub mod error;
pub mod laws;

verus! {

/// What a `put` or a `remove` came to, as a mathematical value.
pub open spec fn outcome_view(outcome: Result<(), Error>) -> Result<(), ErrorView> {
    match outcome {
        Ok(()) => Ok(()),
        Err(error) => Err(error@),
    }
}

/// What `put` returns for `key` where only the key decides: the empty key is refused, and so
/// is one that `keys` holds already.
pub open spec fn put_outcome(keys: Set<Seq<char>>, key: Seq<char>) -> Result<(), ErrorView> {
    if key.len() == 0 {
        Err(ErrorView::Other("Can't save empty string"@))
    } else if keys.contains(key) {
        Err(ErrorView::KeyAlreadyExists(key))
    } else {
        Ok(())
    }
}

/// What `remove` returns for `key` where only the key decides: a key that `keys` lacks is
/// refused.
pub open spec fn remove_outcome(keys: Set<Seq<char>>, key: Seq<char>) -> Result<(), ErrorView> {
    if keys.contains(key) {
        Ok(())
    } else {
        Err(ErrorView::KeyNotFound(key))
    }
}

/// What holds of every `put`, whatever stands behind the storage: a success has added a key
/// that was neither empty nor there; a failure has changed nothing, and one that says the
/// key exists names a key that does.
pub open spec fn put_allowed(
    before: Set<Seq<char>>,
    key: Seq<char>,
    outcome: Result<(), ErrorView>,
    after: Set<Seq<char>>,
) -> bool {
    match outcome {
        Ok(()) => key.len() > 0 && !before.contains(key) && after == before.insert(key),
        Err(error) => after == before && (error matches ErrorView::KeyAlreadyExists(named) ==> named
            == key && before.contains(key)),
    }
}

/// What holds of every `remove`, whatever stands behind the storage: a success has taken
/// out a key that was there; a failure has changed nothing, and one that says the key was
/// not found names a key that is not there.
pub open spec fn remove_allowed(
    before: Set<Seq<char>>,
    key: Seq<char>,
    outcome: Result<(), ErrorView>,
    after: Set<Seq<char>>,
) -> bool {
    match outcome {
        Ok(()) => before.contains(key) && after == before.remove(key),
        Err(error) => after == before && (error matches ErrorView::KeyNotFound(named) ==> named
            == key && !before.contains(key)),
    }
}

/// A set of the names of the fields whose values are to be hidden.
pub trait KeysStorage {
    /// The keys that the storage holds.
    spec fn keys(&self) -> Set<Seq<char>>;

    /// Whether a storage of this type refuses a key for the key's sake only: `put` an empty
    /// key or one that is there, `remove` one that is not. A storage in memory does; one
    /// that writes to a file or asks a service can fail for reasons of its own.
    spec fn dependable() -> bool;

    /// Adds `key`.
    fn put(&mut self, key: &str) -> (outcome: Result<(), Error>)
        ensures
            put_allowed(old(self).keys(), key@, outcome_view(outcome), final(self).keys()),
            Self::dependable() ==> outcome_view(outcome) == put_outcome(old(self).keys(), key@),
    ;

    /// Takes `key` out.
    fn remove(&mut self, key: &str) -> (outcome: Result<(), Error>)
        ensures
            remove_allowed(old(self).keys(), key@, outcome_view(outcome), final(self).keys()),
            Self::dependable() ==> outcome_view(outcome) == remove_outcome(
                old(self).keys(),
                key@,
            ),
    ;

    /// Whether `key` is one of the keys: the same characters, nothing folded.
    fn contains(&self, key: &str) -> (found: bool)
        ensures
            found == self.keys().contains(key@),
    ;

    /// Every key, each once.
    fn all(&self) -> (list: Vec<String>)
        ensures
            texts(list@).no_duplicates(),
            texts(list@).to_set() == self.keys(),
    ;
}

/// A key storage that lives in memory and keeps its keys in the order in which they came.
pub struct InMemoryKeysStorage {
    storage: StringSet,
}

impl InMemoryKeysStorage {
    /// The keys, first come first. None occurs twice.
    pub closed spec fn listing(&self) -> Seq<Seq<char>> {
        self.storage@
    }

    /// A storage without keys.
    pub fn new() -> (storage: Self)
        ensures
            storage.listing() == Seq::<Seq<char>>::empty(),
            storage.keys() == Set::<Seq<char>>::empty(),
    {
        let storage = InMemoryKeysStorage { storage: StringSet::new() };
        assert(storage.listing().to_set() =~= Set::<Seq<char>>::empty());
        storage
    }

    /// A storage that holds the strings of `set`, each once, whatever they are: the empty
    /// string too.
    pub fn init_with(set: &Vec<String>) -> (storage: Self)
        ensures
            storage.listing() == distinct(texts(set@)),
            storage.listing().no_duplicates(),
            storage.keys() == texts(set@).to_set(),
    {
        proof {
            lemma_distinct(texts(set@));
        }
        InMemoryKeysStorage { storage: StringSet::from_list(set) }
    }
}

impl KeysStorage for InMemoryKeysStorage {
    open spec fn keys(&self) -> Set<Seq<char>> {
        self.listing().to_set()
    }

    open spec fn dependable() -> bool {
        true
    }

    fn put(&mut self, key: &str) -> (outcome: Result<(), Error>)
        ensures
            final(self).listing() == if outcome is Ok {
                old(self).listing().push(key@)
            } else {
                old(self).listing()
            },
            final(self).listing().no_duplicates(),
    {
        proof {
            use_type_invariant(&self.storage);
        }
        if key.is_empty() {
            return Err(Error::Other(String::from_str("Can't save empty string")));
        }
        proof {
            self.listing().lemma_push_to_set_commute(key@);
        }
        match self.storage.insert(key.to_owned()) {
            true => Ok(()),
            false => Err(Error::KeyAlreadyExists(key.to_owned())),
        }
    }

    fn remove(&mut self, key: &str) -> (outcome: Result<(), Error>)
        ensures
            final(self).listing() == old(self).listing().remove_value(key@),
            final(self).listing().no_duplicates(),
    {
        match self.storage.remove(key) {
            true => Ok(()),
            false => Err(Error::KeyNotFound(key.to_owned())),
        }
    }

    fn contains(&self, key: &str) -> (found: bool) {
        self.storage.contains(key)
    }

    fn all(&self) -> (list: Vec<String>)
        ensures
            texts(list@) == self.listing(),
    {
        self.storage.to_vec()
    }
}

} // verus!
