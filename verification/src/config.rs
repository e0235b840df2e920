use crate::keys_storage::{InMemoryKeysStorage, KeysStorage};
use crate::string_set::{distinct, texts};
use vstd::prelude::*;

verus! {

/// What is kept between two runs: the keys whose values are hidden.
#[derive(Debug)]
pub struct Config {
    pub sensitive_keys: Option<Vec<String>>,
}

impl Config {
    /// The keys that the record names, as texts: none where it names none.
    pub open spec fn key_texts(&self) -> Seq<Seq<char>> {
        match self.sensitive_keys {
            Some(keys) => texts(keys@),
            None => Seq::empty(),
        }
    }

    /// The storage that a run starts with: the keys of the record, each once.
    pub fn storage(&self) -> (storage: InMemoryKeysStorage)
        ensures
            storage.listing() == distinct(self.key_texts()),
            storage.keys() == self.key_texts().to_set(),
    {
        match &self.sensitive_keys {
            Some(keys) => InMemoryKeysStorage::init_with(keys),
            None => {
                let storage = InMemoryKeysStorage::new();
                assert(self.key_texts().to_set() =~= Set::<Seq<char>>::empty());
                storage
            },
        }
    }

    /// The record of what `storage` holds: every key, each once.
    pub fn of<S: KeysStorage>(storage: &S) -> (config: Config)
        ensures
            config.sensitive_keys is Some,
            config.key_texts().no_duplicates(),
            config.key_texts().to_set() == storage.keys(),
    {
        Config { sensitive_keys: Some(storage.all()) }
    }
}

impl Default for Config {
    /// The record of a first run: it names its keys, and there are none.
    fn default() -> (config: Config)
        ensures
            config.sensitive_keys is Some,
            config.key_texts() == Seq::<Seq<char>>::empty(),
    {
        Config { sensitive_keys: Some(Vec::new()) }
    }
}

} // verus!
