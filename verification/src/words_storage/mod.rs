use crate::string_set::StringSet;
use crate::words_storage::error::{Error, ErrorView};
use vstd::prelude::*;

pub mod error;

verus! {

/// What a `put` or a `remove` came to, as a mathematical value.
pub open spec fn outcome_view(outcome: Result<(), Error>) -> Result<(), ErrorView> {
    match outcome {
        Ok(()) => Ok(()),
        Err(error) => Err(error@),
    }
}

/// What `put` returns for `word` where only the word decides: the empty word is refused,
/// and so is one that `words` holds already.
pub open spec fn put_outcome(words: Set<Seq<char>>, word: Seq<char>) -> Result<(), ErrorView> {
    if word.len() == 0 {
        Err(ErrorView::Other("Can't save empty string"@))
    } else if words.contains(word) {
        Err(ErrorView::WordAlreadyExists(word))
    } else {
        Ok(())
    }
}

/// What `remove` returns for `word` where only the word decides: a word that `words` lacks
/// is refused.
pub open spec fn remove_outcome(words: Set<Seq<char>>, word: Seq<char>) -> Result<(), ErrorView> {
    if words.contains(word) {
        Ok(())
    } else {
        Err(ErrorView::WordNotFound(word))
    }
}

/// What holds of every `put`, whatever stands behind the storage: a success has added a
/// word that was neither empty nor there; a failure has changed nothing, and one that says
/// the word exists names a word that does.
pub open spec fn put_allowed(
    before: Set<Seq<char>>,
    word: Seq<char>,
    outcome: Result<(), ErrorView>,
    after: Set<Seq<char>>,
) -> bool {
    match outcome {
        Ok(()) => word.len() > 0 && !before.contains(word) && after == before.insert(word),
        Err(error) => after == before && (error matches ErrorView::WordAlreadyExists(named)
            ==> named == word && before.contains(word)),
    }
}

/// What holds of every `remove`, whatever stands behind the storage: a success has taken
/// out a word that was there; a failure has changed nothing, and one that says the word was
/// not found names a word that is not there.
pub open spec fn remove_allowed(
    before: Set<Seq<char>>,
    word: Seq<char>,
    outcome: Result<(), ErrorView>,
    after: Set<Seq<char>>,
) -> bool {
    match outcome {
        Ok(()) => before.contains(word) && after == before.remove(word),
        Err(error) => after == before && (error matches ErrorView::WordNotFound(named) ==> named
            == word && !before.contains(word)),
    }
}

/// A set of words.
pub trait WordsStorage {
    /// The words that the storage holds.
    spec fn words(&self) -> Set<Seq<char>>;

    /// Whether a storage of this type refuses a word for the word's sake only: `put` an
    /// empty word or one that is there, `remove` one that is not.
    spec fn dependable() -> bool;

    /// Adds `word`.
    fn put(&mut self, word: &str) -> (outcome: Result<(), Error>)
        ensures
            put_allowed(old(self).words(), word@, outcome_view(outcome), final(self).words()),
            Self::dependable() ==> outcome_view(outcome) == put_outcome(old(self).words(), word@),
    ;

    /// Takes `word` out.
    fn remove(&mut self, word: &str) -> (outcome: Result<(), Error>)
        ensures
            remove_allowed(old(self).words(), word@, outcome_view(outcome), final(self).words()),
            Self::dependable() ==> outcome_view(outcome) == remove_outcome(
                old(self).words(),
                word@,
            ),
    ;

    /// Whether `word` is one of the words: the same characters, nothing folded.
    fn contains(&self, word: &str) -> (found: bool)
        ensures
            found == self.words().contains(word@),
    ;
}

/// A word storage that lives in memory and keeps its words in the order in which they came.
pub struct InMemoryWordsStorage {
    storage: StringSet,
}

impl InMemoryWordsStorage {
    /// The words, first come first. None occurs twice.
    pub closed spec fn listing(&self) -> Seq<Seq<char>> {
        self.storage@
    }

    /// A storage without words.
    pub fn new() -> (storage: InMemoryWordsStorage)
        ensures
            storage.listing() == Seq::<Seq<char>>::empty(),
            storage.words() == Set::<Seq<char>>::empty(),
    {
        let storage = InMemoryWordsStorage { storage: StringSet::new() };
        assert(storage.listing().to_set() =~= Set::<Seq<char>>::empty());
        storage
    }
}

impl WordsStorage for InMemoryWordsStorage {
    open spec fn words(&self) -> Set<Seq<char>> {
        self.listing().to_set()
    }

    open spec fn dependable() -> bool {
        true
    }

    fn put(&mut self, word: &str) -> (outcome: Result<(), Error>)
        ensures
            final(self).listing() == if outcome is Ok {
                old(self).listing().push(word@)
            } else {
                old(self).listing()
            },
            final(self).listing().no_duplicates(),
    {
        proof {
            use_type_invariant(&self.storage);
        }
        if word.is_empty() {
            return Err(Error::Other(String::from_str("Can't save empty string")));
        }
        proof {
            self.listing().lemma_push_to_set_commute(word@);
        }
        match self.storage.insert(word.to_owned()) {
            true => Ok(()),
            false => Err(Error::WordAlreadyExists(word.to_owned())),
        }
    }

    fn remove(&mut self, word: &str) -> (outcome: Result<(), Error>)
        ensures
            final(self).listing() == old(self).listing().remove_value(word@),
            final(self).listing().no_duplicates(),
    {
        match self.storage.remove(word) {
            true => Ok(()),
            false => Err(Error::WordNotFound(word.to_owned())),
        }
    }

    fn contains(&self, word: &str) -> (found: bool) {
        self.storage.contains(word)
    }
}

} // verus!
