use crate::keys_storage::error::ErrorView;
use crate::keys_storage::{put_allowed, put_outcome, remove_allowed, remove_outcome};
use vstd::prelude::*;

verus! {

/// What a storage that refuses a key for the key's sake only holds after the put of `key`.
pub open spec fn keys_after_put(keys: Set<Seq<char>>, key: Seq<char>) -> Set<Seq<char>> {
    if put_outcome(keys, key) is Ok {
        keys.insert(key)
    } else {
        keys
    }
}

/// What a storage that refuses a key for the key's sake only holds after the removal of
/// `key`.
pub open spec fn keys_after_remove(keys: Set<Seq<char>>, key: Seq<char>) -> Set<Seq<char>> {
    keys.remove(key)
}

/// Where only the key decides how a put ends, it decides what the storage holds afterwards
/// too.
pub proof fn decided_put_leaves(before: Set<Seq<char>>, key: Seq<char>, after: Set<Seq<char>>)
    requires
        put_allowed(before, key, put_outcome(before, key), after),
    ensures
        after == keys_after_put(before, key),
        after.contains(key) <==> before.contains(key) || key.len() > 0,
{
}

/// Where only the key decides how a removal ends, it decides what the storage holds
/// afterwards too, and the key is not among it.
pub proof fn decided_removal_leaves(before: Set<Seq<char>>, key: Seq<char>, after: Set<Seq<char>>)
    requires
        remove_allowed(before, key, remove_outcome(before, key), after),
    ensures
        after == keys_after_remove(before, key),
        !after.contains(key),
{
    if !before.contains(key) {
        assert(before.remove(key) =~= before);
    }
}

/// The empty key is refused, whatever the storage holds, and the storage holds what it
/// held.
pub proof fn empty_key_is_refused(keys: Set<Seq<char>>)
    ensures
        put_outcome(keys, Seq::empty()) == Err::<(), ErrorView>(
            ErrorView::Other("Can't save empty string"@),
        ),
        keys_after_put(keys, Seq::empty()) == keys,
{
}

/// A key that was put is refused when it is put again, as a key that exists.
pub proof fn second_put_is_refused(keys: Set<Seq<char>>, key: Seq<char>)
    requires
        key.len() > 0,
    ensures
        put_outcome(keys_after_put(keys, key), key) == Err::<(), ErrorView>(
            ErrorView::KeyAlreadyExists(key),
        ),
        keys_after_put(keys_after_put(keys, key), key) == keys_after_put(keys, key),
{
}

/// The removal of a key that is not there is refused, as a key that was not found, and the
/// storage holds what it held.
pub proof fn removal_of_missing_key_is_refused(keys: Set<Seq<char>>, key: Seq<char>)
    requires
        !keys.contains(key),
    ensures
        remove_outcome(keys, key) == Err::<(), ErrorView>(ErrorView::KeyNotFound(key)),
        keys_after_remove(keys, key) == keys,
{
    assert(keys.remove(key) =~= keys);
}

/// A key that was removed is refused when it is removed again.
pub proof fn second_removal_is_refused(keys: Set<Seq<char>>, key: Seq<char>)
    ensures
        remove_outcome(keys_after_remove(keys, key), key) == Err::<(), ErrorView>(
            ErrorView::KeyNotFound(key),
        ),
{
}

/// The removal of a key that was new when it was put succeeds and gives back what the
/// storage held before the put.
pub proof fn removal_undoes_put(keys: Set<Seq<char>>, key: Seq<char>)
    requires
        key.len() > 0,
        !keys.contains(key),
    ensures
        put_outcome(keys, key) is Ok,
        remove_outcome(keys_after_put(keys, key), key) is Ok,
        keys_after_remove(keys_after_put(keys, key), key) == keys,
{
    assert(keys.insert(key).remove(key) =~= keys);
}

/// A put or a removal of one key changes nothing for another key.
pub proof fn other_keys_stay(keys: Set<Seq<char>>, key: Seq<char>, other: Seq<char>)
    requires
        other != key,
    ensures
        keys_after_put(keys, key).contains(other) == keys.contains(other),
        keys_after_remove(keys, key).contains(other) == keys.contains(other),
{
}

} // verus!
