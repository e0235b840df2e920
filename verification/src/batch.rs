use crate::hide_args::HideArgs;
use crate::keys_storage::error::{Error, ErrorView};
use crate::keys_storage::laws::{keys_after_put, keys_after_remove};
use crate::keys_storage::{
    outcome_view, put_allowed, put_outcome, remove_allowed, remove_outcome, KeysStorage,
};
use crate::string_set::texts;
use vstd::prelude::*;

verus! {

/// What a list of outcomes is as mathematical values.
pub open spec fn outcome_views(outcomes: Seq<Result<(), Error>>) -> Seq<Result<(), ErrorView>> {
    outcomes.map_values(|outcome: Result<(), Error>| outcome_view(outcome))
}

/// The keys among the first `count` of `keys` whose operation succeeded, going by
/// `outcomes`.
pub open spec fn accepted(keys: Seq<Seq<char>>, outcomes: Seq<Result<(), ErrorView>>, count: int) -> Set<
    Seq<char>,
> {
    Set::new(|key: Seq<char>| exists|i: int| 0 <= i < count && keys[i] == key && outcomes[i] is Ok)
}

/// Whether `outcomes` can be what the puts of `keys`, one after the other, came to on a
/// storage that held `before`: one outcome for each key, and each put as a put may be,
/// given what the puts before it left.
pub open spec fn puts_in_turn(
    before: Set<Seq<char>>,
    keys: Seq<Seq<char>>,
    outcomes: Seq<Result<(), ErrorView>>,
) -> bool {
    &&& outcomes.len() == keys.len()
    &&& forall|i: int|
        0 <= i < keys.len() ==> put_allowed(
            before + accepted(keys, outcomes, i),
            keys[i],
            #[trigger] outcomes[i],
            before + accepted(keys, outcomes, i + 1),
        )
}

/// Whether `outcomes` can be what the removals of `keys`, one after the other, came to on a
/// storage that held `before`: one outcome for each key, and each removal as a removal may
/// be, given what the removals before it left.
pub open spec fn removals_in_turn(
    before: Set<Seq<char>>,
    keys: Seq<Seq<char>>,
    outcomes: Seq<Result<(), ErrorView>>,
) -> bool {
    &&& outcomes.len() == keys.len()
    &&& forall|i: int|
        0 <= i < keys.len() ==> remove_allowed(
            before - accepted(keys, outcomes, i),
            keys[i],
            #[trigger] outcomes[i],
            before - accepted(keys, outcomes, i + 1),
        )
}

/// What a storage that refuses a key for the key's sake only holds after the puts of
/// `keys`: what it held, and every key of the list but the empty one.
pub open spec fn keys_after_adding(before: Set<Seq<char>>, keys: Seq<Seq<char>>) -> Set<Seq<char>> {
    Set::new(|key: Seq<char>| before.contains(key) || (keys.contains(key) && key.len() > 0))
}

/// What a storage that refuses a key for the key's sake only holds after the removals of
/// `keys`: what it held, but no key of the list.
pub open spec fn keys_after_removing(before: Set<Seq<char>>, keys: Seq<Seq<char>>) -> Set<
    Seq<char>,
> {
    Set::new(|key: Seq<char>| before.contains(key) && !keys.contains(key))
}

/// How the puts of `keys`, one after the other, end on a storage that held `before` and
/// refuses a key for the key's sake only.
pub open spec fn put_outcomes(before: Set<Seq<char>>, keys: Seq<Seq<char>>) -> Seq<
    Result<(), ErrorView>,
> {
    Seq::new(keys.len(), |i: int| put_outcome(keys_after_adding(before, keys.take(i)), keys[i]))
}

/// How the removals of `keys`, one after the other, end on a storage that held `before` and
/// refuses a key for the key's sake only.
pub open spec fn remove_outcomes(before: Set<Seq<char>>, keys: Seq<Seq<char>>) -> Seq<
    Result<(), ErrorView>,
> {
    Seq::new(
        keys.len(),
        |i: int| remove_outcome(keys_after_removing(before, keys.take(i)), keys[i]),
    )
}

/// The line that reports how the put of `key` ended.
pub open spec fn put_report(key: Seq<char>, outcome: Result<(), ErrorView>) -> Seq<char> {
    match outcome {
        Ok(()) => "saved "@ + key,
        Err(error) => error.message(),
    }
}

/// The line that reports how the removal of `key` ended.
pub open spec fn remove_report(key: Seq<char>, outcome: Result<(), ErrorView>) -> Seq<char> {
    match outcome {
        Ok(()) => "removed "@ + key,
        Err(error) => error.message(),
    }
}

/// One more operation adds its key to the accepted ones if it succeeded, and nothing if it
/// failed; an outcome that comes later changes nothing.
proof fn lemma_accepted_step(keys: Seq<Seq<char>>, outcomes: Seq<Result<(), ErrorView>>, count: int)
    requires
        0 <= count < outcomes.len(),
    ensures
        accepted(keys, outcomes, 0) == Set::<Seq<char>>::empty(),
        accepted(keys, outcomes, count + 1) == if outcomes[count] is Ok {
            accepted(keys, outcomes, count).insert(keys[count])
        } else {
            accepted(keys, outcomes, count)
        },
        accepted(keys, outcomes.drop_last(), count) == accepted(keys, outcomes, count),
{
    let more = accepted(keys, outcomes, count + 1);
    let fewer = accepted(keys, outcomes, count);
    let shorter = accepted(keys, outcomes.drop_last(), count);
    assert(accepted(keys, outcomes, 0) =~= Set::<Seq<char>>::empty());
    assert forall|key: Seq<char>| more.contains(key) <==> (fewer.contains(key) || (key
        == keys[count] && outcomes[count] is Ok)) by {
        if more.contains(key) {
            let i = choose|i: int| 0 <= i < count + 1 && keys[i] == key && outcomes[i] is Ok;
            if i < count {
                assert(fewer.contains(key));
            }
        }
        if fewer.contains(key) {
            let i = choose|i: int| 0 <= i < count && keys[i] == key && outcomes[i] is Ok;
            assert(0 <= i < count + 1);
        }
    }
    assert(more =~= if outcomes[count] is Ok {
        fewer.insert(keys[count])
    } else {
        fewer
    });
    assert forall|key: Seq<char>| shorter.contains(key) <==> fewer.contains(key) by {
        if shorter.contains(key) {
            let i = choose|i: int|
                0 <= i < count && keys[i] == key && outcomes.drop_last()[i] is Ok;
            assert(outcomes[i] is Ok);
        }
        if fewer.contains(key) {
            let i = choose|i: int| 0 <= i < count && keys[i] == key && outcomes[i] is Ok;
            assert(outcomes.drop_last()[i] is Ok);
        }
    }
    assert(shorter =~= fewer);
}

/// A list that is one key longer holds what the shorter one held, and that key.
proof fn lemma_take_one_more(keys: Seq<Seq<char>>, count: int)
    requires
        0 <= count < keys.len(),
    ensures
        forall|key: Seq<char>|
            keys.take(count + 1).contains(key) <==> (keys.take(count).contains(key) || key
                == keys[count]),
{
    assert forall|key: Seq<char>|
        keys.take(count + 1).contains(key) <==> (keys.take(count).contains(key) || key
            == keys[count]) by {
        if keys.take(count).contains(key) {
            let i = choose|i: int| 0 <= i < count && keys.take(count)[i] == key;
            assert(keys.take(count + 1)[i] == key);
        }
        if key == keys[count] {
            assert(keys.take(count + 1)[count] == key);
        }
    }
}

/// To put a list of keys is to put them one after the other: with one more key at the end
/// of the list, the storage holds what the put of that key leaves of what it held after the
/// others. The same holds of removals.
pub proof fn one_more_key(before: Set<Seq<char>>, keys: Seq<Seq<char>>, key: Seq<char>)
    ensures
        keys_after_adding(before, Seq::empty()) == before,
        keys_after_adding(before, keys.push(key)) == keys_after_put(
            keys_after_adding(before, keys),
            key,
        ),
        keys_after_removing(before, Seq::empty()) == before,
        keys_after_removing(before, keys.push(key)) == keys_after_remove(
            keys_after_removing(before, keys),
            key,
        ),
{
    let longer = keys.push(key);
    assert(longer.take(keys.len() as int) == keys);
    assert(longer[keys.len() as int] == key);
    lemma_take_one_more(longer, keys.len() as int);
    assert(longer.take(keys.len() as int + 1) == longer);
    assert(keys_after_adding(before, Seq::empty()) =~= before);
    assert(keys_after_removing(before, Seq::empty()) =~= before);
    assert(keys_after_adding(before, longer) =~= keys_after_put(
        keys_after_adding(before, keys),
        key,
    ));
    assert(keys_after_removing(before, longer) =~= keys_after_remove(
        keys_after_removing(before, keys),
        key,
    ));
}

/// Renders the line that reports how the put of `key` ended.
pub fn put_message(key: &str, outcome: &Result<(), Error>) -> (line: String)
    ensures
        line@ == put_report(key@, outcome_view(*outcome)),
{
    match outcome {
        Ok(()) => String::from_str("saved ").concat(key),
        Err(error) => error.to_string(),
    }
}

/// Renders the line that reports how the removal of `key` ended.
pub fn remove_message(key: &str, outcome: &Result<(), Error>) -> (line: String)
    ensures
        line@ == remove_report(key@, outcome_view(*outcome)),
{
    match outcome {
        Ok(()) => String::from_str("removed ").concat(key),
        Err(error) => error.to_string(),
    }
}

/// Puts each key of `keys` into `storage`, in the order of the list, and goes on after a
/// key that the storage refuses. Returns how each put ended.
pub fn add_keys<S: KeysStorage>(storage: &mut S, keys: &Vec<String>) -> (outcomes: Vec<
    Result<(), Error>,
>)
    ensures
        puts_in_turn(old(storage).keys(), texts(keys@), outcome_views(outcomes@)),
        final(storage).keys() == old(storage).keys() + accepted(
            texts(keys@),
            outcome_views(outcomes@),
            keys@.len() as int,
        ),
        S::dependable() ==> outcome_views(outcomes@) == put_outcomes(
            old(storage).keys(),
            texts(keys@),
        ),
        S::dependable() ==> final(storage).keys() == keys_after_adding(
            old(storage).keys(),
            texts(keys@),
        ),
{
    let ghost before = storage.keys();
    let ghost listed = texts(keys@);
    let mut outcomes: Vec<Result<(), Error>> = Vec::with_capacity(keys.len());
    let mut i: usize = 0;
    assert(before + accepted(listed, outcome_views(outcomes@), 0) =~= before);
    assert(keys_after_adding(before, listed.take(0)) =~= before);
    while i < keys.len()
        invariant
            i <= keys.len(),
            listed == texts(keys@),
            outcomes@.len() == i,
            forall|j: int|
                0 <= j < i ==> put_allowed(
                    before + accepted(listed, outcome_views(outcomes@), j),
                    listed[j],
                    #[trigger] outcome_views(outcomes@)[j],
                    before + accepted(listed, outcome_views(outcomes@), j + 1),
                ),
            storage.keys() == before + accepted(listed, outcome_views(outcomes@), i as int),
            S::dependable() ==> forall|j: int|
                0 <= j < i ==> #[trigger] outcome_views(outcomes@)[j] == put_outcome(
                    keys_after_adding(before, listed.take(j)),
                    listed[j],
                ),
            S::dependable() ==> storage.keys() == keys_after_adding(before, listed.take(i as int)),
        decreases keys.len() - i,
    {
        let ghost earlier = outcome_views(outcomes@);
        let outcome = storage.put(keys[i].as_str());
        outcomes.push(outcome);
        proof {
            let now = outcome_views(outcomes@);
            assert(now == earlier.push(outcome_view(outcome)));
            assert(now.drop_last() == earlier);
            assert forall|j: int| 0 <= j <= i implies accepted(listed, now, j) == accepted(
                listed,
                earlier,
                j,
            ) by {
                lemma_accepted_step(listed, now, j);
            }
            lemma_accepted_step(listed, now, i as int);
            assert(storage.keys() =~= before + accepted(listed, now, i + 1));
            lemma_take_one_more(listed, i as int);
            if S::dependable() {
                assert(storage.keys() =~= keys_after_adding(before, listed.take(i + 1)));
            }
        }
        i += 1;
    }
    proof {
        assert(listed.take(keys@.len() as int) == listed);
        if S::dependable() {
            assert(outcome_views(outcomes@) =~= put_outcomes(before, listed));
        }
    }
    outcomes
}

/// Takes each key of `keys` out of `storage`, in the order of the list, and goes on after a
/// key that the storage refuses. Returns how each removal ended.
pub fn remove_keys<S: KeysStorage>(storage: &mut S, keys: &Vec<String>) -> (outcomes: Vec<
    Result<(), Error>,
>)
    ensures
        removals_in_turn(old(storage).keys(), texts(keys@), outcome_views(outcomes@)),
        final(storage).keys() == old(storage).keys() - accepted(
            texts(keys@),
            outcome_views(outcomes@),
            keys@.len() as int,
        ),
        S::dependable() ==> outcome_views(outcomes@) == remove_outcomes(
            old(storage).keys(),
            texts(keys@),
        ),
        S::dependable() ==> final(storage).keys() == keys_after_removing(
            old(storage).keys(),
            texts(keys@),
        ),
{
    let ghost before = storage.keys();
    let ghost listed = texts(keys@);
    let mut outcomes: Vec<Result<(), Error>> = Vec::with_capacity(keys.len());
    let mut i: usize = 0;
    assert(before - accepted(listed, outcome_views(outcomes@), 0) =~= before);
    assert(keys_after_removing(before, listed.take(0)) =~= before);
    while i < keys.len()
        invariant
            i <= keys.len(),
            listed == texts(keys@),
            outcomes@.len() == i,
            forall|j: int|
                0 <= j < i ==> remove_allowed(
                    before - accepted(listed, outcome_views(outcomes@), j),
                    listed[j],
                    #[trigger] outcome_views(outcomes@)[j],
                    before - accepted(listed, outcome_views(outcomes@), j + 1),
                ),
            storage.keys() == before - accepted(listed, outcome_views(outcomes@), i as int),
            S::dependable() ==> forall|j: int|
                0 <= j < i ==> #[trigger] outcome_views(outcomes@)[j] == remove_outcome(
                    keys_after_removing(before, listed.take(j)),
                    listed[j],
                ),
            S::dependable() ==> storage.keys() == keys_after_removing(before, listed.take(i as int)),
        decreases keys.len() - i,
    {
        let ghost earlier = outcome_views(outcomes@);
        let outcome = storage.remove(keys[i].as_str());
        outcomes.push(outcome);
        proof {
            let now = outcome_views(outcomes@);
            assert(now == earlier.push(outcome_view(outcome)));
            assert(now.drop_last() == earlier);
            assert forall|j: int| 0 <= j <= i implies accepted(listed, now, j) == accepted(
                listed,
                earlier,
                j,
            ) by {
                lemma_accepted_step(listed, now, j);
            }
            lemma_accepted_step(listed, now, i as int);
            assert(storage.keys() =~= before - accepted(listed, now, i + 1));
            lemma_take_one_more(listed, i as int);
            if S::dependable() {
                assert(storage.keys() =~= keys_after_removing(before, listed.take(i + 1)));
            }
        }
        i += 1;
    }
    proof {
        assert(listed.take(keys@.len() as int) == listed);
        if S::dependable() {
            assert(outcome_views(outcomes@) =~= remove_outcomes(before, listed));
        }
    }
    outcomes
}

/// Makes the changes that the command line asks for: puts the keys to add, then takes out
/// the keys to remove. Returns how each put and how each removal ended.
pub fn update_keys<S: KeysStorage>(storage: &mut S, args: &HideArgs) -> (outcomes: (
    Vec<Result<(), Error>>,
    Vec<Result<(), Error>>,
))
    ensures
        puts_in_turn(old(storage).keys(), texts(args.add_keys@), outcome_views(outcomes.0@)),
        removals_in_turn(
            old(storage).keys() + accepted(
                texts(args.add_keys@),
                outcome_views(outcomes.0@),
                args.add_keys@.len() as int,
            ),
            texts(args.remove_keys@),
            outcome_views(outcomes.1@),
        ),
        final(storage).keys() == old(storage).keys() + accepted(
            texts(args.add_keys@),
            outcome_views(outcomes.0@),
            args.add_keys@.len() as int,
        ) - accepted(
            texts(args.remove_keys@),
            outcome_views(outcomes.1@),
            args.remove_keys@.len() as int,
        ),
        S::dependable() ==> outcome_views(outcomes.0@) == put_outcomes(
            old(storage).keys(),
            texts(args.add_keys@),
        ),
        S::dependable() ==> outcome_views(outcomes.1@) == remove_outcomes(
            keys_after_adding(old(storage).keys(), texts(args.add_keys@)),
            texts(args.remove_keys@),
        ),
        S::dependable() ==> final(storage).keys() == keys_after_removing(
            keys_after_adding(old(storage).keys(), texts(args.add_keys@)),
            texts(args.remove_keys@),
        ),
{
    let added = add_keys(storage, &args.add_keys);
    let removed = remove_keys(storage, &args.remove_keys);
    (added, removed)
}

} // verus!
