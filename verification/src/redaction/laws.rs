use crate::json::{key_names, Json};
use crate::redaction::{hides_only_text, placeholder, redacted};
use vstd::prelude::*;

verus! {

/// A placeholder is null or a string, never an array or an object, and two values of one
/// kind have the same placeholder.
pub proof fn placeholder_tells_the_kind_only(value: Json, other: Json)
    ensures
        placeholder(value) is Null || placeholder(value) is String,
        value.same_kind(other) ==> placeholder(value) == placeholder(other),
        placeholder(value).same_kind(placeholder(placeholder(value))),
{
}

/// Redaction keeps the build of a document at its top: an array stays an array of the same
/// length, an object stays an object with the same keys in the same order, and anything
/// else stays what it is.
pub proof fn redaction_keeps_keys(doc: Json, keys: Set<Seq<char>>)
    ensures
        doc.same_keys(redacted(doc, keys)),
        !(doc is Array) && !(doc is Object) ==> redacted(doc, keys) == doc,
{
    if let Json::Object(entries) = doc {
        assert(key_names(redacted(doc, keys)->Object_0) =~= key_names(entries));
    }
}

/// Under a key that is hidden stands the placeholder of what stood there, and nothing of
/// what stood there: neither an array nor an object, and the same whatever value of that
/// kind `other` the entry had held.
pub proof fn redaction_short_circuits(
    entries: Seq<(Seq<char>, Json)>,
    keys: Set<Seq<char>>,
    i: int,
    other: Json,
)
    requires
        0 <= i < entries.len(),
        keys.contains(entries[i].0),
    ensures
        redacted(Json::Object(entries), keys)->Object_0[i] == (
            entries[i].0,
            placeholder(entries[i].1),
        ),
        !(redacted(Json::Object(entries), keys)->Object_0[i].1 is Array),
        !(redacted(Json::Object(entries), keys)->Object_0[i].1 is Object),
        other.same_kind(entries[i].1) ==> redacted(
            Json::Object(entries.update(i, (entries[i].0, other))),
            keys,
        ) == redacted(Json::Object(entries), keys),
{
    if other.same_kind(entries[i].1) {
        let changed = entries.update(i, (entries[i].0, other));
        assert(redacted(Json::Object(changed), keys)->Object_0 =~= redacted(
            Json::Object(entries),
            keys,
        )->Object_0);
    }
}

/// Redacting a second time changes no key, no length and no kind: the document that was
/// redacted twice is built like the one that was redacted once.
pub proof fn redaction_twice_keeps_shape(doc: Json, keys: Set<Seq<char>>)
    ensures
        redacted(redacted(doc, keys), keys).same_shape(redacted(doc, keys)),
    decreases doc,
{
    let once = redacted(doc, keys);
    let twice = redacted(once, keys);
    match doc {
        Json::Array(items) => {
            assert forall|i: int| 0 <= i < items.len() implies (#[trigger] twice->Array_0[i]).same_shape(
                once->Array_0[i],
            ) by {
                redaction_twice_keeps_shape(items[i], keys);
            }
        },
        Json::Object(entries) => {
            assert forall|i: int| 0 <= i < entries.len() implies (#[trigger] twice->Object_0[i]).0
                == once->Object_0[i].0 && twice->Object_0[i].1.same_shape(once->Object_0[i].1) by {
                if !keys.contains(entries[i].0) {
                    redaction_twice_keeps_shape(entries[i].1, keys);
                }
            }
        },
        _ => {},
    }
}

/// Where the redaction hides only nulls and strings, redacting a second time changes
/// nothing at all.
pub proof fn redaction_twice_is_once(doc: Json, keys: Set<Seq<char>>)
    requires
        hides_only_text(doc, keys),
    ensures
        redacted(redacted(doc, keys), keys) == redacted(doc, keys),
    decreases doc,
{
    let once = redacted(doc, keys);
    let twice = redacted(once, keys);
    match doc {
        Json::Array(items) => {
            assert forall|i: int| 0 <= i < items.len() implies #[trigger] twice->Array_0[i]
                == once->Array_0[i] by {
                redaction_twice_is_once(items[i], keys);
            }
            assert(twice->Array_0 =~= once->Array_0);
        },
        Json::Object(entries) => {
            assert forall|i: int| 0 <= i < entries.len() implies #[trigger] twice->Object_0[i]
                == once->Object_0[i] by {
                if !keys.contains(entries[i].0) {
                    redaction_twice_is_once(entries[i].1, keys);
                }
            }
            assert(twice->Object_0 =~= once->Object_0);
        },
        _ => {},
    }
}

/// No two placeholders of different kinds are the same.
pub proof fn placeholders_differ(value: Json, other: Json)
    ensures
        placeholder(value) == placeholder(other) <==> value.same_kind(other),
{
    reveal_strlit("Bool");
    reveal_strlit("Number");
    reveal_strlit("String");
    reveal_strlit("Array");
    reveal_strlit("Object");
    assert("Bool"@.len() == 4 && "Array"@.len() == 5);
    assert("Number"@[0] == 'N' && "String"@[0] == 'S' && "Object"@[0] == 'O');
}

/// Where the redaction hides anything but nulls and strings, redacting a second time does
/// change the document.
pub proof fn redaction_twice_differs(doc: Json, keys: Set<Seq<char>>)
    requires
        !hides_only_text(doc, keys),
    ensures
        redacted(redacted(doc, keys), keys) != redacted(doc, keys),
    decreases doc,
{
    let once = redacted(doc, keys);
    let twice = redacted(once, keys);
    match doc {
        Json::Array(items) => {
            let i = choose|i: int| 0 <= i < items.len() && !hides_only_text(#[trigger] items[i], keys);
            redaction_twice_differs(items[i], keys);
            assert(twice->Array_0[i] != once->Array_0[i]);
        },
        Json::Object(entries) => {
            let i = choose|i: int|
                0 <= i < entries.len() && !(if keys.contains((#[trigger] entries[i]).0) {
                    entries[i].1 is Null || entries[i].1 is String
                } else {
                    hides_only_text(entries[i].1, keys)
                });
            if keys.contains(entries[i].0) {
                placeholders_differ(placeholder(entries[i].1), entries[i].1);
                assert(twice->Object_0[i].1 == placeholder(placeholder(entries[i].1)));
            } else {
                redaction_twice_differs(entries[i].1, keys);
            }
            assert(twice->Object_0[i] != once->Object_0[i]);
        },
        _ => {},
    }
}

/// What a redaction leaves under the keys it hides is null or a string.
pub proof fn redaction_leaves_only_text(doc: Json, keys: Set<Seq<char>>)
    ensures
        hides_only_text(redacted(doc, keys), keys),
    decreases doc,
{
    let once = redacted(doc, keys);
    match doc {
        Json::Array(items) => {
            assert forall|i: int| 0 <= i < items.len() implies hides_only_text(
                #[trigger] once->Array_0[i],
                keys,
            ) by {
                redaction_leaves_only_text(items[i], keys);
            }
        },
        Json::Object(entries) => {
            assert forall|i: int| 0 <= i < entries.len() implies if keys.contains(
                (#[trigger] once->Object_0[i]).0,
            ) {
                once->Object_0[i].1 is Null || once->Object_0[i].1 is String
            } else {
                hides_only_text(once->Object_0[i].1, keys)
            } by {
                if !keys.contains(entries[i].0) {
                    redaction_leaves_only_text(entries[i].1, keys);
                }
            }
        },
        _ => {},
    }
}

/// From the second redaction on nothing changes any more: the third gives what the second
/// gave.
pub proof fn redaction_settles(doc: Json, keys: Set<Seq<char>>)
    ensures
        redacted(redacted(redacted(doc, keys), keys), keys) == redacted(redacted(doc, keys), keys),
{
    redaction_leaves_only_text(doc, keys);
    redaction_twice_is_once(redacted(doc, keys), keys);
}

/// A document in which no object holds a key twice is redacted to such a document.
pub proof fn redaction_keeps_well_formed(doc: Json, keys: Set<Seq<char>>)
    requires
        doc.well_formed(),
    ensures
        redacted(doc, keys).well_formed(),
    decreases doc,
{
    let once = redacted(doc, keys);
    match doc {
        Json::Array(items) => {
            assert forall|i: int| 0 <= i < items.len() implies (#[trigger] once->Array_0[i]).well_formed() by {
                redaction_keeps_well_formed(items[i], keys);
            }
        },
        Json::Object(entries) => {
            assert(key_names(once->Object_0) =~= key_names(entries));
            assert forall|i: int| 0 <= i < entries.len() implies (#[trigger] once->Object_0[i]).1.well_formed() by {
                if !keys.contains(entries[i].0) {
                    redaction_keeps_well_formed(entries[i].1, keys);
                } else {
                    placeholder_tells_the_kind_only(entries[i].1, entries[i].1);
                }
            }
        },
        _ => {},
    }
}

/// With no key to hide, a document is redacted to itself.
pub proof fn redaction_without_keys(doc: Json)
    ensures
        redacted(doc, Set::empty()) == doc,
    decreases doc,
{
    let keys = Set::<Seq<char>>::empty();
    let once = redacted(doc, keys);
    match doc {
        Json::Array(items) => {
            assert forall|i: int| 0 <= i < items.len() implies #[trigger] once->Array_0[i]
                == items[i] by {
                redaction_without_keys(items[i]);
            }
            assert(once->Array_0 =~= items);
        },
        Json::Object(entries) => {
            assert forall|i: int| 0 <= i < entries.len() implies #[trigger] once->Object_0[i]
                == entries[i] by {
                redaction_without_keys(entries[i].1);
            }
            assert(once->Object_0 =~= entries);
        },
        _ => {},
    }
}

} // verus!
