use hide_keys::batch::update_keys;
use hide_keys::config::Config;
use hide_keys::hide_args::HideArgs;
use hide_keys::json::Value;
use hide_keys::keys_storage::{InMemoryKeysStorage, KeysStorage};
use hide_keys::redaction::{
    hide_by_keys, hide_by_keys_in_array, hide_by_keys_in_map, hide_value,
};

static STRING_PLACEHOLDER: &str = "String";
static NUMBER_PLACEHOLDER: &str = "Number";
static BOOL_PLACEHOLDER: &str = "Bool";
static ARRAY_PLACEHOLDER: &str = "Array";
static OBJECT_PLACEHOLDER: &str = "Object";

fn converted(json: &serde_json::Value) -> Value {
    match json {
        serde_json::Value::Null => Value::Null,
        serde_json::Value::Bool(b) => Value::Bool(*b),
        serde_json::Value::Number(n) => Value::Number(n.clone()),
        serde_json::Value::String(s) => Value::String(s.clone()),
        serde_json::Value::Array(items) => Value::Array(items.iter().map(converted).collect()),
        serde_json::Value::Object(entries) => {
            Value::Object(entries.iter().map(|(key, value)| (key.clone(), converted(value))).collect())
        }
    }
}

fn document(text: &str) -> Value {
    converted(&serde_json::from_str::<serde_json::Value>(text).unwrap())
}

fn listed(keys: &str) -> Vec<String> {
    if keys.is_empty() {
        Vec::new()
    } else {
        keys.split(',').map(String::from).collect()
    }
}

fn storage_after(add_keys: &str, remove_keys: &str) -> InMemoryKeysStorage {
    let args = HideArgs {
        input_file: None,
        output_file: None,
        debug: false,
        add_keys: listed(add_keys),
        remove_keys: listed(remove_keys),
    };
    let mut storage = Config::default().storage();
    update_keys(&mut storage, &args);
    storage
}

#[test]
fn hide_values_in_simple_json() {
    let input = document(
        r#"{
        "name": "Name",
        "surname": "Surname",
        "age": 99
    }"#,
    );
    let storage = storage_after("name,surname,age", "");

    let output = hide_by_keys(&storage, &input);

    let expected = document(&format!(
        r#"{{"name": "{}", "surname": "{}", "age": "{}"}}"#,
        STRING_PLACEHOLDER, STRING_PLACEHOLDER, NUMBER_PLACEHOLDER,
    ));
    assert_eq!(expected, output);
}

#[test]
fn hide_values_in_nested_json() {
    let input = document(
        r#"
        {
            "user": {
                "username": "alice",
                "credentials": {
                    "password": "secret"
                }
            }
        }
        "#,
    );
    let expected_output = document(&format!(
        r#"{{
        "user": {{
            "username": "alice",
            "credentials": {{
                "password": "{}"
            }}
        }}
    }}"#,
        STRING_PLACEHOLDER,
    ));
    let storage = storage_after("password", "user");

    let output_json = hide_by_keys(&storage, &input);

    assert_eq!(expected_output, output_json);
}

#[test]
fn hide_values_in_json_array() {
    let input = document(
        r#"
    [
        {"username": "alice", "password": "secret1"},
        {"username": "bob", "password": "secret2"}
    ]
    "#,
    );
    let expected_output = document(&format!(
        r#"
    [
        {{"username": "alice", "password": "{}"}},
        {{"username": "bob", "password": "{}"}}
    ]
    "#,
        STRING_PLACEHOLDER, STRING_PLACEHOLDER,
    ));
    let storage = storage_after("password", "");

    let output = hide_by_keys(&storage, &input);

    assert_eq!(expected_output, output);
}

#[test]
fn test_empty_object() {
    let storage = storage_after("", "");

    let output = hide_by_keys(&storage, &document(r#"{}"#));

    assert_eq!(Value::Object(Vec::new()), output);
}

#[test]
fn test_empty_array() {
    let storage = storage_after("", "");

    let output = hide_by_keys(&storage, &document(r#"[]"#));

    assert_eq!(Value::Array(Vec::new()), output);
}

#[test]
fn test_object_values_inside_array() {
    let input = document(
        r#"{
    "users": [
        {"name": "Alice", "password": "secret1", "age": 44, "is_owner": true },
        {"name": "Bob", "password": "secret2", "age": 45, "is_owner": false }
    ]
}"#,
    );
    let expected_output = document(&format!(
        r#"
    {{
        "users": [
            {{"name": "Alice", "password": "{}", "age": "{}", "is_owner": "{}" }},
            {{"name": "Bob", "password": "{}", "age": "{}", "is_owner": "{}" }}
        ]
    }}
    "#,
        STRING_PLACEHOLDER,
        NUMBER_PLACEHOLDER,
        BOOL_PLACEHOLDER,
        STRING_PLACEHOLDER,
        NUMBER_PLACEHOLDER,
        BOOL_PLACEHOLDER,
    ));
    let storage = storage_after("password,age,is_owner", "name,users");

    let output = hide_by_keys(&storage, &input);

    assert_eq!(expected_output, output);
}

#[test]
fn hide_null() {
    let input = document(r#"{"key": null}"#);
    let expected_output = document(r#"{"key": null}"#);
    let storage = storage_after("key", "");

    let output = hide_by_keys(&storage, &input);

    assert_eq!(expected_output, output);
}

#[test]
fn placeholder_names_the_kind() {
    let storage = storage_after("a", "");

    assert_eq!(
        hide_by_keys(&storage, &document(r#"{"a": true}"#)),
        document(r#"{"a": "Bool"}"#)
    );
    assert_eq!(
        hide_by_keys(&storage, &document(r#"{"a": 1}"#)),
        document(r#"{"a": "Number"}"#)
    );
    assert_eq!(
        hide_by_keys(&storage, &document(r#"{"a": "s"}"#)),
        document(r#"{"a": "String"}"#)
    );
    assert_eq!(
        hide_by_keys(&storage, &document(r#"{"a": -2.5e3}"#)),
        document(r#"{"a": "Number"}"#)
    );
}

#[test]
fn hide_value_of_each_kind() {
    assert_eq!(hide_value(&Value::Null), Value::Null);
    assert_eq!(hide_value(&Value::Bool(false)), Value::String(String::from(BOOL_PLACEHOLDER)));
    assert_eq!(hide_value(&document("17")), Value::String(String::from(NUMBER_PLACEHOLDER)));
    assert_eq!(
        hide_value(&Value::String(String::from("secret"))),
        Value::String(String::from(STRING_PLACEHOLDER))
    );
    assert_eq!(
        hide_value(&document(r#"[1, [2], {"k": 3}]"#)),
        Value::String(String::from(ARRAY_PLACEHOLDER))
    );
    assert_eq!(
        hide_value(&document(r#"{"k": {"l": "m"}}"#)),
        Value::String(String::from(OBJECT_PLACEHOLDER))
    );
    assert_eq!(hide_value(&document("[]")), Value::String(String::from(ARRAY_PLACEHOLDER)));
    assert_eq!(hide_value(&document("{}")), Value::String(String::from(OBJECT_PLACEHOLDER)));
}

#[test]
fn hidden_object_leaves_nothing_of_itself() {
    let input = document(
        r#"
        {
            "user": {
                "name": "Jon",
                "age": 45
            }
        }"#,
    );
    let storage = storage_after("user", "");

    let output = hide_by_keys(&storage, &input);

    assert_eq!(document(r#"{"user": "Object"}"#), output);
}

#[test]
fn hidden_empty_object_becomes_its_placeholder() {
    let input = document(
        r#"{
    "users": {}
}"#,
    );
    let storage = storage_after("users", "");

    let output = hide_by_keys(&storage, &input);

    assert_eq!(document(r#"{"users": "Object"}"#), output);
}

#[test]
fn hidden_array_leaves_nothing_of_itself() {
    let input = document(r#"{"tokens": [{"token": "t1"}, "t2", 3], "kept": [{"token": "t4"}]}"#);
    let storage = storage_after("tokens", "");

    let output = hide_by_keys(&storage, &input);

    assert_eq!(document(r#"{"tokens": "Array", "kept": [{"token": "t4"}]}"#), output);
}

#[test]
fn hidden_key_is_not_looked_into() {
    let input = document(r#"{"outer": {"pw": "x", "outer": 1}, "pw": {"outer": [true]}}"#);
    let storage = storage_after("outer", "");

    let output = hide_by_keys(&storage, &input);

    assert_eq!(document(r#"{"outer": "Object", "pw": {"outer": "Array"}}"#), output);
}

#[test]
fn nested_object_under_other_key_is_walked() {
    let storage = storage_after("pw", "");

    let output = hide_by_keys(&storage, &document(r#"{"user":{"pw":"x"}}"#));

    assert_eq!(document(r#"{"user":{"pw":"String"}}"#), output);
}

#[test]
fn array_items_are_walked() {
    let storage = storage_after("pw", "");

    let output = hide_by_keys(&storage, &document(r#"[{"pw":"x"}]"#));

    assert_eq!(document(r#"[{"pw":"String"}]"#), output);
}

#[test]
fn arrays_in_arrays_are_walked() {
    let storage = storage_after("pw", "");

    let output = hide_by_keys(&storage, &document(r#"[1, [[{"pw": 7, "id": 8}], "pw"], null]"#));

    assert_eq!(document(r#"[1, [[{"pw": "Number", "id": 8}], "pw"], null]"#), output);
}

#[test]
fn empty_containers_pass_through() {
    let storage = storage_after("anything", "");

    assert_eq!(hide_by_keys(&storage, &document("{}")), document("{}"));
    assert_eq!(hide_by_keys(&storage, &document("[]")), document("[]"));
    assert_eq!(
        hide_by_keys(&storage, &document(r#"{"a": {}, "b": []}"#)),
        document(r#"{"a": {}, "b": []}"#)
    );
}

#[test]
fn scalars_at_the_top_are_returned_as_they_are() {
    let storage = storage_after("a", "");

    assert_eq!(hide_by_keys(&storage, &Value::Null), Value::Null);
    assert_eq!(hide_by_keys(&storage, &Value::Bool(true)), Value::Bool(true));
    assert_eq!(hide_by_keys(&storage, &document("12.5")), document("12.5"));
    assert_eq!(
        hide_by_keys(&storage, &Value::String(String::from("a"))),
        Value::String(String::from("a"))
    );
}

#[test]
fn keys_keep_their_order() {
    let input = document(r#"{"z": 1, "a": {"y": 2, "b": 3, "x": [4]}, "m": "5", "c": null}"#);
    let storage = storage_after("a,m", "");

    let output = hide_by_keys(&storage, &input);

    match output {
        Value::Object(entries) => {
            let keys: Vec<&str> = entries.iter().map(|(key, _)| key.as_str()).collect();
            assert_eq!(keys, vec!["z", "a", "m", "c"]);
        }
        other => panic!("not an object: {:?}", other),
    }

    let storage = storage_after("b", "");
    let output = hide_by_keys(&storage, &input);
    assert_eq!(
        output,
        Value::Object(vec![
            (String::from("z"), document("1")),
            (
                String::from("a"),
                Value::Object(vec![
                    (String::from("y"), document("2")),
                    (String::from("b"), Value::String(String::from("Number"))),
                    (String::from("x"), document("[4]")),
                ])
            ),
            (String::from("m"), Value::String(String::from("5"))),
            (String::from("c"), Value::Null),
        ])
    );
}

#[test]
fn matching_is_case_sensitive() {
    let storage = storage_after("Password", "");

    let output = hide_by_keys(&storage, &document(r#"{"password": "a", "Password": "b"}"#));

    assert_eq!(document(r#"{"password": "a", "Password": "String"}"#), output);
}

#[test]
fn input_is_left_as_it_was() {
    let input = document(r#"{"pw": "x", "list": [{"pw": 1}]}"#);
    let storage = storage_after("pw", "");

    let _ = hide_by_keys(&storage, &input);

    assert_eq!(input, document(r#"{"pw": "x", "list": [{"pw": 1}]}"#));
}

#[test]
fn second_redaction_keeps_keys_and_kinds() {
    let input = document(r#"{"a": true, "b": {"a": [1, 2], "c": "s"}, "d": [{"a": null}]}"#);
    let storage = storage_after("a", "");

    let once = hide_by_keys(&storage, &input);
    let twice = hide_by_keys(&storage, &once);
    let thrice = hide_by_keys(&storage, &twice);

    assert_eq!(once, document(r#"{"a": "Bool", "b": {"a": "Array", "c": "s"}, "d": [{"a": null}]}"#));
    assert_eq!(
        twice,
        document(r#"{"a": "String", "b": {"a": "String", "c": "s"}, "d": [{"a": null}]}"#)
    );
    assert_eq!(thrice, twice);
}

#[test]
fn second_redaction_changes_nothing_where_strings_were_hidden() {
    let input = document(r#"{"pw": "x", "user": {"pw": "y", "id": 3}, "none": {"pw": null}}"#);
    let storage = storage_after("pw", "");

    let once = hide_by_keys(&storage, &input);
    let twice = hide_by_keys(&storage, &once);

    assert_eq!(
        once,
        document(r#"{"pw": "String", "user": {"pw": "String", "id": 3}, "none": {"pw": null}}"#)
    );
    assert_eq!(twice, once);
}

#[test]
fn without_keys_nothing_is_hidden() {
    let input = document(r#"{"a": [1, {"b": null}], "c": {"d": "e"}}"#);
    let storage = InMemoryKeysStorage::new();

    assert_eq!(hide_by_keys(&storage, &input), input);
}

#[test]
fn map_and_array_walks_give_what_the_whole_walk_gives() {
    let storage = storage_after("pw", "");
    let entries = vec![
        (String::from("pw"), Value::Bool(true)),
        (String::from("list"), document(r#"[{"pw": 1}]"#)),
    ];
    let items = vec![document(r#"{"pw": [1]}"#), Value::Null, document(r#"[{"pw": {}}]"#)];

    assert_eq!(
        hide_by_keys_in_map(&storage, &entries),
        document(r#"{"pw": "Bool", "list": [{"pw": "Number"}]}"#)
    );
    assert_eq!(
        hide_by_keys_in_array(&storage, &items),
        document(r#"[{"pw": "Array"}, null, [{"pw": "Object"}]]"#)
    );
}

#[test]
fn numbers_are_carried_over() {
    let input = document(r#"{"n": [0, -1, 18446744073709551615, 1.5, 1e300, -0.0]}"#);
    let storage = storage_after("x", "");

    let output = hide_by_keys(&storage, &input);

    assert_eq!(output, input);
    assert_eq!(output.clone(), input);
}

#[test]
fn redaction_asks_the_storage_it_is_given() {
    let input = document(r#"{"a": 1, "b": 2}"#);
    let mut storage = InMemoryKeysStorage::new();
    storage.put("a").unwrap();
    assert_eq!(hide_by_keys(&storage, &input), document(r#"{"a": "Number", "b": 2}"#));

    storage.remove("a").unwrap();
    storage.put("b").unwrap();
    assert_eq!(hide_by_keys(&storage, &input), document(r#"{"a": 1, "b": "Number"}"#));
}
