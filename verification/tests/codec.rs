use tasklist::codec::{decode, load, save, DecodeError};
use tasklist::task::{Task, TaskStore};
use tasklist::writer::encode;

fn pairs(store: &TaskStore) -> Vec<(String, bool)> {
    store.list().iter().map(|t| (t.name().to_string(), t.completed())).collect()
}

fn read(text: &str) -> Vec<(String, bool)> {
    pairs(&decode(text).unwrap())
}

fn pair(name: &str, completed: bool) -> (String, bool) {
    (name.to_string(), completed)
}

fn milk_and_eggs() -> TaskStore {
    let mut store = TaskStore::new();
    store.add("Milk".to_string()).unwrap();
    store.add("Eggs".to_string()).unwrap();
    store.toggle_complete(1).unwrap();
    store
}

#[test]
fn empty_list_is_written_as_an_empty_array() {
    assert_eq!(save(&TaskStore::new()), "{\"tasks\":[]}");
    assert_eq!(encode(&Vec::new()), "{\"tasks\":[]}");
}

#[test]
fn tasks_are_written_as_records_in_order() {
    assert_eq!(
        save(&milk_and_eggs()),
        "{\"tasks\":[{\"name\":\"Milk\",\"completed\":false},{\"name\":\"Eggs\",\"completed\":true}]}"
    );
}

#[test]
fn one_task_is_written_without_a_comma() {
    let tasks = vec![Task::restore("a".to_string(), true).unwrap()];
    assert_eq!(encode(&tasks), "{\"tasks\":[{\"name\":\"a\",\"completed\":true}]}");
}

#[test]
fn names_are_escaped_when_written() {
    let tasks = vec![Task::new("q\"b\\s/\n\r\t\u{8}\u{c}\u{0}\u{1f}\u{7f}é\u{1F600}".to_string()).unwrap()];
    assert_eq!(
        encode(&tasks),
        "{\"tasks\":[{\"name\":\"q\\\"b\\\\s/\\n\\r\\t\\b\\f\\u0000\\u001f\u{7f}é\u{1F600}\",\"completed\":false}]}"
    );
}

#[test]
fn every_control_character_is_written_in_lower_case_hex() {
    let tasks = vec![Task::new("x\u{1}\u{a}\u{b}\u{e}\u{10}\u{1a}".to_string()).unwrap()];
    assert_eq!(
        encode(&tasks),
        "{\"tasks\":[{\"name\":\"x\\u0001\\n\\u000b\\u000e\\u0010\\u001a\",\"completed\":false}]}"
    );
}

#[test]
fn scenario_save_then_load_two_items() {
    let text = save(&milk_and_eggs());
    let fresh = load(Some(text.as_str()));
    assert_eq!(pairs(&fresh), vec![pair("Milk", false), pair("Eggs", true)]);
    assert_eq!(fresh, milk_and_eggs());
}

#[test]
fn scenario_load_absent_or_corrupted_gives_an_empty_list() {
    assert_eq!(load(None), TaskStore::new());
    assert_eq!(load(Some("")), TaskStore::new());
    assert_eq!(load(Some("not json")), TaskStore::new());
    assert_eq!(load(Some("{\"tasks\":[{\"name\":\"Milk\"")), TaskStore::new());
    assert_eq!(load(Some("<li>Milk<span>\u{d7}</span></li>")), TaskStore::new());
    assert_eq!(load(Some("\"<li>Milk</li>\"")), TaskStore::new());
}

#[test]
fn load_save_load_gives_the_same_list() {
    let stored = " { \"v\" : 2 , \"tasks\" : [ { \"completed\" : true , \"name\" : \"a \\u0041\" , \"x\" : [1] } , { \"name\" : \"b\" } ] } ";
    let first = load(Some(stored));
    assert_eq!(pairs(&first), vec![pair("a A", true), pair("b", false)]);
    let text = save(&first);
    assert_eq!(text, "{\"tasks\":[{\"name\":\"a A\",\"completed\":true},{\"name\":\"b\",\"completed\":false}]}");
    let second = load(Some(text.as_str()));
    assert_eq!(second, first);
    assert_eq!(save(&second), text);
}

#[test]
fn round_trip_keeps_awkward_names() {
    let names = [
        "plain",
        " leading and trailing ",
        "quote \" backslash \\ slash /",
        "line\nbreak\r\ttab",
        "\u{0}\u{1}\u{1f}\u{7f}\u{80}",
        "{\"tasks\":[]}",
        "</li><script>",
        "\\u0041 \\n \\\\",
        "é ü 日本語 \u{1F600} \u{10FFFF} \u{d7ff} \u{e000}",
        "true",
        "0",
    ];
    let mut store = TaskStore::new();
    for (i, name) in names.iter().enumerate() {
        store.add(name.to_string()).unwrap();
        if i % 2 == 1 {
            store.toggle_complete(i).unwrap();
        }
    }
    let text = save(&store);
    let back = decode(text.as_str()).unwrap();
    assert_eq!(back, store);
    for (i, name) in names.iter().enumerate() {
        assert_eq!(back.list()[i].name(), *name);
        assert_eq!(back.list()[i].completed(), i % 2 == 1);
    }
}

#[test]
fn round_trip_after_each_operation() {
    let mut store = TaskStore::new();
    let check = |s: &TaskStore| assert_eq!(&load(Some(save(s).as_str())), s);
    check(&store);
    store.add("a".to_string()).unwrap();
    check(&store);
    store.add("b".to_string()).unwrap();
    check(&store);
    store.toggle_complete(0).unwrap();
    check(&store);
    store.remove(1).unwrap();
    check(&store);
    store.remove(0).unwrap();
    check(&store);
}

#[test]
fn gaps_between_tokens_are_passed_over() {
    assert_eq!(read(" \t\r\n{\n\"tasks\"\t:\r[ ] } \n"), vec![]);
    assert_eq!(
        read("{ \"tasks\" : [ { \"name\" : \"a\" , \"completed\" : true } ] }"),
        vec![pair("a", true)]
    );
}

#[test]
fn missing_flag_counts_as_false() {
    assert_eq!(read("{\"tasks\":[{\"name\":\"a\"}]}"), vec![pair("a", false)]);
}

#[test]
fn members_may_come_in_any_order() {
    assert_eq!(
        read("{\"tasks\":[{\"completed\":true,\"name\":\"a\"}]}"),
        vec![pair("a", true)]
    );
}

#[test]
fn unknown_fields_are_passed_over() {
    let text = "{\"version\":3,\"tasks\":[{\"id\":17,\"name\":\"a\",\"tags\":[\"x\",{\"deep\":[null,true,false,-1.5e+3]}],\"completed\":true,\"note\":null}],\"meta\":{\"a\":{\"b\":[]},\"c\":{}}}";
    assert_eq!(read(text), vec![pair("a", true)]);
}

#[test]
fn unknown_fields_may_hold_every_form_of_number() {
    for number in ["0", "-0", "7", "-12", "10", "1.5", "0.0001", "1e5", "1E5", "1e+5", "1e-5", "-1.25E-10", "123456789012345678901234567890"] {
        let text = format!("{{\"n\":{},\"tasks\":[]}}", number);
        assert_eq!(decode(text.as_str()), Ok(TaskStore::new()), "{}", number);
    }
}

#[test]
fn malformed_numbers_are_lexical_errors() {
    for number in ["-", "+1", ".5", "1.", "1.e5", "1e", "1e+", "-a", "0x10", "1.5.", "--1", "Infinity", "NaN"] {
        let text = format!("{{\"n\":{},\"tasks\":[]}}", number);
        assert_eq!(decode(text.as_str()), Err(DecodeError::Lexical), "{}", number);
    }
}

#[test]
fn numbers_that_run_together_are_structure_errors() {
    for number in ["01", "00", "1 2", "1-2", "-01", "1.5-2"] {
        let text = format!("{{\"n\":{},\"tasks\":[]}}", number);
        assert_eq!(decode(text.as_str()), Err(DecodeError::Structure), "{}", number);
    }
}

#[test]
fn escapes_are_resolved() {
    assert_eq!(
        read("{\"tasks\":[{\"name\":\"\\\"\\\\\\/\\b\\f\\n\\r\\t\"}]}"),
        vec![pair("\"\\/\u{8}\u{c}\n\r\t", false)]
    );
    assert_eq!(
        read("{\"tasks\":[{\"name\":\"\\u0041\\u00e9\\u00E9\\u65E5\\uffff\\ud7ff\\ue000\"}]}"),
        vec![pair("A\u{e9}\u{e9}\u{65e5}\u{ffff}\u{d7ff}\u{e000}", false)]
    );
}

#[test]
fn surrogate_pairs_write_one_character() {
    assert_eq!(
        read("{\"tasks\":[{\"name\":\"\\ud83d\\ude00\\uD800\\uDC00\\udbff\\udfff\"}]}"),
        vec![pair("\u{1F600}\u{10000}\u{10FFFF}", false)]
    );
}

#[test]
fn escaped_keys_are_recognised() {
    assert_eq!(
        read("{\"t\\u0061sks\":[{\"n\\u0061me\":\"a\",\"complete\\u0064\":true}]}"),
        vec![pair("a", true)]
    );
}

#[test]
fn bad_strings_are_lexical_errors() {
    let cases = [
        "{\"tasks\":[{\"name\":\"a}]}",
        "{\"tasks\":[{\"name\":\"a\\\"}]}",
        "{\"tasks\":[{\"name\":\"a\\x\"}]}",
        "{\"tasks\":[{\"name\":\"a\\u12\"}]}",
        "{\"tasks\":[{\"name\":\"a\\u12g4\"}]}",
        "{\"tasks\":[{\"name\":\"a\\ud83d\"}]}",
        "{\"tasks\":[{\"name\":\"a\\ud83dx\"}]}",
        "{\"tasks\":[{\"name\":\"a\\ud83d\\n\"}]}",
        "{\"tasks\":[{\"name\":\"a\\ud83d\\u0041\"}]}",
        "{\"tasks\":[{\"name\":\"a\\ud83d\\ud83d\"}]}",
        "{\"tasks\":[{\"name\":\"a\\ude00\"}]}",
        "{\"tasks\":[{\"name\":\"a\nb\"}]}",
        "{\"tasks\":[{\"name\":\"a\tb\"}]}",
        "{\"tasks\":[{\"name\":\"a\u{0}b\"}]}",
        "{\"tasks\":[{\"name\":\"a\u{1f}b\"}]}",
        "{\"tasks\":[{\"name\":'a'}]}",
        "\"",
        "\"\\",
    ];
    for text in cases {
        assert_eq!(decode(text), Err(DecodeError::Lexical), "{}", text);
    }
}

#[test]
fn other_characters_are_lexical_errors() {
    for text in ["{\"tasks\":[]}x", "{tasks:[]}", "{\"tasks\":[tru]}", "{\"tasks\":[nul]}", "{\"tasks\":[fals]}", "{\"tasks\":[]}\u{a0}", "\u{feff}{\"tasks\":[]}", "{\"tasks\":[]}//c", "True"] {
        assert_eq!(decode(text), Err(DecodeError::Lexical), "{}", text);
    }
}

#[test]
fn other_documents_are_structure_errors() {
    let cases = [
        "",
        "   ",
        "null",
        "[]",
        "\"tasks\"",
        "{}",
        "{\"other\":[]}",
        "{\"tasks\":null}",
        "{\"tasks\":{}}",
        "{\"tasks\":\"\"}",
        "{\"tasks\":[null]}",
        "{\"tasks\":[[]]}",
        "{\"tasks\":[\"a\"]}",
        "{\"tasks\":[{}]}",
        "{\"tasks\":[{\"completed\":true}]}",
        "{\"tasks\":[{\"name\":null}]}",
        "{\"tasks\":[{\"name\":1}]}",
        "{\"tasks\":[{\"name\":[\"a\"]}]}",
        "{\"tasks\":[{\"name\":\"a\",\"completed\":null}]}",
        "{\"tasks\":[{\"name\":\"a\",\"completed\":\"true\"}]}",
        "{\"tasks\":[{\"name\":\"a\",\"completed\":1}]}",
        "{\"tasks\":[{\"name\":\"a\",\"name\":\"b\"}]}",
        "{\"tasks\":[{\"name\":\"a\",\"completed\":true,\"completed\":true}]}",
        "{\"tasks\":[],\"tasks\":[]}",
        "{\"tasks\":[{\"name\":\"\"}]}",
        "{\"tasks\":[{\"name\":\"  \"}]}",
        "{\"tasks\":[{\"name\":\"\\t\\n\"}]}",
        "{\"tasks\":[{\"name\":\"a\"},{\"name\":\" \"}]}",
    ];
    for text in cases {
        assert_eq!(decode(text), Err(DecodeError::Structure), "{}", text);
    }
}

#[test]
fn misplaced_punctuation_is_a_structure_error() {
    let cases = [
        "{\"tasks\":[]",
        "{\"tasks\":[]}}",
        "{\"tasks\":[]}{}",
        "{\"tasks\":[]} null",
        "{\"tasks\":[],}",
        "{,\"tasks\":[]}",
        "{\"tasks\" []}",
        "{\"tasks\"::[]}",
        "{\"tasks\":[,]}",
        "{\"tasks\":[{\"name\":\"a\"},]}",
        "{\"tasks\":[{\"name\":\"a\"}{\"name\":\"b\"}]}",
        "{\"tasks\":[{\"name\":\"a\",}]}",
        "{\"tasks\":[{\"name\" \"a\"}]}",
        "{\"tasks\":[{\"name\":\"a\"]}",
        "{\"tasks\":[{\"name\":\"a\"}}",
        "{\"tasks\":[],\"x\":}",
        "{\"tasks\":[],\"x\":[1,]}",
        "{\"tasks\":[],\"x\":[1 2]}",
        "{\"tasks\":[],\"x\":{\"a\"}}",
        "{\"tasks\":[],\"x\":{\"a\":1,}}",
        "{\"tasks\":[],\"x\":{1:2}}",
        "{\"tasks\":[],\"x\":[}",
        "{\"tasks\":[],\"x\":{]}",
        "{\"tasks\":[],1:2}",
        "{\"tasks\":[{\"name\":\"a\",\"x\":}]}",
    ];
    for text in cases {
        assert_eq!(decode(text), Err(DecodeError::Structure), "{}", text);
    }
}

fn nested(depth: usize) -> String {
    let mut text = String::from("{\"tasks\":[],\"x\":");
    for _ in 0..depth {
        text.push('[');
    }
    for _ in 0..depth {
        text.push(']');
    }
    text.push('}');
    text
}

#[test]
fn values_that_are_passed_over_may_nest_to_the_limit() {
    assert_eq!(tasklist::grammar::MAX_DEPTH, 128);
    assert_eq!(decode(nested(1).as_str()), Ok(TaskStore::new()));
    assert_eq!(decode(nested(128).as_str()), Ok(TaskStore::new()));
    assert_eq!(decode(nested(129).as_str()), Err(DecodeError::Structure));
    assert_eq!(decode(nested(5000).as_str()), Err(DecodeError::Structure));
}

#[test]
fn objects_nest_to_the_limit_too() {
    let mut text = String::from("{\"tasks\":[{\"name\":\"a\",\"x\":");
    for _ in 0..127 {
        text.push_str("{\"k\":");
    }
    text.push_str("{}");
    for _ in 0..127 {
        text.push('}');
    }
    text.push_str("}]}");
    assert_eq!(read(text.as_str()), vec![pair("a", false)]);
    let deeper = text.replace("{}", "{\"k\":{}}");
    assert_eq!(decode(deeper.as_str()), Err(DecodeError::Structure));
}

#[test]
fn long_lists_are_read() {
    let mut store = TaskStore::new();
    for i in 0..2000 {
        store.add(format!("task {}", i)).unwrap();
        if i % 3 == 0 {
            store.toggle_complete(i).unwrap();
        }
    }
    let text = save(&store);
    assert_eq!(decode(text.as_str()), Ok(store));
}
