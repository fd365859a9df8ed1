use aim_keymap::config::Config;
use aim_keymap::json::{load_keymap, ConfigError};
use aim_keymap::keymap::Keymap;

fn text(s: &str) -> Config {
    Config::Text(s.to_string())
}

fn object(entries: Vec<(&str, Config)>) -> Config {
    Config::Object(entries.into_iter().map(|(k, v)| (k.to_string(), v)).collect())
}

fn outputs(items: Vec<&str>) -> Config {
    Config::Array(items.into_iter().map(text).collect())
}

fn strings(items: Vec<&str>) -> Vec<String> {
    items.into_iter().map(|s| s.to_string()).collect()
}

fn greek() -> Keymap {
    Keymap::new(object(vec![
        (">>", outputs(vec!["root"])),
        (
            "G",
            object(vec![
                (">>", outputs(vec!["Γ"])),
                ("a", object(vec![(">>", outputs(vec!["α"]))])),
                (
                    "l",
                    object(vec![
                        (">>", outputs(vec!["λ", "Λ"])),
                        ("-", object(vec![(">>", outputs(vec!["ƛ"]))])),
                    ]),
                ),
            ]),
        ),
        ("t", object(vec![("o", object(vec![(">>", outputs(vec!["→"]))]))])),
    ]))
}

#[test]
fn test_lookup() {
    let keymap = load_keymap(
        r#"{"G": {"l": {">>": ["λ"], "-": {">>": ["ƛ"]}}, "a": {">>": ["α"]}}}"#,
    )
    .unwrap();
    assert_eq!(keymap.lookup("Gl-"), vec!["ƛ"]);
}

#[test]
fn nested_document_round_trip() {
    let doc = object(vec![(
        "G",
        object(vec![("l", object(vec![(">>", outputs(vec!["ƛ"]))]))]),
    )]);
    let keymap = Keymap::new(doc);
    assert_eq!(keymap.lookup("Gl"), strings(vec!["ƛ"]));
}

#[test]
fn empty_prefix_yields_every_output() {
    let all = greek().lookup("");
    assert_eq!(all, strings(vec!["root", "Γ", "α", "λ", "Λ", "ƛ", "→"]));
    assert_eq!(all.len(), 1 + 1 + 1 + 2 + 1 + 1);
}

#[test]
fn exact_outputs_come_before_longer_ones() {
    assert_eq!(greek().lookup("Gl"), strings(vec!["λ", "Λ", "ƛ"]));
    assert_eq!(greek().lookup("G"), strings(vec!["Γ", "α", "λ", "Λ", "ƛ"]));
}

#[test]
fn longer_prefix_narrows() {
    let keymap = greek();
    let shorter = keymap.lookup("G");
    for c in ["a", "l", "x"] {
        let longer = keymap.lookup(&format!("G{}", c));
        for output in &longer {
            assert!(shorter.contains(output));
        }
    }
    assert_eq!(keymap.lookup("Ga"), strings(vec!["α"]));
}

#[test]
fn unknown_prefix_yields_nothing() {
    let keymap = greek();
    assert_eq!(keymap.lookup("x"), Vec::<String>::new());
    assert_eq!(keymap.lookup("Gx"), Vec::<String>::new());
    assert_eq!(keymap.lookup("Gl-x"), Vec::<String>::new());
    assert_eq!(keymap.lookup("Glxyz"), Vec::<String>::new());
}

#[test]
fn node_without_outputs_yields_what_lies_below() {
    assert_eq!(greek().lookup("t"), strings(vec!["→"]));
}

#[test]
fn only_the_first_character_of_a_key_counts() {
    let keymap = Keymap::new(object(vec![("Gl", object(vec![(">>", outputs(vec!["ƛ"]))]))]));
    assert_eq!(keymap.lookup("G"), strings(vec!["ƛ"]));
    assert_eq!(keymap.lookup("Gl"), Vec::<String>::new());
}

#[test]
fn later_key_with_the_same_first_character_wins() {
    let keymap = Keymap::new(object(vec![
        ("ab", object(vec![(">>", outputs(vec!["first"]))])),
        ("x", object(vec![(">>", outputs(vec!["other"]))])),
        ("ac", object(vec![(">>", outputs(vec!["second"]))])),
    ]));
    assert_eq!(keymap.lookup("a"), strings(vec!["second"]));
    assert_eq!(keymap.lookup(""), strings(vec!["second", "other"]));
}

#[test]
fn malformed_subtree_is_an_empty_branch() {
    let keymap = Keymap::new(object(vec![
        ("a", text("not an object")),
        ("b", object(vec![(">>", outputs(vec!["β"]))])),
        ("c", Config::Other),
        ("d", outputs(vec!["x"])),
    ]));
    assert_eq!(keymap.lookup("a"), Vec::<String>::new());
    assert_eq!(keymap.lookup("c"), Vec::<String>::new());
    assert_eq!(keymap.lookup("d"), Vec::<String>::new());
    assert_eq!(keymap.lookup(""), strings(vec!["β"]));
}

#[test]
fn malformed_subtree_replaces_an_earlier_sibling() {
    let keymap = Keymap::new(object(vec![
        ("ab", object(vec![(">>", outputs(vec!["x"]))])),
        ("ac", Config::Other),
    ]));
    assert_eq!(keymap.lookup("a"), Vec::<String>::new());
}

#[test]
fn marker_takes_strings_only() {
    let keymap = Keymap::new(object(vec![(
        ">>",
        Config::Array(vec![
            text("a"),
            Config::Other,
            outputs(vec!["nested"]),
            text("b"),
            object(vec![]),
        ]),
    )]));
    assert_eq!(keymap.lookup(""), strings(vec!["a", "b"]));
}

#[test]
fn marker_that_is_no_array_lists_nothing() {
    let keymap = Keymap::new(object(vec![
        (">>", text("λ")),
        ("a", object(vec![(">>", object(vec![]))])),
    ]));
    assert_eq!(keymap.lookup(""), Vec::<String>::new());
    assert_eq!(keymap.lookup("a"), Vec::<String>::new());
}

#[test]
fn marker_is_no_branch() {
    let keymap = Keymap::new(object(vec![(">>", outputs(vec!["a"]))]));
    assert_eq!(keymap.lookup(">"), Vec::<String>::new());
    assert_eq!(keymap.lookup(">>"), Vec::<String>::new());
}

#[test]
fn key_that_starts_like_the_marker_is_a_branch() {
    let keymap = Keymap::new(object(vec![(">>>", object(vec![(">>", outputs(vec!["a"]))]))]));
    assert_eq!(keymap.lookup(">"), strings(vec!["a"]));
}

#[test]
fn empty_key_is_passed_over() {
    let keymap = Keymap::new(object(vec![
        ("", object(vec![(">>", outputs(vec!["lost"]))])),
        ("a", object(vec![(">>", outputs(vec!["α"]))])),
    ]));
    assert_eq!(keymap.lookup(""), strings(vec!["α"]));
}

#[test]
fn document_that_is_no_object_gives_the_empty_keymap() {
    for doc in [text("x"), outputs(vec!["x"]), Config::Other] {
        let keymap = Keymap::new(doc);
        assert_eq!(keymap.lookup(""), Vec::<String>::new());
        assert_eq!(keymap.lookup("x"), Vec::<String>::new());
    }
}

#[test]
fn duplicate_outputs_are_kept() {
    let keymap = Keymap::new(object(vec![
        (">>", outputs(vec!["x", "x"])),
        ("a", object(vec![(">>", outputs(vec!["x"]))])),
    ]));
    assert_eq!(keymap.lookup(""), strings(vec!["x", "x", "x"]));
}

#[test]
fn keys_are_characters_not_bytes() {
    let keymap = Keymap::new(object(vec![("λ", object(vec![(">>", outputs(vec!["lambda"]))]))]));
    assert_eq!(keymap.lookup("λ"), strings(vec!["lambda"]));
}

#[test]
fn json_text_gives_the_keymap_it_denotes() {
    let keymap = load_keymap(
        r#"{
            ">>": ["root", 1, null, "again"],
            "to": {">>": ["→"], "p": {">>": ["⊤"]}},
            "b": 5,
            "c": {">>": "no array"}
        }"#,
    )
    .unwrap();
    assert_eq!(keymap.lookup(""), strings(vec!["root", "again", "→", "⊤"]));
    assert_eq!(keymap.lookup("t"), strings(vec!["→", "⊤"]));
    assert_eq!(keymap.lookup("tp"), strings(vec!["⊤"]));
    assert_eq!(keymap.lookup("to"), Vec::<String>::new());
    assert_eq!(keymap.lookup("b"), Vec::<String>::new());
    assert_eq!(keymap.lookup("c"), Vec::<String>::new());
}

#[test]
fn json_that_is_no_object_gives_the_empty_keymap() {
    for source in ["[\"a\"]", "\"a\"", "5", "null", "true"] {
        let keymap = load_keymap(source).unwrap();
        assert_eq!(keymap.lookup(""), Vec::<String>::new());
    }
}

#[test]
fn text_that_is_no_json_is_an_error() {
    assert!(matches!(load_keymap(""), Err(ConfigError::Syntax { .. })));
    assert!(matches!(load_keymap("{\"a\": "), Err(ConfigError::Syntax { .. })));
    assert!(matches!(load_keymap("{} trailing"), Err(ConfigError::Syntax { .. })));
    assert_eq!(load_keymap("{\n  oops").err(), Some(ConfigError::Syntax { line: 2, column: 3 }));
}
