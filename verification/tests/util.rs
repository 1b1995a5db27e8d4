use eww::state::variables::VariableStore;
use eww::text::{char_is_whitespace, chars_of, split_lines, trim};
use eww::util::environment::{reference_value, replaced_or_unchanged};
use eww::util::{
    extend_safe, is_blank, join_path_pretty, list_difference, replace_env_var_references, trim_lines,
    try_join_path_pretty, unindent, StringExt,
};
use std::collections::HashMap;

#[test]
fn test_unindent() {
    let indented = "
            line one
            line two";
    assert_eq!("line one\nline two", unindent(indented));
}

#[test]
fn unindent_keeps_relative_indentation() {
    assert_eq!("a\n  b\nc", unindent("\n\n  a\n    b\n  c"));
}

#[test]
fn unindent_of_nothing_is_empty() {
    assert_eq!("", unindent(""));
    assert_eq!("", unindent("\n\n"));
}

#[test]
fn unindent_stops_at_an_empty_line_in_the_middle() {
    assert_eq!("  a\n\n  b", unindent("  a\n\n  b"));
}

#[test]
fn unindent_handles_carriage_returns() {
    assert_eq!("a\nb", unindent(" a\r\n b\r\n"));
}

#[test]
fn blank_strings() {
    assert!(is_blank(""));
    assert!(is_blank(" \n\t \n"));
    assert!(!is_blank(" \n x \n"));
}

#[test]
fn trim_lines_trims_each_line() {
    assert_eq!("a\nb c\n\nd", trim_lines("  a \n\tb c\t\n   \nd"));
    assert_eq!("", trim_lines(""));
}

#[test]
fn list_difference_keeps_order() {
    let a = [1, 2, 3, 4];
    let b = [4, 5, 2];
    let (missing, new) = list_difference(&a, &b);
    assert_eq!(missing, vec![&1, &3]);
    assert_eq!(new, vec![&5]);
}

#[test]
fn list_difference_of_equal_lists_is_empty() {
    let a = ["x".to_string(), "y".to_string()];
    let b = ["y".to_string(), "x".to_string(), "x".to_string()];
    let (missing, new) = list_difference(&a, &b);
    assert!(missing.is_empty());
    assert!(new.is_empty());
}

#[test]
fn list_difference_keeps_repeated_elements() {
    let a = [7, 7, 1];
    let b: [i32; 0] = [];
    let (missing, new) = list_difference(&a, &b);
    assert_eq!(missing, vec![&7, &7, &1]);
    assert!(new.is_empty());
}

#[test]
fn extend_safe_reports_present_keys() {
    let mut map = HashMap::new();
    map.insert(1u64, "one");
    map.insert(2u64, "two");
    let present = extend_safe(&mut map, vec![(2, "zwei"), (3, "drei"), (3, "trois"), (4, "vier")]);
    assert_eq!(present, vec![2, 3]);
    assert_eq!(map.len(), 4);
    assert_eq!(map[&1], "one");
    assert_eq!(map[&2], "zwei");
    assert_eq!(map[&3], "trois");
    assert_eq!(map[&4], "vier");
}

#[test]
fn extend_safe_with_nothing_changes_nothing() {
    let mut map: HashMap<String, u8> = HashMap::new();
    map.insert("a".to_string(), 1);
    let present = extend_safe(&mut map, Vec::new());
    assert!(present.is_empty());
    assert_eq!(map.len(), 1);
}

#[test]
fn join_path_pretty_keeps_an_absolute_path() {
    assert_eq!(join_path_pretty("/etc/eww/eww.yuck", "/usr/share/style.scss"), "/usr/share/style.scss");
    assert_eq!(join_path_pretty("", "/usr/share/style.scss"), "/usr/share/style.scss");
}

#[test]
fn join_path_pretty_joins_to_the_directory() {
    assert_eq!(join_path_pretty("/etc/eww/eww.yuck", "style.scss"), "/etc/eww/style.scss");
    assert_eq!(join_path_pretty("/etc/eww/eww.yuck", "./style.scss"), "/etc/eww/style.scss");
    assert_eq!(join_path_pretty("/etc/eww/eww.yuck", "../style.scss"), "/etc/eww/../style.scss");
    assert_eq!(join_path_pretty("eww.yuck", "./a/b.scss"), "a/b.scss");
}

#[test]
fn try_join_path_pretty_needs_a_directory() {
    assert_eq!(try_join_path_pretty("", "style.scss"), None);
    assert_eq!(try_join_path_pretty("/", "style.scss"), None);
    assert_eq!(try_join_path_pretty("/", "/style.scss"), Some("/style.scss".to_string()));
    assert_eq!(try_join_path_pretty("/a/b", "./c"), Some("/a/c".to_string()));
}

#[test]
fn env_var_references_are_replaced() {
    let environment =
        VariableStore::from_bindings(vec![("USER".to_string(), "alice".to_string()), ("N".to_string(), "2".to_string())]);
    assert_eq!(
        replace_env_var_references("$test: ${USER};".to_string(), &environment),
        "$test: alice;"
    );
    assert_eq!(
        replace_env_var_references("${N} and ${USER} and ${N}".to_string(), &environment),
        "2 and alice and 2"
    );
    assert_eq!(replace_env_var_references("${USER}".to_string(), &environment), "alice");
    assert_eq!(replace_env_var_references("no reference $USER {N}".to_string(), &environment), "no reference $USER {N}");
}

#[test]
fn unknown_env_var_is_replaced_by_nothing() {
    let environment = VariableStore::new();
    assert_eq!(replace_env_var_references("a${MISSING}b".to_string(), &environment), "ab");
    assert_eq!(replace_env_var_references("a${}b".to_string(), &environment), "ab");
    assert_eq!(replace_env_var_references("a${ }b".to_string(), &environment), "a${ }b");
}

#[test]
fn env_var_reference_takes_the_longest_name() {
    let environment =
        VariableStore::from_bindings(vec![("A".to_string(), "1".to_string()), ("B".to_string(), "2".to_string())]);
    assert_eq!(replace_env_var_references("${A}${B}".to_string(), &environment), "");
    assert_eq!(replace_env_var_references("${A} ${B}".to_string(), &environment), "1 2");
}

#[test]
fn a_reference_stands_for_its_value() {
    let environment = VariableStore::from_bindings(vec![("A".to_string(), "1".to_string())]);
    assert_eq!(reference_value(&environment, Some("A")), "1");
    assert_eq!(reference_value(&environment, Some("B")), "");
    assert_eq!(reference_value(&environment, None), "");
    assert_eq!(replaced_or_unchanged("in".to_string(), Some("out".to_string())), "out");
    assert_eq!(replaced_or_unchanged("in".to_string(), None), "in");
}

#[test]
fn variable_store_sets_only_what_it_defines() {
    let mut store = VariableStore::from_bindings(vec![("x".to_string(), "1".to_string())]);
    assert!(store.contains("x"));
    assert!(!store.contains("y"));
    assert!(store.set("x", "2".to_string()));
    assert!(!store.set("y", "3".to_string()));
    assert_eq!(store.get("x"), Some("2".to_string()));
    assert_eq!(store.get("y"), None);
    assert_eq!(VariableStore::new().get("x"), None);
}

#[test]
fn whitespace_is_what_unicode_says() {
    for c in ['\u{9}', '\n', '\u{b}', '\u{c}', '\r', ' ', '\u{85}', '\u{a0}', '\u{1680}', '\u{2000}', '\u{200a}', '\u{2028}', '\u{2029}', '\u{202f}', '\u{205f}', '\u{3000}'] {
        assert!(char_is_whitespace(c));
    }
    for c in ['a', '0', '\u{8}', '\u{e}', '\u{200b}', '\u{feff}', '\u{180e}'] {
        assert!(!char_is_whitespace(c));
    }
    for code in 0u32..0x3100 {
        if let Some(c) = char::from_u32(code) {
            assert_eq!(char_is_whitespace(c), c.is_whitespace());
        }
    }
}

#[test]
fn lines_are_split_as_std_splits_them() {
    for text in ["", "a", "a\n", "a\nb", "a\r\nb\r\n", "\n", "\n\n", "a\r", "a\r\n", "\r\n\r", "a\n\nb\n", "\r", "x\r\r\ny"] {
        let chars = chars_of(text);
        let found: Vec<String> = split_lines(&chars).into_iter().map(|line| line.into_iter().collect()).collect();
        let expected: Vec<String> = text.lines().map(|line| line.to_string()).collect();
        assert_eq!(found, expected);
    }
}

#[test]
fn trim_is_what_std_trims() {
    for text in ["", " ", "a", "  a b  ", "\t\na\u{a0}", "\u{3000}x\u{2003}y\u{2028}", " \r\n "] {
        let kept: String = trim(&chars_of(text)).into_iter().collect();
        assert_eq!(kept, text.trim());
    }
}

#[test]
fn strings_know_whether_they_are_blank() {
    assert!(" \n ".is_blank());
    assert!(!String::from(" x ").is_blank());
    assert_eq!(" a \n b ".trim_lines(), "a\nb");
    assert_eq!(String::from("a  \r\n  b").trim_lines(), "a\nb");
}
