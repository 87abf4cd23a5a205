//! The built-in value transforms, called directly on evaluated arguments.

use beavieeer::object::Object;
use beavieeer::builtins::{
    lang_len, lang_first, lang_last, lang_tail, lang_get, lang_push, lang_reverse, lang_trim,
    lang_to_lowercase, lang_to_uppercase, lang_parse_number, lang_explode, lang_replace_substring,
    lang_replace_n_substring,
};

#[test]
fn test_lang_len_buildin() {
    let input = vec![Object::Array(vec![Object::Int(2), Object::Int(2)])];
    match lang_len(input) {
        Object::Int(i) => assert_eq!(i, 2),
        o => panic!("lang_len did return {:?} instead of Int", o),
    };
}

#[test]
fn test_lang_first_buildin_normal_array() {
    let input = vec![Object::Array(vec![Object::Int(1), Object::Int(2), Object::Int(3)])];

    match lang_first(input) {
        Object::Int(i) => assert_eq!(i, 1),
        o => panic!("Expected Int got {:?} instead", o),
    };
}

#[test]
fn test_lang_first_buildin_empty_array() {
    let input = vec![Object::Array(Vec::new())];

    match lang_first(input) {
        Object::Null => (),
        o => panic!("Expected Null from the empty list. Got {:?} instead", o),
    };
}

#[test]
fn test_lang_last_buildin_normal_array() {
    let input = vec![Object::Array(vec![Object::Int(1), Object::Int(2), Object::Int(3)])];

    match lang_last(input) {
        Object::Int(i) => assert_eq!(i, 3),
        o => panic!("Expected Int got {:?} instead", o),
    };
}

#[test]
fn test_lang_last_buildin_empty_array() {
    let input = vec![Object::Array(Vec::new())];

    match lang_last(input) {
        Object::Null => (),
        o => panic!("Expected Null from the empty list. Got {:?} instead", o),
    };
}

#[test]
fn test_lang_tail_buildin_normal_array() {
    let input = vec![Object::Array(vec![Object::Int(1), Object::Int(2), Object::Int(3)])];

    let input_tail = Object::Array(vec![Object::Int(2), Object::Int(3)]);

    match lang_tail(input) {
        o => assert_eq!(input_tail, o),
    };
}

#[test]
fn test_lang_tail_buildin_empty_array() {
    let input = vec![Object::Array(Vec::new())];

    match lang_last(input) {
        Object::Null => (),
        o => panic!("Expected Null from the empty list. Got {:?} instead", o),
    };
}

#[test]
fn test_lang_get_in_and_out_of_range() {
    let arr = Object::Array(vec![Object::Int(10), Object::Int(20)]);
    assert_eq!(lang_get(vec![arr.clone(), Object::Int(1)]), Object::Int(20));
    assert_eq!(lang_get(vec![arr.clone(), Object::Int(5)]), Object::Null);
    assert_eq!(lang_get(vec![arr, Object::Int(-1)]), Object::Null);
}

#[test]
fn test_lang_push_copies() {
    let arr = Object::Array(vec![Object::Int(1)]);
    let out = lang_push(vec![arr.clone(), Object::Int(2)]);
    assert_eq!(out, Object::Array(vec![Object::Int(1), Object::Int(2)]));
    assert_eq!(arr, Object::Array(vec![Object::Int(1)]));
}

#[test]
fn test_lang_reverse() {
    let arr = Object::Array(vec![Object::Int(1), Object::Int(2), Object::Int(3)]);
    assert_eq!(
        lang_reverse(vec![arr]),
        Object::Array(vec![Object::Int(3), Object::Int(2), Object::Int(1)])
    );
}

#[test]
fn test_lang_string_utilities() {
    assert_eq!(
        lang_trim(vec![Object::String("  hi  ".to_string())]),
        Object::String("hi".to_string())
    );
    assert_eq!(
        lang_to_lowercase(vec![Object::String("AbC".to_string())]),
        Object::String("abc".to_string())
    );
    assert_eq!(
        lang_to_uppercase(vec![Object::String("AbC".to_string())]),
        Object::String("ABC".to_string())
    );
    assert_eq!(
        lang_replace_substring(vec![
            Object::String("a-b-c".to_string()),
            Object::String("-".to_string()),
            Object::String("+".to_string()),
        ]),
        Object::String("a+b+c".to_string())
    );
    assert_eq!(
        lang_replace_n_substring(vec![
            Object::String("a-b-c".to_string()),
            Object::String("-".to_string()),
            Object::String("+".to_string()),
            Object::Int(1),
        ]),
        Object::String("a+b-c".to_string())
    );
}

/// `len` of a string counts bytes of its UTF-8 encoding, not characters.
#[test]
fn test_lang_len_counts_bytes() {
    assert_eq!(
        lang_len(vec![Object::String("h\u{e9}llo".to_string())]),
        Object::Int(6)
    );
    assert_eq!(lang_len(vec![Object::String("hello".to_string())]), Object::Int(5));
}

#[test]
fn test_lang_parse_number() {
    assert_eq!(
        lang_parse_number(vec![Object::String("-42".to_string())]),
        Object::Int(-42)
    );
    assert_eq!(
        lang_parse_number(vec![Object::String("4x2".to_string())]),
        Object::Error("could not parse int".to_string())
    );
}

#[test]
fn test_lang_explode() {
    assert_eq!(
        lang_explode(vec![Object::String("ab".to_string())]),
        Object::Array(vec![
            Object::String("a".to_string()),
            Object::String("b".to_string()),
        ])
    );
}
