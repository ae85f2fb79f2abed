use jsonparser::validator::{parse, parse_bytes};

#[test]
fn empty_json() {
    assert!(parse(r#"{}"#.to_string()).is_ok());
    assert!(parse(r#"[]"#.to_string()).is_ok());
    assert!(parse(r#"[{}]"#.to_string()).is_ok());
}

#[test]
fn string() {
    assert!(parse(r#"{"key": "value"}"#.to_string()).is_ok());
}

#[test]
fn numeric() {
    assert!(parse(r#"{"a": 1}"#.to_string()).is_ok());
}

#[test]
fn boolean() {
    assert!(parse(r#"{"a": true}"#.to_string()).is_ok());
}

#[test]
fn unquoted_string() {
    assert!(parse(r#"{"key": value}"#.to_string()).is_err());
}

#[test]
fn null() {
    assert!(parse(r#"{"key": null}"#.to_string()).is_ok());
}

#[test]
fn invalid_json() {
    assert!(parse(r#"{"#.to_string()).is_err());
    assert!(parse(r#"}"#.to_string()).is_err());
    assert!(parse(r#"1"#.to_string()).is_err());
    assert!(parse(r#"["#.to_string()).is_err());
    assert!(parse(r#"]"#.to_string()).is_err());
}

#[test]
fn combination_of_data_types() {
    let s = r#"{"key1": true, "key2": false, "key3": null, "key4": "value", "key5": 101}"#;
    assert!(parse(s.to_string()).is_ok());
}

#[test]
fn array_and_dict_as_value() {
    let s = r#"{"key": "value", "key-n": 101, "key-o": {}, "key-l": []}"#;
    assert!(parse(s.to_string()).is_ok());
}

fn check(s: &str) -> Result<(), char> {
    parse(s.to_string())
}

#[test]
fn empty_input_is_valid() {
    assert_eq!(check(""), Ok(()));
    assert_eq!(check(" \n\t"), Ok(()));
}

#[test]
fn bare_word_reports_its_first_letter() {
    assert_eq!(check(r#"{"key": value}"#), Err('v'));
}

#[test]
fn lone_delimiters_report_themselves() {
    assert_eq!(check("{"), Err('{'));
    assert_eq!(check("}"), Err('}'));
    assert_eq!(check("1"), Err('1'));
    assert_eq!(check("["), Err('['));
    assert_eq!(check("]"), Err(']'));
}

#[test]
fn unclosed_markers_report_their_character() {
    assert_eq!(check(r#"{"a"#), Err('"'));
    assert_eq!(check(r#"{"a":"#), Err(':'));
    assert_eq!(check(r#"{"a": 1,"#), Err(','));
    assert_eq!(check(r#"{"a": tr"#), Err('r'));
    assert_eq!(check(r#"{"a": fals"#), Err('s'));
    assert_eq!(check(r#"{"a": n"#), Err('n'));
}

#[test]
fn misspelt_keywords_are_rejected() {
    assert_eq!(check(r#"{"a": tru}"#), Err('}'));
    assert_eq!(check(r#"{"a": nulse}"#), Err('s'));
    assert_eq!(check(r#"{"a": fxlse}"#), Err('x'));
    assert_eq!(check(r#"{"a": nue}"#), Err('e'));
}

#[test]
fn keyword_needs_value_position() {
    assert_eq!(check(r#"{true}"#), Err('t'));
    assert_eq!(check(r#"[null]"#), Err('n'));
}

#[test]
fn digits_need_value_position() {
    assert_eq!(check(r#"{1}"#), Err('1'));
    assert_eq!(check(r#"[1]"#), Err('1'));
}

#[test]
fn strings_hold_any_printable_ascii() {
    assert_eq!(check(r#"{"a{b}[c]:d,e": "tr 1"}"#), Ok(()));
    assert_eq!(check(r#"["x"]"#), Ok(()));
}

#[test]
fn control_bytes_in_strings_are_rejected() {
    assert_eq!(parse_bytes(&[0x7B, 0x22, 0x01]), Err('\u{1}'));
    assert_eq!(parse_bytes(&[0x7B, 0x22, 0x7F]), Err('\u{7f}'));
}

#[test]
fn non_ascii_characters_are_string_content() {
    assert_eq!(check(r#"{"a": "é"}"#), Ok(()));
    assert_eq!(check("{\"é\": \"日本\"}"), Ok(()));
    assert_eq!(parse_bytes(&[0x7B, 0xB2]), Err('\u{b2}'));
}

#[test]
fn whitespace_inside_a_number_is_rejected() {
    assert_eq!(check(r#"{"a": 1 01}"#), Err('0'));
    assert_eq!(check("{\"a\": 10\n\t2}"), Err('2'));
    assert_eq!(check(r#"{"a": 101 }"#), Ok(()));
}

#[test]
fn a_number_ends_only_at_whitespace_or_a_delimiter() {
    assert_eq!(check(r#"{"a": 1"x"}"#), Err('"'));
    assert_eq!(check(r#"{"a": 1 true}"#), Err('t'));
    assert_eq!(check(r#"{"a": 1, "b": 2}"#), Ok(()));
    assert_eq!(check(r#"{"a": 12"#), Err('2'));
}

#[test]
fn colon_needs_object_or_comma() {
    assert_eq!(check(r#"[:"#), Err(':'));
    assert_eq!(check(r#":"#), Err(':'));
}

#[test]
fn closing_brace_does_not_cross_an_array() {
    assert_eq!(check(r#"{"a": [,}"#), Err('}'));
    assert_eq!(check(r#"{[,}"#), Err('}'));
    assert_eq!(check(r#",}"#), Err('}'));
}

#[test]
fn arrays_of_several_elements_are_rejected() {
    assert_eq!(check(r#"[{}, {}]"#), Err(']'));
}

#[test]
fn nested_objects() {
    assert_eq!(check(r#"{"a": {"b": {"c": [[]]}}}"#), Ok(()));
}

#[test]
fn validation_is_repeatable() {
    let s = r#"{"key1": true, "key2": [}"#;
    let first = check(s);
    let second = check(s);
    assert_eq!(first, second);
    assert_eq!(first, Err('}'));
}

#[test]
fn valid_document_is_balanced() {
    let s = r#"{"a": {"b}": [[]]}, "c": {}}"#;
    assert_eq!(check(s), Ok(()));
    let outside: Vec<char> = {
        let mut in_string = false;
        let mut v = vec![];
        for c in s.chars() {
            if c == '"' {
                in_string = !in_string;
            } else if !in_string {
                v.push(c);
            }
        }
        v
    };
    let opens = outside.iter().filter(|c| **c == '{' || **c == '[').count();
    let closes = outside.iter().filter(|c| **c == '}' || **c == ']').count();
    assert_eq!(opens, closes);
}

#[test]
fn failure_is_fixed_by_the_prefix() {
    let s = r#"{"a": x, "b": 1}"#;
    assert_eq!(check(s), Err('x'));
    let i = s.find('x').unwrap();
    assert_eq!(check(&s[..i]), Err(':'));
    for j in i + 1..=s.len() {
        assert_eq!(check(&s[..j]), Err('x'));
    }
}

#[test]
fn whitespace_between_tokens_keeps_validity() {
    assert_eq!(check(r#"{"a":true,"b":[],"c":1}"#), Ok(()));
    assert_eq!(check(" {\n\t\"a\" :  true ,\n\"b\" : [ ] , \"c\" :\t1 }\n"), Ok(()));
}

#[test]
fn whitespace_inside_a_keyword_is_rejected() {
    assert_eq!(check(r#"{"a": tr ue}"#), Err(' '));
    assert_eq!(check("{\"a\": nu\nll}"), Err('\n'));
}

#[test]
fn closers_must_match_the_innermost_opening() {
    assert_eq!(check(r#"[{]"#), Err(']'));
    assert_eq!(check(r#"{"a": [}"#), Err('}'));
    assert_eq!(check(r#"[{"a": []}]"#), Ok(()));
}

#[test]
fn several_whitespace_runs_keep_validity() {
    let s = r#"{"a":12,"b":[],"c":{"d":null}}"#;
    assert_eq!(check(s), Ok(()));
    let spaced = "\n{ \"a\"\t:  12 ,\n\"b\" : [\t] , \"c\":{ \"d\" : null }\n}\t";
    assert_eq!(check(spaced), Ok(()));
}
