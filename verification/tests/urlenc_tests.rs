use bitreel::urlenc::{find_capture, get_param, replace, split, to_lower, unquote, unquote_plus};

#[test]
fn unquote_decodes_percent_escapes() {
    assert_eq!(unquote(&b"a%20b%2Fc".to_vec()), b"a b/c".to_vec());
}

#[test]
fn unquote_keeps_invalid_escapes_verbatim() {
    assert_eq!(unquote(&b"100%zz%2".to_vec()), b"100%zz%2".to_vec());
}

#[test]
fn unquote_keeps_plus_signs() {
    assert_eq!(unquote(&b"a+b".to_vec()), b"a+b".to_vec());
}

#[test]
fn unquote_plus_turns_plus_into_space() {
    assert_eq!(unquote_plus(&b"a+b%21".to_vec()), b"a b!".to_vec());
}

#[test]
fn replace_rewrites_every_occurrence() {
    assert_eq!(
        replace(&b"a,b,c".to_vec(), &b",".to_vec(), &b"--".to_vec()),
        b"a--b--c".to_vec()
    );
}

#[test]
fn replace_scans_left_to_right_without_overlap() {
    assert_eq!(replace(&b"aaa".to_vec(), &b"aa".to_vec(), &b"b".to_vec()), b"ba".to_vec());
}

#[test]
fn split_keeps_empty_fragments() {
    let parts = split(&b"a,b,,c".to_vec(), b',');
    assert_eq!(parts, vec![b"a".to_vec(), b"b".to_vec(), b"".to_vec(), b"c".to_vec()]);
}

#[test]
fn split_of_empty_input_is_one_empty_fragment() {
    assert_eq!(split(&Vec::new(), b','), vec![Vec::<u8>::new()]);
}

#[test]
fn get_param_takes_the_last_occurrence() {
    let s = b"a=1&b=2&a=3".to_vec();
    assert_eq!(get_param(&s, &b"a".to_vec()), Some(b"3".to_vec()));
    assert_eq!(get_param(&s, &b"b".to_vec()), Some(b"2".to_vec()));
    assert_eq!(get_param(&s, &b"c".to_vec()), None);
}

#[test]
fn get_param_decodes_keys_and_values() {
    let s = b"my%20key=a+value%2Fx".to_vec();
    assert_eq!(get_param(&s, &b"my key".to_vec()), Some(b"a value/x".to_vec()));
}

#[test]
fn get_param_without_equals_has_empty_value() {
    let s = b"flag&x=1".to_vec();
    assert_eq!(get_param(&s, &b"flag".to_vec()), Some(Vec::new()));
}

#[test]
fn to_lower_lowercases_ascii_only() {
    assert_eq!(to_lower(&b"AbC-9_Z".to_vec()), b"abc-9_z".to_vec());
}

#[test]
fn find_capture_takes_text_up_to_the_closing_byte() {
    let h = b"pre k:\"value\" post".to_vec();
    assert_eq!(find_capture(&h, &b"k:\"".to_vec(), b'"'), Some(b"value".to_vec()));
}

#[test]
fn find_capture_skips_an_empty_capture() {
    let h = b"k:\"\" k:\"v\"".to_vec();
    assert_eq!(find_capture(&h, &b"k:\"".to_vec(), b'"'), Some(b"v".to_vec()));
}

#[test]
fn find_capture_needs_a_closing_byte() {
    let h = b"k:\"unterminated".to_vec();
    assert_eq!(find_capture(&h, &b"k:\"".to_vec(), b'"'), None);
}
