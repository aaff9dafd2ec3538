use bitreel::crypt::CryptOp;
use bitreel::descramble::{
    capture_body, decrypt_function, decrypt_with_script, discover_operations, get_id,
    is_reverse_id, is_slice_id, is_swap_id, read_js_player,
};
use bitreel::error::ErrorKind;

fn helpers() -> Vec<u8> {
    b"var u={rv:function(a){return a.reverse()},sw:function(a,b){var c=a[0];a[0]=a[b];a[b]=c;return a},sl:function(a,b){return a.slice(b)}};".to_vec()
}

#[test]
fn decrypt_function_reads_the_name_after_the_idiom() {
    assert_eq!(decrypt_function(&b"xx;c&&d.sig||dc(a);yy".to_vec()).unwrap(), b"dc".to_vec());
}

#[test]
fn decrypt_function_takes_the_name_behind_a_qualifier() {
    assert_eq!(decrypt_function(&b"c&&d.sig||ab.cd(a);".to_vec()).unwrap(), b"cd".to_vec());
}

#[test]
fn missing_idiom_is_descrambler_not_found() {
    let err = decrypt_function(&b"nothing to see here".to_vec()).unwrap_err();
    assert_eq!(err.kind, ErrorKind::DescramblerNotFound);
}

#[test]
fn missing_idiom_fails_discovery_too() {
    let err = discover_operations(&b"plain script with no descrambler".to_vec()).unwrap_err();
    assert_eq!(err.kind, ErrorKind::DescramblerNotFound);
}

#[test]
fn capture_body_takes_the_braced_body() {
    let js = b"dc=function(a){a=x(a);return a};".to_vec();
    assert_eq!(capture_body(&js, &b"dc".to_vec()).unwrap(), b"a=x(a);return a".to_vec());
}

#[test]
fn capture_body_without_a_definition_is_descrambler_not_found() {
    let js = b"no function of that name".to_vec();
    let err = capture_body(&js, &b"dc".to_vec()).unwrap_err();
    assert_eq!(err.kind, ErrorKind::DescramblerNotFound);
}

#[test]
fn get_id_reads_the_invoked_identifier() {
    assert_eq!(get_id(&b"a=xy.ab(a,2)".to_vec()), b"ab".to_vec());
    assert_eq!(get_id(&b"rv(a)".to_vec()), b"rv".to_vec());
    assert_eq!(get_id(&b"no call here".to_vec()), b"".to_vec());
}

#[test]
fn fingerprints_tell_the_three_shapes_apart() {
    let js = helpers();
    assert!(is_reverse_id(&b"rv".to_vec(), &js));
    assert!(!is_swap_id(&b"rv".to_vec(), &js));
    assert!(is_swap_id(&b"sw".to_vec(), &js));
    assert!(!is_reverse_id(&b"sw".to_vec(), &js));
    assert!(is_slice_id(&b"sl".to_vec(), &js));
    assert!(!is_reverse_id(&b"sl".to_vec(), &js));
    assert!(!is_swap_id(&b"sl".to_vec(), &js));
    assert!(!is_reverse_id(&b"zz".to_vec(), &js));
}

#[test]
fn ambiguous_shape_classifies_as_swap_not_slice() {
    // this definition satisfies both the swap and the slice fingerprint
    let mut js = b"a.sig||dc(a);dc=function(a){a=a.x;zz(a,2)};".to_vec();
    js.extend_from_slice(b"var u={zz:function(a,b){var.c=a}};");
    assert!(is_swap_id(&b"zz".to_vec(), &js));
    assert!(is_slice_id(&b"zz".to_vec(), &js));
    assert!(!is_reverse_id(&b"zz".to_vec(), &js));
    let ops = discover_operations(&js).unwrap();
    assert_eq!(ops, vec![CryptOp::Swap(2)]);
}

#[test]
fn discovery_finds_the_ordered_transform_sequence() {
    let mut js = b"c&&d.sig||dc(a);dc=function(a){a=a.split();rv(a);sw(a,2);sl(a,1);return a};"
        .to_vec();
    js.extend_from_slice(&helpers());
    let ops = discover_operations(&js).unwrap();
    assert_eq!(ops, vec![CryptOp::Reverse, CryptOp::Swap(2), CryptOp::Slice(1)]);
}

#[test]
fn discovery_reuses_a_classified_identifier() {
    let mut js = b"c&&d.sig||dc(a);dc=function(a){a=a.split();sw(a,1);sw(a,13);return a};"
        .to_vec();
    js.extend_from_slice(&helpers());
    let ops = discover_operations(&js).unwrap();
    assert_eq!(ops, vec![CryptOp::Swap(1), CryptOp::Swap(13)]);
}

#[test]
fn unclassifiable_statement_is_unknown_transform() {
    let mut js = b"c&&d.sig||dc(a);dc=function(a){a=a.split();mystery(a,2);return a};".to_vec();
    js.extend_from_slice(&helpers());
    let err = discover_operations(&js).unwrap_err();
    assert_eq!(err.kind, ErrorKind::UnknownTransform);
}

#[test]
fn read_js_player_restores_the_script_url() {
    let page = b"{\"x\":1,\"js\":\"\\/\\/p.example\\/player.js\",\"y\":2}".to_vec();
    assert_eq!(read_js_player(&page).unwrap(), b"http://p.example/player.js".to_vec());
}

#[test]
fn page_without_script_path_is_descrambler_not_found() {
    let err = read_js_player(&b"{\"x\":1}".to_vec()).unwrap_err();
    assert_eq!(err.kind, ErrorKind::DescramblerNotFound);
}

#[test]
fn decrypt_with_script_appends_the_descrambled_signature() {
    let mut js = b"c&&d.sig||dc(a);dc=function(a){a=a.split();rv(a);sw(a,2);sl(a,1);return a};"
        .to_vec();
    js.extend_from_slice(&helpers());
    let out = decrypt_with_script(&b"http://e.com/v".to_vec(), &js, &b"abcdef".to_vec()).unwrap();
    assert_eq!(out, b"http://e.com/v&signature=efcba".to_vec());
}

#[test]
fn decrypt_with_script_reports_an_out_of_range_index() {
    let mut js = b"c&&d.sig||dc(a);dc=function(a){a=a.split();sw(a,9);return a};".to_vec();
    js.extend_from_slice(&helpers());
    let err = decrypt_with_script(&b"u".to_vec(), &js, &b"abc".to_vec()).unwrap_err();
    assert_eq!(err.kind, ErrorKind::IndexOutOfRange);
}
