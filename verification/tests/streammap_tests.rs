use bitreel::error::ErrorKind;
use bitreel::streammap::{parse_youtube_streams, read_urls, StreamKey};

#[test]
fn all_quality_spellings_normalize_to_their_tier() {
    assert_eq!(StreamKey::from_str(&b"small".to_vec()), Some(StreamKey::LD));
    assert_eq!(StreamKey::from_str(&b"medium".to_vec()), Some(StreamKey::SD));
    assert_eq!(StreamKey::from_str(&b"sd_src".to_vec()), Some(StreamKey::SD));
    assert_eq!(StreamKey::from_str(&b"large".to_vec()), Some(StreamKey::HD));
    assert_eq!(StreamKey::from_str(&b"hd720".to_vec()), Some(StreamKey::HD));
    assert_eq!(StreamKey::from_str(&b"hd_src".to_vec()), Some(StreamKey::HD));
}

#[test]
fn medium_and_sd_src_share_one_tier() {
    assert_eq!(
        StreamKey::from_str(&b"medium".to_vec()),
        StreamKey::from_str(&b"sd_src".to_vec())
    );
}

#[test]
fn unrecognized_spelling_names_no_tier() {
    assert_eq!(StreamKey::from_str(&b"ultra".to_vec()), None);
    assert_eq!(StreamKey::from_str(&b"MEDIUM".to_vec()), None);
}

#[test]
fn missing_stream_map_is_playback_restricted() {
    let err = parse_youtube_streams(&b"status=ok&foo=bar".to_vec()).unwrap_err();
    assert_eq!(err.kind, ErrorKind::PlaybackRestricted);
}

#[test]
fn fragment_missing_url_is_malformed() {
    let err = read_urls(&b"quality=medium".to_vec()).unwrap_err();
    assert_eq!(err.kind, ErrorKind::MalformedStreamDescriptor);
}

#[test]
fn fragment_missing_quality_is_malformed() {
    let err = read_urls(&b"url=http%3A%2F%2Fe.com".to_vec()).unwrap_err();
    assert_eq!(err.kind, ErrorKind::MalformedStreamDescriptor);
}

#[test]
fn one_bad_fragment_fails_the_whole_parse() {
    let blob = b"url=http%3A%2F%2Fe.com&quality=medium,quality=small".to_vec();
    let err = read_urls(&blob).unwrap_err();
    assert_eq!(err.kind, ErrorKind::MalformedStreamDescriptor);
}

#[test]
fn plain_fragment_gets_the_rate_bypass_marker() {
    let m = read_urls(&b"url=http%3A%2F%2Fe.com%2Fv&quality=medium".to_vec()).unwrap();
    let d = m.get(StreamKey::SD).unwrap();
    assert_eq!(d.url, b"http://e.com/v&ratebypass=yes".to_vec());
    assert_eq!(d.signature, None);
    assert!(m.get(StreamKey::LD).is_none());
    assert!(m.get(StreamKey::HD).is_none());
}

#[test]
fn existing_rate_bypass_marker_is_kept_once() {
    let m = read_urls(&b"url=u%26ratebypass%3Dyes&quality=small".to_vec()).unwrap();
    let d = m.get(StreamKey::LD).unwrap();
    assert_eq!(d.url, b"u&ratebypass=yes".to_vec());
}

#[test]
fn fallback_host_is_appended_back_onto_the_url() {
    let m = read_urls(&b"url=u&quality=small&fallback_host=h.example".to_vec()).unwrap();
    let d = m.get(StreamKey::LD).unwrap();
    assert_eq!(d.url, b"u&fallback_host=h.example&ratebypass=yes".to_vec());
}

#[test]
fn signature_token_is_read_from_the_short_key() {
    let m = read_urls(&b"url=u&quality=hd720&s=ZYX".to_vec()).unwrap();
    let d = m.get(StreamKey::HD).unwrap();
    assert_eq!(d.signature, Some(b"ZYX".to_vec()));
}

#[test]
fn signature_token_is_read_from_the_long_key_too() {
    let m = read_urls(&b"url=u&quality=hd720&signature=QRS".to_vec()).unwrap();
    let d = m.get(StreamKey::HD).unwrap();
    assert_eq!(d.signature, Some(b"QRS".to_vec()));
}

#[test]
fn unrecognized_quality_fragment_is_dropped_silently() {
    let blob = b"url=u1&quality=weird,url=u2&quality=small".to_vec();
    let m = read_urls(&blob).unwrap();
    assert!(m.get(StreamKey::SD).is_none());
    assert!(m.get(StreamKey::HD).is_none());
    assert_eq!(m.get(StreamKey::LD).unwrap().url, b"u2&ratebypass=yes".to_vec());
}

#[test]
fn duplicate_tiers_overwrite_last_write_wins() {
    let blob = b"url=u1&quality=medium,url=u2&quality=sd_src".to_vec();
    let m = read_urls(&blob).unwrap();
    assert_eq!(m.get(StreamKey::SD).unwrap().url, b"u2&ratebypass=yes".to_vec());
}

#[test]
fn embedded_ampersand_placeholders_are_unescaped() {
    let blob = b"url=u\\u0026quality=small".to_vec();
    let m = read_urls(&blob).unwrap();
    assert_eq!(m.get(StreamKey::LD).unwrap().url, b"u&ratebypass=yes".to_vec());
}

#[test]
fn quality_spelling_is_lowercased_before_normalizing() {
    let m = read_urls(&b"url=u&quality=Medium".to_vec()).unwrap();
    assert!(m.get(StreamKey::SD).is_some());
}

#[test]
fn doubly_escaped_separators_are_restored_in_urls() {
    let m = read_urls(&b"url=u%252Cv%252Fw&quality=small".to_vec()).unwrap();
    assert_eq!(m.get(StreamKey::LD).unwrap().url, b"u,v/w&ratebypass=yes".to_vec());
}

#[test]
fn form_encoded_info_reaches_the_extractor() {
    let info = b"status=ok&url_encoded_fmt_stream_map=url%3Du%26quality%3Dsmall".to_vec();
    let m = parse_youtube_streams(&info).unwrap();
    assert_eq!(m.get(StreamKey::LD).unwrap().url, b"u&ratebypass=yes".to_vec());
}
