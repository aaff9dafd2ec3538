use bitreel::api::Video as VideoApi;
use bitreel::streammap::StreamKey;
use bitreel::video::{StreamUrls, Video, YoutubeVideo};

fn urls(ld: Option<&[u8]>, sd: Option<&[u8]>, hd: Option<&[u8]>) -> StreamUrls {
    StreamUrls {
        ld: ld.map(|u| u.to_vec()),
        sd: sd.map(|u| u.to_vec()),
        hd: hd.map(|u| u.to_vec()),
    }
}

#[test]
fn new_video_carries_the_sentinel_title() {
    let v = Video::new(b"id1".to_vec(), urls(None, None, None));
    assert_eq!(v.identifier(), &b"id1".to_vec());
    assert_eq!(v.title(), &b"untitled".to_vec());
}

#[test]
fn get_stream_returns_the_tier_url() {
    let v = Video::new(b"id".to_vec(), urls(Some(b"l"), Some(b"s"), None));
    assert_eq!(v.get_stream(StreamKey::LD), Some(&b"l".to_vec()));
    assert_eq!(v.get_stream(StreamKey::SD), Some(&b"s".to_vec()));
    assert_eq!(v.get_stream(StreamKey::HD), None);
}

#[test]
fn best_stream_prefers_the_highest_tier() {
    let v = Video::new(b"id".to_vec(), urls(Some(b"l"), Some(b"s"), Some(b"h")));
    assert_eq!(v.best_stream(), Some(&b"h".to_vec()));
    let v = Video::new(b"id".to_vec(), urls(Some(b"l"), Some(b"s"), None));
    assert_eq!(v.best_stream(), Some(&b"s".to_vec()));
    let v = Video::new(b"id".to_vec(), urls(Some(b"l"), None, None));
    assert_eq!(v.best_stream(), Some(&b"l".to_vec()));
    let v = Video::new(b"id".to_vec(), urls(None, None, None));
    assert_eq!(v.best_stream(), None);
}

#[test]
fn streams_lists_present_tiers_in_order() {
    let v = Video::new(b"id".to_vec(), urls(Some(b"l"), None, Some(b"h")));
    assert_eq!(
        v.streams(),
        vec![(StreamKey::LD, b"l".to_vec()), (StreamKey::HD, b"h".to_vec())]
    );
}

#[test]
fn tiers_order_low_to_high() {
    assert!(StreamKey::LD < StreamKey::SD);
    assert!(StreamKey::SD < StreamKey::HD);
}

#[test]
fn youtube_video_lookup_is_lowercased_and_last_wins() {
    let v = YoutubeVideo::new(
        b"t".to_vec(),
        vec![
            (b"medium".to_vec(), b"u1".to_vec()),
            (b"hd720".to_vec(), b"u2".to_vec()),
            (b"medium".to_vec(), b"u3".to_vec()),
        ],
    );
    assert_eq!(v.get_url(&b"MEDIUM".to_vec()), Some(&b"u3".to_vec()));
    assert_eq!(v.get_url(&b"hd720".to_vec()), Some(&b"u2".to_vec()));
    assert_eq!(v.get_url(&b"small".to_vec()), None);
}

#[test]
fn youtube_video_lists_its_formats() {
    let v = YoutubeVideo::new(
        b"t".to_vec(),
        vec![(b"medium".to_vec(), b"u1".to_vec()), (b"hd720".to_vec(), b"u2".to_vec())],
    );
    assert_eq!(v.list_formats(), vec![b"medium".to_vec(), b"hd720".to_vec()]);
    assert_eq!(v.title(), &b"t".to_vec());
}

#[test]
fn youtube_video_serves_the_trait_interface() {
    let v = YoutubeVideo::new(b"t".to_vec(), vec![(b"medium".to_vec(), b"u1".to_vec())]);
    let dyn_video: &dyn VideoApi = &v;
    assert_eq!(dyn_video.title(), &b"t".to_vec());
    assert_eq!(dyn_video.get_url(&b"medium".to_vec()), Some(&b"u1".to_vec()));
    assert_eq!(dyn_video.list_formats(), vec![b"medium".to_vec()]);
}
