use bitreel::api::ClientConnector;
use bitreel::client::{
    decrypt, extract_facebook_id, extract_youtube_id, parse_facebook_streams, parse_videos,
    process_query, Client, Connector, QueryType,
};
use bitreel::error::ErrorKind;
use bitreel::streammap::StreamKey;

/// Serves fixed documents for fixed URLs, as an injected fetch
/// capability would.
struct FixtureConnector {
    pages: Vec<(Vec<u8>, Vec<u8>)>,
}

impl Connector for FixtureConnector {
    fn download_string(&self, url: &Vec<u8>) -> Option<Vec<u8>> {
        self.pages.iter().find(|(u, _)| u == url).map(|(_, b)| b.clone())
    }
}

struct FixtureClientConnector {
    pages: Vec<(Vec<u8>, Vec<u8>)>,
}

impl ClientConnector for FixtureClientConnector {
    type Err = String;

    fn download_string(&self, uri: &Vec<u8>) -> Result<Vec<u8>, String> {
        self.pages
            .iter()
            .find(|(u, _)| u == uri)
            .map(|(_, b)| b.clone())
            .ok_or_else(|| "no fixture".to_string())
    }
}

fn player_script() -> Vec<u8> {
    let mut js =
        b"c&&d.sig||dc(a);dc=function(a){a=a.split();rv(a);sw(a,2);sl(a,1);return a};".to_vec();
    js.extend_from_slice(
        b"var u={rv:function(a){return a.reverse()},sw:function(a,b){var c=a[0];a[0]=a[b];a[b]=c;return a},sl:function(a,b){return a.slice(b)}};",
    );
    js
}

fn metadata_page() -> Vec<u8> {
    let mut page = b"<html><head><title>A Fine Video</title></head><body>".to_vec();
    page.extend_from_slice(b"var cfg={\"js\":\"\\/\\/p.example\\/player.js\",");
    page.extend_from_slice(b"\"url_encoded_fmt_stream_map\":\"");
    page.extend_from_slice(b"url=http%3A%2F%2Fe.com%2Fa&quality=medium,");
    page.extend_from_slice(b"url=http%3A%2F%2Fe.com%2Fb&quality=hd720&s=abcdef\"};");
    page.extend_from_slice(b"</body></html>");
    page
}

#[test]
fn classifier_recognizes_the_two_reference_shapes() {
    assert_eq!(
        QueryType::from_str(&b"https://www.youtube.com/watch?v=x".to_vec()).unwrap(),
        QueryType::YouTube
    );
    assert_eq!(
        QueryType::from_str(&b"https://youtu.be/x".to_vec()).unwrap(),
        QueryType::YouTube
    );
    let err = QueryType::from_str(&b"https://example.com/video".to_vec()).unwrap_err();
    assert_eq!(err.kind, ErrorKind::UnknownQueryType);
}

#[test]
fn youtube_id_comes_from_the_short_link() {
    assert_eq!(
        extract_youtube_id(&b"https://youtu.be/abc123".to_vec()).unwrap(),
        b"abc123".to_vec()
    );
}

#[test]
fn youtube_id_comes_from_the_v_parameter() {
    assert_eq!(
        extract_youtube_id(&b"https://www.youtube.com/watch?v=xyz9&t=4".to_vec()).unwrap(),
        b"xyz9".to_vec()
    );
}

#[test]
fn reference_without_an_id_is_unknown_query_type() {
    let err = extract_youtube_id(&b"https://example.com/nothing".to_vec()).unwrap_err();
    assert_eq!(err.kind, ErrorKind::UnknownQueryType);
}

#[test]
fn facebook_id_is_the_last_path_segment() {
    assert_eq!(
        extract_facebook_id(&b"http://fb.example/videos/12345/".to_vec()).unwrap(),
        b"12345".to_vec()
    );
    assert_eq!(
        extract_facebook_id(&b"http://fb.example/videos/678".to_vec()).unwrap(),
        b"678".to_vec()
    );
    let err = extract_facebook_id(&b"segmentless".to_vec()).unwrap_err();
    assert_eq!(err.kind, ErrorKind::UnknownQueryType);
}

#[test]
fn facebook_streams_come_from_their_quoted_captures() {
    let page = b"x sd_src:\"http://s.example/sd\" y hd_src:\"http://s.example/hd\" z".to_vec();
    let m = parse_facebook_streams(&page).unwrap();
    assert_eq!(m.sd, Some(b"http://s.example/sd".to_vec()));
    assert_eq!(m.hd, Some(b"http://s.example/hd".to_vec()));
    assert_eq!(m.ld, None);
    let m = parse_facebook_streams(&b"nothing".to_vec()).unwrap();
    assert_eq!(m.sd, None);
    assert_eq!(m.hd, None);
}

#[test]
fn parse_videos_decodes_title_and_entries() {
    let info = b"title=My+Video&url_encoded_fmt_stream_map=quality%3DMedium%26url%3Dhttp%253A%252F%252Fe.com".to_vec();
    let v = parse_videos(&info).unwrap();
    assert_eq!(v.title, b"My Video".to_vec());
    assert_eq!(v.get_url(&b"medium".to_vec()), Some(&b"http://e.com".to_vec()));
}

#[test]
fn parse_videos_without_a_title_uses_the_sentinel() {
    let info = b"url_encoded_fmt_stream_map=quality%3Dsmall%26url%3Du".to_vec();
    let v = parse_videos(&info).unwrap();
    assert_eq!(v.title, b"untitled".to_vec());
}

#[test]
fn parse_videos_without_a_stream_map_is_playback_restricted() {
    let err = parse_videos(&b"title=x".to_vec()).unwrap_err();
    assert_eq!(err.kind, ErrorKind::PlaybackRestricted);
}

#[test]
fn parse_videos_with_a_bad_fragment_is_malformed() {
    let info = b"url_encoded_fmt_stream_map=quality%3Dsmall".to_vec();
    let err = parse_videos(&info).unwrap_err();
    assert_eq!(err.kind, ErrorKind::MalformedStreamDescriptor);
}

#[test]
fn trait_client_resolves_through_its_connector() {
    let connector = FixtureClientConnector {
        pages: vec![(
            b"http://youtube.com/get_video_info?video_id=vid9".to_vec(),
            b"title=T&url_encoded_fmt_stream_map=quality%3Dsmall%26url%3Du".to_vec(),
        )],
    };
    let client = bitreel::client::YoutubeClient::new();
    let v = client.query(&b"vid9".to_vec(), &connector).unwrap();
    assert_eq!(v.title, b"T".to_vec());
    assert_eq!(v.get_url(&b"small".to_vec()), Some(&b"u".to_vec()));
}

#[test]
fn trait_client_surfaces_a_fetch_failure_as_network() {
    let connector = FixtureClientConnector { pages: vec![] };
    let client = bitreel::client::YoutubeClient::new();
    let err = client.query(&b"vid9".to_vec(), &connector).unwrap_err();
    assert_eq!(err.kind, ErrorKind::Network);
}

#[test]
fn end_to_end_resolution_signs_only_the_signed_stream() {
    let connector = FixtureConnector {
        pages: vec![
            (
                b"http://youtube.com/get_video_info?video_id=vid01".to_vec(),
                metadata_page(),
            ),
            (b"http://p.example/player.js".to_vec(), player_script()),
        ],
    };
    let client = Client::with_connector(connector);
    let video = client.query(&b"http://youtube.com/watch?v=vid01".to_vec()).unwrap();
    assert_eq!(video.identifier(), &b"vid01".to_vec());
    assert_eq!(video.title(), &b"A Fine Video".to_vec());
    // the unsigned stream's URL is untouched by the descrambler
    assert_eq!(
        video.get_stream(StreamKey::SD),
        Some(&b"http://e.com/a&ratebypass=yes".to_vec())
    );
    // the signed stream carries its descrambled signature
    assert_eq!(
        video.get_stream(StreamKey::HD),
        Some(&b"http://e.com/b&ratebypass=yes&signature=efcba".to_vec())
    );
    assert_eq!(video.get_stream(StreamKey::LD), None);
    assert_eq!(
        video.best_stream(),
        Some(&b"http://e.com/b&ratebypass=yes&signature=efcba".to_vec())
    );
}

#[test]
fn resolution_without_a_stream_map_is_playback_restricted() {
    let connector = FixtureConnector {
        pages: vec![(
            b"http://youtube.com/get_video_info?video_id=vid02".to_vec(),
            b"<html>nothing here</html>".to_vec(),
        )],
    };
    let err = process_query(&b"https://youtu.be/vid02".to_vec(), &connector).unwrap_err();
    assert_eq!(err.kind, ErrorKind::PlaybackRestricted);
}

#[test]
fn signed_stream_without_a_player_script_is_descrambler_not_found() {
    let mut page = b"{\"url_encoded_fmt_stream_map\":\"".to_vec();
    page.extend_from_slice(b"url=u&quality=hd720&s=abc\"}");
    let connector = FixtureConnector {
        pages: vec![(b"http://youtube.com/get_video_info?video_id=vid03".to_vec(), page)],
    };
    let err = process_query(&b"https://youtu.be/vid03".to_vec(), &connector).unwrap_err();
    assert_eq!(err.kind, ErrorKind::DescramblerNotFound);
}

#[test]
fn fetch_failure_is_a_network_error() {
    let connector = FixtureConnector { pages: vec![] };
    let err = process_query(&b"https://youtu.be/vid04".to_vec(), &connector).unwrap_err();
    assert_eq!(err.kind, ErrorKind::Network);
}

#[test]
fn unknown_reference_is_refused_before_any_fetch() {
    let connector = FixtureConnector { pages: vec![] };
    let client = Client::with_connector(connector);
    let err = client.query(&b"gopher://example.org/v".to_vec()).unwrap_err();
    assert_eq!(err.kind, ErrorKind::UnknownQueryType);
}

#[test]
fn decrypt_downloads_the_script_and_signs_the_url() {
    let connector = FixtureConnector {
        pages: vec![(b"http://p.example/player.js".to_vec(), player_script())],
    };
    let out = decrypt(
        &b"http://e.com/v".to_vec(),
        &b"http://p.example/player.js".to_vec(),
        &b"abcdef".to_vec(),
        &connector,
    )
    .unwrap();
    assert_eq!(out, b"http://e.com/v&signature=efcba".to_vec());
}
