//! The resolution orchestrator.
//!
//! A raw reference string is classified by provider, the provider's
//! metadata page is fetched through the injected connector, the
//! stream-map extractor decodes it, and any stream whose descriptor
//! carries a signature token is repaired by the signature descrambler
//! before the final video record is assembled.

use vstd::prelude::*;
use crate::error::{Error, ErrorKind};
use crate::scan::{
    bytes_of_chars, contains_seq, contains_sub, matches_at, match_at, find_from, find_sub,
    first_match_from, lemma_first_match_from, index_of_from, lit, push_all, copy_vec, subvec,
    rfind_byte, last_index_of,
};
use crate::urlenc::{
    index_of, lemma_index_of_is, captured, find_capture, get_param, query_param, lower_seq,
    to_lower, split, split_seq,
};
use crate::video::{StreamUrls, Video, YoutubeVideo};
use crate::api::ClientConnector;
use crate::streammap::{opt_bytes, StreamDescriptor, StreamKey, StreamMap};
use crate::descramble::{
    decrypt_spec, decrypt_with_script, discover_spec, first_sig_pos, read_js_player,
};

verus! {

/// The provider a reference string names.
#[derive(Clone, Copy, Debug, PartialEq, Eq, Structural)]
pub enum QueryType {
    Facebook,
    YouTube,
}

/// The provider tag a reference string maps to, by substring containment
/// against known domain markers.  References to providers that need
/// authenticated access map to none.
pub open spec fn query_type_of(s: Seq<u8>) -> Option<QueryType> {
    if contains_seq(s, bytes_of_chars("youtu.be"@)) || contains_seq(
        s,
        bytes_of_chars("youtube.com"@),
    ) {
        Some(QueryType::YouTube)
    } else {
        None
    }
}

impl QueryType {
    /// Classifies a raw reference string.  Unrecognized input is a
    /// terminal error: there is no generic fallback provider.
    pub fn from_str(s: &Vec<u8>) -> (r: Result<QueryType, Error>)
        ensures
            match r {
                Ok(t) => query_type_of(s@) == Some(t),
                Err(e) => e.kind == ErrorKind::UnknownQueryType && query_type_of(s@) is None,
            },
    {
        if contains_sub(s, &lit("youtu.be")) || contains_sub(s, &lit("youtube.com")) {
            Ok(QueryType::YouTube)
        } else {
            Err(Error::unknown_query_type())
        }
    }
}

/// The short-link identifier pattern matches at `i`: `youtu`, any byte,
/// `be/`, and nothing after the captured identifier may be a slash.
pub open spec fn short_id_at(s: Seq<u8>, i: int) -> bool {
    &&& matches_at(s, i, bytes_of_chars("youtu"@))
    &&& i + 5 < s.len()
    &&& s[i + 5] != 10
    &&& matches_at(s, i + 6, bytes_of_chars("be/"@))
    &&& forall|k: int| i + 9 <= k < s.len() ==> s[k] != 47
}

/// The first position at or after `i` where the short-link pattern
/// matches.
pub open spec fn first_short_pos(s: Seq<u8>, i: int) -> Option<int>
    decreases s.len() - i when 0 <= i <= s.len()
{
    if i >= s.len() {
        None
    } else if short_id_at(s, i) {
        Some(i)
    } else {
        first_short_pos(s, i + 1)
    }
}

proof fn lemma_first_short_pos_from(s: Seq<u8>, lo: int, j: int)
    requires
        0 <= lo <= j <= s.len(),
        forall|k: int| lo <= k < j ==> !short_id_at(s, k),
    ensures
        j < s.len() && short_id_at(s, j) ==> first_short_pos(s, lo) == Some(j),
        j == s.len() ==> first_short_pos(s, lo) is None,
    decreases j - lo,
{
    if lo < j {
        lemma_first_short_pos_from(s, lo + 1, j);
    }
}

/// The video identifier a reference string carries: the tail of a
/// short-link reference, or else the value of its `v` parameter up to
/// the next `&`.
pub open spec fn youtube_id_of(s: Seq<u8>) -> Option<Seq<u8>> {
    match first_short_pos(s, 0) {
        Some(i) => Some(s.skip(i + 9)),
        None => match first_match_from(s, bytes_of_chars("v="@), 0) {
            Some(j) => Some(s.subrange(j + 2, j + 2 + index_of(s.skip(j + 2), 38))),
            None => None,
        },
    }
}

/// Reads the video identifier out of a reference string.
pub fn extract_youtube_id(s: &Vec<u8>) -> (r: Result<Vec<u8>, Error>)
    ensures
        match r {
            Ok(id) => youtube_id_of(s@) == Some(id@),
            Err(e) => e.kind == ErrorKind::UnknownQueryType && youtube_id_of(s@) is None,
        },
{
    let head = lit("youtu");
    let mid = lit("be/");
    let n = s.len();
    proof {
        reveal_strlit("youtu");
        reveal_strlit("be/");
    }
    let mut from: usize = 0;
    loop
        invariant
            from <= s@.len() + 1,
            n == s@.len(),
            head@ == bytes_of_chars("youtu"@),
            head@.len() == 5,
            mid@ == bytes_of_chars("be/"@),
            mid@.len() == 3,
            forall|k: int| 0 <= k < from ==> !short_id_at(s@, k),
        ensures
            first_short_pos(s@, 0) is None,
        decreases s@.len() + 1 - from,
    {
        match find_from(s, from, &head) {
            None => {
                proof {
                    assert(forall|k: int| from <= k ==> !matches_at(s@, k, bytes_of_chars(
                        "youtu"@,
                    )));
                    lemma_first_short_pos_from(s@, 0, s@.len() as int);
                }
                break;
            },
            Some(i) => {
                if n - i > 5 && s[i + 5] != 10 && match_at(s, i + 6, &mid) {
                    match index_of_from(s, i + 9, 47) {
                        None => {
                            let id = subvec(s, i + 9, n);
                            proof {
                                assert(short_id_at(s@, i as int));
                                lemma_first_short_pos_from(s@, 0, i as int);
                                assert(s@.skip(i as int + 9) =~= id@);
                            }
                            return Ok(id);
                        },
                        Some(_) => {
                            proof {
                                assert(!short_id_at(s@, i as int));
                            }
                            from = i + 1;
                        },
                    }
                } else {
                    proof {
                        assert(!short_id_at(s@, i as int));
                    }
                    from = i + 1;
                }
            },
        }
    }
    let long = lit("v=");
    proof {
        reveal_strlit("v=");
    }
    match find_sub(s, &long) {
        Some(j) => {
            proof {
                lemma_first_match_from(s@, bytes_of_chars("v="@), 0, j as int);
            }
            let e = match index_of_from(s, j + 2, 38) {
                Some(e) => e,
                None => n,
            };
            let id = subvec(s, j + 2, e);
            proof {
                let u = s@.skip(j as int + 2);
                assert(forall|k: int| 0 <= k < u.len() ==> u[k] == s@[j as int + 2 + k]);
                lemma_index_of_is(u, 38, e - (j as int + 2));
                assert(s@.subrange(j as int + 2, e as int) =~= id@);
            }
            Ok(id)
        },
        None => {
            proof {
                assert(forall|k: int| 0 <= k ==> !matches_at(s@, k, bytes_of_chars("v="@)));
                lemma_first_match_from(s@, bytes_of_chars("v="@), 0, s@.len() as int);
            }
            Err(Error::unknown_query_type())
        },
    }
}

/// The identifier a provider page reference ends with: its last
/// non-empty path segment, one trailing slash ignored.
pub open spec fn facebook_id_of(s: Seq<u8>) -> Option<Seq<u8>> {
    let t = if s.len() > 0 && s.last() == 47 {
        s.drop_last()
    } else {
        s
    };
    let j = last_index_of(t, 47);
    if 0 <= j && j < t.len() - 1 {
        Some(t.skip(j + 1))
    } else {
        None
    }
}

/// Reads the identifier out of a provider page reference.
pub fn extract_facebook_id(s: &Vec<u8>) -> (r: Result<Vec<u8>, Error>)
    ensures
        match r {
            Ok(id) => facebook_id_of(s@) == Some(id@),
            Err(e) => e.kind == ErrorKind::UnknownQueryType && facebook_id_of(s@) is None,
        },
{
    let n = s.len();
    let tl = if n > 0 && s[n - 1] == 47 {
        n - 1
    } else {
        n
    };
    let t = subvec(s, 0, tl);
    proof {
        if n > 0 && s@.last() == 47 {
            assert(t@ =~= s@.drop_last());
        } else {
            assert(t@ =~= s@);
        }
    }
    match rfind_byte(&t, 47) {
        Some(j) => {
            proof {
                crate::scan::lemma_last_index_of(t@, 47);
            }
            if j + 1 < t.len() {
                let id = subvec(&t, j + 1, tl);
                proof {
                    assert(t@.skip(j as int + 1) =~= id@);
                }
                Ok(id)
            } else {
                Err(Error::unknown_query_type())
            }
        },
        None => Err(Error::unknown_query_type()),
    }
}

/// Reads the two stream URLs a provider page publishes inline, each as a
/// quoted capture behind its quality marker; either may be absent.
pub fn parse_facebook_streams(s: &Vec<u8>) -> (r: Result<StreamUrls, Error>)
    ensures
        r matches Ok(m) && m.ld is None && opt_bytes(m.sd) == captured(
            s@,
            bytes_of_chars("sd_src:\""@),
            34,
        ) && opt_bytes(m.hd) == captured(s@, bytes_of_chars("hd_src:\""@), 34),
{
    let sd_key = lit("sd_src:\"");
    let hd_key = lit("hd_src:\"");
    proof {
        reveal_strlit("sd_src:\"");
        reveal_strlit("hd_src:\"");
    }
    let sd = find_capture(s, &sd_key, 34);
    let hd = find_capture(s, &hd_key, 34);
    Ok(StreamUrls { ld: None, sd, hd })
}

/// Downloads the document a URL names, or fails.
///
/// Implementations are injected by the caller; the library performs no
/// network access itself and assumes nothing about what an
/// implementation returns.
pub trait Connector {
    /// Downloads the document the URL names, or fails.
    fn download_string(&self, url: &Vec<u8>) -> Option<Vec<u8>>;
}

/// The key that introduces the packed stream-map blob on the page.
pub open spec fn map_key() -> Seq<u8> {
    bytes_of_chars("\"url_encoded_fmt_stream_map\":\""@)
}

/// The page's title, read from its title element; the sentinel when the
/// page carries none.
pub open spec fn page_title(page: Seq<u8>) -> Seq<u8> {
    match captured(page, bytes_of_chars("<title>"@), 60) {
        Some(t) => t,
        None => bytes_of_chars("untitled"@),
    }
}

/// The stream map the page carries: `PlaybackRestricted` when the blob
/// is absent entirely, else the extraction of the blob.
pub open spec fn page_streams(page: Seq<u8>) -> Result<
    crate::streammap::StreamModel,
    ErrorKind,
> {
    match captured(page, map_key(), 34) {
        None => Err(ErrorKind::PlaybackRestricted),
        Some(blob) => crate::streammap::extract_streams(blob),
    }
}

/// One descriptor resolved to a playable URL: unsigned descriptors pass
/// through unchanged; signed ones are descrambled against the player
/// script.
pub open spec fn resolve_slot(o: Option<StreamDescriptor>, js: Seq<u8>) -> Result<
    Option<Seq<u8>>,
    ErrorKind,
> {
    match o {
        None => Ok(None),
        Some(d) => match d.signature {
            None => Ok(Some(d.url@)),
            Some(sig) => match decrypt_spec(d.url@, js, sig@) {
                Ok(u) => Ok(Some(u)),
                Err(k) => Err(k),
            },
        },
    }
}

/// One tier of the model map resolved to a playable URL.
pub open spec fn resolve_model_entry(
    mm: crate::streammap::StreamModel,
    k: StreamKey,
    js: Seq<u8>,
) -> Result<Option<Seq<u8>>, ErrorKind> {
    if mm.contains_key(k) {
        match mm[k].1 {
            Some(sig) => match decrypt_spec(mm[k].0, js, sig) {
                Ok(u) => Ok(Some(u)),
                Err(e) => Err(e),
            },
            None => Ok(Some(mm[k].0)),
        }
    } else {
        Ok(None)
    }
}

/// The whole model map resolved, tier by tier from low to high; the
/// first failing tier fails the resolution.
pub open spec fn resolve_model(mm: crate::streammap::StreamModel, js: Seq<u8>) -> Result<
    (Option<Seq<u8>>, Option<Seq<u8>>, Option<Seq<u8>>),
    ErrorKind,
> {
    match resolve_model_entry(mm, StreamKey::LD, js) {
        Err(k) => Err(k),
        Ok(l) => match resolve_model_entry(mm, StreamKey::SD, js) {
            Err(k) => Err(k),
            Ok(s) => match resolve_model_entry(mm, StreamKey::HD, js) {
                Err(k) => Err(k),
                Ok(h) => Ok((l, s, h)),
            },
        },
    }
}

/// The content of a resolved video: identifier, title, per-tier URLs.
pub type VideoModel = (Seq<u8>, Seq<u8>, (Option<Seq<u8>>, Option<Seq<u8>>, Option<Seq<u8>>));

/// The content a video record carries.
pub open spec fn video_model(v: Video) -> VideoModel {
    (
        v.identifier@,
        v.title@,
        (opt_bytes(v.streams.ld), opt_bytes(v.streams.sd), opt_bytes(v.streams.hd)),
    )
}

/// The whole resolution as a function of the reference string, the
/// fetched metadata page, and the fetched player script.
pub open spec fn process_model(url: Seq<u8>, page: Seq<u8>, js: Seq<u8>) -> Result<
    VideoModel,
    ErrorKind,
> {
    match youtube_id_of(url) {
        None => Err(ErrorKind::UnknownQueryType),
        Some(id) => match page_streams(page) {
            Err(k) => Err(k),
            Ok(mm) => match resolve_model(mm, js) {
                Err(k) => Err(k),
                Ok(t) => Ok((id, page_title(page), t)),
            },
        },
    }
}

/// The resolution behind the classifier: input naming no known provider
/// is refused before anything is fetched.
pub open spec fn query_model(url: Seq<u8>, page: Seq<u8>, js: Seq<u8>) -> Result<
    VideoModel,
    ErrorKind,
> {
    match query_type_of(url) {
        None => Err(ErrorKind::UnknownQueryType),
        Some(t) => process_model(url, page, js),
    }
}

/// A tier of the struct map and of its model map resolve alike.
proof fn lemma_resolve_glue(m: &StreamMap, k: StreamKey, js: Seq<u8>)
    ensures
        resolve_model_entry(m.model(), k, js) == resolve_slot(m.entry(k), js),
{
    match m.entry(k) {
        Some(d) => {
            assert(m.model().contains_key(k));
            assert(m.model()[k] == crate::streammap::desc_view(d));
        },
        None => {
            assert(!m.model().contains_key(k));
        },
    }
}

fn resolve_slot_exec(o: &Option<StreamDescriptor>, js: &Vec<u8>) -> (r: Result<
    Option<Vec<u8>>,
    Error,
>)
    ensures
        match r {
            Ok(u) => resolve_slot(*o, js@) == Ok::<Option<Seq<u8>>, ErrorKind>(opt_bytes(u)),
            Err(e) => resolve_slot(*o, js@) == Err::<Option<Seq<u8>>, ErrorKind>(e.kind),
        },
{
    match o {
        None => Ok(None),
        Some(d) => match &d.signature {
            None => Ok(Some(copy_vec(&d.url))),
            Some(sig) => match decrypt_with_script(&d.url, js, sig) {
                Ok(u) => Ok(Some(u)),
                Err(e) => Err(e),
            },
        },
    }
}

/// Some descriptor of the map carries a signature token.
pub open spec fn has_signature(m: StreamMap) -> bool {
    ||| (m.ld matches Some(d) && d.signature is Some)
    ||| (m.sd matches Some(d) && d.signature is Some)
    ||| (m.hd matches Some(d) && d.signature is Some)
}

/// Resolves one provider reference end to end: fetches the metadata
/// page, extracts the stream map, fetches the player script once when
/// any descriptor is signed, descrambles every signed stream URL, and
/// assembles the video record.  What the connector returns is out of the
/// library's hands; whatever documents came back, the result is their
/// resolution.
pub fn process_query<T: Connector>(url: &Vec<u8>, connector: &T) -> (r: Result<Video, Error>)
    ensures
        youtube_id_of(url@) is None ==> (r matches Err(e) && e.kind == ErrorKind::UnknownQueryType),
        match r {
            Ok(v) => exists|page: Seq<u8>, js: Seq<u8>|
                process_model(url@, page, js) == Ok::<VideoModel, ErrorKind>(video_model(v)),
            Err(e) => e.kind == ErrorKind::Network || exists|page: Seq<u8>, js: Seq<u8>|
                process_model(url@, page, js) == Err::<VideoModel, ErrorKind>(e.kind),
        },
{
    let id = match extract_youtube_id(url) {
        Ok(id) => id,
        Err(e) => {
            proof {
                assert(process_model(url@, Seq::<u8>::empty(), Seq::<u8>::empty())
                    == Err::<VideoModel, ErrorKind>(e.kind));
            }
            return Err(e);
        },
    };
    let mut info_url = lit("http://youtube.com/get_video_info?video_id=");
    push_all(&mut info_url, &id);
    let page = match connector.download_string(&info_url) {
        Some(p) => p,
        None => {
            return Err(Error::network("Unable to download resource"));
        },
    };
    proof {
        reveal_strlit("<title>");
        reveal_strlit("\"url_encoded_fmt_stream_map\":\"");
    }
    let title = match find_capture(&page, &lit("<title>"), 60) {
        Some(t) => t,
        None => lit("untitled"),
    };
    proof {
        assert(page_title(page@) == title@);
    }
    let blob = match find_capture(&page, &lit("\"url_encoded_fmt_stream_map\":\""), 34) {
        Some(b) => b,
        None => {
            let e = Error::new(ErrorKind::PlaybackRestricted, "playback restricted");
            proof {
                assert(process_model(url@, page@, Seq::<u8>::empty())
                    == Err::<VideoModel, ErrorKind>(e.kind));
            }
            return Err(e);
        },
    };
    let m = match crate::streammap::read_urls(&blob) {
        Ok(m) => m,
        Err(e) => {
            proof {
                assert(process_model(url@, page@, Seq::<u8>::empty())
                    == Err::<VideoModel, ErrorKind>(e.kind));
            }
            return Err(e);
        },
    };
    let needs = (match &m.ld {
        Some(d) => d.signature.is_some(),
        None => false,
    }) || (match &m.sd {
        Some(d) => d.signature.is_some(),
        None => false,
    }) || (match &m.hd {
        Some(d) => d.signature.is_some(),
        None => false,
    });
    let js = if needs {
        let js_url = match read_js_player(&page) {
            Ok(u) => u,
            Err(e) => {
                proof {
                    let empty = Seq::<u8>::empty();
                    assert(first_sig_pos(empty, 0) is None);
                    assert(discover_spec(empty) == Err::<Seq<crate::crypt::CryptOp>, ErrorKind>(
                        ErrorKind::DescramblerNotFound,
                    ));
                    lemma_resolve_glue(&m, StreamKey::LD, empty);
                    lemma_resolve_glue(&m, StreamKey::SD, empty);
                    lemma_resolve_glue(&m, StreamKey::HD, empty);
                    assert(resolve_model(m.model(), empty) == Err::<
                        (Option<Seq<u8>>, Option<Seq<u8>>, Option<Seq<u8>>),
                        ErrorKind,
                    >(ErrorKind::DescramblerNotFound));
                    assert(process_model(url@, page@, empty)
                        == Err::<VideoModel, ErrorKind>(e.kind));
                }
                return Err(e);
            },
        };
        match connector.download_string(&js_url) {
            Some(j) => j,
            None => {
                return Err(Error::network("failed to download js"));
            },
        }
    } else {
        Vec::new()
    };
    proof {
        lemma_resolve_glue(&m, StreamKey::LD, js@);
        lemma_resolve_glue(&m, StreamKey::SD, js@);
        lemma_resolve_glue(&m, StreamKey::HD, js@);
    }
    let ld = match resolve_slot_exec(&m.ld, &js) {
        Ok(o) => o,
        Err(e) => {
            proof {
                assert(process_model(url@, page@, js@) == Err::<VideoModel, ErrorKind>(e.kind));
            }
            return Err(e);
        },
    };
    let sd = match resolve_slot_exec(&m.sd, &js) {
        Ok(o) => o,
        Err(e) => {
            proof {
                assert(process_model(url@, page@, js@) == Err::<VideoModel, ErrorKind>(e.kind));
            }
            return Err(e);
        },
    };
    let hd = match resolve_slot_exec(&m.hd, &js) {
        Ok(o) => o,
        Err(e) => {
            proof {
                assert(process_model(url@, page@, js@) == Err::<VideoModel, ErrorKind>(e.kind));
            }
            return Err(e);
        },
    };
    let video = Video::with_title(id, title, StreamUrls { ld, sd, hd });
    proof {
        assert(process_model(url@, page@, js@) == Ok::<VideoModel, ErrorKind>(
            video_model(video),
        ));
    }
    Ok(video)
}

/// A provider client over an injected connector.
pub struct Client<T: Connector> {
    pub connector: T,
}

impl<T: Connector> Client<T> {
    /// Builds a client that fetches through the given connector.
    pub fn with_connector(connector: T) -> (r: Client<T>)
        ensures
            r.connector == connector,
    {
        Client { connector }
    }

    /// Resolves one reference string into a video record: classifies the
    /// provider, then runs that provider's resolution.
    pub fn query(&self, url: &Vec<u8>) -> (r: Result<Video, Error>)
        ensures
            query_type_of(url@) is None ==> (r matches Err(e) && e.kind
                == ErrorKind::UnknownQueryType),
            match r {
                Ok(v) => exists|page: Seq<u8>, js: Seq<u8>|
                    query_model(url@, page, js) == Ok::<VideoModel, ErrorKind>(video_model(v)),
                Err(e) => e.kind == ErrorKind::Network || exists|page: Seq<u8>, js: Seq<u8>|
                    query_model(url@, page, js) == Err::<VideoModel, ErrorKind>(e.kind),
            },
    {
        let query_type = match QueryType::from_str(url) {
            Ok(t) => t,
            Err(e) => {
                proof {
                    assert(query_model(url@, Seq::<u8>::empty(), Seq::<u8>::empty())
                        == Err::<VideoModel, ErrorKind>(e.kind));
                }
                return Err(e);
            },
        };
        match query_type {
            QueryType::Facebook => {
                // the classifier never yields this provider
                proof {
                    assert(false);
                }
                let fb_id = match extract_facebook_id(url) {
                    Ok(id) => id,
                    Err(e) => {
                        return Err(e);
                    },
                };
                let info = match self.connector.download_string(url) {
                    Some(p) => p,
                    None => {
                        return Err(Error::network("Unable to download resource"));
                    },
                };
                let streams = match parse_facebook_streams(&info) {
                    Ok(s) => s,
                    Err(e) => {
                        return Err(e);
                    },
                };
                Ok(Video::new(fb_id, streams))
            },
            QueryType::YouTube => {
                let r = process_query(url, &self.connector);
                proof {
                    match &r {
                        Ok(v) => {
                            let (pg, jsg) = choose|pg: Seq<u8>, jsg: Seq<u8>|
                                process_model(url@, pg, jsg) == Ok::<VideoModel, ErrorKind>(
                                    video_model(*v),
                                );
                            assert(query_model(url@, pg, jsg) == Ok::<VideoModel, ErrorKind>(
                                video_model(*v),
                            ));
                        },
                        Err(e) => {
                            if e.kind != ErrorKind::Network {
                                let (pg, jsg) = choose|pg: Seq<u8>, jsg: Seq<u8>|
                                    process_model(url@, pg, jsg) == Err::<VideoModel, ErrorKind>(
                                        e.kind,
                                    );
                                assert(query_model(url@, pg, jsg) == Err::<VideoModel, ErrorKind>(
                                    e.kind,
                                ));
                            }
                        },
                    }
                }
                r
            },
        }
    }
}

/// The title a form-encoded metadata document carries, or the sentinel.
pub open spec fn title_of_info(info: Seq<u8>) -> Seq<u8> {
    match query_param(info, bytes_of_chars("title"@)) {
        Some(t) => t,
        None => bytes_of_chars("untitled"@),
    }
}

/// The format entries all fragments contribute, in order: each
/// fragment's lowercased quality spelling and its URL; a fragment
/// missing either is malformed and fails the whole decode.
pub open spec fn entries_of(frags: Seq<Seq<u8>>) -> Result<Seq<(Seq<u8>, Seq<u8>)>, ErrorKind>
    decreases frags.len(),
{
    if frags.len() == 0 {
        Ok(Seq::empty())
    } else {
        match entries_of(frags.drop_last()) {
            Err(e) => Err(e),
            Ok(es) => match query_param(frags.last(), bytes_of_chars("quality"@)) {
                None => Err(ErrorKind::MalformedStreamDescriptor),
                Some(q) => match query_param(frags.last(), bytes_of_chars("url"@)) {
                    None => Err(ErrorKind::MalformedStreamDescriptor),
                    Some(u) => Ok(es.push((lower_seq(q), u))),
                },
            },
        }
    }
}

/// The content of a decoded metadata document: title and format entries.
pub type VideoInfoModel = (Seq<u8>, Seq<(Seq<u8>, Seq<u8>)>);

/// The decode of a form-encoded metadata document: its stream-map blob
/// split into fragments and decoded entry by entry, or
/// `PlaybackRestricted` when the document carries no stream map.
pub open spec fn videos_of_info(info: Seq<u8>) -> Result<VideoInfoModel, ErrorKind> {
    match query_param(info, bytes_of_chars("url_encoded_fmt_stream_map"@)) {
        None => Err(ErrorKind::PlaybackRestricted),
        Some(blob) => match entries_of(split_seq(blob, 44)) {
            Err(e) => Err(e),
            Ok(es) => Ok((title_of_info(info), es)),
        },
    }
}

/// An error within a prefix of the fragments is the error of the whole.
proof fn lemma_entries_prefix_err(frags: Seq<Seq<u8>>, i: int)
    requires
        0 <= i < frags.len(),
        entries_of(frags.take(i + 1)) is Err,
    ensures
        entries_of(frags) == entries_of(frags.take(i + 1)),
    decreases frags.len(),
{
    if i + 1 == frags.len() {
        assert(frags.take(i + 1) =~= frags);
    } else {
        assert(frags.drop_last().take(i + 1) =~= frags.take(i + 1));
        lemma_entries_prefix_err(frags.drop_last(), i);
    }
}

/// Decodes a form-encoded metadata document into a video record: the
/// title (or its sentinel), and one format entry per stream fragment.
/// Fails with `PlaybackRestricted` when the document carries no stream
/// map, and with `MalformedStreamDescriptor` on the first fragment
/// missing `quality` or `url`.
pub fn parse_videos(info: &Vec<u8>) -> (r: Result<YoutubeVideo, Error>)
    ensures
        match r {
            Ok(v) => videos_of_info(info@) == Ok::<VideoInfoModel, ErrorKind>(
                (v.title@, v.entries()),
            ),
            Err(e) => videos_of_info(info@) == Err::<VideoInfoModel, ErrorKind>(e.kind),
        },
{
    let title = match get_param(info, &lit("title")) {
        Some(t) => t,
        None => lit("untitled"),
    };
    proof {
        assert(title@ == title_of_info(info@));
    }
    let blob = match get_param(info, &lit("url_encoded_fmt_stream_map")) {
        Some(b) => b,
        None => {
            return Err(Error::new(ErrorKind::PlaybackRestricted, "playback restricted"));
        },
    };
    let frags = split(&blob, 44);
    let ghost fdv = frags.deep_view();
    let mut streams: Vec<(Vec<u8>, Vec<u8>)> = Vec::new();
    let mut i: usize = 0;
    proof {
        assert(fdv.len() == frags@.len());
        assert(fdv.take(0) =~= Seq::<Seq<u8>>::empty());
        assert(streams@.map_values(|p: (Vec<u8>, Vec<u8>)| (p.0@, p.1@)) =~= Seq::<
            (Seq<u8>, Seq<u8>),
        >::empty());
    }
    while i < frags.len()
        invariant
            i <= frags@.len(),
            fdv == frags.deep_view(),
            fdv.len() == frags@.len(),
            fdv == split_seq(blob@, 44),
            query_param(info@, bytes_of_chars("url_encoded_fmt_stream_map"@)) == Some(blob@),
            title@ == title_of_info(info@),
            entries_of(fdv.take(i as int)) == Ok::<Seq<(Seq<u8>, Seq<u8>)>, ErrorKind>(
                streams@.map_values(|p: (Vec<u8>, Vec<u8>)| (p.0@, p.1@)),
            ),
        decreases frags@.len() - i,
    {
        let frag = &frags[i];
        proof {
            assert(frags.deep_view()[i as int] == frag.deep_view());
            assert(frag.deep_view() =~= frag@);
            assert(fdv.take(i as int + 1).drop_last() =~= fdv.take(i as int));
            assert(fdv.take(i as int + 1).last() == fdv[i as int]);
        }
        let q = match get_param(frag, &lit("quality")) {
            Some(q) => q,
            None => {
                proof {
                    lemma_entries_prefix_err(fdv, i as int);
                }
                return Err(Error::video("quality not present"));
            },
        };
        let u = match get_param(frag, &lit("url")) {
            Some(u) => u,
            None => {
                proof {
                    lemma_entries_prefix_err(fdv, i as int);
                }
                return Err(Error::video("url not present"));
            },
        };
        let lowered = to_lower(&q);
        let ghost prev = streams@.map_values(|p: (Vec<u8>, Vec<u8>)| (p.0@, p.1@));
        streams.push((lowered, u));
        i += 1;
        proof {
            assert(streams@.map_values(|p: (Vec<u8>, Vec<u8>)| (p.0@, p.1@)) =~= prev.push(
                (lower_seq(q@), u@),
            ));
        }
    }
    proof {
        assert(fdv.take(fdv.len() as int) =~= fdv);
    }
    Ok(YoutubeVideo::new(title, streams))
}

/// The provider client of the trait-based interface.
#[derive(Default)]
pub struct YoutubeClient;

impl YoutubeClient {
    /// Builds the client.
    pub fn new() -> YoutubeClient {
        YoutubeClient
    }

    /// Queries for the video an identifier names: builds the metadata
    /// URL, fetches the document through the given connector, and
    /// decodes it.
    pub fn query<C: ClientConnector>(&self, identifier: &Vec<u8>, connector: &C) -> (r: Result<
        YoutubeVideo,
        Error,
    >)
        ensures
            match r {
                Ok(v) => exists|info: Seq<u8>|
                    videos_of_info(info) == Ok::<VideoInfoModel, ErrorKind>(
                        (v.title@, v.entries()),
                    ),
                Err(e) => e.kind == ErrorKind::Network || exists|info: Seq<u8>|
                    videos_of_info(info) == Err::<VideoInfoModel, ErrorKind>(e.kind),
            },
    {
        let mut uri = lit("http://youtube.com/get_video_info?video_id=");
        push_all(&mut uri, identifier);
        match connector.download_string(&uri) {
            Err(_) => Err(Error::network("Unable to download resource")),
            Ok(info) => parse_videos(&info),
        }
    }
}

/// Descrambles one signed stream URL: downloads the player script and
/// replays the transforms it prescribes on the signature.
pub fn decrypt<T: Connector>(
    uri: &Vec<u8>,
    js_player: &Vec<u8>,
    signature: &Vec<u8>,
    connector: &T,
) -> (r: Result<Vec<u8>, Error>)
    ensures
        match r {
            Ok(u) => exists|js: Seq<u8>|
                decrypt_spec(uri@, js, signature@) == Ok::<Seq<u8>, ErrorKind>(u@),
            Err(e) => e.kind == ErrorKind::Network || exists|js: Seq<u8>|
                decrypt_spec(uri@, js, signature@) == Err::<Seq<u8>, ErrorKind>(e.kind),
        },
{
    match connector.download_string(js_player) {
        None => Err(Error::network("failed to download js")),
        Some(js) => decrypt_with_script(uri, &js, signature),
    }
}

} // verus!
