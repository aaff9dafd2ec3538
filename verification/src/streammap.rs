//! The stream-map extractor.
//!
//! The provider packs its per-quality stream descriptors into one
//! query-string-shaped blob: fragments separated by commas, each holding
//! `quality` and `url` keys, an optional signature token, and an optional
//! fallback host.  The extractor decodes the blob into a mapping from
//! normalized quality tier to stream descriptor.  A fragment without
//! `quality` or `url` fails the whole extraction; a fragment whose quality
//! spelling is unrecognized is dropped silently; duplicate tiers
//! overwrite, last write wins.

use vstd::prelude::*;
use crate::error::{Error, ErrorKind};
use crate::scan::{bytes_of_chars, bytes_eq, contains_seq, contains_sub, lit, push_all};
use crate::urlenc::{
    lower_seq, to_lower, query_param, get_param, replace, replace_seq, split, split_seq,
};

verus! {

/// A normalized stream quality tier, low to high.
#[derive(Clone, Copy, Debug, PartialEq, Eq, PartialOrd, Ord, Hash, Structural)]
pub enum StreamKey {
    LD,
    SD,
    HD,
}

/// The tier a provider quality spelling names, across all known
/// spellings; unrecognized spellings name none.
pub open spec fn key_of_tag(s: Seq<u8>) -> Option<StreamKey> {
    if s == bytes_of_chars("small"@) {
        Some(StreamKey::LD)
    } else if s == bytes_of_chars("sd_src"@) || s == bytes_of_chars("medium"@) {
        Some(StreamKey::SD)
    } else if s == bytes_of_chars("hd_src"@) || s == bytes_of_chars("hd720"@) || s
        == bytes_of_chars("large"@) {
        Some(StreamKey::HD)
    } else {
        None
    }
}

impl StreamKey {
    /// Reads a provider quality spelling into its tier.
    pub fn from_str(s: &Vec<u8>) -> (r: Option<StreamKey>)
        ensures
            r == key_of_tag(s@),
    {
        if bytes_eq(s, &lit("small")) {
            Some(StreamKey::LD)
        } else if bytes_eq(s, &lit("sd_src")) || bytes_eq(s, &lit("medium")) {
            Some(StreamKey::SD)
        } else if bytes_eq(s, &lit("hd_src")) || bytes_eq(s, &lit("hd720")) || bytes_eq(
            s,
            &lit("large"),
        ) {
            Some(StreamKey::HD)
        } else {
            None
        }
    }
}

/// One quality tier's raw stream URL and optional signature token.
#[derive(Debug)]
pub struct StreamDescriptor {
    pub url: Vec<u8>,
    pub signature: Option<Vec<u8>>,
}

/// An optional byte vector's content.
pub open spec fn opt_bytes(o: Option<Vec<u8>>) -> Option<Seq<u8>> {
    match o {
        Some(v) => Some(v@),
        None => None,
    }
}

/// The mathematical content of a descriptor: its URL and token bytes.
pub open spec fn desc_view(d: StreamDescriptor) -> (Seq<u8>, Option<Seq<u8>>) {
    (d.url@, opt_bytes(d.signature))
}

/// The extractor's result as a mathematical map.
pub type StreamModel = Map<StreamKey, (Seq<u8>, Option<Seq<u8>>)>;

/// The extractor's result: for each tier, at most one descriptor.
#[derive(Debug)]
pub struct StreamMap {
    pub ld: Option<StreamDescriptor>,
    pub sd: Option<StreamDescriptor>,
    pub hd: Option<StreamDescriptor>,
}

impl StreamMap {
    /// The entry a tier holds.
    pub open spec fn entry(self, k: StreamKey) -> Option<StreamDescriptor> {
        match k {
            StreamKey::LD => self.ld,
            StreamKey::SD => self.sd,
            StreamKey::HD => self.hd,
        }
    }

    /// The map's content, tier by tier.
    pub open spec fn model(self) -> StreamModel {
        Map::new(
            |k: StreamKey| self.entry(k) is Some,
            |k: StreamKey|
                match self.entry(k) {
                    Some(d) => desc_view(d),
                    None => (Seq::empty(), None),
                },
        )
    }

    /// The descriptor a tier holds, if any.
    pub fn get(&self, key: StreamKey) -> (r: Option<&StreamDescriptor>)
        ensures
            match r {
                Some(d) => self.entry(key) == Some(*d),
                None => self.entry(key) is None,
            },
    {
        let slot = match key {
            StreamKey::LD => &self.ld,
            StreamKey::SD => &self.sd,
            StreamKey::HD => &self.hd,
        };
        match slot {
            Some(d) => Some(d),
            None => None,
        }
    }
}

/// The escape sequence that stands for a literal `&` inside a fragment.
pub open spec fn amp_esc() -> Seq<u8> {
    bytes_of_chars("\\u0026"@)
}

/// One fragment with its embedded-ampersand placeholders unescaped.
pub open spec fn unescape_frag(f: Seq<u8>) -> Seq<u8> {
    replace_seq(f, amp_esc(), bytes_of_chars("&"@))
}

/// The stream URL a fragment publishes: its `url` value, the fallback
/// host appended back as a query parameter when present, a rate-limit
/// bypass marker appended when absent, and doubly escaped separators
/// restored.
pub open spec fn frag_url(g: Seq<u8>, u: Seq<u8>) -> Seq<u8> {
    let u1 = match query_param(g, bytes_of_chars("fallback_host"@)) {
        Some(h) => u + bytes_of_chars("&fallback_host="@) + h,
        None => u,
    };
    let u2 = if !contains_seq(u1, bytes_of_chars("ratebypass"@)) {
        u1 + bytes_of_chars("&ratebypass=yes"@)
    } else {
        u1
    };
    replace_seq(
        replace_seq(u2, bytes_of_chars("%2C"@), bytes_of_chars(","@)),
        bytes_of_chars("%2F"@),
        bytes_of_chars("/"@),
    )
}

/// The signature token a fragment carries, under its short or long key.
pub open spec fn frag_sig(g: Seq<u8>) -> Option<Seq<u8>> {
    match query_param(g, bytes_of_chars("s"@)) {
        Some(s) => Some(s),
        None => query_param(g, bytes_of_chars("signature"@)),
    }
}

/// What one fragment contributes: an error when `quality` or `url` is
/// missing; nothing when the quality spelling is unrecognized; otherwise
/// its tier and descriptor content.
pub open spec fn frag_entry(f: Seq<u8>) -> Result<
    Option<(StreamKey, (Seq<u8>, Option<Seq<u8>>))>,
    ErrorKind,
> {
    let g = unescape_frag(f);
    match query_param(g, bytes_of_chars("quality"@)) {
        None => Err(ErrorKind::MalformedStreamDescriptor),
        Some(q) => match query_param(g, bytes_of_chars("url"@)) {
            None => Err(ErrorKind::MalformedStreamDescriptor),
            Some(u) => match key_of_tag(lower_seq(q)) {
                None => Ok(None),
                Some(k) => Ok(Some((k, (frag_url(g, u), frag_sig(g))))),
            },
        },
    }
}

/// The map all fragments build up, in order, later entries overwriting
/// earlier ones of the same tier; the first malformed fragment fails the
/// whole build.
pub open spec fn build_map(frags: Seq<Seq<u8>>) -> Result<StreamModel, ErrorKind>
    decreases frags.len(),
{
    if frags.len() == 0 {
        Ok(Map::empty())
    } else {
        match build_map(frags.drop_last()) {
            Err(e) => Err(e),
            Ok(m) => match frag_entry(frags.last()) {
                Err(e) => Err(e),
                Ok(None) => Ok(m),
                Ok(Some((k, d))) => Ok(m.insert(k, d)),
            },
        }
    }
}

/// The whole extraction: the blob split into fragments on commas, built
/// into the tier map.
pub open spec fn extract_streams(blob: Seq<u8>) -> Result<StreamModel, ErrorKind> {
    build_map(split_seq(blob, 44))
}

/// Every failure of the build is a malformed stream descriptor.
proof fn lemma_build_map_err_kind(frags: Seq<Seq<u8>>)
    ensures
        build_map(frags) matches Err(e) ==> e == ErrorKind::MalformedStreamDescriptor,
    decreases frags.len(),
{
    if frags.len() > 0 {
        lemma_build_map_err_kind(frags.drop_last());
    }
}

/// A malformed fragment after a clean prefix fails the whole build.
proof fn lemma_build_map_err(frags: Seq<Seq<u8>>, i: int)
    requires
        0 <= i < frags.len(),
        build_map(frags.take(i)) is Ok,
        frag_entry(frags[i]) is Err,
    ensures
        build_map(frags) is Err,
    decreases frags.len(),
{
    if i == frags.len() - 1 {
        assert(frags.drop_last() =~= frags.take(i));
    } else {
        assert(frags.drop_last().take(i) =~= frags.take(i));
        assert(frags.drop_last()[i] == frags[i]);
        lemma_build_map_err(frags.drop_last(), i);
    }
}

/// Decodes the packed stream-map blob into the tier map.
pub fn read_urls(blob: &Vec<u8>) -> (r: Result<StreamMap, Error>)
    ensures
        match r {
            Ok(m) => extract_streams(blob@) == Ok::<StreamModel, ErrorKind>(m.model()),
            Err(e) => extract_streams(blob@) == Err::<StreamModel, ErrorKind>(e.kind),
        },
{
    let frags = split(blob, 44);
    let ghost fdv = frags.deep_view();
    let esc = lit("\\u0026");
    let amp = lit("&");
    proof {
        reveal_strlit("\\u0026");
        assert(fdv.len() == frags@.len());
    }
    let mut m = StreamMap { ld: None, sd: None, hd: None };
    let mut i: usize = 0;
    proof {
        assert(fdv.take(0) =~= Seq::<Seq<u8>>::empty());
        assert(m.model() =~= Map::<StreamKey, (Seq<u8>, Option<Seq<u8>>)>::empty());
    }
    while i < frags.len()
        invariant
            i <= frags@.len(),
            fdv == frags.deep_view(),
            fdv.len() == frags@.len(),
            fdv == split_seq(blob@, 44),
            esc@ == amp_esc(),
            esc@.len() == 6,
            amp@ == bytes_of_chars("&"@),
            build_map(fdv.take(i as int)) == Ok::<StreamModel, ErrorKind>(m.model()),
        decreases frags@.len() - i,
    {
        let frag = &frags[i];
        proof {
            assert(frags.deep_view()[i as int] == frag.deep_view());
            assert(frag.deep_view() =~= frag@);
            assert(fdv.take(i as int + 1).drop_last() =~= fdv.take(i as int));
            assert(fdv.take(i as int + 1).last() == fdv[i as int]);
        }
        let g = replace(frag, &esc, &amp);
        proof {
            assert(g@ == unescape_frag(fdv[i as int]));
        }
        let q = match get_param(&g, &lit("quality")) {
            Some(q) => q,
            None => {
                proof {
                    assert(frag_entry(fdv[i as int]) is Err);
                    lemma_build_map_err(fdv, i as int);
                    lemma_build_map_err_kind(fdv);
                }
                return Err(Error::video("quality not present"));
            },
        };
        let u = match get_param(&g, &lit("url")) {
            Some(u) => u,
            None => {
                proof {
                    assert(frag_entry(fdv[i as int]) is Err);
                    lemma_build_map_err(fdv, i as int);
                    lemma_build_map_err_kind(fdv);
                }
                return Err(Error::video("url not present"));
            },
        };
        let lowered = to_lower(&q);
        let key = match StreamKey::from_str(&lowered) {
            Some(k) => k,
            None => {
                proof {
                    assert(frag_entry(fdv[i as int]) == Ok::<
                        Option<(StreamKey, (Seq<u8>, Option<Seq<u8>>))>,
                        ErrorKind,
                    >(None));
                }
                i += 1;
                continue;
            },
        };
        let ghost u0 = u@;
        let mut url = u;
        if let Some(host) = get_param(&g, &lit("fallback_host")) {
            let marker = lit("&fallback_host=");
            push_all(&mut url, &marker);
            push_all(&mut url, &host);
            proof {
                assert(url@ =~= u0 + bytes_of_chars("&fallback_host="@) + host@);
            }
        }
        let ghost u1 = url@;
        let rb = lit("ratebypass");
        if !contains_sub(&url, &rb) {
            let marker = lit("&ratebypass=yes");
            push_all(&mut url, &marker);
        }
        let ghost u2 = url@;
        proof {
            reveal_strlit("%2C");
            reveal_strlit("%2F");
        }
        let url = replace(&replace(&url, &lit("%2C"), &lit(",")), &lit("%2F"), &lit("/"));
        let sig = match get_param(&g, &lit("s")) {
            Some(s) => Some(s),
            None => get_param(&g, &lit("signature")),
        };
        proof {
            assert(url@ == frag_url(g@, u0));
            assert(opt_bytes(sig) == frag_sig(g@));
            assert(frag_entry(fdv[i as int]) == Ok::<
                Option<(StreamKey, (Seq<u8>, Option<Seq<u8>>))>,
                ErrorKind,
            >(Some((key, (url@, opt_bytes(sig))))));
        }
        let ghost old_model = m.model();
        let d = StreamDescriptor { url, signature: sig };
        match key {
            StreamKey::LD => {
                m.ld = Some(d);
            },
            StreamKey::SD => {
                m.sd = Some(d);
            },
            StreamKey::HD => {
                m.hd = Some(d);
            },
        }
        proof {
            assert(m.model() =~= old_model.insert(key, (url@, opt_bytes(sig))));
        }
        i += 1;
    }
    proof {
        assert(fdv.take(fdv.len() as int) =~= fdv);
    }
    Ok(m)
}

/// The extraction as the provider's form-encoded metadata document feeds
/// it: the blob under the stream-map key, or `PlaybackRestricted` when
/// the document carries none.
pub open spec fn streams_of_info(info: Seq<u8>) -> Result<StreamModel, ErrorKind> {
    match query_param(info, bytes_of_chars("url_encoded_fmt_stream_map"@)) {
        None => Err(ErrorKind::PlaybackRestricted),
        Some(blob) => extract_streams(blob),
    }
}

/// Decodes the stream map out of a form-encoded metadata document.
/// Fails with `PlaybackRestricted` when the document carries no stream
/// map at all.
pub fn parse_youtube_streams(info: &Vec<u8>) -> (r: Result<StreamMap, Error>)
    ensures
        match r {
            Ok(m) => streams_of_info(info@) == Ok::<StreamModel, ErrorKind>(m.model()),
            Err(e) => streams_of_info(info@) == Err::<StreamModel, ErrorKind>(e.kind),
        },
{
    match get_param(info, &lit("url_encoded_fmt_stream_map")) {
        None => Err(Error::new(ErrorKind::PlaybackRestricted, "playback restricted")),
        Some(blob) => read_urls(&blob),
    }
}

} // verus!
