//! The terminal artifact of a resolution: a video's identifier, its
//! title, and the mapping from quality tier to a directly playable URL.
//!
//! Every URL in a `Video` is post-descramble: a descriptor that carried a
//! signature token has had it transformed and appended before the URL is
//! stored here.

use vstd::prelude::*;
use crate::scan::{bytes_of_chars, lit, copy_vec, bytes_eq};
use crate::streammap::{StreamKey, opt_bytes};
use crate::urlenc::{lower_seq, to_lower, param_value};

verus! {

/// The per-tier playable URLs of a resolved video.
#[derive(Debug)]
pub struct StreamUrls {
    pub ld: Option<Vec<u8>>,
    pub sd: Option<Vec<u8>>,
    pub hd: Option<Vec<u8>>,
}

impl StreamUrls {
    /// The URL a tier holds.
    pub open spec fn entry(self, k: StreamKey) -> Option<Vec<u8>> {
        match k {
            StreamKey::LD => self.ld,
            StreamKey::SD => self.sd,
            StreamKey::HD => self.hd,
        }
    }

    /// The URL of the highest tier that holds one.
    pub open spec fn best(self) -> Option<Seq<u8>> {
        if self.hd is Some {
            opt_bytes(self.hd)
        } else if self.sd is Some {
            opt_bytes(self.sd)
        } else {
            opt_bytes(self.ld)
        }
    }

    /// All present entries, lowest tier first.
    pub open spec fn entries(self) -> Seq<(StreamKey, Seq<u8>)> {
        (match self.ld {
            Some(v) => seq![(StreamKey::LD, v@)],
            None => Seq::empty(),
        }) + (match self.sd {
            Some(v) => seq![(StreamKey::SD, v@)],
            None => Seq::empty(),
        }) + (match self.hd {
            Some(v) => seq![(StreamKey::HD, v@)],
            None => Seq::empty(),
        })
    }
}

/// An immutable record of one resolved video.
#[derive(Debug)]
pub struct Video {
    pub identifier: Vec<u8>,
    pub title: Vec<u8>,
    pub streams: StreamUrls,
}

impl Video {
    /// Builds a video whose title was not recovered: it carries the
    /// sentinel title.
    pub fn new(identifier: Vec<u8>, streams: StreamUrls) -> (r: Video)
        ensures
            r.identifier@ == identifier@,
            r.title@ == bytes_of_chars("untitled"@),
            r.streams == streams,
    {
        Video { identifier, title: lit("untitled"), streams }
    }

    /// Builds a video with a recovered title.
    pub fn with_title(identifier: Vec<u8>, title: Vec<u8>, streams: StreamUrls) -> (r: Video)
        ensures
            r.identifier@ == identifier@,
            r.title@ == title@,
            r.streams == streams,
    {
        Video { identifier, title, streams }
    }

    /// The video's identifier.
    pub fn identifier(&self) -> (r: &Vec<u8>)
        ensures
            r@ == self.identifier@,
    {
        &self.identifier
    }

    /// The video's title, or the sentinel when none was recovered.
    pub fn title(&self) -> (r: &Vec<u8>)
        ensures
            r@ == self.title@,
    {
        &self.title
    }

    /// The playable URL of one tier, if the video has it.
    pub fn get_stream(&self, key: StreamKey) -> (r: Option<&Vec<u8>>)
        ensures
            match r {
                Some(u) => self.streams.entry(key) == Some(*u),
                None => self.streams.entry(key) is None,
            },
    {
        let slot = match key {
            StreamKey::LD => &self.streams.ld,
            StreamKey::SD => &self.streams.sd,
            StreamKey::HD => &self.streams.hd,
        };
        match slot {
            Some(u) => Some(u),
            None => None,
        }
    }

    /// The playable URL of the highest tier the video has: high over
    /// standard over low definition.
    pub fn best_stream(&self) -> (r: Option<&Vec<u8>>)
        ensures
            match r {
                Some(u) => self.streams.best() == Some(u@),
                None => self.streams.best() is None,
            },
    {
        match &self.streams.hd {
            Some(u) => Some(u),
            None => match &self.streams.sd {
                Some(u) => Some(u),
                None => match &self.streams.ld {
                    Some(u) => Some(u),
                    None => None,
                },
            },
        }
    }

    /// All present streams, lowest tier first.
    pub fn streams(&self) -> (r: Vec<(StreamKey, Vec<u8>)>)
        ensures
            r@.map_values(|p: (StreamKey, Vec<u8>)| (p.0, p.1@)) == self.streams.entries(),
    {
        let mut out: Vec<(StreamKey, Vec<u8>)> = Vec::new();
        if let Some(v) = &self.streams.ld {
            out.push((StreamKey::LD, copy_vec(v)));
        }
        if let Some(v) = &self.streams.sd {
            out.push((StreamKey::SD, copy_vec(v)));
        }
        if let Some(v) = &self.streams.hd {
            out.push((StreamKey::HD, copy_vec(v)));
        }
        proof {
            assert(out@.map_values(|p: (StreamKey, Vec<u8>)| (p.0, p.1@)) =~~= self
                .streams
                .entries());
        }
        out
    }
}

/// A resolved video under the provider's own format spellings: the title
/// and a list of format-to-URL entries, looked up case-insensitively with
/// the last entry of a format winning.
#[derive(Debug)]
pub struct YoutubeVideo {
    pub title: Vec<u8>,
    pub streams: Vec<(Vec<u8>, Vec<u8>)>,
}

impl YoutubeVideo {
    /// The entries as sequences of bytes.
    pub open spec fn entries(self) -> Seq<(Seq<u8>, Seq<u8>)> {
        self.streams@.map_values(|p: (Vec<u8>, Vec<u8>)| (p.0@, p.1@))
    }

    /// Builds a video from its title and format entries.
    pub fn new(title: Vec<u8>, streams: Vec<(Vec<u8>, Vec<u8>)>) -> (r: YoutubeVideo)
        ensures
            r.title@ == title@,
            r.streams@ == streams@,
    {
        YoutubeVideo { title, streams }
    }

    /// The video's title.
    pub fn title(&self) -> (r: &Vec<u8>)
        ensures
            r@ == self.title@,
    {
        &self.title
    }

    /// The URL stored under a format, compared lowercased; with several
    /// entries of one format the last wins.
    pub fn get_url(&self, format: &Vec<u8>) -> (r: Option<&Vec<u8>>)
        ensures
            match r {
                Some(u) => param_value(self.entries(), lower_seq(format@)) == Some(u@),
                None => param_value(self.entries(), lower_seq(format@)) is None,
            },
    {
        let lowered = to_lower(format);
        let ghost key = lower_seq(format@);
        let ghost es = self.entries();
        let mut found: Option<usize> = None;
        let mut i: usize = 0;
        while i < self.streams.len()
            invariant
                i <= self.streams@.len(),
                es == self.entries(),
                es.len() == self.streams@.len(),
                key == lower_seq(format@),
                lowered@ == key,
                match found {
                    Some(j) => j < i && param_value(es.take(i as int), key) == Some(es[j as int].1),
                    None => param_value(es.take(i as int), key) is None,
                },
            decreases self.streams@.len() - i,
        {
            proof {
                assert(es.take(i as int + 1).drop_last() =~= es.take(i as int));
                assert(es.take(i as int + 1).last() == es[i as int]);
            }
            if bytes_eq(&self.streams[i].0, &lowered) {
                found = Some(i);
            }
            i += 1;
        }
        proof {
            assert(es.take(es.len() as int) =~= es);
        }
        match found {
            Some(j) => Some(&self.streams[j].1),
            None => None,
        }
    }

    /// All format spellings, in entry order.
    pub fn list_formats(&self) -> (r: Vec<Vec<u8>>)
        ensures
            r.deep_view() == self.entries().map_values(|p: (Seq<u8>, Seq<u8>)| p.0),
    {
        let ghost keys = self.entries().map_values(|p: (Seq<u8>, Seq<u8>)| p.0);
        let mut out: Vec<Vec<u8>> = Vec::new();
        let mut i: usize = 0;
        while i < self.streams.len()
            invariant
                i <= self.streams@.len(),
                keys == self.entries().map_values(|p: (Seq<u8>, Seq<u8>)| p.0),
                keys.len() == self.streams@.len(),
                out@.len() == i,
                forall|t: int| 0 <= t < i ==> out@[t].deep_view() == keys[t],
            decreases self.streams@.len() - i,
        {
            let k = &self.streams[i].0;
            let kc = copy_vec(k);
            proof {
                assert(kc.deep_view() =~= keys[i as int]);
            }
            out.push(kc);
            i += 1;
        }
        proof {
            assert(out.deep_view() =~= keys);
        }
        out
    }
}

} // verus!
