//! What of a lookup is kept on disk, and for how long.

use crate::lyrics::{Lyrics, LyricsView};
use crate::number::{hexadecimal, write_hexadecimal};
use crate::text::{append_str, string_of};
use std::collections::hash_map::DefaultHasher;
use std::hash::Hasher;
use vstd::prelude::*;
use vstd::std_specs::hash::DefaultHasherAdditionalSpecFns;
use vstd::utf8::encode_utf8;

verus! {

/// The layout of a cache file; files of any other are passed over.
pub const CACHE_VERSION: u8 = 4;

/// One lookup as it is kept.
#[derive(Debug)]
pub struct CacheFile {
    pub version: u8,
    /// Seconds since the Unix epoch.
    pub created_at: u64,
    /// Seconds since the Unix epoch.
    pub expires_at: u64,
    pub match_score: Option<i32>,
    pub lyrics: Lyrics,
}

/// What a cache file holds.
#[verifier::ext_equal]
pub struct CacheView {
    pub version: u8,
    pub created_at: u64,
    pub expires_at: u64,
    pub match_score: Option<i32>,
    pub lyrics: LyricsView,
}

impl View for CacheFile {
    type V = CacheView;

    open spec fn view(&self) -> CacheView {
        CacheView {
            version: self.version,
            created_at: self.created_at,
            expires_at: self.expires_at,
            match_score: self.match_score,
            lyrics: self.lyrics@,
        }
    }
}

/// The file that keeps `lyrics` from `now` on, for `ttl` seconds.
pub open spec fn kept_file(
    lyrics: LyricsView,
    match_score: Option<i32>,
    ttl: u64,
    now: u64,
) -> CacheView {
    CacheView {
        version: CACHE_VERSION,
        created_at: now,
        expires_at: if now + ttl > u64::MAX {
            u64::MAX
        } else {
            (now + ttl) as u64
        },
        match_score,
        lyrics,
    }
}

/// The hash of a track's key: its UTF-8 bytes and a closing byte that no text
/// holds.
pub open spec fn track_hash(track: Seq<char>) -> u64 {
    DefaultHasher::spec_finish(seq![encode_utf8(track), seq![0xffu8]])
}

/// The name of the file that keeps a track.
pub open spec fn file_name(track: Seq<char>) -> Seq<char> {
    hexadecimal(track_hash(track) as int, 16) + ".json"@
}

/// The name of the file that keeps a track.
pub fn cache_name(track: &str) -> (res: String)
    ensures
        res@ == file_name(track@),
{
    let mut hasher = DefaultHasher::new();
    hasher.write(track.as_bytes());
    let close: [u8; 1] = [0xff];
    hasher.write(&close);
    assert(close@ =~= seq![0xffu8]);
    assert(hasher@ =~= seq![encode_utf8(track@), seq![0xffu8]]);
    let mut name = write_hexadecimal(hasher.finish(), 16);
    append_str(&mut name, ".json");
    string_of(name.as_slice())
}

/// A cache file that was read, unless it has another layout.
pub fn read_cache(cache: CacheFile) -> (res: Option<CacheFile>)
    ensures
        match res {
            Some(read) => read == cache && cache.version == CACHE_VERSION,
            None => cache.version != CACHE_VERSION,
        },
{
    if cache.version != CACHE_VERSION {
        return None;
    }
    Some(cache)
}

/// The file that keeps `lyrics` from `now` on, for `ttl` seconds.
pub fn write_cache(lyrics: &Lyrics, match_score: Option<i32>, ttl: u64, now: u64) -> (res:
    CacheFile)
    ensures
        res@ == kept_file(lyrics@, match_score, ttl, now),
{
    CacheFile {
        version: CACHE_VERSION,
        created_at: now,
        expires_at: now.saturating_add(ttl),
        match_score,
        lyrics: lyrics.clone(),
    }
}

/// What was written is read back: the file has the layout that readers ask
/// for, and holds the lyrics and the score that went into it.
pub proof fn law_written_cache_is_read_back(
    lyrics: LyricsView,
    match_score: Option<i32>,
    ttl: u64,
    now: u64,
)
    ensures
        kept_file(lyrics, match_score, ttl, now).version == CACHE_VERSION,
        kept_file(lyrics, match_score, ttl, now).lyrics == lyrics,
        kept_file(lyrics, match_score, ttl, now).match_score == match_score,
{
}

/// A file expires `ttl` seconds after it was written, and not before.
pub proof fn law_cache_expires(
    lyrics: LyricsView,
    match_score: Option<i32>,
    ttl: u64,
    now: u64,
    later: u64,
)
    requires
        now + ttl <= u64::MAX,
    ensures
        kept_file(lyrics, match_score, ttl, now).expires_at > later <==> later - now < ttl,
{
}

proof fn lemma_hexadecimal_length(n: int, count: int)
    requires
        count >= 0,
    ensures
        hexadecimal(n, count).len() == count,
    decreases count,
{
    if count > 0 {
        lemma_hexadecimal_length(n / 16, count - 1);
    }
}

/// Every file name has sixteen figures before its extension.
pub proof fn law_file_name_length(track: Seq<char>)
    ensures
        file_name(track).len() == 21,
{
    lemma_hexadecimal_length(track_hash(track) as int, 16);
    reveal_strlit(".json");
}

/// A file is of the fourth layout and tells when it was written; one that is
/// kept longer than seconds can be counted expires at the last of them.
pub proof fn law_files_tell_their_layout_and_time(
    lyrics: LyricsView,
    match_score: Option<i32>,
    ttl: u64,
    now: u64,
)
    ensures
        kept_file(lyrics, match_score, ttl, now).version == 4,
        kept_file(lyrics, match_score, ttl, now).created_at == now,
        kept_file(lyrics, match_score, ttl, now).expires_at >= now,
        now + ttl <= u64::MAX ==> kept_file(lyrics, match_score, ttl, now).expires_at == now + ttl,
        now + ttl > u64::MAX ==> kept_file(lyrics, match_score, ttl, now).expires_at == u64::MAX,
{
}

} // verus!
