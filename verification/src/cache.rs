//! The content-addressed tile cache policy.
//!
//! A tile's data lives in one file per data kind under a deterministic
//! path; the presence of the file is the only "is cached" signal.  The
//! decisions — read or download, where to write, what to do when a
//! download fails or when another writer got there first — are pure
//! functions here with exact contracts; the caller performs the actual
//! file and network operations and reports their outcomes back.

use vstd::prelude::*;
use vstd::string::{StringExecFns, StringSliceAdditionalSpecFns};

use crate::location::GeoRect;
use crate::text::{decimal_string, digit_char, spec_decimal};
use crate::tile::TileId;

verus! {

/// The kinds of data cached per tile.
#[derive(Clone, Copy, Debug, PartialEq, Eq, Structural)]
pub enum DataKind {
    Elevation,
    Raster,
    Vector,
}

impl DataKind {
    pub open spec fn spec_dir(self) -> Seq<char> {
        match self {
            DataKind::Elevation => "elevation"@,
            DataKind::Raster => "osm-raster"@,
            DataKind::Vector => "osm"@,
        }
    }

    pub open spec fn spec_ext(self) -> Seq<char> {
        match self {
            DataKind::Elevation => "webp"@,
            DataKind::Raster => "png"@,
            DataKind::Vector => "osm"@,
        }
    }

    /// The cache subdirectory for this kind of data.
    pub fn dir(self) -> (r: &'static str)
        ensures
            r@ == self.spec_dir(),
    {
        match self {
            DataKind::Elevation => "elevation",
            DataKind::Raster => "osm-raster",
            DataKind::Vector => "osm",
        }
    }

    /// The file extension for this kind of data.
    pub fn ext(self) -> (r: &'static str)
        ensures
            r@ == self.spec_ext(),
    {
        match self {
            DataKind::Elevation => "webp",
            DataKind::Raster => "png",
            DataKind::Vector => "osm",
        }
    }
}

/// `{zoom}/{x}/{y}.{ext}` — the tail shared by cache paths and remote
/// addresses.
pub open spec fn spec_tile_tail(t: TileId, kind: DataKind) -> Seq<char> {
    spec_decimal(t.zoom as int) + "/"@ + spec_decimal(t.x as int) + "/"@ + spec_decimal(
        t.y as int,
    ) + "."@ + kind.spec_ext()
}

fn tile_tail(t: TileId, kind: DataKind) -> (r: String)
    ensures
        r@ == spec_tile_tail(t, kind),
{
    let mut s = decimal_string(t.zoom as u64);
    s.append("/");
    let x = decimal_string(t.x as u64);
    s.append(x.as_str());
    s.append("/");
    let y = decimal_string(t.y as u64);
    s.append(y.as_str());
    s.append(".");
    s.append(kind.ext());
    s
}

/// `assets/cache/{kind}/{zoom}/{x}/{y}.{ext}` — where a tile's data is
/// cached on disk.
pub open spec fn spec_cache_path(t: TileId, kind: DataKind) -> Seq<char> {
    "assets/cache/"@ + kind.spec_dir() + "/"@ + spec_tile_tail(t, kind)
}

/// The deterministic cache file path for one tile and data kind.
pub fn cache_path(t: TileId, kind: DataKind) -> (r: String)
    ensures
        r@ == spec_cache_path(t, kind),
{
    let mut s = String::from_str("assets/cache/");
    s.append(kind.dir());
    s.append("/");
    let tail = tile_tail(t, kind);
    s.append(tail.as_str());
    s
}

/// `cache/{kind}/{zoom}/{x}/{y}.{ext}` — the same file as seen from
/// the renderer's asset root, which maps `assets/` away.
pub open spec fn spec_engine_cache_path(t: TileId, kind: DataKind) -> Seq<char> {
    "cache/"@ + kind.spec_dir() + "/"@ + spec_tile_tail(t, kind)
}

/// The cache file path relative to the renderer's asset root.
pub fn engine_cache_path(t: TileId, kind: DataKind) -> (r: String)
    ensures
        r@ == spec_engine_cache_path(t, kind),
{
    let mut s = String::from_str("cache/");
    s.append(kind.dir());
    s.append("/");
    let tail = tile_tail(t, kind);
    s.append(tail.as_str());
    s
}

/// A microdegree angle rendered as degrees: optional sign, the integer
/// part, a point, and exactly six fraction digits.
pub open spec fn spec_degrees(v: int) -> Seq<char> {
    let m = if v < 0 {
        -v
    } else {
        v
    };
    let sign: Seq<char> = if v < 0 {
        "-"@
    } else {
        Seq::empty()
    };
    sign + spec_decimal(m / 1_000_000) + "."@ + seq![
        digit_char((m / 100_000) % 10),
        digit_char((m / 10_000) % 10),
        digit_char((m / 1_000) % 10),
        digit_char((m / 100) % 10),
        digit_char((m / 10) % 10),
        digit_char(m % 10),
    ]
}

fn push_digit(s: &mut String, d: u64)
    requires
        d < 10,
    ensures
        final(s)@ == old(s)@ + seq![digit_char(d as int)],
{
    if d == 0 {
        proof {
            reveal_strlit("0");
        }
        s.append("0");
    } else if d == 1 {
        proof {
            reveal_strlit("1");
        }
        s.append("1");
    } else if d == 2 {
        proof {
            reveal_strlit("2");
        }
        s.append("2");
    } else if d == 3 {
        proof {
            reveal_strlit("3");
        }
        s.append("3");
    } else if d == 4 {
        proof {
            reveal_strlit("4");
        }
        s.append("4");
    } else if d == 5 {
        proof {
            reveal_strlit("5");
        }
        s.append("5");
    } else if d == 6 {
        proof {
            reveal_strlit("6");
        }
        s.append("6");
    } else if d == 7 {
        proof {
            reveal_strlit("7");
        }
        s.append("7");
    } else if d == 8 {
        proof {
            reveal_strlit("8");
        }
        s.append("8");
    } else {
        proof {
            reveal_strlit("9");
        }
        s.append("9");
    }
}

/// Renders a microdegree angle as decimal degrees.
pub fn degrees_string(v: i64) -> (r: String)
    requires
        -180 * 1_000_000 <= v <= 180 * 1_000_000,
    ensures
        r@ == spec_degrees(v as int),
{
    let mut s = String::new();
    let m: i64 = if v < 0 {
        s.append("-");
        -v
    } else {
        v
    };
    let whole = decimal_string((m / 1_000_000) as u64);
    s.append(whole.as_str());
    s.append(".");
    push_digit(&mut s, ((m / 100_000) % 10) as u64);
    push_digit(&mut s, ((m / 10_000) % 10) as u64);
    push_digit(&mut s, ((m / 1_000) % 10) as u64);
    push_digit(&mut s, ((m / 100) % 10) as u64);
    push_digit(&mut s, ((m / 10) % 10) as u64);
    push_digit(&mut s, (m % 10) as u64);
    s
}

/// The remote address a missing elevation tile is fetched from.
pub open spec fn spec_elevation_url(t: TileId) -> Seq<char> {
    "https://tiles.mapterhorn.com/"@ + spec_tile_tail(t, DataKind::Elevation)
}

pub fn elevation_url(t: TileId) -> (r: String)
    ensures
        r@ == spec_elevation_url(t),
{
    let mut s = String::from_str("https://tiles.mapterhorn.com/");
    let tail = tile_tail(t, DataKind::Elevation);
    s.append(tail.as_str());
    s
}

/// The remote address a missing raster tile is fetched from.
pub open spec fn spec_raster_url(t: TileId) -> Seq<char> {
    "https://tile.openstreetmap.org/"@ + spec_tile_tail(t, DataKind::Raster)
}

pub fn raster_url(t: TileId) -> (r: String)
    ensures
        r@ == spec_raster_url(t),
{
    let mut s = String::from_str("https://tile.openstreetmap.org/");
    let tail = tile_tail(t, DataKind::Raster);
    s.append(tail.as_str());
    s
}

/// The bounding-box query a missing vector area is fetched with:
/// west, south, east, north.
pub open spec fn spec_vector_url(area: GeoRect) -> Seq<char> {
    "https://overpass-api.de/api/map?bbox="@ + spec_degrees(area.min_lon as int) + ","@
        + spec_degrees(area.min_lat as int) + ","@ + spec_degrees(area.max_lon as int) + ","@
        + spec_degrees(area.max_lat as int)
}

pub fn vector_url(area: GeoRect) -> (r: String)
    requires
        area.wf(),
    ensures
        r@ == spec_vector_url(area),
{
    let mut s = String::from_str("https://overpass-api.de/api/map?bbox=");
    let a = degrees_string(area.min_lon);
    s.append(a.as_str());
    s.append(",");
    let b = degrees_string(area.min_lat);
    s.append(b.as_str());
    s.append(",");
    let c = degrees_string(area.max_lon);
    s.append(c.as_str());
    s.append(",");
    let d = degrees_string(area.max_lat);
    s.append(d.as_str());
    s
}

/// What one cache lookup decides to do.
#[derive(Debug, PartialEq, Eq, Structural)]
pub enum FetchDecision {
    /// The file is present: read it, issue no request.
    UseCached,
    /// The file is absent: issue exactly one request to this address.
    Download,
}

/// The read-or-download decision: a present file is never re-fetched.
pub fn plan_fetch(cached: bool) -> (r: FetchDecision)
    ensures
        r == (if cached {
            FetchDecision::UseCached
        } else {
            FetchDecision::Download
        }),
{
    if cached {
        FetchDecision::UseCached
    } else {
        FetchDecision::Download
    }
}

/// What to do with the outcome of a download.
#[derive(Debug, PartialEq, Eq, Structural)]
pub enum StoreAction {
    /// Write the response body to the cache file, then read it back.
    StoreBody,
    /// Write the built-in blank payload instead, so the region never
    /// stalls waiting for data that will not come.
    StorePlaceholder,
    /// Store nothing; the region stays unloaded and is retried the
    /// next time it is requested.
    LeaveUnloaded,
    /// Surface the failure to the caller of this load attempt.
    Fail,
}

/// The per-kind failure policy: elevation degrades to a placeholder,
/// raster tiles simply stay unloaded, vector data surfaces the error.
pub fn on_download_result(kind: DataKind, ok: bool) -> (r: StoreAction)
    ensures
        ok ==> r == StoreAction::StoreBody,
        !ok ==> r == (match kind {
            DataKind::Elevation => StoreAction::StorePlaceholder,
            DataKind::Raster => StoreAction::LeaveUnloaded,
            DataKind::Vector => StoreAction::Fail,
        }),
{
    if ok {
        StoreAction::StoreBody
    } else {
        match kind {
            DataKind::Elevation => StoreAction::StorePlaceholder,
            DataKind::Raster => StoreAction::LeaveUnloaded,
            DataKind::Vector => StoreAction::Fail,
        }
    }
}

/// Cache files are written with create-new semantics; this is the
/// outcome the caller reports.
#[derive(Debug, PartialEq, Eq, Structural)]
pub enum WriteOutcome {
    Created,
    /// A concurrent fetch for the same key created the file first.
    AlreadyExists,
    Failed,
}

/// Losing a create-new race means someone else populated the cache:
/// both `Created` and `AlreadyExists` leave a readable file behind,
/// and only a real write failure does not.
pub fn write_leaves_file(outcome: WriteOutcome) -> (r: bool)
    ensures
        r == (outcome == WriteOutcome::Created || outcome == WriteOutcome::AlreadyExists),
{
    match outcome {
        WriteOutcome::Created => true,
        WriteOutcome::AlreadyExists => true,
        WriteOutcome::Failed => false,
    }
}

/// `p` occurs in `h` starting at position `i`.
pub open spec fn match_at(h: Seq<u8>, p: Seq<u8>, i: int) -> bool {
    forall|j: int| 0 <= j < p.len() ==> h[i + j] == p[j]
}

/// `p` occurs somewhere in `h`.
pub open spec fn spec_contains_sub(h: Seq<u8>, p: Seq<u8>) -> bool {
    exists|i: int| 0 <= i && i + p.len() <= h.len() && match_at(h, p, i)
}

/// Whether `pat` occurs as a contiguous run of bytes in `hay`.
pub fn contains_sub(hay: &[u8], pat: &[u8]) -> (found: bool)
    ensures
        found == spec_contains_sub(hay@, pat@),
{
    if pat.len() > hay.len() {
        return false;
    }
    let mut i: usize = 0;
    while i <= hay.len() - pat.len()
        invariant
            pat.len() <= hay.len(),
            0 <= i <= hay.len(),
            forall|k: int| 0 <= k < i ==> !match_at(hay@, pat@, k),
        decreases hay.len() - i,
    {
        let mut j: usize = 0;
        let mut matched = true;
        while matched && j < pat.len()
            invariant
                0 <= j <= pat.len(),
                i + pat.len() <= hay.len(),
                matched ==> forall|l: int| 0 <= l < j ==> hay@[i + l] == pat@[l],
                !matched ==> !match_at(hay@, pat@, i as int),
            decreases pat.len() - j + (if matched {
                1int
            } else {
                0int
            }),
        {
            if hay[i + j] != pat[j] {
                proof {
                    assert(hay@[i + j] != pat@[j as int]);
                }
                matched = false;
            } else {
                j = j + 1;
            }
        }
        if matched {
            proof {
                assert(match_at(hay@, pat@, i as int));
            }
            return true;
        }
        i = i + 1;
    }
    proof {
        assert forall|k: int| 0 <= k && k + pat@.len() <= hay@.len() implies !match_at(
            hay@,
            pat@,
            k,
        ) by {
            assert(k < i);
        }
    }
    false
}

/// A response that the vector endpoint sends when it is overloaded or
/// throttling, instead of map data.
pub open spec fn spec_vector_response_suspect(body: Seq<u8>) -> bool {
    ||| spec_contains_sub(body, "The server is probably too busy to handle your request".spec_bytes())
    ||| spec_contains_sub(body, "rate_limited".spec_bytes())
}

/// Sniffs a vector response for the endpoint's overload and throttle
/// markers; a hit is reported to the caller's log, not retried.
pub fn vector_response_suspect(body: &[u8]) -> (r: bool)
    ensures
        r == spec_vector_response_suspect(body@),
{
    let busy = contains_sub(body, "The server is probably too busy to handle your request".as_bytes());
    let limited = contains_sub(body, "rate_limited".as_bytes());
    busy || limited
}

/// An in-memory record of which cache files exist, keyed by packed
/// tile identifiers.  The file system is authoritative; this mirror
/// lets a single fetch cycle be reasoned about and replayed in tests.
pub struct CacheIndex {
    pub present: Vec<u64>,
}

impl CacheIndex {
    pub open spec fn wf(self) -> bool {
        forall|i: int, j: int|
            0 <= i < j < self.present@.len() ==> self.present@[i] != self.present@[j]
    }

    pub open spec fn has(self, code: u64) -> bool {
        self.present@.contains(code)
    }

    pub fn new() -> (c: CacheIndex)
        ensures
            c.wf(),
            forall|code: u64| !c.has(code),
    {
        let c = CacheIndex { present: Vec::new() };
        proof {
            assert(forall|code: u64| !c.present@.contains(code));
        }
        c
    }

    /// Whether the file for `code` is known to exist.
    pub fn contains(&self, code: u64) -> (r: bool)
        ensures
            r == self.has(code),
    {
        let mut i: usize = 0;
        while i < self.present.len()
            invariant
                0 <= i <= self.present@.len(),
                forall|k: int| 0 <= k < i ==> self.present@[k] != code,
            decreases self.present@.len() - i,
        {
            if self.present[i] == code {
                return true;
            }
            i = i + 1;
        }
        proof {
            if self.present@.contains(code) {
                let k = choose|k: int|
                    0 <= k < self.present@.len() && self.present@[k] == code;
            }
        }
        false
    }

    /// Records that the file for `code` now exists.
    pub fn mark_present(&mut self, code: u64)
        requires
            old(self).wf(),
        ensures
            final(self).wf(),
            final(self).has(code),
            index_grows(*old(self), *final(self)),
            forall|c: u64| final(self).has(c) ==> old(self).has(c) || c == code,
    {
        if !self.contains(code) {
            self.present.push(code);
            proof {
                assert(self.present@.last() == code);
                assert(self.present@.contains(code));
                assert forall|c: u64| old(self).has(c) implies self.has(c) by {
                    if old(self).present@.contains(c) {
                        let k = choose|k: int|
                            0 <= k < old(self).present@.len() && old(self).present@[k] == c;
                        assert(self.present@[k] == c);
                    }
                }
                assert forall|c: u64| self.has(c) implies old(self).has(c) || c == code by {
                    let k = choose|k: int|
                        0 <= k < self.present@.len() && self.present@[k] == c;
                    if k < old(self).present@.len() {
                        assert(old(self).present@[k] == c);
                    }
                }
            }
        }
    }
}

/// The cache between two moments in a session: files are only added,
/// never deleted, so every key present earlier is still present.
pub open spec fn index_grows(pre: CacheIndex, post: CacheIndex) -> bool {
    forall|c: u64| pre.has(c) ==> post.has(c)
}

/// Fetching a key twice with no intervening deletion performs at most
/// one request: once a fetch has stored the file, every later lookup
/// of the same key — however many other keys were stored meanwhile —
/// decides to read the file, not to download.
pub proof fn lemma_cache_fetch_idempotent(first: CacheIndex, later: CacheIndex, code: u64)
    requires
        first.has(code),
        index_grows(first, later),
    ensures
        later.has(code),
        (if later.has(code) {
            FetchDecision::UseCached
        } else {
            FetchDecision::Download
        }) == FetchDecision::UseCached,
{
}

} // verus!
