//! The tile streaming bookkeeping: fetch configuration, the typed error
//! taxonomy, URL templating and cache-path derivation, HTTP status
//! classification, the in-flight request table with waiter coalescing, and
//! the per-tile state machine.
//!
//! All the decisions live here, verified; the I/O itself (disk reads and
//! writes, the HTTP requests, the task pool and the result channel) is
//! driven by the host application around these functions.
use vstd::prelude::*;
use vstd::string::StrSliceExecFns;
use vstd::string::StringExecFns;

use crate::imaging::TileImage;
use crate::tiles::TileIndex;

verus! {

/// Configuration for downloading map tiles.
#[derive(Clone, Debug)]
pub struct TileFetchConfig {
    /// Template URL that contains `{z}`, `{x}`, and `{y}` placeholders.
    pub url_template: String,
    /// HTTP headers sent with every tile request, in order.
    pub headers: Vec<(String, String)>,
    /// Directory used to cache downloaded tiles on disk. The default is a
    /// bare folder name for the host to place under its temp directory.
    pub cache_directory: String,
    /// File extension used when caching tiles locally.
    pub cache_extension: String,
    /// Whether the tile source uses TMS-style Y coordinates (origin
    /// bottom-left) instead of XYZ-style (origin top-left).
    pub reverse_y: bool,
    /// Zoom level offset applied when fetching tiles (can be negative).
    pub zoom_offset: i8,
}

impl Default for TileFetchConfig {
    /// The OpenStreetMap tile source with a single identifying User-Agent
    /// header, PNG caching, XYZ convention and no zoom offset.
    fn default() -> (r: TileFetchConfig)
        ensures
            r.url_template@ == "https://tile.openstreetmap.org/{z}/{x}/{y}.png"@,
            r.headers@.len() == 1,
            r.headers@[0].0@ == "User-Agent"@,
            r.headers@[0].1@ == "geo_tiles/0.1"@,
            r.cache_directory@ == "geo_tiles_cache"@,
            r.cache_extension@ == "png"@,
            r.reverse_y == false,
            r.zoom_offset == 0,
    {
        let mut headers: Vec<(String, String)> = Vec::new();
        headers.push(
            (String::from_str("User-Agent"), String::from_str("geo_tiles/0.1")),
        );
        TileFetchConfig {
            url_template: String::from_str("https://tile.openstreetmap.org/{z}/{x}/{y}.png"),
            headers,
            cache_directory: String::from_str("geo_tiles_cache"),
            cache_extension: String::from_str("png"),
            reverse_y: false,
            zoom_offset: 0,
        }
    }
}

/// Why a tile could not be delivered. Fetch errors and decode errors are
/// distinct, and all of them are terminal for the single request only: a
/// later re-request starts from scratch.
#[derive(Clone, Debug)]
pub enum TileFetchError {
    /// The server answered with a non-success status code.
    HttpStatus(u16),
    /// The request could not be sent or the response not read.
    Network(String),
    /// The cache file could not be read or written.
    Io(String),
    /// The fetched bytes are not a decodable image.
    Decode(String),
}

impl TileFetchError {
    /// A human-readable description of the failure, naming its kind.
    pub fn message(&self) -> (r: String)
        ensures
            match self {
                TileFetchError::HttpStatus(code) => r@ == "HTTP request failed with status "@
                    + spec_decimal(*code as nat),
                TileFetchError::Network(e) => r@ == "network error: "@ + e@,
                TileFetchError::Io(e) => r@ == "io error: "@ + e@,
                TileFetchError::Decode(e) => r@ == "decode error: "@ + e@,
            },
    {
        match self {
            TileFetchError::HttpStatus(code) => {
                let digits = u64_to_decimal(*code as u64);
                String::from_str("HTTP request failed with status ").concat(digits.as_str())
            },
            TileFetchError::Network(e) => String::from_str("network error: ").concat(e.as_str()),
            TileFetchError::Io(e) => String::from_str("io error: ").concat(e.as_str()),
            TileFetchError::Decode(e) => String::from_str("decode error: ").concat(e.as_str()),
        }
    }
}

/// Sorts an HTTP status code: success is exactly the 2xx range; everything
/// else is reported as a typed status failure.
pub fn classify_status(status: u16) -> (r: Result<(), TileFetchError>)
    ensures
        r is Ok <==> 200 <= status < 300,
        r is Err ==> r->Err_0 == TileFetchError::HttpStatus(status),
{
    if 200 <= status && status < 300 {
        Ok(())
    } else {
        Err(TileFetchError::HttpStatus(status))
    }
}

/// The decimal digit character for a value below ten.
pub open spec fn spec_digit_char(d: int) -> char {
    if d == 0 {
        '0'
    } else if d == 1 {
        '1'
    } else if d == 2 {
        '2'
    } else if d == 3 {
        '3'
    } else if d == 4 {
        '4'
    } else if d == 5 {
        '5'
    } else if d == 6 {
        '6'
    } else if d == 7 {
        '7'
    } else if d == 8 {
        '8'
    } else {
        '9'
    }
}

/// The decimal digits of a number, most significant first, without leading
/// zeros (a single zero for zero).
pub open spec fn spec_decimal(n: nat) -> Seq<char>
    decreases n,
{
    if n < 10 {
        seq![spec_digit_char(n as int)]
    } else {
        spec_decimal(n / 10).push(spec_digit_char((n % 10) as int))
    }
}

/// One decimal digit as a string slice.
fn digit_str(d: u64) -> (r: &'static str)
    requires
        d < 10,
    ensures
        r@ == seq![spec_digit_char(d as int)],
{
    proof {
        reveal_strlit("0");
        reveal_strlit("1");
        reveal_strlit("2");
        reveal_strlit("3");
        reveal_strlit("4");
        reveal_strlit("5");
        reveal_strlit("6");
        reveal_strlit("7");
        reveal_strlit("8");
        reveal_strlit("9");
    }
    let r = match d {
        0 => "0",
        1 => "1",
        2 => "2",
        3 => "3",
        4 => "4",
        5 => "5",
        6 => "6",
        7 => "7",
        8 => "8",
        _ => "9",
    };
    proof {
        assert(r@ =~= seq![spec_digit_char(d as int)]);
    }
    r
}

/// Renders a number in decimal.
pub fn u64_to_decimal(n: u64) -> (r: String)
    ensures
        r@ == spec_decimal(n as nat),
    decreases n,
{
    if n < 10 {
        String::from_str(digit_str(n))
    } else {
        let prefix = u64_to_decimal(n / 10);
        let d = digit_str(n % 10);
        let r = prefix.concat(d);
        proof {
            assert(r@ =~= spec_decimal((n / 10) as nat).push(spec_digit_char((n % 10) as int)));
        }
        r
    }
}

/// The input with every occurrence of `pat` replaced by `rep`, scanning
/// left to right without overlap.
pub open spec fn spec_replace(s: Seq<char>, pat: Seq<char>, rep: Seq<char>) -> Seq<char>
    decreases s.len(),
{
    if s.len() == 0 {
        Seq::empty()
    } else if 0 < pat.len() <= s.len() && s.take(pat.len() as int) == pat {
        rep + spec_replace(s.skip(pat.len() as int), pat, rep)
    } else {
        seq![s[0]] + spec_replace(s.skip(1), pat, rep)
    }
}

/// Whether the pattern occurs in the text at the given position.
fn match_at(s: &str, i: usize, pat: &str) -> (b: bool)
    requires
        i + pat@.len() <= s@.len(),
        s@.len() <= usize::MAX,
    ensures
        b <==> s@.subrange(i as int, i as int + pat@.len() as int) == pat@,
{
    let pat_len = pat.unicode_len();
    let mut j: usize = 0;
    while j < pat_len
        invariant
            j <= pat_len,
            pat_len == pat@.len(),
            i + pat@.len() <= s@.len(),
            s@.len() <= usize::MAX,
            forall|k: int| 0 <= k < j ==> s@[i + k] == pat@[k],
        decreases pat_len - j,
    {
        if s.get_char(i + j) != pat.get_char(j) {
            proof {
                assert(s@.subrange(i as int, i as int + pat@.len() as int)[j as int] == s@[i + j]);
            }
            return false;
        }
        j = j + 1;
    }
    proof {
        assert(s@.subrange(i as int, i as int + pat@.len() as int) =~= pat@);
    }
    true
}

/// Replaces every occurrence of `pat` in `s` by `rep`, per [`spec_replace`].
pub fn replace_all(s: &str, pat: &str, rep: &str) -> (r: String)
    requires
        pat@.len() > 0,
    ensures
        r@ == spec_replace(s@, pat@, rep@),
{
    let s_len = s.unicode_len();
    let pat_len = pat.unicode_len();
    let mut out = String::new();
    let mut i: usize = 0;
    proof {
        assert(s@.skip(0) =~= s@);
        assert(Seq::<char>::empty() + spec_replace(s@, pat@, rep@) =~= spec_replace(
            s@,
            pat@,
            rep@,
        ));
    }
    while i < s_len
        invariant
            s_len == s@.len(),
            pat_len == pat@.len(),
            pat@.len() > 0,
            i <= s_len,
            spec_replace(s@, pat@, rep@) == out@ + spec_replace(s@.skip(i as int), pat@, rep@),
        decreases s_len - i,
    {
        let ghost rest = s@.skip(i as int);
        let ghost pre = out@;
        if pat_len <= s_len - i && match_at(s, i, pat) {
            out.append(rep);
            proof {
                assert(rest.take(pat@.len() as int) =~= s@.subrange(
                    i as int,
                    i as int + pat@.len() as int,
                ));
                assert(rest.skip(pat@.len() as int) =~= s@.skip(i as int + pat@.len() as int));
                assert(spec_replace(rest, pat@, rep@) == rep@ + spec_replace(
                    s@.skip(i as int + pat@.len() as int),
                    pat@,
                    rep@,
                ));
                assert(pre + (rep@ + spec_replace(s@.skip(i as int + pat@.len() as int), pat@,
                rep@)) =~= (pre + rep@) + spec_replace(
                    s@.skip(i as int + pat@.len() as int),
                    pat@,
                    rep@,
                ));
            }
            i = i + pat_len;
        } else {
            let c = s.substring_char(i, i + 1);
            out.append(c);
            proof {
                assert(rest[0] == s@[i as int]);
                if i + pat@.len() <= s_len {
                    assert(rest.take(pat@.len() as int) =~= s@.subrange(
                        i as int,
                        i as int + pat@.len() as int,
                    ));
                    assert(rest.take(pat@.len() as int) != pat@);
                }
                assert(rest.skip(1) =~= s@.skip(i as int + 1));
                assert(spec_replace(rest, pat@, rep@) == seq![s@[i as int]] + spec_replace(
                    s@.skip(i as int + 1),
                    pat@,
                    rep@,
                ));
                assert(c@ =~= seq![s@[i as int]]);
                assert(pre + (seq![s@[i as int]] + spec_replace(s@.skip(i as int + 1), pat@, rep@))
                    =~= (pre + c@) + spec_replace(s@.skip(i as int + 1), pat@, rep@));
            }
            i = i + 1;
        }
    }
    proof {
        assert(s@.skip(s_len as int) =~= Seq::<char>::empty());
        assert(out@ + spec_replace(Seq::<char>::empty(), pat@, rep@) =~= out@);
    }
    out
}

/// The `{z}` placeholder.
pub open spec fn z_pattern() -> Seq<char> {
    seq!['{', 'z', '}']
}

/// The `{x}` placeholder.
pub open spec fn x_pattern() -> Seq<char> {
    seq!['{', 'x', '}']
}

/// The `{y}` placeholder.
pub open spec fn y_pattern() -> Seq<char> {
    seq!['{', 'y', '}']
}

/// The tile URL: the template with `{z}`, `{x}` and `{y}` substituted, in
/// that order, by the tile's decimal coordinates.
pub open spec fn spec_format_url(template: Seq<char>, z: nat, x: nat, y: nat) -> Seq<char> {
    spec_replace(
        spec_replace(spec_replace(template, z_pattern(), spec_decimal(z)), x_pattern(),
        spec_decimal(x)),
        y_pattern(),
        spec_decimal(y),
    )
}

/// Substitutes a tile's coordinates into a URL template.
pub fn format_url(template: &str, t: TileIndex) -> (r: String)
    ensures
        r@ == spec_format_url(template@, t.zoom as nat, t.x as nat, t.y as nat),
{
    proof {
        reveal_strlit("{z}");
        reveal_strlit("{x}");
        reveal_strlit("{y}");
        assert("{z}"@ =~= z_pattern());
        assert("{x}"@ =~= x_pattern());
        assert("{y}"@ =~= y_pattern());
    }
    let zs = u64_to_decimal(t.zoom as u64);
    let s1 = replace_all(template, "{z}", zs.as_str());
    let xs = u64_to_decimal(t.x as u64);
    let s2 = replace_all(s1.as_str(), "{x}", xs.as_str());
    let ys = u64_to_decimal(t.y as u64);
    replace_all(s2.as_str(), "{y}", ys.as_str())
}

/// The deterministic cache location of a tile below a cache root:
/// `root/zoom/x/y.ext`, all numbers in decimal.
pub open spec fn spec_cache_path(
    root: Seq<char>,
    z: nat,
    x: nat,
    y: nat,
    ext: Seq<char>,
) -> Seq<char> {
    root + seq!['/'] + spec_decimal(z) + seq!['/'] + spec_decimal(x) + seq!['/'] + spec_decimal(y)
        + seq!['.'] + ext
}

/// Builds the cache path of a tile: presence of a file at this path is what
/// makes a cache hit, so the same tile always maps to the same path.
pub fn cache_path(root: &str, t: TileIndex, ext: &str) -> (r: String)
    ensures
        r@ == spec_cache_path(root@, t.zoom as nat, t.x as nat, t.y as nat, ext@),
{
    proof {
        reveal_strlit("/");
        reveal_strlit(".");
    }
    let mut p = String::from_str(root);
    p.append("/");
    let zs = u64_to_decimal(t.zoom as u64);
    p.append(zs.as_str());
    p.append("/");
    let xs = u64_to_decimal(t.x as u64);
    p.append(xs.as_str());
    p.append("/");
    let ys = u64_to_decimal(t.y as u64);
    p.append(ys.as_str());
    p.append(".");
    p.append(ext);
    proof {
        assert(p@ =~= spec_cache_path(root@, t.zoom as nat, t.x as nat, t.y as nat, ext@));
    }
    p
}

/// One in-flight download: the tile being fetched and everyone waiting for
/// its result.
#[derive(Clone, Debug)]
pub struct PendingFetch {
    pub tile: TileIndex,
    pub waiters: Vec<u64>,
}

/// The in-flight request table: at most one outstanding fetch per tile
/// index. Demand for a tile that is already being fetched joins its waiter
/// list instead of dispatching a second fetch.
///
/// The actual fetch work happens outside: [`TileFetcher::request_tile`]
/// answers whether the caller must dispatch a background task, and
/// [`TileFetcher::take_waiters`] hands out the waiters to notify when that
/// task's result arrives.
#[derive(Clone, Debug)]
pub struct TileFetcher {
    waiting: Vec<PendingFetch>,
}

impl TileFetcher {
    /// The pending entries, visible to specifications.
    pub closed spec fn entries(self) -> Seq<PendingFetch> {
        self.waiting@
    }

    /// At most one entry per tile index.
    pub open spec fn wf(self) -> bool {
        forall|i: int, j: int|
            0 <= i < j < self.entries().len() ==> (#[trigger] self.entries()[i]).tile != (
            #[trigger] self.entries()[j]).tile
    }

    /// True when a fetch for the tile is outstanding.
    pub open spec fn spec_pending(self, t: TileIndex) -> bool {
        exists|i: int| 0 <= i < self.entries().len() && (#[trigger] self.entries()[i]).tile == t
    }

    /// The waiters registered for the tile, empty when none is pending.
    pub open spec fn spec_waiters(self, t: TileIndex) -> Seq<u64> {
        if self.spec_pending(t) {
            self.entries()[choose|i: int|
                0 <= i < self.entries().len() && (#[trigger] self.entries()[i]).tile == t].waiters@
        } else {
            Seq::empty()
        }
    }

    /// In a well-formed table the waiters of a tile are the waiters of its
    /// unique entry.
    pub proof fn lemma_waiters_at(self, i: int)
        requires
            self.wf(),
            0 <= i < self.entries().len(),
        ensures
            self.spec_waiters(self.entries()[i].tile) == self.entries()[i].waiters@,
    {
        let t = self.entries()[i].tile;
        assert(self.spec_pending(t));
        let j = choose|j: int|
            0 <= j < self.entries().len() && (#[trigger] self.entries()[j]).tile == t;
        if i != j {
            assert(self.entries()[i].tile != self.entries()[j].tile);
        }
    }

    /// An empty table: nothing in flight.
    pub fn new() -> (r: TileFetcher)
        ensures
            r.wf(),
            r.entries().len() == 0,
            forall|t: TileIndex| !r.spec_pending(t),
    {
        TileFetcher { waiting: Vec::new() }
    }

    /// The position of the entry for the tile, if one is pending.
    fn index_of(&self, t: TileIndex) -> (r: Option<usize>)
        ensures
            match r {
                Some(i) => i < self.entries().len() && self.entries()[i as int].tile == t,
                None => !self.spec_pending(t),
            },
    {
        let mut i: usize = 0;
        while i < self.waiting.len()
            invariant
                i <= self.entries().len(),
                forall|k: int| 0 <= k < i ==> (#[trigger] self.entries()[k]).tile != t,
            decreases self.entries().len() - i,
        {
            if self.waiting[i].tile == t {
                return Some(i);
            }
            i = i + 1;
        }
        None
    }

    /// True when a fetch for the tile is outstanding.
    pub fn is_pending(&self, t: TileIndex) -> (r: bool)
        ensures
            r == self.spec_pending(t),
    {
        self.index_of(t).is_some()
    }

    /// The number of outstanding fetches.
    pub fn pending_count(&self) -> (r: usize)
        ensures
            r == self.entries().len(),
    {
        self.waiting.len()
    }
}

/// True when the waiter id occurs in the list.
fn vec_contains_u64(v: &Vec<u64>, w: u64) -> (r: bool)
    ensures
        r == v@.contains(w),
{
    let mut i: usize = 0;
    while i < v.len()
        invariant
            i <= v@.len(),
            forall|k: int| 0 <= k < i ==> v@[k] != w,
        decreases v@.len() - i,
    {
        if v[i] == w {
            return true;
        }
        i = i + 1;
    }
    false
}

/// In a well-formed table, a member entry's waiters are the waiters of its
/// tile.
proof fn lemma_waiters_of_member(f: TileFetcher, e: PendingFetch)
    requires
        f.wf(),
        f.entries().contains(e),
    ensures
        f.spec_pending(e.tile),
        f.spec_waiters(e.tile) == e.waiters@,
{
    let i = choose|i: int| 0 <= i < f.entries().len() && f.entries()[i] == e;
    assert(f.entries()[i].tile == e.tile);
    f.lemma_waiters_at(i);
}

/// Removing the entry at a position by `swap_remove` keeps every other
/// entry, drops the removed tile, and preserves well-formedness and the
/// state of every other tile.
proof fn lemma_remove_fetch(pre: TileFetcher, post: TileFetcher, i: int)
    requires
        pre.wf(),
        0 <= i < pre.entries().len(),
        post.entries() == pre.entries().update(i, pre.entries().last()).drop_last(),
    ensures
        post.wf(),
        !post.spec_pending(pre.entries()[i].tile),
        forall|u: TileIndex|
            u != pre.entries()[i].tile ==> post.spec_pending(u) == pre.spec_pending(u),
        forall|u: TileIndex|
            u != pre.entries()[i].tile ==> post.spec_waiters(u) == pre.spec_waiters(u),
{
    let s = pre.entries();
    let n = post.entries();
    let t = s[i].tile;
    assert forall|e: PendingFetch| #[trigger] n.contains(e) implies (s.contains(e) && e.tile != t)
        by {
        let k = choose|k: int| 0 <= k < n.len() && n[k] == e;
        if k == i {
            assert(s[s.len() - 1] == e);
            assert(s.contains(e));
        } else {
            assert(s[k] == e);
            assert(s.contains(e));
        }
    }
    assert forall|e: PendingFetch| s.contains(e) && e.tile != t implies #[trigger] n.contains(e)
        by {
        let k = choose|k: int| 0 <= k < s.len() && s[k] == e;
        if k == s.len() - 1 {
            if i < s.len() - 1 {
                assert(n[i] == e);
            } else {
                assert(s[k].tile == t);
            }
        } else {
            assert(n[k] == e);
        }
    }
    assert forall|a: int, b: int| 0 <= a < b < n.len() implies (#[trigger] n[a]).tile != (
    #[trigger] n[b]).tile by {
        let sa = if a == i {
            s.len() - 1
        } else {
            a
        };
        let sb = if b == i {
            s.len() - 1
        } else {
            b
        };
        assert(n[a] == s[sa] && n[b] == s[sb]);
    }
    assert(!post.spec_pending(t)) by {
        if post.spec_pending(t) {
            let k = choose|k: int| 0 <= k < n.len() && (#[trigger] n[k]).tile == t;
            assert(n.contains(n[k]));
        }
    }
    assert forall|u: TileIndex| u != t implies post.spec_pending(u) == pre.spec_pending(u) by {
        if pre.spec_pending(u) {
            let k = choose|k: int| 0 <= k < s.len() && (#[trigger] s[k]).tile == u;
            assert(s.contains(s[k]));
            assert(n.contains(s[k]));
            let kk = choose|kk: int| 0 <= kk < n.len() && n[kk] == s[k];
            assert(post.spec_pending(u));
        }
        if post.spec_pending(u) {
            let k = choose|k: int| 0 <= k < n.len() && (#[trigger] n[k]).tile == u;
            assert(n.contains(n[k]));
            let kk = choose|kk: int| 0 <= kk < s.len() && s[kk] == n[k];
            assert(pre.spec_pending(u));
        }
    }
    assert forall|u: TileIndex| u != t implies post.spec_waiters(u) == pre.spec_waiters(u) by {
        if pre.spec_pending(u) {
            let k = choose|k: int| 0 <= k < s.len() && (#[trigger] s[k]).tile == u;
            assert(s.contains(s[k]));
            assert(n.contains(s[k]));
            pre.lemma_waiters_at(k);
            lemma_waiters_of_member(post, s[k]);
        }
    }
}

/// Appending an entry for a tile that is not pending keeps every other
/// tile's state and preserves well-formedness.
proof fn lemma_push_fetch(pre: TileFetcher, post: TileFetcher, e: PendingFetch)
    requires
        pre.wf(),
        !pre.spec_pending(e.tile),
        post.entries() == pre.entries().push(e),
    ensures
        post.wf(),
        post.spec_pending(e.tile),
        post.spec_waiters(e.tile) == e.waiters@,
        forall|u: TileIndex| u != e.tile ==> post.spec_pending(u) == pre.spec_pending(u),
        forall|u: TileIndex| u != e.tile ==> post.spec_waiters(u) == pre.spec_waiters(u),
{
    let s = pre.entries();
    let n = post.entries();
    assert forall|a: int, b: int| 0 <= a < b < n.len() implies (#[trigger] n[a]).tile != (
    #[trigger] n[b]).tile by {
        if b < n.len() - 1 {
            assert(n[a] == s[a] && n[b] == s[b]);
        } else {
            assert(n[b] == e && n[a] == s[a]);
        }
    }
    assert(n[n.len() - 1] == e);
    assert(post.spec_pending(e.tile));
    assert(n.contains(e)) by {
        assert(n[n.len() - 1] == e);
    }
    lemma_waiters_of_member(post, e);
    assert forall|u: TileIndex| u != e.tile implies post.spec_pending(u) == pre.spec_pending(u) by {
        if pre.spec_pending(u) {
            let k = choose|k: int| 0 <= k < s.len() && (#[trigger] s[k]).tile == u;
            assert(n[k].tile == u);
        }
        if post.spec_pending(u) {
            let k = choose|k: int| 0 <= k < n.len() && (#[trigger] n[k]).tile == u;
            assert(k < n.len() - 1);
            assert(s[k].tile == u);
        }
    }
    assert forall|u: TileIndex| u != e.tile implies post.spec_waiters(u) == pre.spec_waiters(u) by {
        if pre.spec_pending(u) {
            let k = choose|k: int| 0 <= k < s.len() && (#[trigger] s[k]).tile == u;
            pre.lemma_waiters_at(k);
            assert(n[k] == s[k]);
            assert(n.contains(s[k])) by {
                assert(n[k] == s[k]);
            }
            lemma_waiters_of_member(post, s[k]);
        }
    }
}

impl TileFetcher {
    /// Registers demand for a tile. The waiter joins the tile's list (once:
    /// repeated demand from the same waiter is not duplicated), and the
    /// caller must dispatch a background fetch exactly when this returns
    /// true — that is, when no fetch for the tile was outstanding. Demand
    /// for a tile already in flight coalesces: no duplicate network or disk
    /// operation is ever issued.
    pub fn request_tile(&mut self, waiter: u64, tile: TileIndex) -> (dispatch: bool)
        requires
            old(self).wf(),
        ensures
            final(self).wf(),
            request_transition(*old(self), *final(self), tile, waiter, dispatch),
    {
        let ghost pre = *self;
        match self.index_of(tile) {
            Some(i) => {
                let mut entry = self.waiting.swap_remove(i);
                proof {
                    lemma_remove_fetch(pre, *self, i as int);
                    pre.lemma_waiters_at(i as int);
                }
                let ghost mid = *self;
                let had = vec_contains_u64(&entry.waiters, waiter);
                if !had {
                    entry.waiters.push(waiter);
                }
                let ghost entry2 = entry;
                self.waiting.push(entry);
                proof {
                    lemma_push_fetch(mid, *self, entry2);
                    if !had {
                        assert(entry2.waiters@ =~= pre.spec_waiters(tile).push(waiter));
                    }
                }
                false
            },
            None => {
                let mut ws: Vec<u64> = Vec::new();
                ws.push(waiter);
                let entry = PendingFetch { tile, waiters: ws };
                let ghost entry2 = entry;
                self.waiting.push(entry);
                proof {
                    lemma_push_fetch(pre, *self, entry2);
                    assert(entry2.waiters@ =~= seq![waiter]);
                }
                true
            },
        }
    }

    /// Takes the waiter list of a tile whose fetch has completed, clearing
    /// its entry: each waiter is to be notified with the result. A result
    /// for a tile nobody waits on (for example one evicted while its fetch
    /// was in flight) yields the empty list and is discarded harmlessly.
    pub fn take_waiters(&mut self, tile: TileIndex) -> (r: Vec<u64>)
        requires
            old(self).wf(),
        ensures
            final(self).wf(),
            take_transition(*old(self), *final(self), tile, r@),
    {
        let ghost pre = *self;
        match self.index_of(tile) {
            Some(i) => {
                let entry = self.waiting.swap_remove(i);
                proof {
                    lemma_remove_fetch(pre, *self, i as int);
                    pre.lemma_waiters_at(i as int);
                }
                entry.waiters
            },
            None => {
                let r: Vec<u64> = Vec::new();
                proof {
                    assert(r@ =~= pre.spec_waiters(tile));
                }
                r
            },
        }
    }
}

/// The exact effect of one [`TileFetcher::request_tile`] call: the tile is
/// pending afterwards; a fetch is dispatched exactly when it was not
/// pending before; the waiter joins the tile's list unless it is already on
/// it; and no other tile's state changes.
pub open spec fn request_transition(
    pre: TileFetcher,
    post: TileFetcher,
    tile: TileIndex,
    waiter: u64,
    dispatch: bool,
) -> bool {
    &&& dispatch == !pre.spec_pending(tile)
    &&& post.spec_pending(tile)
    &&& forall|u: TileIndex| u != tile ==> post.spec_pending(u) == pre.spec_pending(u)
    &&& forall|u: TileIndex| u != tile ==> post.spec_waiters(u) == pre.spec_waiters(u)
    &&& post.spec_waiters(tile) == if !pre.spec_pending(tile) {
        seq![waiter]
    } else if pre.spec_waiters(tile).contains(waiter) {
        pre.spec_waiters(tile)
    } else {
        pre.spec_waiters(tile).push(waiter)
    }
}

/// The exact effect of one [`TileFetcher::take_waiters`] call: the tile's
/// entry is gone, its waiters (empty when none was pending) are handed
/// back, and no other tile's state changes.
pub open spec fn take_transition(
    pre: TileFetcher,
    post: TileFetcher,
    tile: TileIndex,
    delivered: Seq<u64>,
) -> bool {
    &&& delivered == pre.spec_waiters(tile)
    &&& !post.spec_pending(tile)
    &&& forall|u: TileIndex| u != tile ==> post.spec_pending(u) == pre.spec_pending(u)
    &&& forall|u: TileIndex| u != tile ==> post.spec_waiters(u) == pre.spec_waiters(u)
}

/// In-flight de-duplication: any number of requests for one tile, arriving
/// before its fetch completes, dispatch exactly one fetch — the first —
/// and when the single result arrives, every requester is delivered to,
/// one delivery per waiter.
///
/// The states `fs[0]`, ..., `fs[n]` are the table before and after each of
/// the `n` requests; `ws` are the distinct requesters and `ds` says which
/// requests dispatched. `after_take` is the table once the result has been
/// applied, with `delivered` the waiters notified.
pub proof fn lemma_request_dedup(
    fs: Seq<TileFetcher>,
    ws: Seq<u64>,
    ds: Seq<bool>,
    tile: TileIndex,
    after_take: TileFetcher,
    delivered: Seq<u64>,
)
    requires
        fs.len() == ws.len() + 1,
        ds.len() == ws.len(),
        ws.len() >= 1,
        !fs[0].spec_pending(tile),
        forall|i: int|
            0 <= i < ws.len() ==> request_transition(
                #[trigger] fs[i],
                fs[i + 1],
                tile,
                ws[i],
                ds[i],
            ),
        forall|i: int, j: int| 0 <= i < j < ws.len() ==> ws[i] != ws[j],
        take_transition(fs[fs.len() - 1], after_take, tile, delivered),
    ensures
        ds[0] == true,
        forall|i: int| 1 <= i < ds.len() ==> ds[i] == false,
        delivered =~= ws,
        delivered.len() == ws.len(),
{
    lemma_request_chain(fs, ws, ds, tile, ws.len() as int);
    assert(ws.take(ws.len() as int) =~= ws);
    assert forall|i: int| 1 <= i < ds.len() implies ds[i] == false by {
        lemma_request_chain(fs, ws, ds, tile, i);
        assert(request_transition(fs[i], fs[i + 1], tile, ws[i], ds[i]));
    }
    assert(request_transition(fs[0], fs[1], tile, ws[0], ds[0]));
}

/// After `i` requests for one tile, its waiter list is exactly the first
/// `i` requesters, in order, and the tile is pending as soon as `i >= 1`.
proof fn lemma_request_chain(
    fs: Seq<TileFetcher>,
    ws: Seq<u64>,
    ds: Seq<bool>,
    tile: TileIndex,
    i: int,
)
    requires
        fs.len() == ws.len() + 1,
        ds.len() == ws.len(),
        !fs[0].spec_pending(tile),
        forall|k: int|
            0 <= k < ws.len() ==> request_transition(
                #[trigger] fs[k],
                fs[k + 1],
                tile,
                ws[k],
                ds[k],
            ),
        forall|a: int, b: int| 0 <= a < b < ws.len() ==> ws[a] != ws[b],
        0 <= i <= ws.len(),
    ensures
        fs[i].spec_waiters(tile) =~= ws.take(i),
        i >= 1 ==> fs[i].spec_pending(tile),
    decreases i,
{
    if i == 0 {
        assert(fs[0].spec_waiters(tile) =~= Seq::<u64>::empty());
        assert(ws.take(0) =~= Seq::<u64>::empty());
    } else {
        lemma_request_chain(fs, ws, ds, tile, i - 1);
        assert(request_transition(fs[i - 1], fs[i], tile, ws[i - 1], ds[i - 1]));
        if i == 1 {
            assert(fs[1].spec_waiters(tile) == seq![ws[0]]);
            assert(seq![ws[0]] =~= ws.take(1));
        } else {
            assert(fs[i - 1].spec_pending(tile));
            assert(fs[i - 1].spec_waiters(tile) =~= ws.take(i - 1));
            assert(!ws.take(i - 1).contains(ws[i - 1])) by {
                if ws.take(i - 1).contains(ws[i - 1]) {
                    let k = choose|k: int| 0 <= k < i - 1 && #[trigger] ws.take(i - 1)[k] == ws[i
                        - 1];
                    assert(ws[k] == ws[i - 1]);
                }
            }
            assert(!fs[i - 1].spec_waiters(tile).contains(ws[i - 1]));
            assert(fs[i].spec_waiters(tile) == fs[i - 1].spec_waiters(tile).push(ws[i - 1]));
            assert(ws.take(i - 1).push(ws[i - 1]) =~= ws.take(i));
        }
    }
}

/// The lifecycle of one tile at the host: a tagged union over the closed
/// set of states, matched exhaustively at the update site.
#[derive(Clone, Debug)]
pub enum TileState {
    /// Nothing requested; also the state after an eviction, so a tile that
    /// comes back into view is fetched from scratch.
    Idle,
    /// Demand exists, the fetch is not yet dispatched.
    Requested,
    /// A background fetch is in flight.
    Fetching,
    /// The decoded image is on hand.
    Cached(TileImage),
    /// The fetch or the decode failed; terminal for this request only, and
    /// shown to the host so it can render a placeholder.
    Failed(TileFetchError),
}

impl TileState {
    /// Applies a completed fetch to a tile's state: a decoded image moves
    /// it to `Cached`, an error of any kind to `Failed`. No retry happens
    /// here: only an explicit new request leaves `Failed`.
    pub fn apply_fetch_result(self, result: Result<TileImage, TileFetchError>) -> (r: TileState)
        ensures
            result is Ok ==> r == TileState::Cached(result->Ok_0),
            result is Err ==> r == TileState::Failed(result->Err_0),
    {
        match result {
            Ok(image) => TileState::Cached(image),
            Err(err) => TileState::Failed(err),
        }
    }

    /// Moves a requested tile into the in-flight state when its fetch is
    /// dispatched; any other state is unchanged.
    pub fn begin_fetch(self) -> (r: TileState)
        ensures
            self is Requested ==> r is Fetching,
            !(self is Requested) ==> r == self,
    {
        match self {
            TileState::Requested => TileState::Fetching,
            other => other,
        }
    }
}

} // verus!
