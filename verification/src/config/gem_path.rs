use crate::cop::util::{find_byte, find_byte_exec, copy_range_to_vec, line_end_exec};
use crate::parse::source::{lemma_line_end_bounds, line_end};
use sha2::Digest;
use vstd::prelude::*;

verus! {

/// Modification time of a `Gemfile.lock`: seconds and nanoseconds since the
/// Unix epoch, or `None` when the file is missing or its time unknown.
pub type LockfileMtime = Option<(u64, u32)>;

/// The in-process cache of resolved gem paths. Every entry belongs to
/// `working_dir` and to the lockfile state `lockfile_mtime`; each gem name
/// occurs at most once.
pub struct GemPathCache {
    pub entries: Vec<(String, String)>,
    pub lockfile_mtime: LockfileMtime,
    pub working_dir: String,
}

/// No gem name occurs twice in `es`.
pub open spec fn keys_unique(es: Seq<(String, String)>) -> bool {
    forall|i: int, j: int| 0 <= i < j < es.len() ==> es[i].0@ != es[j].0@
}

/// `es` maps gem name `k` to path `v`.
pub open spec fn maps_to(es: Seq<(String, String)>, k: Seq<char>, v: Seq<char>) -> bool {
    exists|i: int| 0 <= i < es.len() && es[i].0@ == k && es[i].1@ == v
}

/// `es` holds an entry for gem name `k`.
pub open spec fn has_key(es: Seq<(String, String)>, k: Seq<char>) -> bool {
    exists|i: int| 0 <= i < es.len() && es[i].0@ == k
}

impl GemPathCache {
    pub open spec fn wf(&self) -> bool {
        keys_unique(self.entries@)
    }

    /// The cache was filled for `working_dir` with the lockfile in state `mtime`.
    pub open spec fn matches(&self, working_dir: Seq<char>, mtime: LockfileMtime) -> bool {
        self.working_dir@ == working_dir && self.lockfile_mtime == mtime
    }
}

fn find_key(es: &Vec<(String, String)>, k: &String) -> (r: Option<usize>)
    ensures
        r matches Some(i) ==> i < es@.len() && es@[i as int].0@ == k@,
        r is None ==> !has_key(es@, k@),
{
    let mut i: usize = 0;
    while i < es.len()
        invariant
            i <= es@.len(),
            forall|j: int| 0 <= j < i ==> es@[j].0@ != k@,
        decreases es@.len() - i,
    {
        if es[i].0.eq(k) {
            return Some(i);
        }
        i = i + 1;
    }
    None
}

/// The cached path of `gem_name`, when the cache was filled for
/// `working_dir` under the same lockfile state.
pub fn cached_path(
    cache: &Option<GemPathCache>,
    working_dir: &str,
    lockfile_mtime: LockfileMtime,
    gem_name: &str,
) -> (r: Option<String>)
    requires
        cache matches Some(c) ==> c.wf(),
    ensures
        r matches Some(p) ==> cache matches Some(c) && c.matches(working_dir@, lockfile_mtime)
            && maps_to(c.entries@, gem_name@, p@),
        r is None ==> !(cache matches Some(c) && c.matches(working_dir@, lockfile_mtime) && has_key(
            c.entries@,
            gem_name@,
        )),
{
    match cache {
        None => None,
        Some(c) => {
            let wd = working_dir.to_owned();
            if !c.working_dir.eq(&wd) || !mtime_eq(c.lockfile_mtime, lockfile_mtime) {
                return None;
            }
            let k = gem_name.to_owned();
            match find_key(&c.entries, &k) {
                Some(i) => {
                    let p = c.entries[i].1.clone();
                    Some(p)
                },
                None => None,
            }
        },
    }
}

fn mtime_eq(a: LockfileMtime, b: LockfileMtime) -> (r: bool)
    ensures
        r == (a == b),
{
    match (a, b) {
        (None, None) => true,
        (Some(x), Some(y)) => x.0 == y.0 && x.1 == y.1,
        _ => false,
    }
}

/// Records that `gem_name` resolved to `path` in `working_dir`. A cache that
/// was filled for another working directory or lockfile state is emptied
/// first.
pub fn insert_cache_entry(
    cache: &mut Option<GemPathCache>,
    working_dir: &str,
    lockfile_mtime: LockfileMtime,
    gem_name: &str,
    path: &str,
)
    requires
        *old(cache) matches Some(c) ==> c.wf(),
    ensures
        *final(cache) matches Some(c) && c.wf() && c.matches(working_dir@, lockfile_mtime) && ({
            let reset = match *old(cache) {
                Some(o) => !o.matches(working_dir@, lockfile_mtime),
                None => true,
            };
            &&& maps_to(c.entries@, gem_name@, path@)
            &&& forall|v: Seq<char>| maps_to(c.entries@, gem_name@, v) ==> v == path@
            &&& forall|k: Seq<char>, v: Seq<char>|
                k != gem_name@ ==> (maps_to(c.entries@, k, v) <==> (!reset && (
                *old(cache) matches Some(o) && maps_to(o.entries@, k, v))))
        }),
{
    let wd = working_dir.to_owned();
    let mut c = match cache.take() {
        Some(c) => c,
        None => GemPathCache { entries: Vec::new(), lockfile_mtime, working_dir: working_dir.to_owned() },
    };
    let ghost before = c.entries@;
    if !mtime_eq(c.lockfile_mtime, lockfile_mtime) || !c.working_dir.eq(&wd) {
        c.entries.clear();
        c.lockfile_mtime = lockfile_mtime;
        c.working_dir = wd;
    }
    let ghost mid = c.entries@;
    let k = gem_name.to_owned();
    let v = path.to_owned();
    match find_key(&c.entries, &k) {
        Some(i) => {
            c.entries.set(i, (k, v));
            assert forall|a: int, b: int| 0 <= a < b < c.entries@.len() implies c.entries@[a].0@
                != c.entries@[b].0@ by {
                assert(mid[a].0@ != mid[b].0@);
            }
            assert(maps_to(c.entries@, gem_name@, path@)) by {
                assert(c.entries@[i as int].0@ == gem_name@);
            }
            assert forall|v2: Seq<char>| maps_to(c.entries@, gem_name@, v2) implies v2 == path@ by {
                let j = choose|j: int| 0 <= j < c.entries@.len() && c.entries@[j].0@ == gem_name@
                    && c.entries@[j].1@ == v2;
                if j != i {
                    assert(mid[j].0@ == mid[i as int].0@);
                }
            }
            assert forall|k2: Seq<char>, v2: Seq<char>| k2 != gem_name@ implies (maps_to(
                c.entries@,
                k2,
                v2,
            ) <==> maps_to(mid, k2, v2)) by {
                if maps_to(c.entries@, k2, v2) {
                    let j = choose|j: int| 0 <= j < c.entries@.len() && c.entries@[j].0@ == k2
                        && c.entries@[j].1@ == v2;
                    assert(mid[j] == c.entries@[j]);
                }
                if maps_to(mid, k2, v2) {
                    let j = choose|j: int| 0 <= j < mid.len() && mid[j].0@ == k2 && mid[j].1@ == v2;
                    assert(mid[j] == c.entries@[j]);
                }
            }
        },
        None => {
            c.entries.push((k, v));
            assert(maps_to(c.entries@, gem_name@, path@)) by {
                assert(c.entries@[mid.len() as int].0@ == gem_name@);
            }
            assert forall|v2: Seq<char>| maps_to(c.entries@, gem_name@, v2) implies v2 == path@ by {
                let j = choose|j: int| 0 <= j < c.entries@.len() && c.entries@[j].0@ == gem_name@
                    && c.entries@[j].1@ == v2;
                if j < mid.len() {
                    assert(has_key(mid, gem_name@));
                }
            }
            assert forall|k2: Seq<char>, v2: Seq<char>| k2 != gem_name@ implies (maps_to(
                c.entries@,
                k2,
                v2,
            ) <==> maps_to(mid, k2, v2)) by {
                if maps_to(c.entries@, k2, v2) {
                    let j = choose|j: int| 0 <= j < c.entries@.len() && c.entries@[j].0@ == k2
                        && c.entries@[j].1@ == v2;
                    assert(mid[j] == c.entries@[j]);
                }
                if maps_to(mid, k2, v2) {
                    let j = choose|j: int| 0 <= j < mid.len() && mid[j].0@ == k2 && mid[j].1@ == v2;
                    assert(mid[j] == c.entries@[j]);
                }
            }
            assert forall|a: int, b: int| 0 <= a < b < c.entries@.len() implies c.entries@[a].0@
                != c.entries@[b].0@ by {
                if b == mid.len() {
                    assert(!has_key(mid, gem_name@));
                    assert(mid[a].0@ != gem_name@);
                } else {
                    assert(mid[a].0@ != mid[b].0@);
                }
            }
        },
    }
    proof {
        let reset = match *old(cache) {
            Some(o) => !o.matches(working_dir@, lockfile_mtime),
            None => true,
        };
        if reset {
            assert forall|k2: Seq<char>, v2: Seq<char>| !maps_to(mid, k2, v2) by {}
        } else {
            assert(mid == before);
        }
    }
    *cache = Some(c);
}

/// All gem name → path entries of the cache, for a lockfile to record.
pub fn drain_resolved_paths(cache: &Option<GemPathCache>) -> (r: Vec<(String, String)>)
    ensures
        cache is None ==> r@.len() == 0,
        cache matches Some(c) ==> r@.len() == c.entries@.len() && forall|i: int|
            0 <= i < r@.len() ==> r@[i].0@ == c.entries@[i].0@ && r@[i].1@ == c.entries@[i].1@,
{
    let mut out: Vec<(String, String)> = Vec::new();
    match cache {
        None => out,
        Some(c) => {
            let mut i: usize = 0;
            while i < c.entries.len()
                invariant
                    i <= c.entries@.len(),
                    out@.len() == i,
                    forall|j: int|
                        0 <= j < i ==> out@[j].0@ == c.entries@[j].0@ && out@[j].1@
                            == c.entries@[j].1@,
                decreases c.entries@.len() - i,
            {
                let k = c.entries[i].0.clone();
                let v = c.entries[i].1.clone();
                out.push((k, v));
                i = i + 1;
            }
            out
        },
    }
}

/// Version of the on-disk format of the gem path cache.
pub const GEM_PATH_DISK_CACHE_VERSION: u32 = 1u32;

/// The lockfile stamp that an on-disk cache was written for: modification
/// seconds, nanoseconds and size of `Gemfile.lock`.
pub type LockfileStamp = (u64, u32, u64);

/// The persistent gem path cache of one project, as stored on disk.
pub struct GemPathDiskCache {
    pub version: u32,
    pub lockfile_mtime_secs: u64,
    pub lockfile_mtime_nanos: u32,
    pub lockfile_size: u64,
    pub entries: Vec<(String, String)>,
}

impl GemPathDiskCache {
    /// A cache in the current format for the lockfile `stamp`.
    pub fn new(stamp: LockfileStamp, entries: Vec<(String, String)>) -> (r: GemPathDiskCache)
        ensures
            r.version == GEM_PATH_DISK_CACHE_VERSION,
            r.lockfile_mtime_secs == stamp.0,
            r.lockfile_mtime_nanos == stamp.1,
            r.lockfile_size == stamp.2,
            r.entries@ == entries@,
    {
        GemPathDiskCache {
            version: GEM_PATH_DISK_CACHE_VERSION,
            lockfile_mtime_secs: stamp.0,
            lockfile_mtime_nanos: stamp.1,
            lockfile_size: stamp.2,
            entries,
        }
    }

    /// The cache is in the current format and was written for `stamp`; a
    /// cache that is not is ignored.
    pub fn is_current(&self, stamp: LockfileStamp) -> (r: bool)
        ensures
            r == (self.version == GEM_PATH_DISK_CACHE_VERSION && self.lockfile_mtime_secs == stamp.0
                && self.lockfile_mtime_nanos == stamp.1 && self.lockfile_size == stamp.2),
    {
        self.version == GEM_PATH_DISK_CACHE_VERSION && self.lockfile_mtime_secs == stamp.0
            && self.lockfile_mtime_nanos == stamp.1 && self.lockfile_size == stamp.2
    }
}

/// ASCII whitespace as `str::trim` removes it from either end.
pub open spec fn is_ascii_ws(b: u8) -> bool {
    b == 32u8 || (9u8 <= b <= 13u8)
}

pub open spec fn trim_start(s: Seq<u8>, a: int, b: int) -> int
    decreases b - a,
{
    if a < b && is_ascii_ws(s[a]) {
        trim_start(s, a + 1, b)
    } else {
        a
    }
}

pub open spec fn trim_end(s: Seq<u8>, a: int, b: int) -> int
    decreases b - a,
{
    if a < b && is_ascii_ws(s[b - 1]) {
        trim_end(s, a, b - 1)
    } else {
        b
    }
}

proof fn lemma_trim_bounds(s: Seq<u8>, a: int, b: int)
    requires
        a <= b,
    ensures
        a <= trim_start(s, a, b) <= b,
        a <= trim_end(s, a, b) <= b,
    decreases b - a,
{
    if a < b {
        lemma_trim_bounds(s, a + 1, b);
        lemma_trim_bounds(s, a, b - 1);
    }
}

/// The path that `bundle info --path` printed: its output without the
/// surrounding whitespace.
pub fn bundle_info_path(output: &[u8]) -> (r: Vec<u8>)
    ensures
        ({
            let s = output@;
            let a = trim_start(s, 0, s.len() as int);
            r@ == s.subrange(a, trim_end(s, a, s.len() as int))
        }),
{
    let ghost s = output@;
    proof {
        lemma_trim_bounds(s, 0, s.len() as int);
    }
    let mut a: usize = 0;
    while a < output.len() && (output[a] == 32u8 || (9u8 <= output[a] && output[a] <= 13u8))
        invariant
            a <= s.len(),
            s == output@,
            trim_start(s, 0, s.len() as int) == trim_start(s, a as int, s.len() as int),
        decreases s.len() - a,
    {
        a = a + 1;
    }
    proof {
        lemma_trim_bounds(s, a as int, s.len() as int);
    }
    let mut b: usize = output.len();
    while b > a && (output[b - 1] == 32u8 || (9u8 <= output[b - 1] && output[b - 1] <= 13u8))
        invariant
            a <= b <= s.len(),
            s == output@,
            trim_end(s, a as int, s.len() as int) == trim_end(s, a as int, b as int),
        decreases b,
    {
        b = b - 1;
    }
    copy_range_to_vec(output, a, b)
}

/// The gem name → path pairs that the batch resolver printed, one
/// `name<TAB>path` per line; lines without a tab are skipped.
pub open spec fn batch_entries_from(s: Seq<u8>, p: int) -> Seq<(Seq<u8>, Seq<u8>)>
    decreases s.len() + 1 - p,
{
    if p < 0 || p >= s.len() {
        Seq::empty()
    } else {
        let e = line_end(s, p);
        let le = if e < s.len() && e > p && s[e - 1] == 13u8 {
            e - 1
        } else {
            e
        };
        let t = find_byte(s, 9u8, p, le);
        proof {
            lemma_line_end_bounds(s, p);
        }
        let rest = batch_entries_from(s, e + 1);
        if t >= 0 {
            seq![(s.subrange(p, t), s.subrange(t + 1, le))] + rest
        } else {
            rest
        }
    }
}

pub open spec fn entry_views(v: Seq<(Vec<u8>, Vec<u8>)>) -> Seq<(Seq<u8>, Seq<u8>)> {
    v.map_values(|x: (Vec<u8>, Vec<u8>)| (x.0@, x.1@))
}

/// Parses the output of the batch gem path resolver.
pub fn parse_batch_output(output: &[u8]) -> (r: Vec<(Vec<u8>, Vec<u8>)>)
    ensures
        entry_views(r@) == batch_entries_from(output@, 0),
{
    let ghost s = output@;
    let mut out: Vec<(Vec<u8>, Vec<u8>)> = Vec::new();
    let mut p: usize = 0;
    while p < output.len()
        invariant
            s == output@,
            p <= s.len() + 1,
            entry_views(out@) + batch_entries_from(s, p as int) == batch_entries_from(s, 0),
        decreases s.len() + 1 - p,
    {
        let ghost before = entry_views(out@);
        let e = line_end_exec(output, p);
        let le = if e < output.len() && e > p && output[e - 1] == 13u8 {
            e - 1
        } else {
            e
        };
        match find_byte_exec(output, 9u8, p, le) {
            Some(t) => {
                let name = copy_range_to_vec(output, p, t);
                let path = copy_range_to_vec(output, t + 1, le);
                out.push((name, path));
                assert(entry_views(out@) =~= before.push((s.subrange(p as int, t as int), s.subrange(t + 1, le as int))));
                assert(before.push((s.subrange(p as int, t as int), s.subrange(t + 1, le as int)))
                    + batch_entries_from(s, e + 1) =~= before + batch_entries_from(s, p as int));
            },
            None => {},
        }
        if e < output.len() {
            p = e + 1;
        } else {
            assert(batch_entries_from(s, e + 1) =~= batch_entries_from(s, e as int));
            p = e;
        }
    }
    assert(batch_entries_from(s, p as int) =~= Seq::empty());
    assert(entry_views(out@) =~= batch_entries_from(s, 0));
    out
}

/// The SHA-256 digest of `data`.
pub uninterp spec fn spec_sha256(data: Seq<u8>) -> Seq<u8>;

/// Calls `sha2::Sha256::digest`. Trusted: the result is the SHA-256 digest of
/// `data` (named `spec_sha256`), which is 32 bytes long.
#[verifier::external_body]
fn sha256_digest(data: &[u8]) -> (r: Vec<u8>)
    ensures
        r@ == spec_sha256(data@),
        r@.len() == 32,
{
    sha2::Sha256::digest(data).to_vec()
}

/// ASCII code of the lowercase hex digit of `n < 16`.
pub open spec fn hex_digit(n: u8) -> u8 {
    if n < 10 {
        (48 + n) as u8
    } else {
        (87 + n) as u8
    }
}

/// Lowercase hex encoding of `bytes`, two digits per byte.
pub open spec fn hex_lower(bytes: Seq<u8>) -> Seq<u8>
    decreases bytes.len(),
{
    if bytes.len() == 0 {
        Seq::empty()
    } else {
        hex_lower(bytes.drop_last()) + seq![hex_digit(bytes.last() / 16), hex_digit(bytes.last() % 16)]
    }
}

fn hex_digit_exec(n: u8) -> (r: u8)
    requires
        n < 16,
    ensures
        r == hex_digit(n),
{
    if n < 10 {
        48 + n
    } else {
        87 + n
    }
}

/// The file name of the on-disk gem path cache of the project whose
/// canonical path is `canonical_path`: `gem-paths-`, the first 16 hex digits
/// of the path's SHA-256 digest, and `.json`.
pub fn gem_path_disk_cache_file_name(canonical_path: &[u8]) -> (r: Vec<u8>)
    ensures
        r@ == seq![103u8, 101u8, 109u8, 45u8, 112u8, 97u8, 116u8, 104u8, 115u8, 45u8] + hex_lower(
            spec_sha256(canonical_path@).subrange(0, 8),
        ) + seq![46u8, 106u8, 115u8, 111u8, 110u8],
{
    let digest = sha256_digest(canonical_path);
    let mut out: Vec<u8> = Vec::new();
    let prefix: [u8; 10] = [103u8, 101u8, 109u8, 45u8, 112u8, 97u8, 116u8, 104u8, 115u8, 45u8];
    let mut k: usize = 0;
    while k < 10
        invariant
            k <= 10,
            prefix@ == seq![103u8, 101u8, 109u8, 45u8, 112u8, 97u8, 116u8, 104u8, 115u8, 45u8],
            out@ == prefix@.subrange(0, k as int),
        decreases 10 - k,
    {
        out.push(prefix[k]);
        assert(prefix@.subrange(0, k + 1) =~= prefix@.subrange(0, k as int).push(prefix@[k as int]));
        k = k + 1;
    }
    assert(prefix@.subrange(0, 10) =~= prefix@);
    let ghost d = digest@;
    let mut i: usize = 0;
    while i < 8
        invariant
            i <= 8,
            d == digest@,
            d.len() == 32,
            out@ == prefix@ + hex_lower(d.subrange(0, i as int)),
        decreases 8 - i,
    {
        let b = digest[i];
        out.push(hex_digit_exec(b / 16));
        out.push(hex_digit_exec(b % 16));
        assert(d.subrange(0, i + 1).drop_last() =~= d.subrange(0, i as int));
        assert(out@ =~= prefix@ + hex_lower(d.subrange(0, i + 1)));
        i = i + 1;
    }
    out.push(46u8);
    out.push(106u8);
    out.push(115u8);
    out.push(111u8);
    out.push(110u8);
    assert(out@ =~= seq![103u8, 101u8, 109u8, 45u8, 112u8, 97u8, 116u8, 104u8, 115u8, 45u8] + hex_lower(
        d.subrange(0, 8),
    ) + seq![46u8, 106u8, 115u8, 111u8, 110u8]);
    out
}

} // verus!
