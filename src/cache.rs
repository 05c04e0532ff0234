//! Two-tier artwork cache: a bounded least-recently-used map in memory, and
//! one PNG file per key on disk named by the SHA-256 of the key.
//!
//! The memory tier is owned here; the file reads and writes are left to the
//! caller, which is handed the path and the encoded bytes.
use vstd::prelude::*;
use lru::LruCache;
use sha2::Digest;
use crate::artwork::Bitmap;
use crate::text::chars_of;
use vstd::string::StringExecFns;

verus! {

/// `lru::LruCache`, held opaquely; its contents are `lru_entries`.
#[verifier::external_type_specification]
#[verifier::external_body]
#[verifier::reject_recursive_types(K)]
#[verifier::reject_recursive_types(V)]
#[verifier::reject_recursive_types(S)]
pub struct ExLruCache<K, V, S>(LruCache<K, V, S>);

/// The hasher type `lru::LruCache` defaults to.
#[verifier::external_type_specification]
#[verifier::external_body]
pub struct ExLruHasher(lru::DefaultHasher);

/// Entries of an LRU map, least recently used first.
pub uninterp spec fn lru_entries(c: LruCache<String, Bitmap>) -> Seq<(Seq<char>, (u32, u32, Seq<u8>))>;

/// The capacity an LRU map was created with.
pub uninterp spec fn lru_capacity(c: LruCache<String, Bitmap>) -> nat;

/// Lowercase hexadecimal SHA-256 digest of the UTF-8 encoding of `s`.
pub uninterp spec fn sha256_hex(s: Seq<char>) -> Seq<char>;

/// PNG file produced for an image, if the encoder accepts it.
pub uninterp spec fn png_encoding(b: (u32, u32, Seq<u8>)) -> Option<Seq<u8>>;

/// RGBA image decoded from file bytes, if they hold a readable image.
pub uninterp spec fn image_decoding(bytes: Seq<u8>) -> Option<(u32, u32, Seq<u8>)>;

/// Relies on `lru::LruCache::new`: an empty map that holds at most `cap` entries.
#[verifier::external_body]
fn lru_new(cap: usize) -> (r: LruCache<String, Bitmap>)
    requires
        cap > 0,
    ensures
        lru_entries(r) == Seq::<(Seq<char>, (u32, u32, Seq<u8>))>::empty(),
        lru_capacity(r) == cap,
{
    LruCache::new(std::num::NonZeroUsize::new(cap).unwrap())
}

/// Relies on `lru::LruCache::get`: returns the value stored under the key
/// (copied with `Bitmap::duplicate`) and makes that entry the most recently
/// used; a missing key changes nothing.
#[verifier::external_body]
fn lru_get(c: &mut LruCache<String, Bitmap>, k: &String) -> (r: Option<Bitmap>)
    ensures
        lru_capacity(*final(c)) == lru_capacity(*old(c)),
        lru_entries(*final(c)) == touch(lru_entries(*old(c)), k@),
        r.is_some() == (find_key(lru_entries(*old(c)), k@) >= 0),
        r.is_some() ==> r.unwrap()@ == lru_entries(*old(c))[find_key(lru_entries(*old(c)), k@)].1,
{
    c.get(k).map(|b| b.duplicate())
}

/// Relies on `lru::LruCache::put`: an existing entry for the key takes the new
/// value; otherwise, when the map is full, the least recently used entry is
/// dropped. Either way the key becomes the most recently used.
#[verifier::external_body]
fn lru_put(c: &mut LruCache<String, Bitmap>, k: String, v: Bitmap)
    ensures
        lru_capacity(*final(c)) == lru_capacity(*old(c)),
        lru_entries(*final(c)) == put_entry(lru_entries(*old(c)), lru_capacity(*old(c)), k@, v@),
{
    c.put(k, v);
}

pub open spec fn is_lower_hex(c: char) -> bool {
    ('0' <= c && c <= '9') || ('a' <= c && c <= 'f')
}

/// Relies on `sha2::Sha256::digest` formatted with `{:x}`: two lowercase hex
/// digits for each of the digest's 32 bytes.
#[verifier::external_body]
fn sha256_hex_of(s: &str) -> (r: String)
    ensures
        r@ == sha256_hex(s@),
        r@.len() == 64,
        forall|i: int| 0 <= i < r@.len() ==> is_lower_hex(#[trigger] r@[i]),
{
    format!("{:x}", sha2::Sha256::digest(s.as_bytes()))
}

/// Relies on `image::ImageBuffer::write_to` with `ImageFormat::Png`.
#[verifier::external_body]
fn encode_png(b: &Bitmap) -> (r: Option<Vec<u8>>)
    ensures
        r.is_some() == png_encoding(b@).is_some(),
        r.is_some() ==> r.unwrap()@ == png_encoding(b@).unwrap(),
{
    let img = image::RgbaImage::from_raw(b.width, b.height, b.pixels.clone())?;
    let mut out = std::io::Cursor::new(Vec::new());
    img.write_to(&mut out, image::ImageFormat::Png).ok()?;
    Some(out.into_inner())
}

/// Relies on `image::load_from_memory`, converted to 8-bit RGBA.
#[verifier::external_body]
fn decode_image(bytes: &Vec<u8>) -> (r: Option<Bitmap>)
    ensures
        r.is_some() == image_decoding(bytes@).is_some(),
        r.is_some() ==> r.unwrap()@ == image_decoding(bytes@).unwrap(),
{
    let img = image::load_from_memory(bytes).ok()?.to_rgba8();
    Some(Bitmap { width: img.width(), height: img.height(), pixels: img.into_raw() })
}

/// Index of the entry with key `k`, or -1.
pub open spec fn find_key<V>(s: Seq<(Seq<char>, V)>, k: Seq<char>) -> int
    decreases s.len(),
{
    if s.len() == 0 {
        -1
    } else if s.last().0 == k {
        s.len() - 1
    } else {
        find_key(s.drop_last(), k)
    }
}

/// Entries after an access to `k`: a present entry moves to the most recent end.
pub open spec fn touch<V>(s: Seq<(Seq<char>, V)>, k: Seq<char>) -> Seq<(Seq<char>, V)> {
    let i = find_key(s, k);
    if i < 0 {
        s
    } else {
        s.remove(i).push(s[i])
    }
}

/// Entries after storing `v` under `k` in a map of capacity `cap`.
pub open spec fn put_entry<V>(s: Seq<(Seq<char>, V)>, cap: nat, k: Seq<char>, v: V) -> Seq<
    (Seq<char>, V),
> {
    let i = find_key(s, k);
    if i >= 0 {
        s.remove(i).push((k, v))
    } else if s.len() >= cap {
        s.drop_first().push((k, v))
    } else {
        s.push((k, v))
    }
}

pub open spec fn unique_keys<V>(s: Seq<(Seq<char>, V)>) -> bool {
    forall|i: int, j: int| 0 <= i < s.len() && 0 <= j < s.len() && i != j ==> s[i].0 != s[j].0
}

pub proof fn lemma_find_key<V>(s: Seq<(Seq<char>, V)>, k: Seq<char>)
    ensures
        -1 <= find_key(s, k) < s.len(),
        find_key(s, k) >= 0 ==> s[find_key(s, k)].0 == k,
        find_key(s, k) < 0 ==> forall|j: int| 0 <= j < s.len() ==> (#[trigger] s[j]).0 != k,
    decreases s.len(),
{
    if s.len() > 0 && s.last().0 != k {
        lemma_find_key(s.drop_last(), k);
        assert forall|j: int| 0 <= j < s.len() && find_key(s, k) < 0 implies (#[trigger] s[j]).0
            != k by {
            if j < s.len() - 1 {
                assert(s[j] == s.drop_last()[j]);
            }
        }
    }
}

pub proof fn lemma_find_unique<V>(s: Seq<(Seq<char>, V)>, k: Seq<char>, i: int)
    requires
        unique_keys(s),
        0 <= i < s.len(),
        s[i].0 == k,
    ensures
        find_key(s, k) == i,
{
    lemma_find_key(s, k);
}

pub proof fn lemma_put_wf<V>(s: Seq<(Seq<char>, V)>, cap: nat, k: Seq<char>, v: V)
    requires
        unique_keys(s),
        s.len() <= cap,
        cap > 0,
    ensures
        unique_keys(put_entry(s, cap, k, v)),
        put_entry(s, cap, k, v).len() <= cap,
{
    lemma_find_key(s, k);
    let r = put_entry(s, cap, k, v);
    let i = find_key(s, k);
    if i >= 0 {
        let t = s.remove(i);
        assert forall|a: int, b: int| 0 <= a < r.len() && 0 <= b < r.len() && a != b implies r[a].0
            != r[b].0 by {
            if a < t.len() && b < t.len() {
                let a2 = if a < i { a } else { a + 1 };
                let b2 = if b < i { b } else { b + 1 };
                assert(t[a] == s[a2] && t[b] == s[b2]);
            } else if a < t.len() {
                let a2 = if a < i { a } else { a + 1 };
                assert(t[a] == s[a2]);
            } else if b < t.len() {
                let b2 = if b < i { b } else { b + 1 };
                assert(t[b] == s[b2]);
            }
        }
    } else if s.len() >= cap {
        let t = s.drop_first();
        assert forall|a: int, b: int| 0 <= a < r.len() && 0 <= b < r.len() && a != b implies r[a].0
            != r[b].0 by {
            if a < t.len() && b < t.len() {
                assert(t[a] == s[a + 1] && t[b] == s[b + 1]);
            } else if a < t.len() {
                assert(t[a] == s[a + 1]);
            } else if b < t.len() {
                assert(t[b] == s[b + 1]);
            }
        }
    } else {
        assert forall|a: int, b: int| 0 <= a < r.len() && 0 <= b < r.len() && a != b implies r[a].0
            != r[b].0 by {
            if a < s.len() && b < s.len() {
                assert(r[a] == s[a] && r[b] == s[b]);
            } else if a < s.len() {
                assert(r[a] == s[a]);
            } else if b < s.len() {
                assert(r[b] == s[b]);
            }
        }
    }
}

pub proof fn lemma_touch_wf<V>(s: Seq<(Seq<char>, V)>, k: Seq<char>)
    requires
        unique_keys(s),
    ensures
        unique_keys(touch(s, k)),
        touch(s, k).len() == s.len(),
{
    lemma_find_key(s, k);
    let i = find_key(s, k);
    if i >= 0 {
        let t = s.remove(i);
        let r = touch(s, k);
        assert forall|a: int, b: int| 0 <= a < r.len() && 0 <= b < r.len() && a != b implies r[a].0
            != r[b].0 by {
            if a < t.len() && b < t.len() {
                let a2 = if a < i { a } else { a + 1 };
                let b2 = if b < i { b } else { b + 1 };
                assert(t[a] == s[a2] && t[b] == s[b2]);
            } else if a < t.len() {
                let a2 = if a < i { a } else { a + 1 };
                assert(t[a] == s[a2]);
            } else if b < t.len() {
                let b2 = if b < i { b } else { b + 1 };
                assert(t[b] == s[b2]);
            }
        }
    }
}


/// Decodes fetched image bytes (any format the decoder reads) into a bitmap.
pub fn decode_artwork(bytes: &Vec<u8>) -> (r: Option<Bitmap>)
    ensures
        r.is_some() == image_decoding(bytes@).is_some(),
        r.is_some() ==> r.unwrap()@ == image_decoding(bytes@).unwrap(),
{
    decode_image(bytes)
}

/// The file that holds the bitmap cached under `key` in directory `dir`.
/// Needs no cache, so the hashing can run outside any lock on one.
pub fn cache_file_path(dir: &str, key: &str) -> (r: String)
    ensures
        r@ == cache_file(dir@, key@),
        sha256_hex(key@).len() == 64,
        forall|i: int| 0 <= i < 64 ==> is_lower_hex(#[trigger] sha256_hex(key@)[i]),
{
    let d = chars_of(dir);
    let mut r = dir.to_owned();
    if d.len() > 0 && d[d.len() - 1] != '/' {
        r.append("/");
    }
    let hash = sha256_hex_of(key);
    r.append(hash.as_str());
    r.append(".png");
    proof {
        reveal_strlit("/");
        reveal_strlit(".png");
        assert(r@ =~= cache_file(dir@, key@));
    }
    r
}

/// The PNG bytes that persist `b`, if it can be encoded. Needs no cache, so
/// the encoding can run outside any lock on one.
pub fn encode_for_disk(b: &Bitmap) -> (r: Option<Vec<u8>>)
    ensures
        r.is_some() == png_encoding(b@).is_some(),
        r.is_some() ==> r.unwrap()@ == png_encoding(b@).unwrap(),
{
    encode_png(b)
}

/// `name` placed in directory `dir`, with a `/` between them when needed.
pub open spec fn join_path(dir: Seq<char>, name: Seq<char>) -> Seq<char> {
    if dir.len() == 0 || dir.last() == '/' {
        dir + name
    } else {
        dir + seq!['/'] + name
    }
}

/// The file that holds the bitmap cached under `key`: `<dir>/<sha256 hex>.png`.
pub open spec fn cache_file(dir: Seq<char>, key: Seq<char>) -> Seq<char> {
    join_path(dir, sha256_hex(key) + seq!['.', 'p', 'n', 'g'])
}

/// Outcome of a memory lookup.
pub enum CacheProbe {
    /// The memory tier held the bitmap.
    Hit(Bitmap),
    /// Not in memory: the caller may read and decode this file (outside any
    /// lock) and hand the result to `ArtworkCache::accept_decoded`.
    Miss(String),
}

/// Artwork cache keyed by the raw lookup string (such as an artwork URL).
pub struct ArtworkCache {
    cache_dir: String,
    memory: LruCache<String, Bitmap>,
}

impl ArtworkCache {
    /// Memory entries, least recently used first.
    pub closed spec fn entries(&self) -> Seq<(Seq<char>, (u32, u32, Seq<u8>))> {
        lru_entries(self.memory)
    }

    pub closed spec fn capacity(&self) -> nat {
        lru_capacity(self.memory)
    }

    pub closed spec fn dir(&self) -> Seq<char> {
        self.cache_dir@
    }

    pub open spec fn wf(&self) -> bool {
        &&& unique_keys(self.entries())
        &&& self.entries().len() <= self.capacity()
        &&& self.capacity() > 0
    }

    /// An empty cache whose memory tier holds at most `capacity` bitmaps and
    /// whose files live in `cache_dir`. A zero capacity is a configuration
    /// error and is not accepted.
    pub fn new(cache_dir: String, capacity: usize) -> (r: ArtworkCache)
        requires
            capacity > 0,
        ensures
            r.wf(),
            r.entries().len() == 0,
            r.capacity() == capacity,
            r.dir() == cache_dir@,
    {
        ArtworkCache { cache_dir, memory: lru_new(capacity) }
    }

    /// The file that holds the bitmap cached under `key`.
    pub fn disk_path(&self, key: &str) -> (r: String)
        ensures
            r@ == cache_file(self.dir(), key@),
            sha256_hex(key@).len() == 64,
            forall|i: int| 0 <= i < 64 ==> is_lower_hex(#[trigger] sha256_hex(key@)[i]),
    {
        cache_file_path(self.cache_dir.as_str(), key)
    }

    /// Looks `key` up in the memory tier only; a hit becomes the most
    /// recently used entry.
    pub fn lookup(&mut self, key: &str) -> (r: Option<Bitmap>)
        requires
            old(self).wf(),
        ensures
            final(self).wf(),
            final(self).capacity() == old(self).capacity(),
            final(self).dir() == old(self).dir(),
            final(self).entries() == touch(old(self).entries(), key@),
            r.is_some() == (find_key(old(self).entries(), key@) >= 0),
            r.is_some() ==> r.unwrap()@ == old(self).entries()[find_key(
                old(self).entries(),
                key@,
            )].1,
    {
        proof {
            lemma_touch_wf(self.entries(), key@);
        }
        let k = key.to_owned();
        lru_get(&mut self.memory, &k)
    }

    /// Stores an already decoded bitmap under `key` in the memory tier only,
    /// as the most recently used entry, evicting the least recently used one
    /// when full.
    pub fn store(&mut self, key: String, bitmap: Bitmap)
        requires
            old(self).wf(),
        ensures
            final(self).wf(),
            final(self).capacity() == old(self).capacity(),
            final(self).dir() == old(self).dir(),
            final(self).entries() == put_entry(
                old(self).entries(),
                old(self).capacity(),
                key@,
                bitmap@,
            ),
    {
        proof {
            lemma_put_wf(self.entries(), self.capacity(), key@, bitmap@);
        }
        lru_put(&mut self.memory, key, bitmap);
    }

    /// Looks `key` up in memory. A hit makes it the most recently used entry;
    /// a miss names the file to try next.
    pub fn get(&mut self, key: &str) -> (r: CacheProbe)
        requires
            old(self).wf(),
        ensures
            final(self).wf(),
            final(self).capacity() == old(self).capacity(),
            final(self).dir() == old(self).dir(),
            final(self).entries() == touch(old(self).entries(), key@),
            match r {
                CacheProbe::Hit(b) => {
                    &&& find_key(old(self).entries(), key@) >= 0
                    &&& b@ == old(self).entries()[find_key(old(self).entries(), key@)].1
                },
                CacheProbe::Miss(path) => {
                    &&& find_key(old(self).entries(), key@) < 0
                    &&& path@ == cache_file(old(self).dir(), key@)
                },
            },
    {
        match self.lookup(key) {
            Some(b) => CacheProbe::Hit(b),
            None => CacheProbe::Miss(self.disk_path(key)),
        }
    }

    /// Takes the result of decoding `key`'s file, decoded outside any lock on
    /// the cache. A bitmap is stored in memory (as the most recently used
    /// entry) and returned; `None` (no file, or an unreadable one) is a plain
    /// miss that changes nothing.
    pub fn accept_decoded(&mut self, key: &str, decoded: Option<Bitmap>) -> (r: Option<Bitmap>)
        requires
            old(self).wf(),
        ensures
            final(self).wf(),
            final(self).capacity() == old(self).capacity(),
            final(self).dir() == old(self).dir(),
            r == decoded,
            match decoded {
                Some(v) => final(self).entries() == put_entry(
                    old(self).entries(),
                    old(self).capacity(),
                    key@,
                    v@,
                ),
                None => final(self).entries() == old(self).entries(),
            },
    {
        match decoded {
            None => None,
            Some(img) => {
                let copy = img.duplicate();
                self.store(key.to_owned(), copy);
                Some(img)
            },
        }
    }

    /// Takes the bytes read from `key`'s file, if any, and decodes them: a
    /// readable image is stored in memory and returned; a missing or
    /// unreadable file is a plain miss.
    pub fn load_from_disk(&mut self, key: &str, bytes: Option<Vec<u8>>) -> (r: Option<Bitmap>)
        requires
            old(self).wf(),
        ensures
            final(self).wf(),
            final(self).capacity() == old(self).capacity(),
            final(self).dir() == old(self).dir(),
            match bytes {
                Some(b) => match image_decoding(b@) {
                    Some(v) => {
                        &&& r.is_some() && r.unwrap()@ == v
                        &&& final(self).entries() == put_entry(
                            old(self).entries(),
                            old(self).capacity(),
                            key@,
                            v,
                        )
                    },
                    None => r.is_none() && final(self).entries() == old(self).entries(),
                },
                None => r.is_none() && final(self).entries() == old(self).entries(),
            },
    {
        let decoded = match bytes {
            None => None,
            Some(b) => decode_image(&b),
        };
        self.accept_decoded(key, decoded)
    }

    /// Stores `bitmap` under `key` in memory (as the most recently used entry,
    /// evicting the least recently used one when full) and returns the file
    /// that persists it. The caller writes `encode_for_disk(&bitmap)` there,
    /// outside any lock on the cache; the memory entry stands whether or not
    /// that write succeeds.
    pub fn insert(&mut self, key: String, bitmap: Bitmap) -> (r: String)
        requires
            old(self).wf(),
        ensures
            final(self).wf(),
            final(self).capacity() == old(self).capacity(),
            final(self).dir() == old(self).dir(),
            final(self).entries() == put_entry(
                old(self).entries(),
                old(self).capacity(),
                key@,
                bitmap@,
            ),
            r@ == cache_file(old(self).dir(), key@),
    {
        let path = self.disk_path(key.as_str());
        self.store(key, bitmap);
        path
    }
}

/// Storing a bitmap and then looking its key up in memory finds that bitmap.
pub proof fn lemma_insert_then_get<V>(s: Seq<(Seq<char>, V)>, cap: nat, k: Seq<char>, v: V)
    requires
        unique_keys(s),
        s.len() <= cap,
        cap > 0,
    ensures
        find_key(put_entry(s, cap, k, v), k) >= 0,
        put_entry(s, cap, k, v)[find_key(put_entry(s, cap, k, v), k)].1 == v,
{
    lemma_put_wf(s, cap, k, v);
    let t = put_entry(s, cap, k, v);
    lemma_find_unique(t, k, t.len() - 1);
}

/// When the memory tier is full, storing a new key removes exactly the least
/// recently used entry: every other key stays, and the new one is added.
pub proof fn lemma_full_put_evicts_oldest<V>(s: Seq<(Seq<char>, V)>, cap: nat, k: Seq<char>, v: V)
    requires
        unique_keys(s),
        s.len() == cap,
        cap > 0,
        find_key(s, k) < 0,
    ensures
        find_key(put_entry(s, cap, k, v), s[0].0) < 0,
        forall|j: int|
            1 <= j < s.len() ==> find_key(put_entry(s, cap, k, v), (#[trigger] s[j]).0) >= 0,
        find_key(put_entry(s, cap, k, v), k) >= 0,
        put_entry(s, cap, k, v).len() == cap,
{
    lemma_find_key(s, k);
    lemma_put_wf(s, cap, k, v);
    let t = put_entry(s, cap, k, v);
    assert(t =~= s.drop_first().push((k, v)));
    lemma_find_key(t, s[0].0);
    if find_key(t, s[0].0) >= 0 {
        let i = find_key(t, s[0].0);
        if i < t.len() - 1 {
            assert(t[i] == s[i + 1]);
        }
    }
    assert forall|j: int| 1 <= j < s.len() implies find_key(t, (#[trigger] s[j]).0) >= 0 by {
        assert(t[j - 1] == s[j]);
        lemma_find_key(t, s[j].0);
    }
    lemma_find_key(t, k);
}

/// An access makes its key the most recently used: every other key now sits
/// nearer the eviction end, so it is dropped first.
pub proof fn lemma_access_promotes<V>(s: Seq<(Seq<char>, V)>, a: Seq<char>, b: Seq<char>)
    requires
        unique_keys(s),
        find_key(s, a) >= 0,
        find_key(s, b) >= 0,
        a != b,
    ensures
        find_key(touch(s, a), a) == s.len() - 1,
        0 <= find_key(touch(s, a), b) < find_key(touch(s, a), a),
{
    lemma_find_key(s, a);
    lemma_find_key(s, b);
    lemma_touch_wf(s, a);
    let t = touch(s, a);
    let i = find_key(s, a);
    let j = find_key(s, b);
    lemma_find_unique(t, a, t.len() - 1);
    let j2 = if j < i { j } else { j - 1 };
    assert(t[j2] == s[j]);
    lemma_find_unique(t, b, j2);
}


/// Entries after storing each of `es` in turn, starting from `s`.
pub open spec fn put_all<V>(s: Seq<(Seq<char>, V)>, cap: nat, es: Seq<(Seq<char>, V)>) -> Seq<
    (Seq<char>, V),
>
    decreases es.len(),
{
    if es.len() == 0 {
        s
    } else {
        put_entry(put_all(s, cap, es.drop_last()), cap, es.last().0, es.last().1)
    }
}

proof fn lemma_put_all_fits<V>(cap: nat, es: Seq<(Seq<char>, V)>, n: int)
    requires
        unique_keys(es),
        0 <= n <= cap,
        n <= es.len(),
    ensures
        put_all(Seq::empty(), cap, es.take(n)) == es.take(n),
    decreases n,
{
    if n > 0 {
        let t = es.take(n);
        let prev = es.take(n - 1);
        assert(t.drop_last() =~= prev);
        lemma_put_all_fits(cap, es, n - 1);
        assert(unique_keys(prev));
        lemma_find_key(prev, es[n - 1].0);
        if find_key(prev, es[n - 1].0) >= 0 {
            let j = find_key(prev, es[n - 1].0);
            assert(prev[j] == es[j]);
        }
        assert(prev.push(es[n - 1]) =~= t);
    }
}

/// A run of stores is the stores one by one: storing `e` after the run `es`
/// applies `put_entry` (what `ArtworkCache::insert` and `store` ensure) to the
/// entries the run left.
pub proof fn lemma_put_all_step<V>(
    s: Seq<(Seq<char>, V)>,
    cap: nat,
    es: Seq<(Seq<char>, V)>,
    e: (Seq<char>, V),
)
    ensures
        put_all(s, cap, es.push(e)) == put_entry(put_all(s, cap, es), cap, e.0, e.1),
{
    assert(es.push(e).drop_last() =~= es);
}

/// Storing `cap + 1` distinct keys into an empty memory tier of capacity
/// `cap` drops exactly the first key stored, the least recently used, and
/// keeps all the others.
pub proof fn lemma_overflow_drops_first<V>(cap: nat, es: Seq<(Seq<char>, V)>)
    requires
        cap > 0,
        unique_keys(es),
        es.len() == cap + 1,
    ensures
        find_key(put_all(Seq::empty(), cap, es), es[0].0) < 0,
        put_all(Seq::empty(), cap, es).len() == cap,
        forall|j: int|
            1 <= j < es.len() ==> find_key(put_all(Seq::empty(), cap, es), (#[trigger] es[j]).0)
                >= 0,
{
    let s = es.take(cap as int);
    lemma_put_all_fits(cap, es, cap as int);
    assert(es.drop_last() =~= s);
    assert(unique_keys(s));
    let k = es[cap as int].0;
    lemma_find_key(s, k);
    if find_key(s, k) >= 0 {
        let j = find_key(s, k);
        assert(s[j] == es[j]);
    }
    lemma_full_put_evicts_oldest(s, cap, k, es.last().1);
    assert(s[0] == es[0]);
    assert forall|j: int| 1 <= j < es.len() implies find_key(
        put_all(Seq::empty(), cap, es),
        (#[trigger] es[j]).0,
    ) >= 0 by {
        if j < cap {
            assert(s[j] == es[j]);
        }
    }
}

} // verus!
