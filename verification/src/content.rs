//! Catalog records and the filename extractor: metadata records with a
//! content-derived identity, full records, and the grammar that reads a
//! timestamp and a title out of a document's filename.

use vstd::prelude::*;
use crate::bytes::is_digit;
use crate::bytes::digit;
use crate::bytes::match_at;
use crate::bytes::find_byte_from;
use crate::bytes::find_byte;
use crate::bytes::subvec;
use crate::bytes::dec_u64;
use crate::bytes::render_u64;
use crate::date::date_at;
use crate::date::ints_of;
use crate::date::comps_of;
use crate::date::timestamp_of;
use crate::date::spec_extract;
use crate::date::extract_timestamp;
use crate::date::date_at_exec;
use crate::date::comps_exec;
use crate::date::ts_from_comps;
use crate::date::lemma_date_at;

verus! {

/// The document filename extension, with its dot.
pub open spec fn dot_rmd() -> Seq<u8> {
    seq![46u8, 114, 109, 100]
}

fn dot_rmd_vec() -> (r: Vec<u8>)
    ensures
        r@ == dot_rmd(),
{
    let r: Vec<u8> = vec![46, 114, 109, 100];
    assert(r@ =~= dot_rmd());
    r
}

/// Prefix of every hero-image URL; a cache-busting number follows it.
pub open spec fn hero_prefix() -> Seq<u8> {
    seq![
        104u8, 116, 116, 112, 115, 58, 47, 47, 115, 111, 117, 114, 99, 101, 46, 117, 110, 115,
        112, 108, 97, 115, 104, 46, 99, 111, 109, 47, 114, 97, 110, 100, 111, 109, 47, 54, 48,
        48, 120, 51, 48, 48, 38, 115, 105, 103, 61,
    ]
}

fn hero_prefix_vec() -> (r: Vec<u8>)
    ensures
        r@ == hero_prefix(),
{
    let r: Vec<u8> = vec![
        104, 116, 116, 112, 115, 58, 47, 47, 115, 111, 117, 114, 99, 101, 46, 117, 110, 115,
        112, 108, 97, 115, 104, 46, 99, 111, 109, 47, 114, 97, 110, 100, 111, 109, 47, 54, 48,
        48, 120, 51, 48, 48, 38, 115, 105, 103, 61,
    ];
    assert(r@ =~= hero_prefix());
    r
}

/// The hero-image URL carrying the given cache-busting number.
pub open spec fn hero_url(n: u64) -> Seq<u8> {
    hero_prefix() + dec_u64(n)
}

/// One step of the rolling identity hash, modulo 2^64.
pub open spec fn mix(h: u64, x: u64) -> u64 {
    (((h as int) * 1099511628211 + (x as int)) % 0x10000000000000000) as u64
}

/// The rolling hash folded over a byte string.
pub open spec fn mix_bytes(h: u64, s: Seq<u8>) -> u64
    decreases s.len(),
{
    if s.len() == 0 {
        h
    } else {
        mix_bytes(mix(h, s[0] as u64), s.drop_first())
    }
}

/// The catalog identity: a stable 64-bit hash of title, timestamp and
/// path, and of nothing else.
pub open spec fn identity_of(title: Seq<u8>, timestamp: u64, path: Seq<u8>) -> u64 {
    mix_bytes(mix(mix_bytes(14695981039346656037u64, title), timestamp), path)
}

fn mix_step(h: u64, x: u64) -> (r: u64)
    ensures
        r == mix(h, x),
{
    (((h as u128) * 1099511628211u128 + (x as u128)) % 0x10000000000000000u128) as u64
}

fn hash_bytes(h0: u64, s: &Vec<u8>) -> (r: u64)
    ensures
        r == mix_bytes(h0, s@),
{
    let mut h = h0;
    let mut i: usize = 0;
    assert(s@.skip(0) =~= s@);
    while i < s.len()
        invariant
            i <= s.len(),
            mix_bytes(h0, s@) == mix_bytes(h, s@.skip(i as int)),
        decreases s.len() - i,
    {
        proof {
            assert(s@.skip(i as int)[0] == s@[i as int]);
            assert(s@.skip(i as int).drop_first() =~= s@.skip(i + 1));
        }
        h = mix_step(h, s[i] as u64);
        i = i + 1;
    }
    assert(s@.skip(s@.len() as int) =~= Seq::<u8>::empty());
    h
}

/// The mathematical shape of a metadata record.
pub ghost struct BlogMetaView {
    pub id: u64,
    pub title: Seq<u8>,
    pub timestamp: u64,
    pub path: Seq<u8>,
    pub hero: Seq<u8>,
}

/// Lightweight descriptor of a document, known before its body has been
/// fetched.  The identity is derived from title, timestamp and path, and
/// is recomputed whenever one of the three changes.
#[derive(Clone, Debug, PartialEq, Eq)]
pub struct BlogMeta {
    pub id: u64,
    pub title: Vec<u8>,
    pub timestamp: u64,
    pub path: Vec<u8>,
    pub hero: Vec<u8>,
}

impl View for BlogMeta {
    type V = BlogMetaView;

    open spec fn view(&self) -> BlogMetaView {
        BlogMetaView {
            id: self.id,
            title: self.title@,
            timestamp: self.timestamp,
            path: self.path@,
            hero: self.hero@,
        }
    }
}

impl BlogMeta {
    /// The empty record: zero identity and timestamp, empty strings.
    pub fn new() -> (r: Self)
        ensures
            r@ == (BlogMetaView {
                id: 0,
                title: Seq::empty(),
                timestamp: 0,
                path: Seq::empty(),
                hero: Seq::empty(),
            }),
    {
        let r = Self { id: 0, title: Vec::new(), timestamp: 0, path: Vec::new(), hero: Vec::new() };
        assert(r.title@ =~= Seq::<u8>::empty());
        assert(r.path@ =~= Seq::<u8>::empty());
        assert(r.hero@ =~= Seq::<u8>::empty());
        r
    }

    /// A copy whose view is the same record.
    pub fn duplicate(&self) -> (r: Self)
        ensures
            r@ == self@,
    {
        let r = Self {
            id: self.id,
            title: subvec(&self.title, 0, self.title.len()),
            timestamp: self.timestamp,
            path: subvec(&self.path, 0, self.path.len()),
            hero: subvec(&self.hero, 0, self.hero.len()),
        };
        assert(r.title@ =~= self.title@);
        assert(r.path@ =~= self.path@);
        assert(r.hero@ =~= self.hero@);
        r
    }

    /// Recomputes the identity from the current title, timestamp and
    /// path; everything else is left alone.
    pub fn get_hash(&mut self)
        ensures
            final(self)@ == (BlogMetaView {
                id: identity_of(old(self).title@, old(self).timestamp, old(self).path@),
                ..old(self)@
            }),
    {
        let h = hash_bytes(14695981039346656037u64, &self.title);
        let h = mix_step(h, self.timestamp);
        let h = hash_bytes(h, &self.path);
        self.id = h;
    }

    /// Writes the hero-image URL from the injected clock reading and
    /// cache-busting counter; nothing else changes.
    pub fn image_url(&mut self, now: u64, delta: u16)
        ensures
            final(self)@ == (BlogMetaView {
                hero: hero_url((((now as int) + (delta as int)) % 65535) as u64),
                ..old(self)@
            }),
    {
        proof {
            vstd::arithmetic::div_mod::lemma_add_mod_noop(now as int, delta as int, 65535);
        }
        let cb = ((now % 65535) + ((delta as u64) % 65535)) % 65535;
        let mut hero = hero_prefix_vec();
        let mut digits = render_u64(cb);
        hero.append(&mut digits);
        self.hero = hero;
    }
}

/// Position of the last occurrence of `b` strictly below `j`.
pub open spec fn last_byte_before(s: Seq<u8>, b: u8, j: int) -> Option<int>
    decreases j,
{
    if j <= 0 || j > s.len() {
        None
    } else if s[j - 1] == b {
        Some(j - 1)
    } else {
        last_byte_before(s, b, j - 1)
    }
}

/// The filename component of a path: everything after the last slash.
pub open spec fn spec_file_name(p: Seq<u8>) -> Seq<u8> {
    match last_byte_before(p, 47, p.len() as int) {
        None => p,
        Some(j) => p.subrange(j + 1, p.len() as int),
    }
}

fn file_name(p: &Vec<u8>) -> (r: Vec<u8>)
    ensures
        r@ == spec_file_name(p@),
{
    let mut j: usize = p.len();
    loop
        invariant
            j <= p.len(),
            last_byte_before(p@, 47, p@.len() as int) == last_byte_before(p@, 47, j as int),
        decreases j,
    {
        if j == 0 {
            return subvec(p, 0, p.len());
        }
        if p[j - 1] == 47 {
            return subvec(p, j, p.len());
        }
        j = j - 1;
    }
}

/// The date run cut after `k` groups fits the filename pattern: a
/// non-digit separator follows, and the title that runs from there to the
/// extension holds no newline.
pub open spec fn k_ok(s: Seq<u8>, ends: Seq<int>, k: int) -> bool {
    let e = s.len() - 4;
    let cut = ends[k - 1];
    &&& cut + 1 <= e
    &&& !is_digit(s[cut])
    &&& match find_byte_from(s, 10, cut + 1) {
        None => true,
        Some(j) => j >= e,
    }
}

/// The largest usable group count, tried greedily from `k` downwards.
pub open spec fn best_k(s: Seq<u8>, ends: Seq<int>, k: int) -> Option<int>
    decreases k,
{
    if k < 3 {
        None
    } else if k_ok(s, ends, k) {
        Some(k)
    } else {
        best_k(s, ends, k - 1)
    }
}

/// Leftmost filename match: the first position where a date run starts
/// from which some group count fits the filename pattern.
pub open spec fn first_fname(s: Seq<u8>, i: int) -> Option<(int, int)>
    decreases s.len() - i,
{
    if i < 0 || i >= s.len() {
        None
    } else {
        match date_at(s, i) {
            None => first_fname(s, i + 1),
            Some(ends) => match best_k(s, ends, ends.len() as int) {
                None => first_fname(s, i + 1),
                Some(k) => Some((i, k)),
            },
        }
    }
}

/// What `with_path` yields: the filename must read as
/// `<date-run><sep><title>.rmd` with a nonempty title; the timestamp
/// comes from the matched groups with the filename year offset, and the
/// identity from title, timestamp and the full path.
pub open spec fn spec_with_path(p: Seq<u8>) -> Option<BlogMetaView> {
    let name = spec_file_name(p);
    if name.len() < 4 || name.subrange(name.len() - 4, name.len() as int) != dot_rmd() {
        None
    } else {
        match first_fname(name, 0) {
            None => None,
            Some((i, k)) => {
                let ends = date_at(name, i)->0;
                let cut = ends[k - 1];
                let e = name.len() - 4;
                let title = name.subrange(cut + 1, e);
                if title.len() == 0 {
                    None
                } else {
                    let ts = timestamp_of(comps_of(name, i, ends, k), 32) as u64;
                    Some(BlogMetaView {
                        id: identity_of(title, ts, p),
                        title: title,
                        timestamp: ts,
                        path: p,
                        hero: Seq::empty(),
                    })
                }
            },
        }
    }
}

fn k_ok_exec(s: &Vec<u8>, ends: &Vec<usize>, k: usize) -> (r: bool)
    requires
        s.len() >= 4,
        1 <= k <= ends.len(),
        forall|j: int| 0 <= j < ends.len() ==> #[trigger] ends@[j] <= s.len(),
    ensures
        r == k_ok(s@, ints_of(ends@), k as int),
{
    let e = s.len() - 4;
    let cut = ends[k - 1];
    assert(ints_of(ends@)[k - 1] == cut as int);
    if cut >= e {
        return false;
    }
    if digit(s[cut]) {
        return false;
    }
    match find_byte(s, 10, cut + 1) {
        None => true,
        Some(j) => j >= e,
    }
}

fn best_k_exec(s: &Vec<u8>, ends: &Vec<usize>) -> (r: Option<usize>)
    requires
        s.len() >= 4,
        3 <= ends.len() <= 6,
        forall|j: int| 0 <= j < ends.len() ==> #[trigger] ends@[j] <= s.len(),
    ensures
        match r {
            Some(k) => best_k(s@, ints_of(ends@), ends.len() as int) == Some(k as int) && 3 <= k
                <= ends.len() && k_ok(s@, ints_of(ends@), k as int),
            None => best_k(s@, ints_of(ends@), ends.len() as int) is None,
        },
{
    let mut k: usize = ends.len();
    loop
        invariant
            3 <= ends.len() <= 6,
            s.len() >= 4,
            3 <= k <= ends.len(),
            forall|j: int| 0 <= j < ends.len() ==> #[trigger] ends@[j] <= s.len(),
            best_k(s@, ints_of(ends@), ends.len() as int) == best_k(s@, ints_of(ends@), k as int),
        decreases k,
    {
        if k_ok_exec(s, ends, k) {
            assert(best_k(s@, ints_of(ends@), k as int) == Some(k as int));
            return Some(k);
        }
        assert(best_k(s@, ints_of(ends@), k as int) == best_k(s@, ints_of(ends@), k - 1));
        if k == 3 {
            assert(best_k(s@, ints_of(ends@), 2) is None);
            return None;
        }
        k = k - 1;
    }
}

fn first_fname_exec(s: &Vec<u8>) -> (r: Option<(usize, usize, Vec<usize>)>)
    requires
        s.len() >= 4,
    ensures
        match r {
            Some(p) => {
                &&& first_fname(s@, 0) == Some((p.0 as int, p.1 as int))
                &&& date_at(s@, p.0 as int) == Some(ints_of(p.2@))
                &&& 3 <= p.1 <= p.2.len() <= 6
                &&& p.0 < s.len()
                &&& k_ok(s@, ints_of(p.2@), p.1 as int)
                &&& forall|j: int| 0 <= j < p.2.len() ==> #[trigger] p.2@[j] <= s.len()
            },
            None => first_fname(s@, 0) is None,
        },
{
    let mut i: usize = 0;
    loop
        invariant
            i <= s.len(),
            s.len() >= 4,
            first_fname(s@, 0) == first_fname(s@, i as int),
        decreases s.len() - i,
    {
        if i >= s.len() {
            return None;
        }
        match date_at_exec(s, i) {
            Some(ends) => {
                match best_k_exec(s, &ends) {
                    Some(k) => {
                        return Some((i, k, ends));
                    },
                    None => {
                        assert(first_fname(s@, i as int) == first_fname(s@, i + 1));
                        i = i + 1;
                    },
                }
            },
            None => {
                assert(first_fname(s@, i as int) == first_fname(s@, i + 1));
                i = i + 1;
            },
        }
    }
}

/// The mathematical shape of a full record.
pub ghost struct BlogView {
    pub meta: BlogMetaView,
    pub tags: Seq<Seq<u8>>,
    pub content: Seq<Seq<u8>>,
    pub published: bool,
    pub ignored: bool,
}

/// A fully parsed document: its metadata record, tag list, body segments
/// (at most two, split at the break marker), publication flag, and the
/// `ignored` mark set when no timestamp could be determined.
#[derive(Clone, Debug, PartialEq, Eq)]
pub struct Blog {
    pub meta: BlogMeta,
    pub tags: Vec<Vec<u8>>,
    pub content: Vec<Vec<u8>>,
    pub published: bool,
    pub ignored: bool,
}

impl View for Blog {
    type V = BlogView;

    open spec fn view(&self) -> BlogView {
        BlogView {
            meta: self.meta@,
            tags: crate::bytes::seqs_of(self.tags@),
            content: crate::bytes::seqs_of(self.content@),
            published: self.published,
            ignored: self.ignored,
        }
    }
}

/// The record with its timestamp replaced.
pub open spec fn with_ts(b: BlogView, t: u64) -> BlogView {
    BlogView { meta: BlogMetaView { timestamp: t, ..b.meta }, ..b }
}

/// Timestamp resolution against the record's own path, with the filename
/// year offset; when the path holds no date run the record is kept but
/// marked ignored.
pub open spec fn from_path(b: BlogView) -> BlogView {
    match spec_extract(b.meta.path, 32) {
        Some(t) => with_ts(b, t),
        None => BlogView { ignored: true, ..b },
    }
}

/// Timestamp resolution: an explicit date field is tried first, with the
/// date-string year offset; the file path is the fallback; when both
/// fail the record is marked ignored rather than rejected.
pub open spec fn spec_date_info(b: BlogView, date: Option<Seq<u8>>) -> BlogView {
    match date {
        Some(d) => match spec_extract(d, 2000) {
            Some(t) => with_ts(b, t),
            None => from_path(b),
        },
        None => from_path(b),
    }
}

impl Blog {
    fn resolve_from_path(&mut self)
        ensures
            final(self)@ == from_path(old(self)@),
    {
        let t = extract_timestamp(&self.meta.path, 32);
        match t {
            Some(t) => {
                self.meta.timestamp = t;
            },
            None => {
                self.ignored = true;
            },
        }
    }

    /// Resolves the record's timestamp from the given date string or its
    /// path, per the documented order and year offsets; the identity is
    /// not recomputed here.
    pub fn date_info(&mut self, date: Option<&Vec<u8>>)
        ensures
            final(self)@ == spec_date_info(
                old(self)@,
                match date {
                    Some(d) => Some(d@),
                    None => None,
                },
            ),
    {
        match date {
            Some(d) => {
                match extract_timestamp(d, 2000) {
                    Some(t) => {
                        self.meta.timestamp = t;
                    },
                    None => {
                        self.resolve_from_path();
                    },
                }
            },
            None => {
                self.resolve_from_path();
            },
        }
    }
}

impl BlogMeta {
    /// Derives a metadata record from a path whose filename matches the
    /// date-and-title grammar; the hero URL is left as a placeholder.
    pub fn with_path(path: &Vec<u8>) -> (r: Option<Self>)
        ensures
            match r {
                Some(m) => spec_with_path(path@) == Some(m@),
                None => spec_with_path(path@) is None,
            },
    {
        let name = file_name(path);
        if name.len() < 4 {
            return None;
        }
        let ext = dot_rmd_vec();
        if !match_at(&name, &ext, name.len() - 4) {
            assert(name@.subrange(name@.len() - 4, name@.len() as int) != dot_rmd());
            return None;
        }
        assert(name@.subrange(name@.len() - 4, name@.len() as int) == dot_rmd());
        match first_fname_exec(&name) {
            None => None,
            Some((i, k, ends)) => {
                proof {
                    lemma_date_at(name@, i as int);
                }
                let cut = ends[k - 1];
                assert(ints_of(ends@)[k - 1] == cut as int);
                let e = name.len() - 4;
                assert(cut + 1 <= e);
                let title = subvec(&name, cut + 1, e);
                if title.len() == 0 {
                    return None;
                }
                let comps = comps_exec(&name, i, &ends, k);
                let ts = ts_from_comps(&comps, 32);
                let h = hash_bytes(14695981039346656037u64, &title);
                let h = mix_step(h, ts);
                let h = hash_bytes(h, path);
                let m = Self {
                    id: h,
                    title: title,
                    timestamp: ts,
                    path: subvec(path, 0, path.len()),
                    hero: Vec::new(),
                };
                assert(m.path@ =~= path@);
                assert(m.hero@ =~= Seq::<u8>::empty());
                Some(m)
            },
        }
    }
}

} // verus!
