//! The document parser and the incremental catalog: a raw document is
//! split into its delimited sections and read into a full record, and the
//! catalog state machine loads metadata in pages, caches parsed records
//! under their identity, counts fetch attempts, and keeps a re-sortable
//! display index.

use vstd::prelude::*;
use crate::bytes::spec_trim;
use crate::bytes::trim;
use crate::bytes::subvec;
use crate::bytes::bytes_eq;
use crate::bytes::find_sub_from;
use crate::bytes::find_sub;
use crate::bytes::find_byte_from;
use crate::bytes::find_byte;
use crate::bytes::seqs_of;
use crate::content::Blog;
use crate::content::BlogMeta;
use crate::content::BlogView;
use crate::content::BlogMetaView;
use crate::content::identity_of;
use crate::content::spec_date_info;
use crate::content::spec_with_path;
use crate::sort::sort_pairs;
use crate::sort::sorted_pairs;
use crate::ITEMS_PER_PAGE;
use std::collections::HashMap;
use crate::frontmatter::fm_fold;
use crate::frontmatter::fm_init;
use crate::frontmatter::kv_get;
use crate::frontmatter::parse_block;
use crate::frontmatter::block_lookup;
use crate::frontmatter::line_end;

verus! {

/// Why a raw document was rejected: the three-section shape was missing,
/// a required metadata field was absent, or the published flag was not a
/// boolean literal.
#[derive(Clone, Copy, Debug, PartialEq, Eq, Structural)]
pub enum ParseError {
    MissingDelimiters,
    MissingTitle,
    MissingPublished,
    InvalidBool,
}

/// The section delimiter.
pub open spec fn dashes() -> Seq<u8> {
    seq![45u8, 45, 45]
}

fn dashes_vec() -> (r: Vec<u8>)
    ensures
        r@ == dashes(),
{
    let r: Vec<u8> = vec![45, 45, 45];
    assert(r@ =~= dashes());
    r
}

/// The body split marker.
pub open spec fn break_marker() -> Seq<u8> {
    seq![60u8, 33, 45, 45, 98, 114, 101, 97, 107, 45, 45, 62]
}

fn break_marker_vec() -> (r: Vec<u8>)
    ensures
        r@ == break_marker(),
{
    let r: Vec<u8> = vec![60, 33, 45, 45, 98, 114, 101, 97, 107, 45, 45, 62];
    assert(r@ =~= break_marker());
    r
}

/// The required title key.
pub open spec fn lit_title() -> Seq<u8> {
    seq![116u8, 105, 116, 108, 101]
}

fn lit_title_vec() -> (r: Vec<u8>)
    ensures
        r@ == lit_title(),
{
    let r: Vec<u8> = vec![116, 105, 116, 108, 101];
    assert(r@ =~= lit_title());
    r
}

/// The required published key.
pub open spec fn lit_published() -> Seq<u8> {
    seq![112u8, 117, 98, 108, 105, 115, 104, 101, 100]
}

fn lit_published_vec() -> (r: Vec<u8>)
    ensures
        r@ == lit_published(),
{
    let r: Vec<u8> = vec![112, 117, 98, 108, 105, 115, 104, 101, 100];
    assert(r@ =~= lit_published());
    r
}

/// The optional date key.
pub open spec fn lit_date() -> Seq<u8> {
    seq![100u8, 97, 116, 101]
}

fn lit_date_vec() -> (r: Vec<u8>)
    ensures
        r@ == lit_date(),
{
    let r: Vec<u8> = vec![100, 97, 116, 101];
    assert(r@ =~= lit_date());
    r
}

/// The boolean literals the published flag accepts.
pub open spec fn lit_true() -> Seq<u8> {
    seq![116u8, 114, 117, 101]
}

fn lit_true_vec() -> (r: Vec<u8>)
    ensures
        r@ == lit_true(),
{
    let r: Vec<u8> = vec![116, 114, 117, 101];
    assert(r@ =~= lit_true());
    r
}

pub open spec fn lit_false() -> Seq<u8> {
    seq![102u8, 97, 108, 115, 101]
}

fn lit_false_vec() -> (r: Vec<u8>)
    ensures
        r@ == lit_false(),
{
    let r: Vec<u8> = vec![102, 97, 108, 115, 101];
    assert(r@ =~= lit_false());
    r
}

/// The directory-listing extension filter.
pub open spec fn lit_rmd() -> Seq<u8> {
    seq![114u8, 109, 100]
}

fn lit_rmd_vec() -> (r: Vec<u8>)
    ensures
        r@ == lit_rmd(),
{
    let r: Vec<u8> = vec![114, 109, 100];
    assert(r@ =~= lit_rmd());
    r
}

/// The two display modes.
pub open spec fn lit_grid() -> Seq<u8> {
    seq![103u8, 114, 105, 100, 67, 97, 114, 100]
}

fn lit_grid_vec() -> (r: Vec<u8>)
    ensures
        r@ == lit_grid(),
{
    let r: Vec<u8> = vec![103, 114, 105, 100, 67, 97, 114, 100];
    assert(r@ =~= lit_grid());
    r
}

pub open spec fn lit_list() -> Seq<u8> {
    seq![108u8, 105, 115, 116, 84, 105, 108, 101]
}

fn lit_list_vec() -> (r: Vec<u8>)
    ensures
        r@ == lit_list(),
{
    let r: Vec<u8> = vec![108, 105, 115, 116, 84, 105, 108, 101];
    assert(r@ =~= lit_list());
    r
}

/// The body split at the first break marker: one trimmed segment, or two.
pub open spec fn split_body(body: Seq<u8>) -> Seq<Seq<u8>> {
    match find_sub_from(body, break_marker(), 0) {
        None => seq![spec_trim(body)],
        Some(c) => seq![
            spec_trim(body.subrange(0, c)),
            spec_trim(body.subrange(c + 12, body.len() as int)),
        ],
    }
}

fn split_body_exec(body: &Vec<u8>) -> (r: Vec<Vec<u8>>)
    ensures
        seqs_of(r@) == split_body(body@),
        1 <= r.len() <= 2,
{
    let brk = break_marker_vec();
    match find_sub(body, &brk, 0) {
        None => {
            let t = trim(body);
            let mut r: Vec<Vec<u8>> = Vec::new();
            r.push(t);
            assert(seqs_of(r@) =~= split_body(body@));
            r
        },
        Some(c) => {
            let raw1 = subvec(body, 0, c);
            let raw2 = subvec(body, c + 12, body.len());
            let t1 = trim(&raw1);
            let t2 = trim(&raw2);
            let mut r: Vec<Vec<u8>> = Vec::new();
            r.push(t1);
            r.push(t2);
            assert(seqs_of(r@) =~= split_body(body@));
            r
        },
    }
}

/// The record rebuilt with its identity recomputed from its current
/// title, timestamp and path.
pub open spec fn rehashed(b: BlogView) -> BlogView {
    BlogView {
        meta: BlogMetaView {
            id: identity_of(b.meta.title, b.meta.timestamp, b.meta.path),
            ..b.meta
        },
        ..b
    }
}

/// What parsing a raw document against a metadata record yields: the text
/// splits at the first two section delimiters; the middle section is read
/// as front matter, which must hold a title and a boolean published flag;
/// the body splits at the break marker; the timestamp is resolved from
/// the date field or the path; and the identity is recomputed last.
pub open spec fn spec_str2blog(s: Seq<u8>, meta: BlogMetaView) -> Result<BlogView, ParseError> {
    match find_sub_from(s, dashes(), 0) {
        None => Err(ParseError::MissingDelimiters),
        Some(a) => match find_sub_from(s, dashes(), a + 3) {
            None => Err(ParseError::MissingDelimiters),
            Some(b) => {
                let block = spec_trim(s.subrange(a + 3, b));
                let segs = split_body(s.subrange(b + 3, s.len() as int));
                let st = fm_fold(block, 0, fm_init());
                if kv_get(st.pairs, lit_title()) is None {
                    Err(ParseError::MissingTitle)
                } else {
                    match kv_get(st.pairs, lit_published()) {
                        None => Err(ParseError::MissingPublished),
                        Some(pv) => if pv == lit_true() || pv == lit_false() {
                            let b0 = BlogView {
                                meta: meta,
                                tags: st.tags,
                                content: segs,
                                published: pv == lit_true(),
                                ignored: false,
                            };
                            Ok(rehashed(spec_date_info(b0, kv_get(st.pairs, lit_date()))))
                        } else {
                            Err(ParseError::InvalidBool)
                        },
                    }
                }
            },
        },
    }
}

/// Parses a raw document into a full record for the given metadata, or
/// says exactly why it is malformed.
pub fn str2blog(s: &Vec<u8>, meta: &BlogMeta) -> (r: Result<Blog, ParseError>)
    ensures
        match r {
            Ok(b) => spec_str2blog(s@, meta@) == Ok::<BlogView, ParseError>(b@),
            Err(e) => spec_str2blog(s@, meta@) == Err::<BlogView, ParseError>(e),
        },
{
    let dash = dashes_vec();
    let a = match find_sub(s, &dash, 0) {
        None => {
            return Err(ParseError::MissingDelimiters);
        },
        Some(a) => a,
    };
    let b = match find_sub(s, &dash, a + 3) {
        None => {
            return Err(ParseError::MissingDelimiters);
        },
        Some(b) => b,
    };
    let raw_block = subvec(s, a + 3, b);
    let block = trim(&raw_block);
    let body = subvec(s, b + 3, s.len());
    let segs = split_body_exec(&body);
    let st = parse_block(&block);
    let title_key = lit_title_vec();
    if block_lookup(&st, &title_key).is_none() {
        return Err(ParseError::MissingTitle);
    }
    let published_key = lit_published_vec();
    let pv = match block_lookup(&st, &published_key) {
        None => {
            return Err(ParseError::MissingPublished);
        },
        Some(v) => v,
    };
    let true_lit = lit_true_vec();
    let false_lit = lit_false_vec();
    let is_true = bytes_eq(&pv, &true_lit);
    let is_false = bytes_eq(&pv, &false_lit);
    if !is_true && !is_false {
        return Err(ParseError::InvalidBool);
    }
    let date_key = lit_date_vec();
    let dv = block_lookup(&st, &date_key);
    let ghost st_v = st@;
    let mut blog = Blog {
        meta: meta.duplicate(),
        tags: st.tags,
        content: segs,
        published: is_true,
        ignored: false,
    };
    match &dv {
        Some(d) => blog.date_info(Some(d)),
        None => blog.date_info(None),
    }
    blog.meta.get_hash();
    Ok(blog)
}

/// The directory listing read as catalog paths: each line trimmed, kept
/// when it ends in the document extension.
pub open spec fn dir_entries(s: Seq<u8>, i: int) -> Seq<Seq<u8>>
    decreases s.len() - i + 1,
{
    if i < 0 || i > s.len() {
        Seq::empty()
    } else {
        let j = line_end(s, i);
        let t = spec_trim(s.subrange(i, j));
        let rest = dir_entries(s, j + 1);
        if t.len() >= 3 && t.subrange(t.len() - 3, t.len() as int) == lit_rmd() {
            seq![t] + rest
        } else {
            rest
        }
    }
}

/// Reads a fetched directory listing into the ordered paths it names;
/// blank and non-matching lines are absent from the result.
pub fn parse_dir_index(text: &Vec<u8>) -> (r: Vec<Vec<u8>>)
    ensures
        seqs_of(r@) == dir_entries(text@, 0),
{
    let rmd = lit_rmd_vec();
    let mut r: Vec<Vec<u8>> = Vec::new();
    proof {
        assert(seqs_of(r@) =~= Seq::<Seq<u8>>::empty());
    }
    let mut i: usize = 0;
    loop
        invariant
            i <= text.len(),
            rmd@ == lit_rmd(),
            dir_entries(text@, 0) == seqs_of(r@) + dir_entries(text@, i as int),
        decreases text.len() - i,
    {
        let j = match find_byte(text, 10, i) {
            Some(j) => j,
            None => text.len(),
        };
        assert(line_end(text@, i as int) == j as int);
        let raw = subvec(text, i, j);
        let t = trim(&raw);
        let ghost pre = r@;
        let keep = if t.len() >= 3 {
            crate::bytes::match_at(&t, &rmd, t.len() - 3)
        } else {
            false
        };
        proof {
            if t.len() >= 3 {
                assert(t@.subrange(t@.len() - 3, t@.len() as int) =~= t@.subrange(
                    t@.len() - 3,
                    t@.len() - 3 + lit_rmd().len(),
                ));
            }
        }
        if keep {
            r.push(t);
            assert(seqs_of(r@) =~= seqs_of(pre).push(t@));
        }
        proof {
            if keep {
                assert(dir_entries(text@, i as int) =~= seq![t@] + dir_entries(text@, j + 1));
                assert(seqs_of(pre) + dir_entries(text@, i as int) =~= seqs_of(r@) + dir_entries(
                    text@,
                    j + 1,
                ));
            } else {
                assert(dir_entries(text@, i as int) =~= dir_entries(text@, j + 1));
            }
        }
        if j == text.len() {
            assert(dir_entries(text@, text@.len() as int + 1) =~= Seq::<Seq<u8>>::empty());
            assert(seqs_of(r@) + dir_entries(text@, j + 1) =~= seqs_of(r@));
            return r;
        }
        i = j + 1;
    }
}

/// The display ordering of the catalog index.  The most-attempted order
/// compares by sort key exactly as the descending order does.
#[derive(Clone, Copy, Debug, PartialEq, Eq, Structural)]
pub enum Order {
    Dec,
    Inc,
    Hot,
}

impl Default for Order {
    fn default() -> (r: Self)
        ensures
            r == Order::Dec,
    {
        Order::Dec
    }
}

/// Whether an ordering compares ascending by key.
pub open spec fn order_inc(o: Order) -> bool {
    o == Order::Inc
}

/// The index is ordered as the given ordering asks.
pub open spec fn sorted_for(o: Order, s: Seq<(u64, u64)>) -> bool {
    sorted_pairs(order_inc(o), s)
}

/// The actions the catalog reducer accepts.
#[derive(Clone, Debug, PartialEq)]
pub enum ParseAct {
    CacheBlog(Blog),
    MoreBlogMeta,
    BlogPath(Vec<Vec<u8>>),
    ChangeDisplayMode,
}

/// The attempt count stored for an identity; zero when unseen.
pub open spec fn attempts_of(m: Map<u64, u8>, id: u64) -> u8 {
    if m.contains_key(id) {
        m[id]
    } else {
        0
    }
}

/// A counter bumped by `d`, saturating at its bound.
pub open spec fn sat_count(c: u8, d: u8) -> u8 {
    if c + d > 255 {
        255
    } else {
        (c + d) as u8
    }
}

/// A map of metadata records seen as the mathematical records it holds.
pub open spec fn meta_map_view(m: Map<u64, BlogMeta>) -> Map<u64, BlogMetaView> {
    Map::new(|k: u64| m.contains_key(k), |k: u64| m[k]@)
}

/// A map of full records seen as the mathematical records it holds.
pub open spec fn blog_map_view(m: Map<u64, Blog>) -> Map<u64, BlogView> {
    Map::new(|k: u64| m.contains_key(k), |k: u64| m[k]@)
}

/// The catalog index: fully parsed records keyed by identity, the
/// append-only display index of (sort key, identity) pairs, and the
/// per-identity fetch-attempt counters.  The display index always has
/// exactly `len` entries and every identity in it is stored.
pub struct InnerParser {
    pub blogs: HashMap<u64, Blog>,
    pub indexs: Vec<(u64, u64)>,
    pub records: HashMap<u64, u8>,
    pub len: usize,
}

impl InnerParser {
    /// The index length matches the stored count and every indexed
    /// identity has a record.
    pub open spec fn wf(&self) -> bool {
        &&& self.len == self.indexs@.len()
        &&& forall|j: int|
            0 <= j < self.indexs@.len() ==> self.blogs@.contains_key(
                (#[trigger] self.indexs@[j]).1,
            )
    }

    /// Bumps the attempt counter for an identity, saturating rather than
    /// wrapping; nothing else changes.
    pub fn inc(&mut self, id: &u64, inc: u8)
        ensures
            final(self).records@ == old(self).records@.insert(
                *id,
                sat_count(attempts_of(old(self).records@, *id), inc),
            ),
            final(self).blogs == old(self).blogs,
            final(self).indexs == old(self).indexs,
            final(self).len == old(self).len,
    {
        let cur = match self.records.get(id) {
            Some(c) => *c,
            None => 0,
        };
        let nv = if (cur as u16) + (inc as u16) > 255 {
            255
        } else {
            cur + inc
        };
        self.records.insert(*id, nv);
    }

    /// The fetch-attempt count recorded for an identity.
    pub fn attempts(&self, id: &u64) -> (r: u8)
        ensures
            r == attempts_of(self.records@, *id),
    {
        match self.records.get(id) {
            Some(c) => *c,
            None => 0,
        }
    }

    /// The cached record under an identity, if one is stored.
    pub fn get_blog(&self, id: &u64) -> (r: Option<&Blog>)
        ensures
            match r {
                Some(b) => self.blogs@.contains_key(*id) && *b == self.blogs@[*id],
                None => !self.blogs@.contains_key(*id),
            },
    {
        self.blogs.get(id)
    }
}

/// The catalog controller: every known metadata record, the identities in
/// discovery order, the full directory listing, the count of paths
/// already turned into metadata, the inner index, and the ordering and
/// display preferences.
pub struct Parser {
    pub metas: HashMap<u64, BlogMeta>,
    pub ids: Vec<u64>,
    pub paths: Vec<Vec<u8>>,
    pub offset: usize,
    pub inner: InnerParser,
    pub order: Order,
    pub parsed: bool,
    pub display: Vec<u8>,
}

/// The inner index is well formed and every discovered identity has its
/// metadata stored.
impl Parser {
    pub open spec fn wf(&self) -> bool {
        &&& self.inner.wf()
        &&& forall|j: int|
            0 <= j < self.ids@.len() ==> self.metas@.contains_key(#[trigger] self.ids@[j])
    }
}

/// The transition `insert` makes: the pair (sort key, identity) is
/// appended to the display index, the record is stored under the key,
/// the key's attempt counter is bumped, the count grows by one, and the
/// controller's other state is untouched.
pub open spec fn inserted(pre: Parser, post: Parser, key: u64, val: Blog) -> bool {
    &&& post.inner.indexs@ == pre.inner.indexs@.push((val.meta.timestamp, key))
    &&& post.inner.blogs@ == pre.inner.blogs@.insert(key, val)
    &&& post.inner.records@ == pre.inner.records@.insert(
        key,
        sat_count(attempts_of(pre.inner.records@, key), 1),
    )
    &&& post.inner.len == pre.inner.len + 1
    &&& post.metas == pre.metas
    &&& post.ids == pre.ids
    &&& post.paths == pre.paths
    &&& post.offset == pre.offset
    &&& post.order == pre.order
    &&& post.parsed == pre.parsed
    &&& post.display == pre.display
}

/// Metadata loading folded over a window of the path listing: each path
/// that derives a record adds its identity and record; the others are
/// skipped but still count against the window.
pub open spec fn load_batch(
    metas: Map<u64, BlogMetaView>,
    ids: Seq<u64>,
    paths: Seq<Seq<u8>>,
    from: int,
    to: int,
) -> (Map<u64, BlogMetaView>, Seq<u64>)
    decreases to - from,
{
    if from >= to || from < 0 || to > paths.len() {
        (metas, ids)
    } else {
        match spec_with_path(paths[from]) {
            None => load_batch(metas, ids, paths, from + 1, to),
            Some(mv) => load_batch(metas.insert(mv.id, mv), ids.push(mv.id), paths, from + 1, to),
        }
    }
}

/// Where the load offset lands: it advances by up to `cnt`, never past
/// the end of the listing, and never moves backwards.
pub open spec fn advance(offset: int, cnt: int, n: int) -> int {
    if offset >= n {
        offset
    } else if offset + cnt <= n {
        offset + cnt
    } else {
        n
    }
}

/// The transition `load_meta` makes.
pub open spec fn loaded_meta(pre: Parser, post: Parser, cnt: u64) -> bool {
    let to = advance(pre.offset as int, cnt as int, pre.paths@.len() as int);
    &&& post.offset == to
    &&& (meta_map_view(post.metas@), post.ids@) == load_batch(
        meta_map_view(pre.metas@),
        pre.ids@,
        seqs_of(pre.paths@),
        pre.offset as int,
        to,
    )
    &&& post.parsed == true
    &&& post.paths == pre.paths
    &&& post.inner == pre.inner
    &&& post.order == pre.order
    &&& post.display == pre.display
}

/// The display mode after a toggle: the two known modes swap, anything
/// else is left unchanged.
pub open spec fn toggled(d: Seq<u8>) -> Seq<u8> {
    if d == lit_grid() {
        lit_list()
    } else if d == lit_list() {
        lit_grid()
    } else {
        d
    }
}

/// Pages needed for `n` items, at `ITEMS_PER_PAGE` each.
pub open spec fn page_count(n: int) -> int {
    n / (ITEMS_PER_PAGE as int) + if n % (ITEMS_PER_PAGE as int) == 0 {
        0int
    } else {
        1int
    }
}

impl Parser {
    /// The empty catalog: nothing known, nothing loaded, descending
    /// order, list display.
    pub fn new() -> (r: Self)
        ensures
            r.wf(),
            r.metas@ == Map::<u64, BlogMeta>::empty(),
            r.ids@ == Seq::<u64>::empty(),
            r.paths@ == Seq::<Vec<u8>>::empty(),
            r.offset == 0,
            r.inner.blogs@ == Map::<u64, Blog>::empty(),
            r.inner.indexs@ == Seq::<(u64, u64)>::empty(),
            r.inner.records@ == Map::<u64, u8>::empty(),
            r.inner.len == 0,
            r.order == Order::Dec,
            r.parsed == false,
            r.display@ == lit_list(),
    {
        let r = Self {
            metas: HashMap::new(),
            ids: Vec::new(),
            paths: Vec::new(),
            offset: 0,
            inner: InnerParser {
                blogs: HashMap::new(),
                indexs: Vec::new(),
                records: HashMap::new(),
                len: 0,
            },
            order: Order::Dec,
            parsed: false,
            display: lit_list_vec(),
        };
        r
    }

    /// Applies one catalog action, reducer-style.
    pub fn reduce(&mut self, act: ParseAct)
        requires
            old(self).wf(),
        ensures
            final(self).wf(),
            match act {
                ParseAct::CacheBlog(b) => inserted(*old(self), *final(self), b.meta.id, b),
                ParseAct::MoreBlogMeta => loaded_meta(*old(self), *final(self), ITEMS_PER_PAGE),
                ParseAct::BlogPath(paths) => {
                    &&& final(self).paths == paths
                    &&& final(self).metas == old(self).metas
                    &&& final(self).ids == old(self).ids
                    &&& final(self).offset == old(self).offset
                    &&& final(self).inner == old(self).inner
                    &&& final(self).order == old(self).order
                    &&& final(self).parsed == old(self).parsed
                    &&& final(self).display == old(self).display
                },
                ParseAct::ChangeDisplayMode => {
                    &&& final(self).display@ == toggled(old(self).display@)
                    &&& final(self).metas == old(self).metas
                    &&& final(self).ids == old(self).ids
                    &&& final(self).paths == old(self).paths
                    &&& final(self).offset == old(self).offset
                    &&& final(self).inner == old(self).inner
                    &&& final(self).order == old(self).order
                    &&& final(self).parsed == old(self).parsed
                },
            },
    {
        match act {
            ParseAct::CacheBlog(b) => {
                let id = b.meta.id;
                self.insert(id, b);
            },
            ParseAct::MoreBlogMeta => {
                self.load_meta(ITEMS_PER_PAGE);
            },
            ParseAct::BlogPath(paths) => {
                self.paths = paths;
            },
            ParseAct::ChangeDisplayMode => {
                let grid = lit_grid_vec();
                let list = lit_list_vec();
                if bytes_eq(&self.display, &grid) {
                    self.display = list;
                } else if bytes_eq(&self.display, &list) {
                    self.display = grid;
                }
            },
        }
    }

    /// Sets the ordering and re-sorts only when it actually changes.
    pub fn change_ord(&mut self, ord: Order)
        requires
            old(self).wf(),
        ensures
            final(self).wf(),
            ord == old(self).order ==> *final(self) == *old(self),
            ord != old(self).order ==> {
                &&& final(self).order == ord
                &&& sorted_for(ord, final(self).inner.indexs@)
                &&& final(self).inner.indexs@.to_multiset() == old(
                    self,
                ).inner.indexs@.to_multiset()
                &&& final(self).inner.blogs == old(self).inner.blogs
                &&& final(self).inner.records == old(self).inner.records
                &&& final(self).inner.len == old(self).inner.len
                &&& final(self).metas == old(self).metas
                &&& final(self).ids == old(self).ids
                &&& final(self).paths == old(self).paths
                &&& final(self).offset == old(self).offset
                &&& final(self).parsed == old(self).parsed
                &&& final(self).display == old(self).display
            },
    {
        if ord == self.order {
        } else {
            self.order = ord;
            self.order();
        }
    }

    /// Re-sorts the display index by the current ordering: the result is
    /// ordered and holds exactly the entries it held before.
    pub fn order(&mut self)
        requires
            old(self).wf(),
        ensures
            final(self).wf(),
            sorted_for(old(self).order, final(self).inner.indexs@),
            final(self).inner.indexs@.to_multiset() == old(self).inner.indexs@.to_multiset(),
            final(self).inner.blogs == old(self).inner.blogs,
            final(self).inner.records == old(self).inner.records,
            final(self).inner.len == old(self).inner.len,
            final(self).metas == old(self).metas,
            final(self).ids == old(self).ids,
            final(self).paths == old(self).paths,
            final(self).offset == old(self).offset,
            final(self).order == old(self).order,
            final(self).parsed == old(self).parsed,
            final(self).display == old(self).display,
    {
        let inc = match self.order {
            Order::Inc => true,
            _ => false,
        };
        sort_pairs(&mut self.inner.indexs, inc);
        proof {
            broadcast use vstd::seq_lib::group_to_multiset_ensures;

            let news = self.inner.indexs@;
            let olds = old(self).inner.indexs@;
            assert forall|j: int|
                0 <= j < news.len() implies self.inner.blogs@.contains_key(
                (#[trigger] news[j]).1,
            ) by {
                assert(news.contains(news[j]));
                assert(news.to_multiset().count(news[j]) > 0);
                assert(olds.to_multiset().count(news[j]) > 0);
                assert(olds.contains(news[j]));
                let i = choose|i: int| 0 <= i < olds.len() && olds[i] == news[j];
                assert(old(self).inner.blogs@.contains_key(olds[i].1));
            }
        }
    }

    /// How many records the index holds.
    pub fn len(&self) -> (r: usize)
        ensures
            r == self.inner.len,
    {
        self.inner.len
    }

    /// Pages that the full directory listing amounts to.
    pub fn all_page(&self) -> (r: u64)
        ensures
            r == page_count(self.paths@.len() as int),
    {
        let len = self.paths.len() as u64;
        let num = len / ITEMS_PER_PAGE;
        let remainder = len - ITEMS_PER_PAGE * num;
        if remainder == 0 {
            num
        } else {
            num + 1
        }
    }

    /// Pages that the already-discovered identities amount to.
    pub fn total_page(&self) -> (r: u64)
        ensures
            r == page_count(self.ids@.len() as int),
    {
        let len = self.ids.len() as u64;
        let num = len / ITEMS_PER_PAGE;
        let remainder = len - ITEMS_PER_PAGE * num;
        if remainder == 0 {
            num
        } else {
            num + 1
        }
    }

    /// The metadata record stored under an identity.
    pub fn get_meta(&self, id: &u64) -> (r: Option<&BlogMeta>)
        ensures
            match r {
                Some(m) => self.metas@.contains_key(*id) && *m == self.metas@[*id],
                None => !self.metas@.contains_key(*id),
            },
    {
        self.metas.get(id)
    }

    /// Turns up to `cnt` further paths of the listing into metadata,
    /// advancing the load offset by the number of paths covered; paths
    /// that fail extraction are skipped but still counted.
    pub fn load_meta(&mut self, cnt: u64)
        requires
            old(self).wf(),
        ensures
            final(self).wf(),
            loaded_meta(*old(self), *final(self), cnt),
    {
        let base = self.offset;
        let n = self.paths.len();
        let ghost m0 = meta_map_view(old(self).metas@);
        let ghost ids0 = old(self).ids@;
        let ghost gp = seqs_of(old(self).paths@);
        let ghost to = advance(base as int, cnt as int, n as int);
        let mut index: u64 = 0;
        loop
            invariant
                self.wf(),
                self.offset == base,
                self.paths == old(self).paths,
                n == self.paths.len(),
                self.inner == old(self).inner,
                self.order == old(self).order,
                self.parsed == old(self).parsed,
                self.display == old(self).display,
                gp == seqs_of(self.paths@),
                to == advance(base as int, cnt as int, n as int),
                index <= cnt,
                base as int + index as int <= to || index == 0,
                base >= n ==> index == 0,
                base < n ==> base as int + index as int <= n,
                load_batch(m0, ids0, gp, base as int, to) == load_batch(
                    meta_map_view(self.metas@),
                    self.ids@,
                    gp,
                    base as int + index as int,
                    to,
                ),
            ensures
                self.wf(),
                self.offset == base,
                self.paths == old(self).paths,
                self.inner == old(self).inner,
                self.order == old(self).order,
                self.display == old(self).display,
                base as int + index as int == to,
                load_batch(m0, ids0, gp, base as int, to) == load_batch(
                    meta_map_view(self.metas@),
                    self.ids@,
                    gp,
                    to,
                    to,
                ),
            decreases cnt - index,
        {
            if index >= cnt {
                break ;
            }
            if base >= n {
                break ;
            }
            let rem = n - base;
            if index >= rem as u64 {
                break ;
            }
            let off = base + (index as usize);
            let ghost pre_metas = self.metas@;
            let ghost pre_ids = self.ids@;
            let derived = BlogMeta::with_path(&self.paths[off]);
            proof {
                assert(gp[off as int] == self.paths@[off as int]@);
            }
            match derived {
                Some(m) => {
                    let mid = m.id;
                    self.ids.push(mid);
                    self.metas.insert(mid, m);
                    proof {
                        let mv = spec_with_path(gp[off as int])->0;
                        assert(meta_map_view(self.metas@) =~= meta_map_view(pre_metas).insert(
                            mv.id,
                            mv,
                        ));
                        assert(load_batch(meta_map_view(pre_metas), pre_ids, gp, off as int, to)
                            == load_batch(
                            meta_map_view(self.metas@),
                            self.ids@,
                            gp,
                            off as int + 1,
                            to,
                        ));
                    }
                },
                None => {
                    proof {
                        assert(load_batch(meta_map_view(pre_metas), pre_ids, gp, off as int, to)
                            == load_batch(
                            meta_map_view(self.metas@),
                            self.ids@,
                            gp,
                            off as int + 1,
                            to,
                        ));
                    }
                },
            }
            index = index + 1;
        }
        proof {
            assert(load_batch(meta_map_view(self.metas@), self.ids@, gp, to, to) == (
                meta_map_view(self.metas@),
                self.ids@,
            ));
        }
        let delta = index as usize;
        self.offset = base + delta;
        self.parsed = true;
    }

    /// Stores a parsed record in the index under the given identity and
    /// bumps its attempt counter; the display index grows by one entry.
    pub fn insert(&mut self, key: u64, val: Blog)
        requires
            old(self).wf(),
        ensures
            final(self).wf(),
            inserted(*old(self), *final(self), key, val),
    {
        self.inner.indexs.push((val.meta.timestamp, key));
        assert(self.inner.indexs.len() == old(self).inner.len + 1);
        self.inner.len = self.inner.len + 1;
        self.inner.inc(&key, 1);
        self.inner.blogs.insert(key, val);
    }

    /// The catalog index, read-only.
    pub fn inner(&self) -> (r: &InnerParser)
        ensures
            *r == self.inner,
    {
        &self.inner
    }

    /// The record at a position of the display index: present exactly
    /// for positions inside the index, dereferenced through the store.
    pub fn get(&self, index: usize) -> (r: Option<&Blog>)
        requires
            self.wf(),
        ensures
            match r {
                Some(b) => index < self.inner.indexs@.len() && *b == self.inner.blogs@[self
                    .inner
                    .indexs@[index as int].1],
                None => index >= self.inner.indexs@.len(),
            },
    {
        if index < self.inner.indexs.len() {
            let id = self.inner.indexs[index].1;
            match self.inner.blogs.get(&id) {
                Some(b) => Some(b),
                None => {
                    proof {
                        assert(false);
                    }
                    None
                },
            }
        } else {
            None
        }
    }

    /// A restartable forward iterator over the index order.
    pub fn iter(&self) -> (r: Iter)
        ensures
            r.pos == 0,
    {
        Iter::new(&self.inner)
    }

    /// Absorbs the outcome of one asynchronous fetch for an identity:
    /// the attempt counter always advances; a fetched text that parses
    /// to a record that is not ignored is cached under the identity.
    /// Yields whether a text was fetched at all.
    pub fn load_step(&mut self, id: u64, fetched: Option<&Vec<u8>>) -> (ok: bool)
        requires
            old(self).wf(),
            old(self).metas@.contains_key(id),
        ensures
            final(self).wf(),
            ok == (fetched is Some),
            absorbed(
                *old(self),
                *final(self),
                id,
                match fetched {
                    Some(b) => Some(b@),
                    None => None,
                },
            ),
    {
        self.inner.inc(&id, 1);
        match fetched {
            None => false,
            Some(buf) => {
                if buf.len() == 0 {
                    return true;
                }
                let meta = match self.metas.get(&id) {
                    Some(m) => m.duplicate(),
                    None => {
                        proof {
                            assert(false);
                        }
                        BlogMeta::new()
                    },
                };
                match str2blog(buf, &meta) {
                    Ok(b) => {
                        if !b.ignored {
                            let ghost pre_blogs = self.inner.blogs@;
                            self.inner.indexs.push((b.meta.timestamp, id));
                            assert(self.inner.indexs.len() == old(self).inner.len + 1);
                            self.inner.len = self.inner.len + 1;
                            let ghost bv = b@;
                            self.inner.blogs.insert(id, b);
                            proof {
                                assert(blog_map_view(self.inner.blogs@) =~= blog_map_view(
                                    pre_blogs,
                                ).insert(id, bv));
                            }
                        }
                        true
                    },
                    Err(_) => true,
                }
            },
        }
    }
}

/// The store and index are untouched.
pub open spec fn cache_unchanged(pre: Parser, post: Parser) -> bool {
    &&& post.inner.blogs == pre.inner.blogs
    &&& post.inner.indexs == pre.inner.indexs
    &&& post.inner.len == pre.inner.len
}

/// The transition `load_step` makes: the attempt counter for the
/// identity is bumped whatever happened; only a nonempty fetched text
/// whose parse succeeds with a record that is not ignored changes the
/// store, appending (timestamp, identity) to the display index and
/// caching the record under the identity.
pub open spec fn absorbed(pre: Parser, post: Parser, id: u64, fetched: Option<Seq<u8>>) -> bool {
    &&& post.inner.records@ == pre.inner.records@.insert(
        id,
        sat_count(attempts_of(pre.inner.records@, id), 1),
    )
    &&& post.metas == pre.metas
    &&& post.ids == pre.ids
    &&& post.paths == pre.paths
    &&& post.offset == pre.offset
    &&& post.order == pre.order
    &&& post.parsed == pre.parsed
    &&& post.display == pre.display
    &&& match fetched {
        None => cache_unchanged(pre, post),
        Some(buf) => {
            if buf.len() == 0 {
                cache_unchanged(pre, post)
            } else {
                match spec_str2blog(buf, pre.metas@[id]@) {
                    Ok(bv) => if !bv.ignored {
                        &&& post.inner.indexs@ == pre.inner.indexs@.push((bv.meta.timestamp, id))
                        &&& blog_map_view(post.inner.blogs@) == blog_map_view(
                            pre.inner.blogs@,
                        ).insert(id, bv)
                        &&& post.inner.len == pre.inner.len + 1
                    } else {
                        cache_unchanged(pre, post)
                    },
                    Err(_) => cache_unchanged(pre, post),
                }
            }
        },
    }
}

/// A restartable cursor over the display index.
pub struct Iter {
    pub pos: usize,
}

impl Iter {
    /// A fresh cursor at the front of the index.
    pub fn new(data: &InnerParser) -> (r: Self)
        ensures
            r.pos == 0,
    {
        Iter { pos: 0 }
    }

    /// The record at the cursor, advancing it; the end of the index
    /// yields nothing and leaves the cursor alone.
    pub fn next<'a>(&mut self, data: &'a InnerParser) -> (r: Option<&'a Blog>)
        requires
            data.wf(),
        ensures
            match r {
                Some(b) => {
                    &&& old(self).pos < data.indexs@.len()
                    &&& *b == data.blogs@[data.indexs@[old(self).pos as int].1]
                    &&& final(self).pos == old(self).pos + 1
                },
                None => old(self).pos >= data.indexs@.len() && final(self).pos == old(self).pos,
            },
    {
        if self.pos < data.indexs.len() {
            let id = data.indexs[self.pos].1;
            self.pos = self.pos + 1;
            match data.blogs.get(&id) {
                Some(b) => Some(b),
                None => {
                    proof {
                        assert(false);
                    }
                    None
                },
            }
        } else {
            None
        }
    }
}

} // verus!
