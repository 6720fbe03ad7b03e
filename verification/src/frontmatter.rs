//! The front-matter grammar: a metadata block is read line by line into
//! key/value pairs, a tag list, and a cursor that carries multi-line
//! continuations, exactly as the document format describes it.

use vstd::prelude::*;
use crate::bytes::is_word;
use crate::bytes::is_ws;
use crate::bytes::word;
use crate::bytes::ws;
use crate::bytes::word_run_end;
use crate::bytes::ws_run_end;
use crate::bytes::lemma_word_run_end_bounds;
use crate::bytes::skip_word;
use crate::bytes::skip_ws;
use crate::bytes::spec_trim;
use crate::bytes::trim;
use crate::bytes::subvec;
use crate::bytes::bytes_eq;
use crate::bytes::find_byte_from;
use crate::bytes::find_byte;
use crate::bytes::opt_int;
use crate::bytes::seqs_of;

verus! {

/// The metadata key that opens the tag list.
pub open spec fn lit_tags() -> Seq<u8> {
    seq![116u8, 97, 103, 115]
}

pub fn lit_tags_vec() -> (r: Vec<u8>)
    ensures
        r@ == lit_tags(),
{
    let r: Vec<u8> = vec![116, 97, 103, 115];
    assert(r@ =~= lit_tags());
    r
}

/// Key/value pairs seen as the sequences they hold.
pub open spec fn pairs_of(q: Seq<(Vec<u8>, Vec<u8>)>) -> Seq<(Seq<u8>, Seq<u8>)> {
    Seq::new(q.len(), |j: int| (q[j].0@, q[j].1@))
}

/// Index of the first pair whose key is `k`.
pub open spec fn kv_find(ps: Seq<(Seq<u8>, Seq<u8>)>, k: Seq<u8>) -> Option<int>
    decreases ps.len(),
{
    if ps.len() == 0 {
        None
    } else if ps[0].0 == k {
        Some(0)
    } else {
        match kv_find(ps.drop_first(), k) {
            None => None,
            Some(i) => Some(i + 1),
        }
    }
}

pub proof fn lemma_kv_find(ps: Seq<(Seq<u8>, Seq<u8>)>, k: Seq<u8>)
    ensures
        match kv_find(ps, k) {
            None => forall|j: int| 0 <= j < ps.len() ==> (#[trigger] ps[j]).0 != k,
            Some(i) => 0 <= i < ps.len() && ps[i].0 == k && forall|j: int|
                0 <= j < i ==> (#[trigger] ps[j]).0 != k,
        },
    decreases ps.len(),
{
    if ps.len() > 0 && ps[0].0 != k {
        lemma_kv_find(ps.drop_first(), k);
        assert forall|j: int| 1 <= j < ps.len() implies ps.drop_first()[j - 1] == ps[j] by {}
    }
}

/// Value stored under `k`, if any.
pub open spec fn kv_get(ps: Seq<(Seq<u8>, Seq<u8>)>, k: Seq<u8>) -> Option<Seq<u8>> {
    match kv_find(ps, k) {
        None => None,
        Some(i) => Some(ps[i].1),
    }
}

/// Stores `v` under `k`: overwrites the first pair with that key, or
/// appends a new pair.
pub open spec fn kv_set(ps: Seq<(Seq<u8>, Seq<u8>)>, k: Seq<u8>, v: Seq<u8>) -> Seq<
    (Seq<u8>, Seq<u8>),
> {
    match kv_find(ps, k) {
        None => ps.push((k, v)),
        Some(i) => ps.update(i, (k, v)),
    }
}

/// Concatenates `suffix` onto the value under `k`; no change when the
/// key is absent.
pub open spec fn kv_append(ps: Seq<(Seq<u8>, Seq<u8>)>, k: Seq<u8>, suffix: Seq<u8>) -> Seq<
    (Seq<u8>, Seq<u8>),
> {
    match kv_find(ps, k) {
        None => ps,
        Some(i) => ps.update(i, (ps[i].0, ps[i].1 + suffix)),
    }
}

fn kv_index(ps: &Vec<(Vec<u8>, Vec<u8>)>, k: &Vec<u8>) -> (r: Option<usize>)
    ensures
        opt_int(r) == kv_find(pairs_of(ps@), k@),
        r is Some ==> r->0 < ps.len(),
{
    let mut i: usize = 0;
    while i < ps.len()
        invariant
            i <= ps.len(),
            forall|j: int| 0 <= j < i ==> (#[trigger] pairs_of(ps@)[j]).0 != k@,
        decreases ps.len() - i,
    {
        proof {
            lemma_kv_find(pairs_of(ps@), k@);
        }
        if bytes_eq(&ps[i].0, k) {
            assert(pairs_of(ps@)[i as int].0 == k@);
            return Some(i);
        }
        assert(pairs_of(ps@)[i as int].0 != k@);
        i = i + 1;
    }
    proof {
        lemma_kv_find(pairs_of(ps@), k@);
    }
    None
}

/// Copy of the value stored under `k`.
fn kv_lookup(ps: &Vec<(Vec<u8>, Vec<u8>)>, k: &Vec<u8>) -> (r: Option<Vec<u8>>)
    ensures
        match r {
            Some(v) => kv_get(pairs_of(ps@), k@) == Some(v@),
            None => kv_get(pairs_of(ps@), k@) is None,
        },
{
    match kv_index(ps, k) {
        Some(i) => {
            let v = subvec(&ps[i].1, 0, ps[i].1.len());
            assert(v@ =~= pairs_of(ps@)[i as int].1);
            Some(v)
        },
        None => None,
    }
}

fn kv_put(ps: &mut Vec<(Vec<u8>, Vec<u8>)>, k: Vec<u8>, v: Vec<u8>)
    ensures
        pairs_of(final(ps)@) == kv_set(pairs_of(old(ps)@), k@, v@),
{
    match kv_index(ps, &k) {
        Some(i) => {
            ps[i] = (k, v);
            assert(pairs_of(ps@) =~= kv_set(pairs_of(old(ps)@), k@, v@));
        },
        None => {
            ps.push((k, v));
            assert(pairs_of(ps@) =~= kv_set(pairs_of(old(ps)@), k@, v@));
        },
    }
}

fn kv_extend(ps: &mut Vec<(Vec<u8>, Vec<u8>)>, k: &Vec<u8>, suffix: &Vec<u8>)
    ensures
        pairs_of(final(ps)@) == kv_append(pairs_of(old(ps)@), k@, suffix@),
{
    match kv_index(ps, k) {
        Some(i) => {
            let key = subvec(&ps[i].0, 0, ps[i].0.len());
            let mut val = subvec(&ps[i].1, 0, ps[i].1.len());
            let mut suf = subvec(suffix, 0, suffix.len());
            val.append(&mut suf);
            assert(key@ =~= pairs_of(old(ps)@)[i as int].0);
            assert(val@ =~= pairs_of(old(ps)@)[i as int].1 + suffix@);
            ps[i] = (key, val);
            assert(pairs_of(ps@) =~= kv_append(pairs_of(old(ps)@), k@, suffix@));
        },
        None => {},
    }
}

/// A `key: value` shape starting exactly at `i`: a word run, optional
/// whitespace, then a colon.  Yields the run end and the colon position.
pub open spec fn key_here(s: Seq<u8>, i: int) -> Option<(int, int)> {
    if 0 <= i < s.len() && is_word(s[i]) {
        let e = word_run_end(s, i);
        let w = ws_run_end(s, e);
        if w < s.len() && s[w] == 58 {
            Some((e, w))
        } else {
            None
        }
    } else {
        None
    }
}

/// Leftmost `key: value` shape in the line: key start, key end, colon.
pub open spec fn key_scan(s: Seq<u8>, i: int) -> Option<(int, int, int)>
    decreases s.len() - i,
{
    if i < 0 || i >= s.len() {
        None
    } else {
        match key_here(s, i) {
            Some((e, w)) => Some((i, e, w)),
            None => key_scan(s, i + 1),
        }
    }
}

fn key_scan_exec(s: &Vec<u8>) -> (r: Option<(usize, usize, usize)>)
    ensures
        match r {
            Some(t) => key_scan(s@, 0) == Some((t.0 as int, t.1 as int, t.2 as int)) && t.0 < t.1
                <= t.2 < s.len(),
            None => key_scan(s@, 0) is None,
        },
{
    let mut i: usize = 0;
    loop
        invariant
            i <= s.len(),
            key_scan(s@, 0) == key_scan(s@, i as int),
        decreases s.len() - i,
    {
        if i >= s.len() {
            return None;
        }
        if word(s[i]) {
            proof {
                lemma_word_run_end_bounds(s@, i as int);
            }
            let e = skip_word(s, i);
            let w = skip_ws(s, e);
            if w < s.len() && s[w] == 58 {
                return Some((i, e, w));
            }
        }
        assert(key_scan(s@, i as int) == key_scan(s@, i + 1));
        i = i + 1;
    }
}

/// First dash that a whitespace byte follows: the shape of a tag item.
pub open spec fn dash_scan(s: Seq<u8>, i: int) -> Option<int>
    decreases s.len() - i,
{
    if i < 0 || i + 1 >= s.len() {
        None
    } else if s[i] == 45 && is_ws(s[i + 1]) {
        Some(i)
    } else {
        dash_scan(s, i + 1)
    }
}

fn dash_scan_exec(s: &Vec<u8>) -> (r: Option<usize>)
    ensures
        match r {
            Some(q) => dash_scan(s@, 0) == Some(q as int) && q + 1 < s.len(),
            None => dash_scan(s@, 0) is None,
        },
{
    let mut i: usize = 0;
    loop
        invariant
            i <= s.len(),
            dash_scan(s@, 0) == dash_scan(s@, i as int),
        decreases s.len() - i,
    {
        if i >= s.len() || i + 1 >= s.len() {
            return None;
        }
        if s[i] == 45 && ws(s[i + 1]) {
            return Some(i);
        }
        assert(dash_scan(s@, i as int) == dash_scan(s@, i + 1));
        i = i + 1;
    }
}

/// The mathematical state of the line fold.
pub ghost struct FmView {
    pub pairs: Seq<(Seq<u8>, Seq<u8>)>,
    pub tags: Seq<Seq<u8>>,
    pub cursor: Option<Seq<u8>>,
}

/// Running state of the front-matter reader: stored pairs, the tag list,
/// and the key that continuation lines attach to.
pub struct FmState {
    pub pairs: Vec<(Vec<u8>, Vec<u8>)>,
    pub tags: Vec<Vec<u8>>,
    pub cursor: Option<Vec<u8>>,
}

impl View for FmState {
    type V = FmView;

    open spec fn view(&self) -> FmView {
        FmView {
            pairs: pairs_of(self.pairs@),
            tags: seqs_of(self.tags@),
            cursor: match self.cursor {
                Some(c) => Some(c@),
                None => None,
            },
        }
    }
}

/// The empty state that the fold starts from.
pub open spec fn fm_init() -> FmView {
    FmView { pairs: Seq::empty(), tags: Seq::empty(), cursor: None }
}

/// One line of the metadata block.  A blank line resets the cursor; a
/// `key: value` line stores the trimmed value (the tags key only moves
/// the cursor); under the tags cursor a dash line appends a tag; under
/// any other cursor the trimmed line is concatenated onto the stored
/// value; everything else is dropped.
pub open spec fn fm_step(st: FmView, line: Seq<u8>) -> FmView {
    if spec_trim(line).len() == 0 {
        FmView { cursor: None, ..st }
    } else {
        match key_scan(line, 0) {
            Some((ks, ke, w)) => {
                let k = line.subrange(ks, ke);
                if k == lit_tags() {
                    FmView { cursor: Some(k), ..st }
                } else {
                    FmView {
                        pairs: kv_set(st.pairs, k, spec_trim(line.subrange(w + 1, line.len() as int))),
                        cursor: Some(k),
                        ..st
                    }
                }
            },
            None => match st.cursor {
                Some(c) => {
                    if c == lit_tags() {
                        match dash_scan(line, 0) {
                            Some(q) => FmView {
                                tags: st.tags.push(
                                    spec_trim(
                                        line.subrange(ws_run_end(line, q + 1), line.len() as int),
                                    ),
                                ),
                                ..st
                            },
                            None => st,
                        }
                    } else {
                        FmView { pairs: kv_append(st.pairs, c, spec_trim(line)), ..st }
                    }
                },
                None => st,
            },
        }
    }
}

fn fm_step_exec(st: &mut FmState, line: &Vec<u8>)
    ensures
        final(st)@ == fm_step(old(st)@, line@),
{
    let t = trim(line);
    if t.len() == 0 {
        st.cursor = None;
        return ;
    }
    match key_scan_exec(line) {
        Some((ks, ke, w)) => {
            let k = subvec(line, ks, ke);
            let tagsl = lit_tags_vec();
            if bytes_eq(&k, &tagsl) {
                st.cursor = Some(k);
            } else {
                let rawv = subvec(line, w + 1, line.len());
                let v = trim(&rawv);
                let kc = subvec(&k, 0, k.len());
                assert(kc@ =~= k@);
                kv_put(&mut st.pairs, k, v);
                st.cursor = Some(kc);
            }
        },
        None => {
            let cur = match &st.cursor {
                Some(c) => Some(subvec(c, 0, c.len())),
                None => None,
            };
            match cur {
                Some(c) => {
                    assert(match old(st)@.cursor {
                        Some(cv) => cv == c@,
                        None => false,
                    });
                    let tagsl = lit_tags_vec();
                    if bytes_eq(&c, &tagsl) {
                        match dash_scan_exec(line) {
                            Some(q) => {
                                let ts = skip_ws(line, q + 1);
                                let rest = subvec(line, ts, line.len());
                                let tag = trim(&rest);
                                st.tags.push(tag);
                                assert(seqs_of(st.tags@) =~= old(st)@.tags.push(
                                    spec_trim(
                                        line@.subrange(
                                            ws_run_end(line@, q + 1),
                                            line@.len() as int,
                                        ),
                                    ),
                                ));
                            },
                            None => {},
                        }
                    } else {
                        kv_extend(&mut st.pairs, &c, &t);
                    }
                },
                None => {},
            }
        },
    }
}

/// End of the line that starts at `i`: the next newline, or the end of
/// the text (clamped into `[i, len]`).
pub open spec fn line_end(s: Seq<u8>, i: int) -> int {
    let j = match find_byte_from(s, 10, i) {
        None => s.len() as int,
        Some(j) => j,
    };
    if j < i {
        i
    } else if j > s.len() {
        s.len() as int
    } else {
        j
    }
}

/// The whole metadata block, folded line by line from the given state.
pub open spec fn fm_fold(s: Seq<u8>, i: int, st: FmView) -> FmView
    decreases s.len() - i + 1,
{
    if i < 0 || i > s.len() {
        st
    } else {
        fm_fold(s, line_end(s, i) + 1, fm_step(st, s.subrange(i, line_end(s, i))))
    }
}

/// Reads a metadata block into its pairs, tags and final cursor.
pub fn parse_block(s: &Vec<u8>) -> (st: FmState)
    ensures
        st@ == fm_fold(s@, 0, fm_init()),
{
    let mut st = FmState { pairs: Vec::new(), tags: Vec::new(), cursor: None };
    proof {
        assert(pairs_of(st.pairs@) =~= Seq::<(Seq<u8>, Seq<u8>)>::empty());
        assert(seqs_of(st.tags@) =~= Seq::<Seq<u8>>::empty());
    }
    let mut i: usize = 0;
    loop
        invariant
            i <= s.len(),
            fm_fold(s@, 0, fm_init()) == fm_fold(s@, i as int, st@),
        decreases s.len() - i,
    {
        match find_byte(s, 10, i) {
            Some(j) => {
                assert(line_end(s@, i as int) == j as int);
                let line = subvec(s, i, j);
                fm_step_exec(&mut st, &line);
                i = j + 1;
            },
            None => {
                assert(line_end(s@, i as int) == s@.len());
                let line = subvec(s, i, s.len());
                fm_step_exec(&mut st, &line);
                assert(fm_fold(s@, s@.len() as int + 1, st@) == st@);
                return st;
            },
        }
    }
}

/// Copy of the value stored under `k` after the fold, for the document
/// parser's required-field checks.
pub fn block_lookup(st: &FmState, k: &Vec<u8>) -> (r: Option<Vec<u8>>)
    ensures
        match r {
            Some(v) => kv_get(st@.pairs, k@) == Some(v@),
            None => kv_get(st@.pairs, k@) is None,
        },
{
    kv_lookup(&st.pairs, k)
}

} // verus!
