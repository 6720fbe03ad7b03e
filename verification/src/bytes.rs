//! Byte-level primitives shared by the filename and front-matter grammars:
//! character classes, searching, trimming, slicing and decimal rendering,
//! each with a spec twin that the executable code is proved against.

use vstd::prelude::*;

verus! {

/// ASCII decimal digit.
pub open spec fn is_digit(b: u8) -> bool {
    48 <= b <= 57
}

/// ASCII whitespace as the grammars use it: tab, LF, VT, FF, CR and space.
pub open spec fn is_ws(b: u8) -> bool {
    b == 32 || (9 <= b <= 13)
}

/// Word byte: letter, digit or underscore; the shape of a metadata key.
pub open spec fn is_word(b: u8) -> bool {
    is_digit(b) || (65 <= b <= 90) || (97 <= b <= 122) || b == 95
}

pub fn digit(b: u8) -> (r: bool)
    ensures
        r == is_digit(b),
{
    48 <= b && b <= 57
}

pub fn ws(b: u8) -> (r: bool)
    ensures
        r == is_ws(b),
{
    b == 32 || (9 <= b && b <= 13)
}

pub fn word(b: u8) -> (r: bool)
    ensures
        r == is_word(b),
{
    (48 <= b && b <= 57) || (65 <= b && b <= 90) || (97 <= b && b <= 122) || b == 95
}

/// A sequence of byte strings seen as the sequences it holds.
pub open spec fn seqs_of(q: Seq<Vec<u8>>) -> Seq<Seq<u8>> {
    Seq::new(q.len(), |j: int| q[j]@)
}

/// An `Option<usize>` result seen as the mathematical option it stands for.
pub open spec fn opt_int(o: Option<usize>) -> Option<int> {
    match o {
        Some(u) => Some(u as int),
        None => None,
    }
}

/// Copy of the byte range `[a, b)` of `s`.
pub fn subvec(s: &Vec<u8>, a: usize, b: usize) -> (r: Vec<u8>)
    requires
        a <= b <= s.len(),
    ensures
        r@ == s@.subrange(a as int, b as int),
{
    let mut r: Vec<u8> = Vec::new();
    let mut i: usize = a;
    while i < b
        invariant
            a <= i <= b <= s.len(),
            r@ == s@.subrange(a as int, i as int),
        decreases b - i,
    {
        r.push(s[i]);
        i = i + 1;
        assert(r@ =~= s@.subrange(a as int, i as int));
    }
    r
}

/// The two byte strings hold the same bytes.
pub fn bytes_eq(a: &Vec<u8>, b: &Vec<u8>) -> (r: bool)
    ensures
        r == (a@ == b@),
{
    if a.len() != b.len() {
        assert(a@ != b@) by {
            assert(a@.len() != b@.len());
        }
        return false;
    }
    let mut i: usize = 0;
    while i < a.len()
        invariant
            i <= a.len(),
            a.len() == b.len(),
            forall|j: int| 0 <= j < i ==> a@[j] == b@[j],
        decreases a.len() - i,
    {
        if a[i] != b[i] {
            return false;
        }
        i = i + 1;
    }
    assert(a@ =~= b@);
    true
}

/// `pat` occurs in `s` at position `i`.
pub open spec fn is_match_at(s: Seq<u8>, pat: Seq<u8>, i: int) -> bool {
    0 <= i && i + pat.len() <= s.len() && s.subrange(i, i + pat.len()) == pat
}

pub fn match_at(s: &Vec<u8>, pat: &Vec<u8>, i: usize) -> (r: bool)
    requires
        i <= s.len(),
        pat.len() <= s.len() - i,
    ensures
        r == is_match_at(s@, pat@, i as int),
{
    let mut j: usize = 0;
    while j < pat.len()
        invariant
            j <= pat.len(),
            i <= s.len(),
            pat.len() <= s.len() - i,
            forall|k: int| 0 <= k < j ==> s@[i + k] == pat@[k],
        decreases pat.len() - j,
    {
        if s[i + j] != pat[j] {
            assert(s@.subrange(i as int, i + pat@.len()) != pat@) by {
                assert(s@.subrange(i as int, i + pat@.len())[j as int] != pat@[j as int]);
            }
            return false;
        }
        j = j + 1;
    }
    assert(s@.subrange(i as int, i + pat@.len()) =~= pat@);
    true
}

/// First occurrence of `pat` in `s` at or after position `i`.
pub open spec fn find_sub_from(s: Seq<u8>, pat: Seq<u8>, i: int) -> Option<int>
    decreases s.len() - i + 1,
{
    if i < 0 || i + pat.len() > s.len() {
        None
    } else if is_match_at(s, pat, i) {
        Some(i)
    } else {
        find_sub_from(s, pat, i + 1)
    }
}

pub fn find_sub(s: &Vec<u8>, pat: &Vec<u8>, from: usize) -> (r: Option<usize>)
    requires
        from <= s.len(),
        pat.len() >= 1,
    ensures
        opt_int(r) == find_sub_from(s@, pat@, from as int),
        r is Some ==> from <= r->0 && r->0 + pat.len() <= s.len(),
    decreases s.len() - from,
{
    let mut i: usize = from;
    loop
        invariant
            from <= i <= s.len(),
            pat.len() >= 1,
            find_sub_from(s@, pat@, from as int) == find_sub_from(s@, pat@, i as int),
        decreases s.len() - i,
    {
        if pat.len() > s.len() - i {
            return None;
        }
        if match_at(s, pat, i) {
            return Some(i);
        }
        assert(find_sub_from(s@, pat@, i as int) == find_sub_from(s@, pat@, i + 1));
        i = i + 1;
    }
}

/// First occurrence of the byte `b` in `s` at or after position `i`.
pub open spec fn find_byte_from(s: Seq<u8>, b: u8, i: int) -> Option<int>
    decreases s.len() - i,
{
    if i < 0 || i >= s.len() {
        None
    } else if s[i] == b {
        Some(i)
    } else {
        find_byte_from(s, b, i + 1)
    }
}

pub fn find_byte(s: &Vec<u8>, b: u8, from: usize) -> (r: Option<usize>)
    requires
        from <= s.len(),
    ensures
        opt_int(r) == find_byte_from(s@, b, from as int),
        r is Some ==> from <= r->0 && r->0 < s.len(),
    decreases s.len() - from,
{
    let mut i: usize = from;
    loop
        invariant
            from <= i <= s.len(),
            find_byte_from(s@, b, from as int) == find_byte_from(s@, b, i as int),
        decreases s.len() - i,
    {
        if i >= s.len() {
            return None;
        }
        if s[i] == b {
            return Some(i);
        }
        assert(find_byte_from(s@, b, i as int) == find_byte_from(s@, b, i + 1));
        i = i + 1;
    }
}

/// Index of the first non-whitespace byte at or after `i`, or the length.
pub open spec fn ws_run_end(s: Seq<u8>, i: int) -> int
    decreases s.len() - i,
{
    if i < 0 || i >= s.len() || !is_ws(s[i]) {
        i
    } else {
        ws_run_end(s, i + 1)
    }
}

pub proof fn lemma_ws_run_end_bounds(s: Seq<u8>, i: int)
    requires
        0 <= i <= s.len(),
    ensures
        i <= ws_run_end(s, i) <= s.len(),
        forall|j: int| i <= j < ws_run_end(s, i) ==> is_ws(s[j]),
        ws_run_end(s, i) < s.len() ==> !is_ws(s[ws_run_end(s, i)]),
    decreases s.len() - i,
{
    if i < s.len() && is_ws(s[i]) {
        lemma_ws_run_end_bounds(s, i + 1);
    }
}

pub fn skip_ws(s: &Vec<u8>, from: usize) -> (r: usize)
    requires
        from <= s.len(),
    ensures
        r == ws_run_end(s@, from as int),
        from <= r <= s.len(),
    decreases s.len() - from,
{
    let mut i: usize = from;
    loop
        invariant
            from <= i <= s.len(),
            ws_run_end(s@, from as int) == ws_run_end(s@, i as int),
        decreases s.len() - i,
    {
        if i >= s.len() {
            return i;
        }
        if !ws(s[i]) {
            return i;
        }
        i = i + 1;
    }
}

/// End of the trailing-whitespace run that finishes at position `j` going
/// backwards: the least `e <= j` with only whitespace in `[e, j)`.
pub open spec fn ws_back_end(s: Seq<u8>, j: int) -> int
    decreases j,
{
    if j <= 0 || j > s.len() || !is_ws(s[j - 1]) {
        j
    } else {
        ws_back_end(s, j - 1)
    }
}

/// A non-whitespace byte below `j` keeps the backward run from passing it.
pub proof fn lemma_ws_back_end_stops(s: Seq<u8>, j: int, k: int)
    requires
        0 <= k < j <= s.len(),
        !is_ws(s[k]),
    ensures
        ws_back_end(s, j) > k,
    decreases j,
{
    if j > 0 && is_ws(s[j - 1]) {
        lemma_ws_back_end_stops(s, j - 1, k);
    }
}

fn skip_ws_back(s: &Vec<u8>, to: usize) -> (r: usize)
    requires
        to <= s.len(),
    ensures
        r == ws_back_end(s@, to as int),
        r <= to,
    decreases to,
{
    let mut j: usize = to;
    loop
        invariant
            j <= to <= s.len(),
            ws_back_end(s@, to as int) == ws_back_end(s@, j as int),
        decreases j,
    {
        if j == 0 {
            return j;
        }
        if !ws(s[j - 1]) {
            return j;
        }
        j = j - 1;
    }
}

/// `s` with leading and trailing whitespace removed.
pub open spec fn spec_trim(s: Seq<u8>) -> Seq<u8> {
    let a = ws_run_end(s, 0);
    if a == s.len() {
        Seq::empty()
    } else {
        s.subrange(a, ws_back_end(s, s.len() as int))
    }
}

pub fn trim(s: &Vec<u8>) -> (r: Vec<u8>)
    ensures
        r@ == spec_trim(s@),
{
    let a = skip_ws(s, 0);
    if a == s.len() {
        let r: Vec<u8> = Vec::new();
        assert(r@ =~= spec_trim(s@));
        return r;
    }
    let b = skip_ws_back(s, s.len());
    proof {
        lemma_ws_run_end_bounds(s@, 0);
        lemma_ws_back_end_stops(s@, s@.len() as int, a as int);
    }
    subvec(s, a, b)
}

/// Index of the first non-word byte at or after `i`, or the length.
pub open spec fn word_run_end(s: Seq<u8>, i: int) -> int
    decreases s.len() - i,
{
    if i < 0 || i >= s.len() || !is_word(s[i]) {
        i
    } else {
        word_run_end(s, i + 1)
    }
}

pub proof fn lemma_word_run_end_bounds(s: Seq<u8>, i: int)
    requires
        0 <= i <= s.len(),
    ensures
        i <= word_run_end(s, i) <= s.len(),
        forall|j: int| i <= j < word_run_end(s, i) ==> is_word(s[j]),
        word_run_end(s, i) < s.len() ==> !is_word(s[word_run_end(s, i)]),
    decreases s.len() - i,
{
    if i < s.len() && is_word(s[i]) {
        lemma_word_run_end_bounds(s, i + 1);
    }
}

pub fn skip_word(s: &Vec<u8>, from: usize) -> (r: usize)
    requires
        from <= s.len(),
    ensures
        r == word_run_end(s@, from as int),
        from <= r <= s.len(),
    decreases s.len() - from,
{
    let mut i: usize = from;
    loop
        invariant
            from <= i <= s.len(),
            word_run_end(s@, from as int) == word_run_end(s@, i as int),
        decreases s.len() - i,
    {
        if i >= s.len() {
            return i;
        }
        if !word(s[i]) {
            return i;
        }
        i = i + 1;
    }
}

/// Decimal rendering of a number, most significant digit first.
pub open spec fn dec_u64(n: u64) -> Seq<u8>
    decreases n,
{
    if n < 10 {
        seq![(48 + n) as u8]
    } else {
        dec_u64(n / 10).push((48 + n % 10) as u8)
    }
}

pub fn render_u64(n: u64) -> (r: Vec<u8>)
    ensures
        r@ == dec_u64(n),
    decreases n,
{
    if n < 10 {
        let r: Vec<u8> = vec![48 + (n as u8)];
        assert(r@ =~= dec_u64(n));
        r
    } else {
        let mut r = render_u64(n / 10);
        r.push(48 + ((n % 10) as u8));
        r
    }
}

} // verus!
