//! The date-run grammar: a run of 2-4 digits (the year) followed by two to
//! five further groups of 1-2 digits, each introduced by a single non-digit
//! separator.  A leftmost match is selected, exactly as the catalog's
//! filename and date-field contracts describe it, and the groups are folded
//! into an approximate, order-preserving timestamp.

use vstd::prelude::*;
use crate::bytes::is_digit;
use crate::bytes::digit;

verus! {

/// A sequence of machine words seen as the mathematical integers it holds.
pub open spec fn ints_of(q: Seq<usize>) -> Seq<int> {
    Seq::new(q.len(), |j: int| q[j] as int)
}

/// A sequence of 64-bit words seen as the mathematical integers it holds.
pub open spec fn ints64_of(q: Seq<u64>) -> Seq<int> {
    Seq::new(q.len(), |j: int| q[j] as int)
}

/// Length of the maximal digit run starting at `i`.
pub open spec fn run_len(s: Seq<u8>, i: int) -> int
    decreases s.len() - i,
{
    if i < 0 || i >= s.len() || !is_digit(s[i]) {
        0
    } else {
        1 + run_len(s, i + 1)
    }
}

pub proof fn lemma_run_len(s: Seq<u8>, i: int)
    requires
        0 <= i <= s.len(),
    ensures
        0 <= run_len(s, i) <= s.len() - i,
        forall|j: int| i <= j < i + run_len(s, i) ==> is_digit(s[j]),
        i + run_len(s, i) < s.len() ==> !is_digit(s[i + run_len(s, i)]),
    decreases s.len() - i,
{
    if i < s.len() && is_digit(s[i]) {
        lemma_run_len(s, i + 1);
    }
}

fn run_at(s: &Vec<u8>, i: usize) -> (r: usize)
    requires
        i <= s.len(),
    ensures
        r == run_len(s@, i as int),
        i + r <= s.len(),
{
    let mut j: usize = i;
    loop
        invariant
            i <= j <= s.len(),
            run_len(s@, i as int) == j - i + run_len(s@, j as int),
        decreases s.len() - j,
    {
        if j >= s.len() || !digit(s[j]) {
            return j - i;
        }
        j = j + 1;
    }
}

/// Numeric value of the digit span `[a, b)`.
pub open spec fn num_val(s: Seq<u8>, a: int, b: int) -> int
    decreases b - a,
{
    if a >= b {
        0
    } else {
        num_val(s, a, b - 1) * 10 + (s[b - 1] - 48)
    }
}

pub open spec fn pow10(n: int) -> int
    decreases n,
{
    if n <= 0 {
        1
    } else {
        10 * pow10(n - 1)
    }
}

pub proof fn lemma_num_val_bound(s: Seq<u8>, a: int, b: int)
    requires
        0 <= a <= b <= s.len(),
        forall|j: int| a <= j < b ==> is_digit(s[j]),
    ensures
        0 <= num_val(s, a, b) < pow10(b - a),
    decreases b - a,
{
    if a < b {
        lemma_num_val_bound(s, a, b - 1);
    }
}

/// Digit spans of at most four places stay below 10000.
pub proof fn lemma_num_val_small(s: Seq<u8>, a: int, b: int)
    requires
        0 <= a <= b <= s.len(),
        b - a <= 4,
        forall|j: int| a <= j < b ==> is_digit(s[j]),
    ensures
        0 <= num_val(s, a, b) < 10000,
        b - a <= 2 ==> num_val(s, a, b) < 100,
{
    lemma_num_val_bound(s, a, b);
    assert(pow10(0) == 1);
    assert(pow10(1) == 10);
    assert(pow10(2) == 100);
    assert(pow10(3) == 1000);
    assert(pow10(4) == 10000);
}

fn to_num(s: &Vec<u8>, a: usize, b: usize) -> (r: u64)
    requires
        a <= b <= s.len(),
        b - a <= 4,
        forall|j: int| a <= j < b ==> is_digit(s@[j]),
    ensures
        r == num_val(s@, a as int, b as int),
        r < 10000,
{
    proof {
        lemma_num_val_small(s@, a as int, b as int);
    }
    let mut acc: u64 = 0;
    let mut j: usize = a;
    while j < b
        invariant
            a <= j <= b <= s.len(),
            b - a <= 4,
            forall|k: int| a <= k < b ==> is_digit(s@[k]),
            acc == num_val(s@, a as int, j as int),
            acc < 10000,
        decreases b - j,
    {
        proof {
            lemma_num_val_small(s@, a as int, j + 1);
        }
        acc = acc * 10 + ((s[j] - 48) as u64);
        j = j + 1;
    }
    acc
}

/// One further group: a single separator byte at `pos` followed by a digit
/// run of length `r >= 1`, of which the group takes `min(r, 2)` digits.
/// Yields the end of the taken digits and the full run length.
pub open spec fn grp(s: Seq<u8>, pos: int) -> Option<(int, int)> {
    if pos < 0 || pos >= s.len() {
        None
    } else {
        let r = run_len(s, pos + 1);
        if r == 0 {
            None
        } else if r > 2 {
            Some((pos + 3, r))
        } else {
            Some((pos + 1 + r, r))
        }
    }
}

pub proof fn lemma_grp(s: Seq<u8>, pos: int)
    requires
        0 <= pos <= s.len(),
    ensures
        grp(s, pos) is Some ==> {
            let (e, r) = grp(s, pos)->0;
            &&& pos + 2 <= e <= pos + 3
            &&& e <= s.len()
            &&& r >= 1
            &&& e - (pos + 1) <= 2
            &&& forall|j: int| pos + 1 <= j < e ==> is_digit(s[j])
            &&& (r <= 2 && e < s.len() ==> !is_digit(s[e]))
        },
{
    if pos < s.len() {
        lemma_run_len(s, pos + 1);
    }
}

fn grp_at(s: &Vec<u8>, pos: usize) -> (r: Option<(usize, usize)>)
    requires
        pos <= s.len(),
    ensures
        match r {
            Some(p) => grp(s@, pos as int) == Some((p.0 as int, p.1 as int)) && pos < p.0
                <= s.len(),
            None => grp(s@, pos as int) is None,
        },
{
    if pos >= s.len() {
        return None;
    }
    let r = run_at(s, pos + 1);
    proof {
        lemma_run_len(s@, pos + 1);
    }
    if r == 0 {
        None
    } else if r > 2 {
        Some((pos + 3, r))
    } else {
        Some((pos + 1 + r, r))
    }
}

/// Optional groups four to six, taken greedily; a run longer than two
/// digits ends the date after the group that it starts.
pub open spec fn opt_groups(s: Seq<u8>, pos: int, g: int) -> Seq<int>
    decreases 6 - g,
{
    if g >= 6 {
        Seq::empty()
    } else {
        match grp(s, pos) {
            None => Seq::empty(),
            Some((e, r)) => if r > 2 {
                seq![e]
            } else {
                seq![e] + opt_groups(s, e, g + 1)
            },
        }
    }
}

/// The date run starting exactly at `i`: year run of 2-4 digits, two
/// mandatory groups, then optional groups.  Yields the end position of
/// every group.
pub open spec fn date_at(s: Seq<u8>, i: int) -> Option<Seq<int>> {
    let y = run_len(s, i);
    if i < 0 || i > s.len() || y < 2 || y > 4 {
        None
    } else {
        match grp(s, i + y) {
            None => None,
            Some((e2, r2)) => if r2 > 2 {
                None
            } else {
                match grp(s, e2) {
                    None => None,
                    Some((e3, r3)) => if r3 > 2 {
                        Some(seq![i + y, e2, e3])
                    } else {
                        Some(seq![i + y, e2, e3] + opt_groups(s, e3, 3))
                    },
                }
            },
        }
    }
}

/// Start of the digits of group `j`, given the group ends.
pub open spec fn group_start(i: int, ends: Seq<int>, j: int) -> int {
    if j == 0 {
        i
    } else {
        ends[j - 1] + 1
    }
}

/// The six numeric components: values of the matched groups, zero beyond
/// the `k` groups that are in use.
pub open spec fn comps_of(s: Seq<u8>, i: int, ends: Seq<int>, k: int) -> Seq<int> {
    Seq::new(6, |j: int| if j < k { num_val(s, group_start(i, ends, j), ends[j]) } else { 0 })
}

/// The approximate timestamp: weighted sum of the components, with the
/// year offset applied when the year reads below 100.
pub open spec fn timestamp_of(comps: Seq<int>, y_off: int) -> int {
    let y = if comps[0] < 100 {
        comps[0] + y_off
    } else {
        comps[0]
    };
    y * 31536000 + comps[1] * 2592000 + comps[2] * 86400 + comps[3] * 3600 + comps[4] * 60
        + comps[5]
}

pub proof fn lemma_opt_groups(s: Seq<u8>, pos: int, g: int)
    requires
        0 <= pos <= s.len(),
        3 <= g,
    ensures
        opt_groups(s, pos, g).len() <= if 6 - g >= 0 { 6 - g } else { 0 },
        forall|j: int|
            0 <= j < opt_groups(s, pos, g).len() ==> {
                let e = #[trigger] opt_groups(s, pos, g)[j];
                let p = if j == 0 { pos } else { opt_groups(s, pos, g)[j - 1] };
                &&& p + 2 <= e <= s.len()
                &&& e - (p + 1) <= 2
                &&& forall|m: int| p + 1 <= m < e ==> is_digit(s[m])
            },
    decreases 6 - g,
{
    if g < 6 {
        match grp(s, pos) {
            None => {},
            Some((e, r)) => {
                lemma_grp(s, pos);
                if r <= 2 {
                    lemma_opt_groups(s, e, g + 1);
                    let q = opt_groups(s, pos, g);
                    let q2 = opt_groups(s, e, g + 1);
                    assert forall|j: int| 0 <= j < q.len() implies {
                        let ej = #[trigger] q[j];
                        let p = if j == 0 { pos } else { q[j - 1] };
                        &&& p + 2 <= ej <= s.len()
                        &&& ej - (p + 1) <= 2
                        &&& forall|m: int| p + 1 <= m < ej ==> is_digit(s[m])
                    } by {
                        if j >= 1 {
                            assert(q[j] == q2[j - 1]);
                            if j >= 2 {
                                assert(q[j - 1] == q2[j - 2]);
                            }
                        }
                    }
                }
            },
        }
    }
}

/// Shape facts of a successful date match: group ends are ordered, spans
/// are short, and every group is made of digits.
pub proof fn lemma_date_at(s: Seq<u8>, i: int)
    requires
        0 <= i <= s.len(),
        date_at(s, i) is Some,
    ensures
        ({
            let ends = date_at(s, i)->0;
            &&& 3 <= ends.len() <= 6
            &&& 2 <= run_len(s, i) <= 4
            &&& ends[0] == i + run_len(s, i)
            &&& forall|j: int|
                0 <= j < ends.len() ==> {
                    let p = #[trigger] group_start(i, ends, j);
                    &&& i <= p <= ends[j] <= s.len()
                    &&& ends[j] - p <= 4
                    &&& (j >= 1 ==> ends[j] - p <= 2)
                    &&& (j >= 1 ==> ends[j - 1] < ends[j])
                    &&& forall|m: int| p <= m < ends[j] ==> is_digit(s[m])
                }
        }),
{
    let y = run_len(s, i);
    lemma_run_len(s, i);
    let ends = date_at(s, i)->0;
    let (e2, r2) = grp(s, i + y)->0;
    lemma_grp(s, i + y);
    let (e3, r3) = grp(s, e2)->0;
    lemma_grp(s, e2);
    if r3 > 2 {
    } else {
        lemma_opt_groups(s, e3, 3);
        let q = opt_groups(s, e3, 3);
        assert forall|j: int| 3 <= j < ends.len() implies {
            let p = #[trigger] group_start(i, ends, j);
            &&& i <= p <= ends[j] <= s.len()
            &&& ends[j] - p <= 2
            &&& ends[j - 1] < ends[j]
            &&& forall|m: int| p <= m < ends[j] ==> is_digit(s[m])
        } by {
            assert(ends[j] == q[j - 3]);
            if j >= 4 {
                assert(ends[j - 1] == q[j - 4]);
            }
        }
    }
}

/// The numeric components of a date match are small: the year below
/// 10000, every later component below 100.
pub proof fn lemma_comps_small(s: Seq<u8>, i: int, k: int)
    requires
        0 <= i <= s.len(),
        date_at(s, i) is Some,
        0 <= k <= date_at(s, i)->0.len(),
    ensures
        ({
            let c = comps_of(s, i, date_at(s, i)->0, k);
            &&& c.len() == 6
            &&& 0 <= c[0] < 10000
            &&& forall|j: int| 1 <= j < 6 ==> 0 <= #[trigger] c[j] < 100
        }),
{
    lemma_date_at(s, i);
    let ends = date_at(s, i)->0;
    let c = comps_of(s, i, ends, k);
    if k > 0 {
        lemma_num_val_small(s, group_start(i, ends, 0), ends[0]);
    }
    assert forall|j: int| 1 <= j < 6 implies 0 <= #[trigger] c[j] < 100 by {
        if j < k {
            lemma_num_val_small(s, group_start(i, ends, j), ends[j]);
        }
    }
}

/// The weighted sum stays far below the 64-bit bound.
pub proof fn lemma_timestamp_bound(comps: Seq<int>, y_off: int)
    requires
        comps.len() == 6,
        0 <= comps[0] < 10000,
        forall|j: int| 1 <= j < 6 ==> 0 <= #[trigger] comps[j] < 100,
        0 <= y_off <= 2000,
    ensures
        0 <= timestamp_of(comps, y_off) < 0x60000000000,
{
}

/// Executable twin of `date_at`: the group ends of the date run starting
/// at `i`, if one starts there.
pub fn date_at_exec(s: &Vec<u8>, i: usize) -> (r: Option<Vec<usize>>)
    requires
        i <= s.len(),
    ensures
        match r {
            Some(ends) => {
                &&& date_at(s@, i as int) == Some(ints_of(ends@))
                &&& 3 <= ends.len() <= 6
                &&& forall|j: int| 0 <= j < ends.len() ==> #[trigger] ends@[j] <= s.len()
            },
            None => date_at(s@, i as int) is None,
        },
{
    let y = run_at(s, i);
    if y < 2 || y > 4 {
        return None;
    }
    let g2 = grp_at(s, i + y);
    if g2.is_none() {
        return None;
    }
    let (e2, r2) = g2.unwrap();
    if r2 > 2 {
        return None;
    }
    let g3 = grp_at(s, e2);
    if g3.is_none() {
        return None;
    }
    let (e3, r3) = g3.unwrap();
    let mut ends: Vec<usize> = vec![i + y, e2, e3];
    assert(ints_of(ends@) =~= seq![i + y as int, e2 as int, e3 as int]);
    if r3 > 2 {
        assert(date_at(s@, i as int) == Some(ints_of(ends@)));
        return Some(ends);
    }
    let mut pos = e3;
    let mut g: usize = 3;
    loop
        invariant
            3 <= g <= 6,
            pos <= s.len(),
            ends.len() == g,
            forall|j: int| 0 <= j < ends.len() ==> #[trigger] ends@[j] <= s.len(),
            date_at(s@, i as int) == Some(
                ints_of(ends@) + opt_groups(s@, pos as int, g as int),
            ),
        decreases 6 - g,
    {
        if g >= 6 {
            assert(opt_groups(s@, pos as int, g as int) =~= Seq::<int>::empty());
            assert(ints_of(ends@) + opt_groups(s@, pos as int, g as int) =~= ints_of(ends@));
            return Some(ends);
        }
        let gn = grp_at(s, pos);
        if gn.is_none() {
            assert(ints_of(ends@) + opt_groups(s@, pos as int, g as int) =~= ints_of(ends@));
            return Some(ends);
        }
        let (e, r) = gn.unwrap();
        let ghost olds = ends@;
        ends.push(e);
        assert(ints_of(ends@) =~= ints_of(olds).push(e as int));
        if r > 2 {
            assert(opt_groups(s@, pos as int, g as int) =~= seq![e as int]);
            assert(ints_of(olds) + opt_groups(s@, pos as int, g as int) =~= ints_of(ends@));
            return Some(ends);
        }
        assert(opt_groups(s@, pos as int, g as int) =~= seq![e as int] + opt_groups(
            s@,
            e as int,
            g + 1,
        ));
        assert(ints_of(olds) + opt_groups(s@, pos as int, g as int) =~= ints_of(ends@)
            + opt_groups(s@, e as int, g + 1));
        pos = e;
        g = g + 1;
    }
}

/// First position at or after `i` where a date run starts.
pub open spec fn first_date(s: Seq<u8>, i: int) -> Option<int>
    decreases s.len() - i,
{
    if i < 0 || i >= s.len() {
        None
    } else if date_at(s, i) is Some {
        Some(i)
    } else {
        first_date(s, i + 1)
    }
}

/// The timestamp that the leftmost date run of `s` resolves to, using all
/// of its groups, with the given year offset.
pub open spec fn spec_extract(s: Seq<u8>, y_off: int) -> Option<u64> {
    match first_date(s, 0) {
        None => None,
        Some(i) => {
            let ends = date_at(s, i)->0;
            Some(timestamp_of(comps_of(s, i, ends, ends.len() as int), y_off) as u64)
        },
    }
}

/// Values of the used groups, padded with zeros to six entries.
pub fn comps_exec(s: &Vec<u8>, i: usize, ends: &Vec<usize>, k: usize) -> (r: Vec<u64>)
    requires
        i <= s.len(),
        date_at(s@, i as int) == Some(ints_of(ends@)),
        k <= ends.len(),
    ensures
        ints64_of(r@) =~= comps_of(s@, i as int, ints_of(ends@), k as int),
        r.len() == 6,
        r@[0] < 10000,
        forall|j: int| 1 <= j < 6 ==> #[trigger] r@[j] < 100,
{
    proof {
        lemma_date_at(s@, i as int);
        lemma_comps_small(s@, i as int, k as int);
    }
    let mut r: Vec<u64> = Vec::new();
    let mut j: usize = 0;
    while j < 6
        invariant
            j <= 6,
            i <= s.len(),
            k <= ends.len(),
            date_at(s@, i as int) == Some(ints_of(ends@)),
            r.len() == j,
            forall|m: int|
                0 <= m < j ==> r@[m] == comps_of(s@, i as int, ints_of(ends@), k as int)[m],
        decreases 6 - j,
    {
        let ghost gends = ints_of(ends@);
        proof {
            lemma_date_at(s@, i as int);
        }
        if j < k {
            let a = if j == 0 {
                i
            } else {
                assert(group_start(i as int, gends, j as int) == gends[j - 1] + 1);
                assert(gends[j - 1] < gends[j as int] <= s.len());
                ends[j - 1] + 1
            };
            let b = ends[j];
            assert(a as int == group_start(i as int, gends, j as int));
            assert(a <= b <= s.len() && b - a <= 4) by {
                assert(gends[j as int] == ends@[j as int] as int);
            }
            let v = to_num(s, a, b);
            r.push(v);
            assert(r@[j as int] == comps_of(s@, i as int, gends, k as int)[j as int]);
        } else {
            r.push(0);
            assert(r@[j as int] == comps_of(s@, i as int, gends, k as int)[j as int]);
        }
        j = j + 1;
    }
    proof {
        lemma_comps_small(s@, i as int, k as int);
        assert(ints64_of(r@) =~= comps_of(s@, i as int, ints_of(ends@), k as int));
    }
    r
}

/// Weighted sum of the components.
pub fn ts_from_comps(comps: &Vec<u64>, y_off: u64) -> (r: u64)
    requires
        comps.len() == 6,
        comps@[0] < 10000,
        forall|j: int| 1 <= j < 6 ==> #[trigger] comps@[j] < 100,
        y_off <= 2000,
    ensures
        r == timestamp_of(ints64_of(comps@), y_off as int) as u64,
        r == timestamp_of(ints64_of(comps@), y_off as int),
{
    let c0 = comps[0];
    let y = if c0 < 100 {
        c0 + y_off
    } else {
        c0
    };
    let r = y * 31536000 + comps[1] * 2592000 + comps[2] * 86400 + comps[3] * 3600 + comps[4] * 60
        + comps[5];
    proof {
        let gc = ints64_of(comps@);
        assert(gc[0] == comps@[0] as int);
        assert(gc[1] == comps@[1] as int);
        assert(gc[2] == comps@[2] as int);
        assert(gc[3] == comps@[3] as int);
        assert(gc[4] == comps@[4] as int);
        assert(gc[5] == comps@[5] as int);
    }
    r
}

/// Scans `s` for its leftmost date run and resolves the timestamp, the
/// way the catalog reads dates out of filenames and date fields.
pub fn extract_timestamp(s: &Vec<u8>, y_off: u64) -> (r: Option<u64>)
    requires
        y_off <= 2000,
    ensures
        r == spec_extract(s@, y_off as int),
{
    let mut i: usize = 0;
    loop
        invariant
            i <= s.len(),
            y_off <= 2000,
            first_date(s@, 0) == first_date(s@, i as int),
        decreases s.len() - i,
    {
        if i >= s.len() {
            return None;
        }
        let d = date_at_exec(s, i);
        match d {
            Some(ends) => {
                let k = ends.len();
                let comps = comps_exec(s, i, &ends, k);
                let t = ts_from_comps(&comps, y_off);
                return Some(t);
            },
            None => {
                assert(first_date(s@, i as int) == first_date(s@, i + 1));
                i = i + 1;
            },
        }
    }
}

} // verus!
