//! Byte-level scanning primitives: substring search, decimal digit runs, and
//! substring replacement.  Markup from the content portal is ASCII-framed, so
//! every grammar in this crate is stated over byte sequences.

use vstd::prelude::*;

verus! {

/// True when `pat` occurs in `hay` starting at position `i`.
pub open spec fn match_at(hay: Seq<u8>, pat: Seq<u8>, i: int) -> bool {
    &&& 0 <= i
    &&& i + pat.len() <= hay.len()
    &&& hay.subrange(i, i + pat.len()) == pat
}

/// Position of the first occurrence of `pat` in `hay` at or after `from`.
pub open spec fn spec_find(hay: Seq<u8>, pat: Seq<u8>, from: nat) -> Option<nat>
    decreases hay.len() + 1 - from,
{
    if from + pat.len() > hay.len() {
        None
    } else if hay.subrange(from as int, from + pat.len() as int) == pat {
        Some(from)
    } else {
        spec_find(hay, pat, from + 1)
    }
}

/// `spec_find` returns the first match: a found position matches, every
/// earlier position at or after `from` does not, and `None` means there is no
/// match anywhere at or after `from`.
pub proof fn lemma_find_first(hay: Seq<u8>, pat: Seq<u8>, from: nat)
    ensures
        match spec_find(hay, pat, from) {
            Some(i) => {
                &&& from <= i
                &&& match_at(hay, pat, i as int)
                &&& forall|j: int| from <= j < i ==> !match_at(hay, pat, j)
            },
            None => forall|j: int| from <= j ==> !match_at(hay, pat, j),
        },
    decreases hay.len() + 1 - from,
{
    if from + pat.len() > hay.len() {
        assert forall|j: int| from <= j implies !match_at(hay, pat, j) by {}
    } else if hay.subrange(from as int, from + pat.len() as int) == pat {
    } else {
        lemma_find_first(hay, pat, from + 1);
    }
}

/// Compares `pat` against `hay` at position `at`.
pub fn eq_at(hay: &[u8], pat: &[u8], at: usize) -> (r: bool)
    requires
        at + pat@.len() <= hay@.len(),
    ensures
        r == match_at(hay@, pat@, at as int),
{
    let hay_len = hay.len();
    let pat_len = pat.len();
    let mut k: usize = 0;
    let mut j: usize = at;
    while k < pat_len
        invariant
            hay_len == hay@.len(),
            pat_len == pat@.len(),
            at + pat@.len() <= hay@.len(),
            k <= pat@.len(),
            j == at + k,
            forall|m: int| 0 <= m < k ==> hay@[at + m] == pat@[m],
        decreases pat@.len() - k,
    {
        if hay[j] != pat[k] {
            proof {
                assert(hay@.subrange(at as int, at + pat@.len())[k as int] == hay@[at + k]);
            }
            return false;
        }
        k += 1;
        j += 1;
    }
    proof {
        assert(hay@.subrange(at as int, at + pat@.len()) =~= pat@);
    }
    true
}

/// First occurrence of `pat` in `hay` at or after `from`, as `spec_find`
/// describes it.
pub fn find_from(hay: &[u8], pat: &[u8], from: usize) -> (r: Option<usize>)
    ensures
        match r {
            Some(i) => spec_find(hay@, pat@, from as nat) == Some(i as nat),
            None => spec_find(hay@, pat@, from as nat) is None,
        },
{
    let hay_len = hay.len();
    let pat_len = pat.len();
    if pat_len > hay_len || from > hay_len - pat_len {
        return None;
    }
    if pat_len == 0 {
        proof {
            assert(hay@.subrange(from as int, from as int) =~= pat@);
        }
        return Some(from);
    }
    let end = hay_len - pat_len;
    let mut i = from;
    while i <= end
        invariant
            hay_len == hay@.len(),
            pat_len == pat@.len(),
            1 <= pat_len <= hay_len,
            end == hay_len - pat_len,
            from <= i,
            i <= end + 1,
            spec_find(hay@, pat@, from as nat) == spec_find(hay@, pat@, i as nat),
        decreases end + 1 - i,
    {
        if eq_at(hay, pat, i) {
            return Some(i);
        }
        i += 1;
    }
    proof {
        assert(spec_find(hay@, pat@, i as nat) is None);
    }
    None
}

/// True when `hay` starts with `pat`.
pub fn starts_with(hay: &[u8], pat: &[u8]) -> (r: bool)
    ensures
        r == match_at(hay@, pat@, 0),
{
    if pat.len() > hay.len() {
        return false;
    }
    eq_at(hay, pat, 0)
}

/// True when the two byte strings are equal.
pub fn bytes_eq(a: &[u8], b: &[u8]) -> (r: bool)
    ensures
        r == (a@ == b@),
{
    if a.len() != b.len() {
        return false;
    }
    let r = eq_at(a, b, 0);
    proof {
        assert(a@.subrange(0, b@.len() as int) =~= a@);
    }
    r
}

/// Appends all of `s` to `out`.
pub fn push_all(out: &mut Vec<u8>, s: &[u8])
    ensures
        final(out)@ == old(out)@ + s@,
{
    let s_len = s.len();
    let mut k: usize = 0;
    while k < s_len
        invariant
            s_len == s@.len(),
            k <= s_len,
            out@ == old(out)@ + s@.subrange(0, k as int),
        decreases s_len - k,
    {
        out.push(s[k]);
        proof {
            assert(old(out)@ + s@.subrange(0, k + 1) =~= (old(out)@ + s@.subrange(0, k as int)).push(
                s@[k as int],
            ));
        }
        k += 1;
    }
    proof {
        assert(s@.subrange(0, s@.len() as int) =~= s@);
    }
}

/// True when `b` is an ASCII decimal digit.
pub open spec fn is_digit(b: u8) -> bool {
    0x30 <= b <= 0x39
}

/// Numeric value of a run of decimal digits, most significant first.
pub open spec fn digits_value(s: Seq<u8>) -> int
    decreases s.len(),
{
    if s.len() == 0 {
        0
    } else {
        digits_value(s.drop_last()) * 10 + (s.last() - 0x30)
    }
}

/// First position at or after `from` that does not hold a decimal digit.
pub open spec fn digit_run_end(hay: Seq<u8>, from: nat) -> nat
    decreases hay.len() + 1 - from,
{
    if from < hay.len() && is_digit(hay[from as int]) {
        digit_run_end(hay, from + 1)
    } else {
        from
    }
}

/// The value of a run of digits is nonnegative and does not shrink when more
/// digits follow.
pub proof fn lemma_digits_value_bounds(s: Seq<u8>, k: int)
    requires
        0 <= k <= s.len(),
        forall|m: int| 0 <= m < s.len() ==> is_digit(#[trigger] s[m]),
    ensures
        0 <= digits_value(s.subrange(0, k)) <= digits_value(s),
    decreases s.len() - k,
{
    if k == s.len() {
        assert(s.subrange(0, k) =~= s);
        lemma_digits_value_nonneg(s);
    } else {
        lemma_digits_value_bounds(s, k + 1);
        let t = s.subrange(0, k + 1);
        assert(t.drop_last() =~= s.subrange(0, k));
        lemma_digits_value_nonneg(s.subrange(0, k));
    }
}

/// The value of a run of digits is nonnegative.
pub proof fn lemma_digits_value_nonneg(s: Seq<u8>)
    requires
        forall|m: int| 0 <= m < s.len() ==> is_digit(#[trigger] s[m]),
    ensures
        digits_value(s) >= 0,
    decreases s.len(),
{
    if s.len() > 0 {
        lemma_digits_value_nonneg(s.drop_last());
    }
}

/// Reads the run of decimal digits beginning at `from` and returns its value
/// together with the position just past the run.  `None` exactly when no digit
/// stands at `from` or the run's value does not fit in `u32`.
pub fn parse_u32_run(hay: &[u8], from: usize) -> (r: Option<(u32, usize)>)
    requires
        from <= hay@.len(),
    ensures
        match r {
            Some(p) => {
                &&& p.1 == digit_run_end(hay@, from as nat)
                &&& from < p.1 <= hay@.len()
                &&& p.0 == digits_value(hay@.subrange(from as int, p.1 as int))
            },
            None => from == hay@.len() || !is_digit(hay@[from as int]) || digits_value(
                hay@.subrange(from as int, digit_run_end(hay@, from as nat) as int),
            ) > u32::MAX,
        },
{
    let hay_len = hay.len();
    if from == hay_len || hay[from] < 0x30 || hay[from] > 0x39 {
        return None;
    }
    let mut i = from;
    let mut v: u32 = 0;
    let ghost run_end = digit_run_end(hay@, from as nat);
    proof {
        lemma_digit_run_end(hay@, from as nat);
    }
    while i < hay_len && hay[i] >= 0x30 && hay[i] <= 0x39
        invariant
            hay_len == hay@.len(),
            from <= i <= hay_len,
            run_end == digit_run_end(hay@, from as nat),
            from <= run_end <= hay_len,
            forall|m: int| from <= m < run_end ==> is_digit(#[trigger] hay@[m]),
            run_end == hay_len || !is_digit(hay@[run_end as int]),
            i <= run_end,
            i == run_end || is_digit(hay@[i as int]),
            v == digits_value(hay@.subrange(from as int, i as int)),
        decreases hay_len - i,
    {
        let d = hay[i] - 0x30;
        if v > (u32::MAX - d as u32) / 10 {
            proof {
                let run = hay@.subrange(from as int, run_end as int);
                let pre = hay@.subrange(from as int, i + 1);
                assert(pre =~= run.subrange(0, i + 1 - from));
                assert(pre.drop_last() =~= hay@.subrange(from as int, i as int));
                assert(forall|m: int| 0 <= m < run.len() ==> is_digit(#[trigger] run[m]));
                lemma_digits_value_bounds(run, i + 1 - from);
                assert(digits_value(pre) == v * 10 + d);
                assert(digits_value(pre) > u32::MAX);
            }
            return None;
        }
        proof {
            let pre = hay@.subrange(from as int, i + 1);
            assert(pre.drop_last() =~= hay@.subrange(from as int, i as int));
            assert(digits_value(pre) == v * 10 + (hay@[i as int] - 0x30));
        }
        v = v * 10 + d as u32;
        i += 1;
    }
    proof {
        assert(i == run_end);
    }
    Some((v, i))
}

/// Every position of the digit run up to `digit_run_end` holds a digit, and
/// the run ends at the sequence's end or just before a non-digit.
pub proof fn lemma_digit_run_end(hay: Seq<u8>, from: nat)
    requires
        from <= hay.len(),
    ensures
        from <= digit_run_end(hay, from) <= hay.len(),
        forall|m: int| from <= m < digit_run_end(hay, from) ==> is_digit(#[trigger] hay[m]),
        digit_run_end(hay, from) == hay.len() || !is_digit(hay[digit_run_end(hay, from) as int]),
    decreases hay.len() + 1 - from,
{
    if from < hay.len() && is_digit(hay[from as int]) {
        lemma_digit_run_end(hay, from + 1);
    }
}

/// Decimal digits of a nonnegative number, most significant first.
pub open spec fn dec_digits(n: int) -> Seq<u8>
    decreases n,
{
    if n < 10 {
        seq![(0x30 + if n >= 0 { n } else { 0 }) as u8]
    } else {
        dec_digits(n / 10) + seq![(0x30 + n % 10) as u8]
    }
}

/// Writes `n` in decimal.
pub fn u32_to_dec(n: u32) -> (r: Vec<u8>)
    ensures
        r@ == dec_digits(n as int),
    decreases n,
{
    let mut out: Vec<u8>;
    if n < 10 {
        out = Vec::new();
        out.push(0x30 + n as u8);
        proof {
            assert(out@ =~= dec_digits(n as int));
        }
    } else {
        let q = n / 10;
        proof {
            assert(q < n) by (nonlinear_arith)
                requires
                    n >= 10,
                    q == n / 10,
            ;
        }
        out = u32_to_dec(q);
        out.push(0x30 + (n % 10) as u8);
        proof {
            assert(out@ =~= dec_digits((n / 10) as int) + seq![(0x30 + n as int % 10) as u8]);
            assert(out@ =~= dec_digits(n as int));
        }
    }
    out
}

/// Lower-cases one ASCII byte.
pub open spec fn lower_byte(b: u8) -> u8 {
    if 0x41 <= b <= 0x5a {
        (b + 0x20) as u8
    } else {
        b
    }
}

/// Lower-cases an ASCII byte string.
pub open spec fn lower_seq(s: Seq<u8>) -> Seq<u8> {
    s.map_values(|b: u8| lower_byte(b))
}

/// Upper-cases one ASCII byte.
pub open spec fn upper_byte(b: u8) -> u8 {
    if 0x61 <= b <= 0x7a {
        (b - 0x20) as u8
    } else {
        b
    }
}

/// Upper-cases an ASCII byte string.
pub open spec fn upper_seq(s: Seq<u8>) -> Seq<u8> {
    s.map_values(|b: u8| upper_byte(b))
}

/// Upper-cases a byte string.
pub fn to_upper(s: &[u8]) -> (r: Vec<u8>)
    ensures
        r@ == upper_seq(s@),
{
    let s_len = s.len();
    let mut out: Vec<u8> = Vec::new();
    let mut k: usize = 0;
    while k < s_len
        invariant
            s_len == s@.len(),
            k <= s_len,
            out@.len() == k,
            forall|m: int| 0 <= m < k ==> out@[m] == upper_byte(s@[m]),
        decreases s_len - k,
    {
        let b = s[k];
        if 0x61 <= b && b <= 0x7a {
            out.push(b - 0x20);
        } else {
            out.push(b);
        }
        k += 1;
    }
    proof {
        assert(out@ =~= upper_seq(s@));
    }
    out
}

/// True when the two byte strings agree up to ASCII case.
pub fn bytes_eq_nocase(a: &[u8], b: &[u8]) -> (r: bool)
    ensures
        r == (lower_seq(a@) == lower_seq(b@)),
{
    let a_len = a.len();
    if a_len != b.len() {
        proof {
            assert(lower_seq(a@).len() == a@.len());
            assert(lower_seq(b@).len() == b@.len());
        }
        return false;
    }
    let mut k: usize = 0;
    while k < a_len
        invariant
            a_len == a@.len(),
            a@.len() == b@.len(),
            k <= a_len,
            forall|m: int| 0 <= m < k ==> lower_byte(a@[m]) == lower_byte(b@[m]),
        decreases a_len - k,
    {
        let mut x = a[k];
        let mut y = b[k];
        if 0x41 <= x && x <= 0x5a {
            x = x + 0x20;
        }
        if 0x41 <= y && y <= 0x5a {
            y = y + 0x20;
        }
        if x != y {
            proof {
                assert(lower_seq(a@)[k as int] == lower_byte(a@[k as int]));
                assert(lower_seq(b@)[k as int] == lower_byte(b@[k as int]));
            }
            return false;
        }
        k += 1;
    }
    proof {
        assert(lower_seq(a@) =~= lower_seq(b@));
    }
    true
}

/// `s` with every occurrence of `pat` replaced by `rep`, scanning left to
/// right; a replaced stretch is not rescanned.
pub open spec fn spec_replace(s: Seq<u8>, pat: Seq<u8>, rep: Seq<u8>) -> Seq<u8>
    decreases s.len(),
{
    if pat.len() == 0 || s.len() < pat.len() {
        s
    } else if s.subrange(0, pat.len() as int) == pat {
        rep + spec_replace(s.skip(pat.len() as int), pat, rep)
    } else {
        seq![s[0]] + spec_replace(s.skip(1), pat, rep)
    }
}

/// Replaces every occurrence of `pat` in `s` by `rep`, as `spec_replace`
/// describes it.
pub fn replace_all(s: &[u8], pat: &[u8], rep: &[u8]) -> (r: Vec<u8>)
    requires
        pat@.len() >= 1,
    ensures
        r@ == spec_replace(s@, pat@, rep@),
{
    let s_len = s.len();
    let pat_len = pat.len();
    let mut out: Vec<u8> = Vec::new();
    let mut i: usize = 0;
    proof {
        assert(s@.skip(0) =~= s@);
        assert(out@ + spec_replace(s@, pat@, rep@) =~= spec_replace(s@, pat@, rep@));
    }
    while i < s_len
        invariant
            s_len == s@.len(),
            pat_len == pat@.len(),
            pat_len >= 1,
            i <= s_len,
            spec_replace(s@, pat@, rep@) == out@ + spec_replace(s@.skip(i as int), pat@, rep@),
        decreases s_len - i,
    {
        let ghost tail = s@.skip(i as int);
        if pat_len <= s_len - i && eq_at(s, pat, i) {
            push_all(&mut out, rep);
            proof {
                assert(tail.subrange(0, pat@.len() as int) =~= s@.subrange(
                    i as int,
                    i + pat@.len(),
                ));
                assert(tail.skip(pat@.len() as int) =~= s@.skip(i + pat@.len()));
                assert(spec_replace(tail, pat@, rep@) == rep@ + spec_replace(
                    s@.skip(i + pat@.len()),
                    pat@,
                    rep@,
                ));
            }
            i += pat_len;
        } else {
            out.push(s[i]);
            proof {
                if i + pat@.len() <= s@.len() {
                    assert(tail.subrange(0, pat@.len() as int) =~= s@.subrange(
                        i as int,
                        i + pat@.len(),
                    ));
                }
                assert(tail.skip(1) =~= s@.skip(i + 1));
                assert(spec_replace(tail, pat@, rep@) == seq![tail[0]] + spec_replace(
                    s@.skip(i + 1),
                    pat@,
                    rep@,
                ));
                assert(tail[0] == s@[i as int]);
            }
            i += 1;
        }
    }
    proof {
        assert(s@.skip(s@.len() as int) =~= Seq::<u8>::empty());
        assert(spec_replace(Seq::<u8>::empty(), pat@, rep@) == Seq::<u8>::empty());
        assert(out@ + Seq::<u8>::empty() =~= out@);
        assert(s@.skip(0) =~= s@);
    }
    out
}

/// Copies the range `[from, to)` of `s` into a fresh vector.
pub fn copy_range(s: &[u8], from: usize, to: usize) -> (r: Vec<u8>)
    requires
        from <= to <= s@.len(),
    ensures
        r@ == s@.subrange(from as int, to as int),
{
    let mut out: Vec<u8> = Vec::new();
    let mut k = from;
    while k < to
        invariant
            from <= k <= to <= s@.len(),
            out@ == s@.subrange(from as int, k as int),
        decreases to - k,
    {
        out.push(s[k]);
        proof {
            assert(s@.subrange(from as int, k + 1) =~= s@.subrange(from as int, k as int).push(
                s@[k as int],
            ));
        }
        k += 1;
    }
    out
}

} // verus!
