//! Verified string helpers for the site adapters: substring search,
//! replacement, case mapping, decimal numbers and URI escaping, all
//! modeled over byte sequences.

use vstd::prelude::*;
use vstd::string::StringSliceAdditionalSpecFns;
use crate::ascii::{ascii_seq, chars_of};

verus! {

/// True when `pat` occurs in `s` at offset `i`.
pub open spec fn match_at(s: Seq<u8>, pat: Seq<u8>, i: int) -> bool {
    &&& 0 <= i
    &&& i + pat.len() <= s.len()
    &&& s.subrange(i, i + pat.len()) == pat
}

/// The first offset at or after `i` where `pat` occurs, if any.
pub open spec fn spec_find_from(s: Seq<u8>, pat: Seq<u8>, i: int) -> Option<int>
    decreases s.len() + 1 - i,
{
    if i < 0 || i + pat.len() > s.len() {
        None
    } else if match_at(s, pat, i) {
        Some(i)
    } else {
        spec_find_from(s, pat, i + 1)
    }
}

/// The first occurrence of `pat` in `s`, if any.
pub open spec fn spec_find(s: Seq<u8>, pat: Seq<u8>) -> Option<int> {
    spec_find_from(s, pat, 0)
}

/// A found offset really carries a match inside the text.
pub proof fn lemma_find_from_some(s: Seq<u8>, pat: Seq<u8>, j: int)
    ensures
        (spec_find_from(s, pat, j) matches Some(i) ==> match_at(s, pat, i) && j <= i),
    decreases s.len() + 1 - j,
{
    if j >= 0 && j + pat.len() <= s.len() && !match_at(s, pat, j) {
        lemma_find_from_some(s, pat, j + 1);
    }
}

/// A found offset is the first: nothing matches before it; and a
/// failed search matches nowhere.
pub proof fn lemma_find_from_first(s: Seq<u8>, pat: Seq<u8>, j: int)
    ensures
        (spec_find_from(s, pat, j) matches Some(i) ==> forall|k: int|
            j <= k < i ==> !match_at(s, pat, k)),
        (j >= 0 && spec_find_from(s, pat, j) is None ==> forall|k: int|
            k >= j ==> !match_at(s, pat, k)),
    decreases s.len() + 1 - j,
{
    if j >= 0 && j + pat.len() <= s.len() && !match_at(s, pat, j) {
        lemma_find_from_first(s, pat, j + 1);
    }
}

/// The token a successful scan returns reads as a positive number.
pub proof fn lemma_first_positive_valid(s: Seq<u8>, cur: Seq<u8>)
    ensures
        (spec_first_positive(s, cur) matches Some(t) ==> spec_token_positive(t)),
    decreases s.len(),
{
    if s.len() == 0 {
    } else if s[0] == 32 {
        if !spec_token_positive(cur) {
            lemma_first_positive_valid(s.drop_first(), Seq::empty());
        }
    } else if (48 <= s[0] && s[0] <= 57) || s[0] == 46 {
        lemma_first_positive_valid(s.drop_first(), cur.push(s[0]));
    } else {
        lemma_first_positive_valid(s.drop_first(), cur);
    }
}

/// The last offset where byte `b` occurs in `s`, if any.
pub open spec fn spec_rfind_byte(s: Seq<u8>, b: u8) -> Option<int>
    decreases s.len(),
{
    if s.len() == 0 {
        None
    } else if s[s.len() - 1] == b {
        Some(s.len() - 1)
    } else {
        spec_rfind_byte(s.take(s.len() - 1), b)
    }
}

/// A found offset of a byte really carries that byte.
pub proof fn lemma_rfind_byte_some(s: Seq<u8>, b: u8)
    ensures
        (spec_rfind_byte(s, b) matches Some(i) ==> 0 <= i < s.len() && s[i] == b),
    decreases s.len(),
{
    if s.len() > 0 && s[s.len() - 1] != b {
        lemma_rfind_byte_some(s.take(s.len() - 1), b);
        match spec_rfind_byte(s.take(s.len() - 1), b) {
            Some(i) => {
                assert(s.take(s.len() - 1)[i] == s[i]);
            },
            None => {},
        }
    }
}

/// Compares two byte ranges.
fn bytes_eq_at(s: &Vec<u8>, i: usize, pat: &Vec<u8>) -> (r: bool)
    requires
        i + pat@.len() <= s@.len(),
    ensures
        r == match_at(s@, pat@, i as int),
{
    let slen = s.len();
    let mut k: usize = 0;
    while k < pat.len()
        invariant
            slen == s@.len(),
            i + pat@.len() <= s@.len(),
            k <= pat@.len(),
            forall|j: int| 0 <= j < k ==> s@[i + j] == pat@[j],
        decreases pat@.len() - k,
    {
        if s[i + k] != pat[k] {
            proof {
                assert(s@.subrange(i as int, i + pat@.len())[k as int] == s@[i + k]);
            }
            return false;
        }
        k += 1;
    }
    proof {
        assert(s@.subrange(i as int, i + pat@.len()) =~= pat@);
    }
    true
}

/// Finds the first occurrence of `pat` in `s`, as [`spec_find`]
/// states.
pub fn find_sub(s: &Vec<u8>, pat: &Vec<u8>) -> (r: Option<usize>)
    ensures
        (r matches Some(i) ==> spec_find(s@, pat@) == Some(i as int)),
        (r is None ==> spec_find(s@, pat@) is None),
{
    if pat.len() > s.len() {
        return None;
    }
    if pat.len() == 0 {
        proof {
            assert(s@.subrange(0, 0) =~= pat@);
        }
        return Some(0);
    }
    let n = s.len() - pat.len();
    let mut i: usize = 0;
    while i <= n
        invariant
            1 <= pat@.len() <= s@.len(),
            n == s@.len() - pat@.len(),
            n < usize::MAX,
            i <= n + 1,
            spec_find(s@, pat@) == spec_find_from(s@, pat@, i as int),
        decreases n + 1 - i,
    {
        if bytes_eq_at(s, i, pat) {
            return Some(i);
        }
        i += 1;
    }
    None
}

/// Finds the last occurrence of byte `b` in `s`, as
/// [`spec_rfind_byte`] states.
pub fn rfind_byte(s: &Vec<u8>, b: u8) -> (r: Option<usize>)
    ensures
        (r matches Some(i) ==> spec_rfind_byte(s@, b) == Some(i as int)),
        (r is None ==> spec_rfind_byte(s@, b) is None),
{
    let mut i: usize = s.len();
    proof {
        assert(s@.take(s@.len() as int) =~= s@);
    }
    while i > 0
        invariant
            i <= s@.len(),
            spec_rfind_byte(s@, b) == spec_rfind_byte(s@.take(i as int), b),
        decreases i,
    {
        i -= 1;
        proof {
            assert(s@.take(i + 1)[i as int] == s@[i as int]);
            assert(s@.take(i + 1).take(i as int) =~= s@.take(i as int));
        }
        if s[i] == b {
            return Some(i);
        }
    }
    proof {
        assert(s@.take(0) =~= Seq::<u8>::empty());
    }
    None
}

/// True when `pat` occurs somewhere in `s`.
pub fn contains_sub(s: &Vec<u8>, pat: &Vec<u8>) -> (r: bool)
    ensures
        r == (spec_find(s@, pat@) is Some),
{
    match find_sub(s, pat) {
        Some(_) => true,
        None => false,
    }
}

/// `s` with every occurrence of `pat` removed, scanning left to
/// right; an empty pattern leaves `s` unchanged.
pub open spec fn spec_remove_all(s: Seq<u8>, pat: Seq<u8>) -> Seq<u8>
    decreases s.len(),
{
    if pat.len() == 0 || s.len() == 0 {
        s
    } else if pat.len() <= s.len() && match_at(s, pat, 0) {
        spec_remove_all(s.skip(pat.len() as int), pat)
    } else {
        seq![s[0]] + spec_remove_all(s.drop_first(), pat)
    }
}

/// Removes every occurrence of `pat` from `s`, as
/// [`spec_remove_all`] states.
pub fn remove_all(s: &Vec<u8>, pat: &Vec<u8>) -> (r: Vec<u8>)
    ensures
        r@ == spec_remove_all(s@, pat@),
{
    let mut r: Vec<u8> = Vec::new();
    if pat.len() == 0 {
        let mut k: usize = 0;
        while k < s.len()
            invariant
                k <= s@.len(),
                r@ =~= s@.take(k as int),
            decreases s@.len() - k,
        {
            r.push(s[k]);
            k += 1;
        }
        proof {
            assert(s@.take(s@.len() as int) =~= s@);
        }
        return r;
    }
    let mut i: usize = 0;
    proof {
        assert(s@.skip(0) =~= s@);
    }
    while i < s.len()
        invariant
            pat@.len() >= 1,
            i <= s@.len(),
            spec_remove_all(s@, pat@) == r@ + spec_remove_all(s@.skip(i as int), pat@),
        decreases s@.len() - i,
    {
        proof {
            assert(s@.skip(i as int)[0] == s@[i as int]);
            assert(s@.skip(i as int).drop_first() =~= s@.skip(i + 1));
        }
        if pat.len() <= s.len() - i && bytes_eq_at(s, i, pat) {
            proof {
                assert(s@.skip(i as int).subrange(0, pat@.len() as int) =~= s@.subrange(
                    i as int,
                    i + pat@.len(),
                ));
                assert(match_at(s@.skip(i as int), pat@, 0));
                assert(s@.skip(i as int).skip(pat@.len() as int) =~= s@.skip(i + pat@.len()));
            }
            i += pat.len();
        } else {
            proof {
                if pat@.len() <= s@.len() - i {
                    assert(s@.skip(i as int).subrange(0, pat@.len() as int) =~= s@.subrange(
                        i as int,
                        i + pat@.len(),
                    ));
                }
                let ghost tail = spec_remove_all(s@.skip(i + 1), pat@);
                assert((r@ + seq![s@[i as int]]) + tail =~= r@ + (seq![s@[i as int]] + tail));
            }
            r.push(s[i]);
            i += 1;
        }
    }
    proof {
        assert(s@.skip(s@.len() as int) =~= Seq::<u8>::empty());
        assert(r@ + Seq::<u8>::empty() =~= r@);
    }
    r
}

/// ASCII upper-casing of one byte.
pub open spec fn spec_upper_byte(b: u8) -> u8 {
    if 97 <= b && b <= 122 {
        (b - 32) as u8
    } else {
        b
    }
}

/// ASCII lower-casing of one byte.
pub open spec fn spec_lower_byte(b: u8) -> u8 {
    if 65 <= b && b <= 90 {
        (b + 32) as u8
    } else {
        b
    }
}

/// ASCII upper-casing of a byte string.
pub open spec fn spec_upper(s: Seq<u8>) -> Seq<u8> {
    s.map_values(|b: u8| spec_upper_byte(b))
}

/// ASCII lower-casing of a byte string.
pub open spec fn spec_lower(s: Seq<u8>) -> Seq<u8> {
    s.map_values(|b: u8| spec_lower_byte(b))
}

/// Upper-cases the ASCII letters of `s`.
pub fn to_upper(s: &Vec<u8>) -> (r: Vec<u8>)
    ensures
        r@ == spec_upper(s@),
{
    let mut r: Vec<u8> = Vec::new();
    let mut i: usize = 0;
    while i < s.len()
        invariant
            i <= s@.len(),
            r@ =~= spec_upper(s@.take(i as int)),
        decreases s@.len() - i,
    {
        let b = s[i];
        proof {
            assert(spec_upper(s@.take(i + 1)) =~= spec_upper(s@.take(i as int)).push(
                spec_upper_byte(s@[i as int]),
            ));
        }
        if 97 <= b && b <= 122 {
            r.push(b - 32);
        } else {
            r.push(b);
        }
        i += 1;
    }
    proof {
        assert(s@.take(s@.len() as int) =~= s@);
    }
    r
}

/// Lower-cases the ASCII letters of `s`.
pub fn to_lower(s: &Vec<u8>) -> (r: Vec<u8>)
    ensures
        r@ == spec_lower(s@),
{
    let mut r: Vec<u8> = Vec::new();
    let mut i: usize = 0;
    while i < s.len()
        invariant
            i <= s@.len(),
            r@ =~= spec_lower(s@.take(i as int)),
        decreases s@.len() - i,
    {
        let b = s[i];
        proof {
            assert(spec_lower(s@.take(i + 1)) =~= spec_lower(s@.take(i as int)).push(
                spec_lower_byte(s@[i as int]),
            ));
        }
        if 65 <= b && b <= 90 {
            r.push(b + 32);
        } else {
            r.push(b);
        }
        i += 1;
    }
    proof {
        assert(s@.take(s@.len() as int) =~= s@);
    }
    r
}

/// True when the two strings spell the same characters.
pub fn str_eq(a: &str, b: &str) -> (r: bool)
    ensures
        r == (a@ == b@),
{
    let sa = String::from_str(a);
    let sb = String::from_str(b);
    sa.eq(&sb)
}

/// The bytes of a string, as a vector.
pub fn str_bytes(s: &str) -> (r: Vec<u8>)
    ensures
        r@ == s.spec_bytes(),
{
    s.as_bytes_vec()
}

/// The decimal digits of a natural number, most significant first.
pub open spec fn spec_dec_digits(n: nat) -> Seq<char>
    decreases n,
{
    if n < 10 {
        seq![((48 + n) as u8) as char]
    } else {
        spec_dec_digits(n / 10).push(((48 + n % 10) as u8) as char)
    }
}

/// The decimal form of an integer, with a leading minus sign when
/// negative.
pub open spec fn spec_dec_int(n: int) -> Seq<char> {
    if n < 0 {
        seq!['-'] + spec_dec_digits((-n) as nat)
    } else {
        spec_dec_digits(n as nat)
    }
}

/// Relies on `itoa::Buffer::format`: it writes exactly the decimal
/// form of the number.
#[verifier::external_body]
pub fn int_to_string(n: i64) -> (r: String)
    ensures
        r@ == spec_dec_int(n as int),
{
    let mut buffer = itoa::Buffer::new();
    String::from(buffer.format(n))
}

/// The numeric value of a run of decimal digit bytes.
pub open spec fn spec_dec_value(s: Seq<u8>) -> nat
    decreases s.len(),
{
    if s.len() == 0 {
        0
    } else {
        (spec_dec_value(s.take(s.len() - 1)) * 10 + (s[s.len() - 1] - 48)) as nat
    }
}

/// Appending a digit multiplies the value by ten and adds it.
pub proof fn lemma_dec_value_push(run: Seq<u8>, d: u8)
    requires
        48 <= d <= 57,
    ensures
        spec_dec_value(run.push(d)) == spec_dec_value(run) * 10 + (d - 48),
{
    assert(run.push(d).take(run.push(d).len() - 1) =~= run);
}

/// True when `s` is a non-empty run of decimal digit bytes.
pub open spec fn spec_all_digits(s: Seq<u8>) -> bool {
    s.len() >= 1 && forall|i: int| 0 <= i < s.len() ==> 48 <= #[trigger] s[i] <= 57
}

/// Parses a run of decimal digits leniently, as the adapters need
/// it: the number's value if `s` is all digits and fits in `usize`,
/// else `default`.
pub fn parse_usize_or(s: &Vec<u8>, default: usize) -> (r: usize)
    ensures
        spec_all_digits(s@) && spec_dec_value(s@) <= usize::MAX ==> r == spec_dec_value(s@),
        !(spec_all_digits(s@) && spec_dec_value(s@) <= usize::MAX) ==> r == default,
{
    if s.len() == 0 {
        return default;
    }
    let mut acc: usize = 0;
    let mut i: usize = 0;
    let mut over = false;
    while i < s.len()
        invariant
            i <= s@.len(),
            forall|j: int| 0 <= j < i ==> 48 <= #[trigger] s@[j] <= 57,
            !over ==> acc == spec_dec_value(s@.take(i as int)),
            over ==> spec_dec_value(s@.take(i as int)) > usize::MAX,
        decreases s@.len() - i,
    {
        let b = s[i];
        if b < 48 || b > 57 {
            return default;
        }
        let d = (b - 48) as usize;
        proof {
            assert(s@.take(i + 1).take(i as int) =~= s@.take(i as int));
            assert(s@.take(i + 1)[i as int] == s@[i as int]);
        }
        if !over {
            if acc > (usize::MAX - d) / 10 {
                proof {
                    assert(acc * 10 + d > usize::MAX) by (nonlinear_arith)
                        requires
                            acc > ((usize::MAX - d) / 10) as int,
                            0 <= d <= 9,
                    ;
                }
                over = true;
            } else {
                proof {
                    assert(acc * 10 + d <= usize::MAX) by (nonlinear_arith)
                        requires
                            acc <= ((usize::MAX - d) / 10) as int,
                            0 <= d <= 9,
                    ;
                }
                acc = acc * 10 + d;
            }
        } else {
            proof {
                assert(spec_dec_value(s@.take(i as int)) * 10 + (s@[i as int] - 48) > usize::MAX)
                    by (nonlinear_arith)
                    requires
                        spec_dec_value(s@.take(i as int)) > usize::MAX,
                        s@[i as int] >= 48,
                ;
            }
        }
        i += 1;
    }
    proof {
        assert(s@.take(s@.len() as int) =~= s@);
    }
    if over {
        default
    } else {
        acc
    }
}

/// Copies the byte range `[from, to)` of `s`.
pub fn sub_bytes(s: &Vec<u8>, from: usize, to: usize) -> (r: Vec<u8>)
    requires
        from <= to <= s@.len(),
    ensures
        r@ == s@.subrange(from as int, to as int),
{
    let mut r: Vec<u8> = Vec::new();
    let mut k: usize = from;
    while k < to
        invariant
            from <= k <= to <= s@.len(),
            r@ =~= s@.subrange(from as int, k as int),
        decreases to - k,
    {
        r.push(s[k]);
        k += 1;
    }
    r
}

/// Splits `s` at every occurrence of `d`, as [`spec_split_byte`]
/// states; there is always at least one piece.
pub fn split_byte(s: &Vec<u8>, d: u8) -> (r: Vec<Vec<u8>>)
    ensures
        r@.map_values(|v: Vec<u8>| v@) == spec_split_byte(s@, d),
        r@.len() >= 1,
{
    let mut segs: Vec<Vec<u8>> = Vec::new();
    let mut rest: Vec<u8> = sub_bytes(s, 0, s.len());
    proof {
        assert(s@.subrange(0, s@.len() as int) =~= s@);
        assert(segs@.map_values(|v: Vec<u8>| v@) =~= Seq::<Seq<u8>>::empty());
    }
    loop
        invariant_except_break
            spec_split_byte(s@, d) == segs@.map_values(|v: Vec<u8>| v@) + spec_split_byte(
                rest@,
                d,
            ),
        ensures
            segs@.map_values(|v: Vec<u8>| v@) == spec_split_byte(s@, d),
            segs@.len() >= 1,
        decreases rest@.len(),
    {
        let mut delim: Vec<u8> = Vec::new();
        delim.push(d);
        proof {
            assert(delim@ =~= seq![d]);
            lemma_find_from_some(rest@, seq![d], 0);
        }
        let ghost segs0 = segs@.map_values(|v: Vec<u8>| v@);
        let n = rest.len();
        match find_sub(&rest, &delim) {
            Some(i) => {
                let piece = sub_bytes(&rest, 0, i);
                let next = sub_bytes(&rest, i + 1, n);
                proof {
                    assert(piece@ =~= rest@.take(i as int));
                    assert(next@ =~= rest@.skip(i + 1));
                    assert((segs0 + seq![rest@.take(i as int)]) + spec_split_byte(
                        rest@.skip(i + 1),
                        d,
                    ) =~= segs0 + (seq![rest@.take(i as int)] + spec_split_byte(
                        rest@.skip(i + 1),
                        d,
                    )));
                }
                segs.push(piece);
                proof {
                    assert(segs@.map_values(|v: Vec<u8>| v@) =~= segs0 + seq![rest@.take(i as int)]);
                }
                rest = next;
            },
            None => {
                let ghost restv = rest@;
                proof {
                    assert((segs0 + seq![restv]) =~= segs0 + spec_split_byte(restv, d));
                }
                segs.push(rest);
                proof {
                    assert(segs@.map_values(|v: Vec<u8>| v@) =~= segs0 + seq![restv]);
                }
                break ;
            },
        }
    }
    segs
}

/// True for ASCII whitespace bytes, as trimming sees them.
pub open spec fn is_ws(b: u8) -> bool {
    b == 32 || (9 <= b && b <= 13)
}

/// Number of leading whitespace bytes.
pub open spec fn spec_trim_lo(s: Seq<u8>) -> int
    decreases s.len(),
{
    if s.len() == 0 {
        0
    } else if is_ws(s[0]) {
        1 + spec_trim_lo(s.drop_first())
    } else {
        0
    }
}

/// End of the text once trailing whitespace is dropped.
pub open spec fn spec_trim_hi(s: Seq<u8>) -> int
    decreases s.len(),
{
    if s.len() == 0 {
        0
    } else if is_ws(s[s.len() - 1]) {
        spec_trim_hi(s.take(s.len() - 1))
    } else {
        s.len() as int
    }
}

/// The text with leading and trailing whitespace dropped.
pub open spec fn spec_trim(s: Seq<u8>) -> Seq<u8> {
    if spec_trim_lo(s) >= spec_trim_hi(s) {
        Seq::empty()
    } else {
        s.subrange(spec_trim_lo(s), spec_trim_hi(s))
    }
}

proof fn lemma_trim_lo_bounds(s: Seq<u8>)
    ensures
        0 <= spec_trim_lo(s) <= s.len(),
        forall|k: int| 0 <= k < spec_trim_lo(s) ==> is_ws(#[trigger] s[k]),
        spec_trim_lo(s) < s.len() ==> !is_ws(s[spec_trim_lo(s)]),
    decreases s.len(),
{
    if s.len() > 0 && is_ws(s[0]) {
        lemma_trim_lo_bounds(s.drop_first());
        assert forall|k: int| 0 <= k < spec_trim_lo(s) implies is_ws(#[trigger] s[k]) by {
            if k > 0 {
                assert(s.drop_first()[k - 1] == s[k]);
            }
        }
        if spec_trim_lo(s) < s.len() {
            assert(s.drop_first()[spec_trim_lo(s) - 1] == s[spec_trim_lo(s)]);
        }
    }
}

proof fn lemma_trim_hi_bounds(s: Seq<u8>)
    ensures
        0 <= spec_trim_hi(s) <= s.len(),
        forall|k: int| spec_trim_hi(s) <= k < s.len() ==> is_ws(#[trigger] s[k]),
        spec_trim_hi(s) > 0 ==> !is_ws(s[spec_trim_hi(s) - 1]),
    decreases s.len(),
{
    if s.len() > 0 && is_ws(s[s.len() - 1]) {
        lemma_trim_hi_bounds(s.take(s.len() - 1));
        assert forall|k: int| spec_trim_hi(s) <= k < s.len() implies is_ws(#[trigger] s[k]) by {
            if k < s.len() - 1 {
                assert(s.take(s.len() - 1)[k] == s[k]);
            }
        }
        if spec_trim_hi(s) > 0 {
            assert(s.take(s.len() - 1)[spec_trim_hi(s) - 1] == s[spec_trim_hi(s) - 1]);
        }
    }
}

/// True for ASCII whitespace bytes.
fn is_blank(b: u8) -> (r: bool)
    ensures
        r == is_ws(b),
{
    b == 32 || (9 <= b && b <= 13)
}

/// Drops leading and trailing whitespace, as [`spec_trim`] states.
pub fn trim_bytes(s: &Vec<u8>) -> (r: Vec<u8>)
    ensures
        r@ == spec_trim(s@),
{
    proof {
        lemma_trim_lo_bounds(s@);
        lemma_trim_hi_bounds(s@);
    }
    let n = s.len();
    let mut lo: usize = 0;
    while lo < n && is_blank(s[lo])
        invariant
            n == s@.len(),
            lo <= n,
            forall|k: int| 0 <= k < lo ==> is_ws(#[trigger] s@[k]),
        decreases n - lo,
    {
        lo += 1;
    }
    let mut hi: usize = n;
    while hi > 0 && is_blank(s[hi - 1])
        invariant
            n == s@.len(),
            hi <= n,
            forall|k: int| hi <= k < n ==> is_ws(#[trigger] s@[k]),
        decreases hi,
    {
        hi -= 1;
    }
    proof {
        // The scans stop exactly at the spec's trim bounds.
        if lo < n {
            assert(!is_ws(s@[lo as int]));
        }
        if hi > 0 {
            assert(!is_ws(s@[hi - 1]));
        }
        assert(lo == spec_trim_lo(s@) || lo >= spec_trim_hi(s@) && hi <= lo) by {
            lemma_trim_scan_agree(s@, lo as int, hi as int);
        }
    }
    let mut r: Vec<u8> = Vec::new();
    if lo >= hi {
        proof {
            lemma_trim_scan_agree(s@, lo as int, hi as int);
        }
        return r;
    }
    let mut k: usize = lo;
    while k < hi
        invariant
            lo <= k <= hi <= s@.len(),
            r@ =~= s@.subrange(lo as int, k as int),
        decreases hi - k,
    {
        r.push(s[k]);
        k += 1;
    }
    proof {
        lemma_trim_scan_agree(s@, lo as int, hi as int);
    }
    r
}

/// Front and back whitespace scans land exactly on the spec's trim
/// bounds.
proof fn lemma_trim_scan_agree(s: Seq<u8>, lo: int, hi: int)
    requires
        0 <= lo <= s.len(),
        0 <= hi <= s.len(),
        forall|k: int| 0 <= k < lo ==> is_ws(#[trigger] s[k]),
        lo < s.len() ==> !is_ws(s[lo]),
        forall|k: int| hi <= k < s.len() ==> is_ws(#[trigger] s[k]),
        hi > 0 ==> !is_ws(s[hi - 1]),
        lo == s.len() || lo < hi || hi == 0,
    ensures
        lo >= hi ==> spec_trim(s) =~= Seq::<u8>::empty(),
        lo < hi ==> spec_trim(s) =~= s.subrange(lo, hi),
{
    lemma_trim_lo_bounds(s);
    lemma_trim_hi_bounds(s);
    let slo = spec_trim_lo(s);
    let shi = spec_trim_hi(s);
    if lo < hi {
        // Both scans found a non-blank byte, so each pins its bound.
        assert(slo == lo) by {
            if slo < lo {
                assert(is_ws(s[slo]));
            }
            if slo > lo {
                assert(is_ws(s[lo]));
            }
        }
        assert(shi == hi) by {
            if shi < hi {
                assert(is_ws(s[hi - 1]));
            }
            if shi > hi {
                assert(is_ws(s[shi - 1]));
            }
        }
    } else {
        // All blank: the spec bounds cross as well.
        assert(slo >= shi) by {
            if slo < shi {
                assert(!is_ws(s[shi - 1]));
                assert(slo <= shi - 1 < s.len());
                if lo == s.len() {
                    assert(is_ws(s[shi - 1]));
                } else {
                    assert(hi == 0);
                    assert(is_ws(s[shi - 1]));
                }
            }
        }
    }
}

/// The pieces of `s` between occurrences of the byte `d`.
pub open spec fn spec_split_byte(s: Seq<u8>, d: u8) -> Seq<Seq<u8>>
    decreases s.len(),
        via spec_split_byte_decreases
{
    match spec_find(s, seq![d]) {
        None => seq![s],
        Some(i) => seq![s.take(i)] + spec_split_byte(s.skip(i + 1), d),
    }
}

#[via_fn]
proof fn spec_split_byte_decreases(s: Seq<u8>, d: u8) {
    lemma_find_from_some(s, seq![d], 0);
}

/// True when two byte vectors hold the same bytes.
pub fn bytes_eq(a: &Vec<u8>, b: &Vec<u8>) -> (r: bool)
    ensures
        r == (a@ == b@),
{
    if a.len() != b.len() {
        return false;
    }
    let mut k: usize = 0;
    while k < a.len()
        invariant
            a@.len() == b@.len(),
            k <= a@.len(),
            forall|j: int| 0 <= j < k ==> a@[j] == b@[j],
        decreases a@.len() - k,
    {
        if a[k] != b[k] {
            return false;
        }
        k += 1;
    }
    proof {
        assert(a@ =~= b@);
    }
    true
}

/// Number of dots in a byte string.
pub open spec fn spec_dot_count(s: Seq<u8>) -> nat
    decreases s.len(),
{
    if s.len() == 0 {
        0
    } else {
        spec_dot_count(s.take(s.len() - 1)) + (if s[s.len() - 1] == 46 {
            1nat
        } else {
            0nat
        })
    }
}

/// True when some byte is a decimal digit.
pub open spec fn spec_has_digit(s: Seq<u8>) -> bool {
    exists|i: int| 0 <= i < s.len() && 48 <= #[trigger] s[i] <= 57
}

/// True when every byte is a decimal digit or a dot.
pub open spec fn spec_all_digit_or_dot(s: Seq<u8>) -> bool {
    forall|i: int| 0 <= i < s.len() ==> (48 <= #[trigger] s[i] <= 57 || s[i] == 46)
}

/// The token without its optional leading sign.
pub open spec fn spec_unsigned(t: Seq<u8>) -> Seq<u8> {
    if t.len() > 0 && (t[0] == 43 || t[0] == 45) {
        t.drop_first()
    } else {
        t
    }
}

/// True when the token reads as a decimal number: an optional sign,
/// then digits with at most one dot and at least one digit.
pub open spec fn spec_is_decimal_token(t: Seq<u8>) -> bool {
    &&& spec_all_digit_or_dot(spec_unsigned(t))
    &&& spec_has_digit(spec_unsigned(t))
    &&& spec_dot_count(spec_unsigned(t)) <= 1
}

/// True when the token holds no non-zero digit, i.e. reads as zero
/// when it reads as a number at all.
pub open spec fn spec_is_zero_token(t: Seq<u8>) -> bool {
    !(exists|i: int| 0 <= i < t.len() && 49 <= #[trigger] t[i] <= 57)
}

/// Scans the digits, dots and sign of a token, as
/// [`spec_is_decimal_token`] states.
pub fn is_decimal_token(t: &Vec<u8>) -> (r: bool)
    ensures
        r == spec_is_decimal_token(t@),
{
    let start: usize = if t.len() > 0 && (t[0] == 43 || t[0] == 45) {
        1
    } else {
        0
    };
    proof {
        if start == 1 {
            assert(spec_unsigned(t@) =~= t@.skip(1));
        } else {
            assert(spec_unsigned(t@) =~= t@.skip(0));
        }
    }
    let ghost u = spec_unsigned(t@);
    let mut dots: u64 = 0;
    let mut digits: u64 = 0;
    let mut other = false;
    let mut k: usize = start;
    while k < t.len()
        invariant
            start <= k <= t@.len(),
            start == 0 || start == 1,
            u == t@.skip(start as int),
            dots == spec_dot_count(u.take(k - start)),
            (digits > 0) == spec_has_digit(u.take(k - start)),
            !other == spec_all_digit_or_dot(u.take(k - start)),
            dots <= k,
            digits <= k,
        decreases t@.len() - k,
    {
        let b = t[k];
        proof {
            assert(u.take(k - start + 1).take(k - start) =~= u.take(k - start));
            assert(u.take(k - start + 1)[k - start] == t@[k as int]);
            assert(u.take(k - start + 1) =~= u.take(k - start).push(t@[k as int]));
        }
        if b == 46 {
            dots += 1;
        } else if 48 <= b && b <= 57 {
            digits += 1;
        } else {
            other = true;
        }
        k += 1;
    }
    proof {
        assert(u.take(u.len() as int) =~= u);
    }
    !other && digits > 0 && dots <= 1
}

/// True when the token holds no non-zero digit.
pub fn is_zero_token(t: &Vec<u8>) -> (r: bool)
    ensures
        r == spec_is_zero_token(t@),
{
    let mut k: usize = 0;
    while k < t.len()
        invariant
            k <= t@.len(),
            forall|i: int| 0 <= i < k ==> !(49 <= #[trigger] t@[i] <= 57),
        decreases t@.len() - k,
    {
        let b = t[k];
        if 49 <= b && b <= 57 {
            return false;
        }
        k += 1;
    }
    true
}

/// True when a bare digits-and-dots token reads as a number greater
/// than zero: at least one digit, at most one dot, and some digit
/// not zero.
pub open spec fn spec_token_positive(t: Seq<u8>) -> bool {
    &&& spec_all_digit_or_dot(t)
    &&& spec_has_digit(t)
    &&& spec_dot_count(t) <= 1
    &&& !spec_is_zero_token(t)
}

/// The scan behind the number extractors: digits and dots gather
/// into the current token, a space closes it, and every other byte
/// is filtered out without closing the token.  The first closed
/// token that reads as a positive number is the result.
pub open spec fn spec_first_positive(s: Seq<u8>, cur: Seq<u8>) -> Option<Seq<u8>>
    decreases s.len(),
{
    if s.len() == 0 {
        if spec_token_positive(cur) {
            Some(cur)
        } else {
            None
        }
    } else if s[0] == 32 {
        if spec_token_positive(cur) {
            Some(cur)
        } else {
            spec_first_positive(s.drop_first(), Seq::empty())
        }
    } else if (48 <= s[0] && s[0] <= 57) || s[0] == 46 {
        spec_first_positive(s.drop_first(), cur.push(s[0]))
    } else {
        spec_first_positive(s.drop_first(), cur)
    }
}

/// True when the token reads as a positive number, as
/// [`spec_token_positive`] states.
pub fn token_positive(t: &Vec<u8>) -> (r: bool)
    ensures
        r == spec_token_positive(t@),
{
    let mut dots: usize = 0;
    let mut digits: usize = 0;
    let mut nonzero: usize = 0;
    let mut other = false;
    let mut k: usize = 0;
    while k < t.len()
        invariant
            k <= t@.len(),
            dots == spec_dot_count(t@.take(k as int)),
            (digits > 0) == spec_has_digit(t@.take(k as int)),
            (nonzero > 0) == !spec_is_zero_token(t@.take(k as int)),
            !other == spec_all_digit_or_dot(t@.take(k as int)),
            dots <= k,
            digits <= k,
            nonzero <= k,
        decreases t@.len() - k,
    {
        let b = t[k];
        proof {
            assert(t@.take(k as int + 1).take(k as int) =~= t@.take(k as int));
            assert(t@.take(k as int + 1)[k as int] == t@[k as int]);
        }
        if b == 46 {
            dots += 1;
        } else if 48 <= b && b <= 57 {
            digits += 1;
            if b >= 49 {
                nonzero += 1;
            }
        } else {
            other = true;
        }
        k += 1;
    }
    proof {
        assert(t@.take(t@.len() as int) =~= t@);
    }
    !other && digits > 0 && dots <= 1 && nonzero > 0
}

/// Scans `s` for its first positive number token, as
/// [`spec_first_positive`] states.
pub fn first_positive_token(s: &Vec<u8>) -> (r: Option<Vec<u8>>)
    ensures
        (r matches Some(t) ==> spec_first_positive(s@, Seq::empty()) == Some(t@) && ascii_seq(
            t@,
        )),
        (r is None ==> spec_first_positive(s@, Seq::empty()) is None),
{
    let mut cur: Vec<u8> = Vec::new();
    let mut i: usize = 0;
    proof {
        assert(s@.skip(0) =~= s@);
    }
    while i < s.len()
        invariant
            i <= s@.len(),
            ascii_seq(cur@),
            spec_first_positive(s@, Seq::empty()) == spec_first_positive(
                s@.skip(i as int),
                cur@,
            ),
        decreases s@.len() - i,
    {
        let b = s[i];
        proof {
            assert(s@.skip(i as int)[0] == s@[i as int]);
            assert(s@.skip(i as int).drop_first() =~= s@.skip(i + 1));
        }
        if b == 32 {
            if token_positive(&cur) {
                return Some(cur);
            }
            cur = Vec::new();
        } else if (48 <= b && b <= 57) || b == 46 {
            cur.push(b);
        }
        i += 1;
    }
    proof {
        assert(s@.skip(s@.len() as int) =~= Seq::<u8>::empty());
    }
    if token_positive(&cur) {
        Some(cur)
    } else {
        None
    }
}

/// The digits of a token before its first dot.
pub open spec fn spec_int_part(t: Seq<u8>) -> Seq<u8> {
    match spec_find(t, seq![46u8]) {
        Some(i) => t.take(i),
        None => t,
    }
}

/// True for the bytes that a URI component keeps unescaped: ASCII
/// letters, digits, and `- _ . ! ~ * ' ( )`.
pub open spec fn is_uri_unreserved(b: u8) -> bool {
    ||| (48 <= b && b <= 57)
    ||| (65 <= b && b <= 90)
    ||| (97 <= b && b <= 122)
    ||| b == 45
    ||| b == 95
    ||| b == 46
    ||| b == 33
    ||| b == 126
    ||| b == 42
    ||| b == 39
    ||| b == 40
    ||| b == 41
}

/// The upper-case hexadecimal digit of a value below 16.
pub open spec fn spec_hex_digit(d: int) -> u8 {
    if d < 10 {
        (48 + d) as u8
    } else {
        (55 + d) as u8
    }
}

/// The percent-escaping of a byte string: unreserved bytes stand as
/// they are, every other byte becomes `%` and two upper-case
/// hexadecimal digits.
pub open spec fn spec_uri_encode(s: Seq<u8>) -> Seq<u8>
    decreases s.len(),
{
    if s.len() == 0 {
        Seq::empty()
    } else {
        let head: Seq<u8> = if is_uri_unreserved(s[0]) {
            seq![s[0]]
        } else {
            seq![37u8, spec_hex_digit(s[0] as int / 16), spec_hex_digit(s[0] as int % 16)]
        };
        head + spec_uri_encode(s.drop_first())
    }
}

/// Percent-escapes a string for use as a URI component, byte by byte
/// over its UTF-8 form, as `spec_uri_encode` states.
pub fn encode_uri_component(s: &str) -> (r: String)
    ensures
        r@ == chars_of(spec_uri_encode(s.spec_bytes())),
{
    let bytes = s.as_bytes_vec();
    let mut out: Vec<u8> = Vec::new();
    let mut i: usize = 0;
    proof {
        assert(bytes@.skip(0) =~= bytes@);
        assert(out@ + spec_uri_encode(bytes@) =~= spec_uri_encode(bytes@));
    }
    while i < bytes.len()
        invariant
            i <= bytes@.len(),
            ascii_seq(out@),
            spec_uri_encode(bytes@) == out@ + spec_uri_encode(bytes@.skip(i as int)),
        decreases bytes@.len() - i,
    {
        let b = bytes[i];
        proof {
            assert(bytes@.skip(i as int)[0] == bytes@[i as int]);
            assert(bytes@.skip(i as int).drop_first() =~= bytes@.skip(i + 1));
        }
        let unreserved = (48 <= b && b <= 57) || (65 <= b && b <= 90) || (97 <= b && b <= 122)
            || b == 45 || b == 95 || b == 46 || b == 33 || b == 126 || b == 42 || b == 39 || b == 40
            || b == 41;
        let ghost head: Seq<u8> = if is_uri_unreserved(b) {
            seq![b]
        } else {
            seq![37u8, spec_hex_digit(b as int / 16), spec_hex_digit(b as int % 16)]
        };
        let ghost out0 = out@;
        proof {
            assert((out0 + head) + spec_uri_encode(bytes@.skip(i + 1)) =~= out0 + (head
                + spec_uri_encode(bytes@.skip(i + 1))));
        }
        if unreserved {
            out.push(b);
        } else {
            out.push(37);
            let hi = b / 16;
            let lo = b % 16;
            out.push(if hi < 10 { 48 + hi } else { 55 + hi });
            out.push(if lo < 10 { 48 + lo } else { 55 + lo });
        }
        proof {
            assert(out@ =~= out0 + head);
        }
        i += 1;
    }
    proof {
        assert(bytes@.skip(bytes@.len() as int) =~= Seq::<u8>::empty());
        assert(out@ + Seq::<u8>::empty() =~= out@);
    }
    crate::ascii::ascii_bytes_to_string(out)
}

} // verus!
