use vstd::prelude::*;
use crate::is_space;
use crate::is_digit;

verus! {

/// Index of the first non-whitespace character at or after `i`, or `s.len()`.
pub open spec fn spec_skip_spaces(s: Seq<char>, i: int) -> int
    recommends 0 <= i <= s.len(),
    decreases s.len() - i when 0 <= i <= s.len()
{
    if i < s.len() && is_space(s[i]) {
        spec_skip_spaces(s, i + 1)
    } else {
        i
    }
}

/// Index of the first occurrence of `stop` at or after `i`, or `s.len()`.
pub open spec fn spec_scan_to(s: Seq<char>, i: int, stop: char) -> int
    recommends 0 <= i <= s.len(),
    decreases s.len() - i when 0 <= i <= s.len()
{
    if i < s.len() && s[i] != stop {
        spec_scan_to(s, i + 1, stop)
    } else {
        i
    }
}

/// Index just past the run of decimal digits starting at `i`.
pub open spec fn spec_digits_end(s: Seq<char>, i: int) -> int
    recommends 0 <= i <= s.len(),
    decreases s.len() - i when 0 <= i <= s.len()
{
    if i < s.len() && is_digit(s[i]) {
        spec_digits_end(s, i + 1)
    } else {
        i
    }
}

pub proof fn lemma_skip_spaces(s: Seq<char>, i: int)
    requires
        0 <= i <= s.len(),
    ensures
        i <= spec_skip_spaces(s, i) <= s.len(),
        forall|k: int| i <= k < spec_skip_spaces(s, i) ==> is_space(s[k]),
        spec_skip_spaces(s, i) < s.len() ==> !is_space(s[spec_skip_spaces(s, i)]),
    decreases s.len() - i,
{
    if i < s.len() && is_space(s[i]) {
        lemma_skip_spaces(s, i + 1);
    }
}

pub proof fn lemma_scan_to(s: Seq<char>, i: int, stop: char)
    requires
        0 <= i <= s.len(),
    ensures
        i <= spec_scan_to(s, i, stop) <= s.len(),
        forall|k: int| i <= k < spec_scan_to(s, i, stop) ==> s[k] != stop,
        spec_scan_to(s, i, stop) < s.len() ==> s[spec_scan_to(s, i, stop)] == stop,
    decreases s.len() - i,
{
    if i < s.len() && s[i] != stop {
        lemma_scan_to(s, i + 1, stop);
    }
}

/// The scan lands exactly on `k` when nothing before `k` matches and `k` is a
/// match or the end.
pub proof fn lemma_scan_to_is(s: Seq<char>, i: int, k: int, stop: char)
    requires
        0 <= i <= k <= s.len(),
        forall|m: int| i <= m < k ==> s[m] != stop,
        k < s.len() ==> s[k] == stop,
    ensures
        spec_scan_to(s, i, stop) == k,
    decreases k - i,
{
    if i < k {
        lemma_scan_to_is(s, i + 1, k, stop);
    }
}

/// Scanning a suffix finds the same place as scanning the whole from there.
pub proof fn lemma_scan_to_suffix(s: Seq<char>, a: int, stop: char)
    requires
        0 <= a <= s.len(),
    ensures
        spec_scan_to(s.subrange(a, s.len() as int), 0, stop) == spec_scan_to(s, a, stop) - a,
{
    let sub = s.subrange(a, s.len() as int);
    lemma_scan_to(s, a, stop);
    let k = spec_scan_to(s, a, stop);
    assert forall|m: int| 0 <= m < k - a implies sub[m] != stop by {
        assert(sub[m] == s[a + m]);
    }
    if k < s.len() {
        assert(sub[k - a] == s[k]);
    }
    lemma_scan_to_is(sub, 0, k - a, stop);
}

pub proof fn lemma_digits_end(s: Seq<char>, i: int)
    requires
        0 <= i <= s.len(),
    ensures
        i <= spec_digits_end(s, i) <= s.len(),
        forall|k: int| i <= k < spec_digits_end(s, i) ==> is_digit(s[k]),
        spec_digits_end(s, i) < s.len() ==> !is_digit(s[spec_digits_end(s, i)]),
    decreases s.len() - i,
{
    if i < s.len() && is_digit(s[i]) {
        lemma_digits_end(s, i + 1);
    }
}

pub fn skip_spaces(v: &Vec<char>, i: usize) -> (j: usize)
    requires
        i <= v.len(),
    ensures
        j == spec_skip_spaces(v@, i as int),
        i <= j <= v.len(),
{
    let mut j = i;
    while j < v.len() && (v[j] == ' ' || v[j] == '\t' || v[j] == '\r' || v[j] == '\n')
        invariant
            i <= j <= v.len(),
            spec_skip_spaces(v@, i as int) == spec_skip_spaces(v@, j as int),
        decreases v.len() - j,
    {
        j += 1;
    }
    j
}

pub fn scan_to(v: &Vec<char>, i: usize, stop: char) -> (j: usize)
    requires
        i <= v.len(),
    ensures
        j == spec_scan_to(v@, i as int, stop),
        i <= j <= v.len(),
{
    let mut j = i;
    while j < v.len() && v[j] != stop
        invariant
            i <= j <= v.len(),
            spec_scan_to(v@, i as int, stop) == spec_scan_to(v@, j as int, stop),
        decreases v.len() - j,
    {
        j += 1;
    }
    j
}

/// Whether `c` is a decimal digit.
pub fn digit_char(c: char) -> (r: bool)
    ensures
        r == is_digit(c),
{
    let u = c as u32;
    48 <= u && u <= 57
}

pub fn digits_end(v: &Vec<char>, i: usize) -> (j: usize)
    requires
        i <= v.len(),
    ensures
        j == spec_digits_end(v@, i as int),
        i <= j <= v.len(),
        all_digits(v@.subrange(i as int, j as int)),
{
    let mut j = i;
    while j < v.len() && digit_char(v[j])
        invariant
            i <= j <= v.len(),
            spec_digits_end(v@, i as int) == spec_digits_end(v@, j as int),
        decreases v.len() - j,
    {
        j += 1;
    }
    proof {
        lemma_digits_end(v@, i as int);
        assert forall|k: int| 0 <= k < j - i implies is_digit(
            #[trigger] v@.subrange(i as int, j as int)[k],
        ) by {
            assert(v@.subrange(i as int, j as int)[k] == v@[i + k]);
        }
    }
    j
}

/// Every character of `s` is a decimal digit.
pub open spec fn all_digits(s: Seq<char>) -> bool {
    forall|k: int| 0 <= k < s.len() ==> is_digit(#[trigger] s[k])
}

/// The value of a run of decimal digits, most significant first.
pub open spec fn digits_val(s: Seq<char>) -> int
    recommends all_digits(s),
    decreases s.len(),
{
    if s.len() == 0 {
        0
    } else {
        digits_val(s.drop_last()) * 10 + (s.last() as u32 - 48)
    }
}

pub open spec fn pow10(n: nat) -> int
    decreases n,
{
    if n == 0 {
        1
    } else {
        10 * pow10((n - 1) as nat)
    }
}

pub proof fn lemma_digits_val_range(s: Seq<char>)
    requires
        all_digits(s),
    ensures
        0 <= digits_val(s) < pow10(s.len()),
    decreases s.len(),
{
    if s.len() == 0 {
    } else {
        assert(all_digits(s.drop_last())) by {
            assert(forall|k: int| 0 <= k < s.len() - 1 ==> s.drop_last()[k] == s[k]);
        }
        lemma_digits_val_range(s.drop_last());
        assert(is_digit(s[s.len() - 1]));
        assert(pow10(s.len()) == 10 * pow10((s.len() - 1) as nat));
    }
}

/// The value of the short digit run `v[from..to]`.
pub fn digits_value(v: &Vec<char>, from: usize, to: usize) -> (r: u32)
    requires
        from <= to <= v.len(),
        to - from <= 4,
        all_digits(v@.subrange(from as int, to as int)),
    ensures
        r as int == digits_val(v@.subrange(from as int, to as int)),
        r <= 9999,
{
    proof {
        assert(pow10(0) == 1);
        assert(pow10(1) == 10);
        assert(pow10(2) == 100);
        assert(pow10(3) == 1000);
        assert(pow10(4) == 10000);
    }
    let mut r: u32 = 0;
    let mut i = from;
    while i < to
        invariant
            from <= i <= to <= v.len(),
            to - from <= 4,
            all_digits(v@.subrange(from as int, to as int)),
            r as int == digits_val(v@.subrange(from as int, i as int)),
            r <= 9999,
            pow10(0) == 1,
            pow10(1) == 10,
            pow10(2) == 100,
            pow10(3) == 1000,
        decreases to - i,
    {
        proof {
            let w = v@.subrange(from as int, to as int);
            let p = v@.subrange(from as int, i as int);
            let p2 = v@.subrange(from as int, (i + 1) as int);
            assert(w[i - from] == v@[i as int]);
            assert(is_digit(v@[i as int]));
            assert forall|k: int| 0 <= k < p.len() implies is_digit(#[trigger] p[k]) by {
                assert(p[k] == v@[from + k]);
                assert(w[k] == v@[from + k]);
            }
            lemma_digits_val_range(p);
            assert(digits_val(p) <= 999);
            assert(p2 =~= p.push(v@[i as int]));
            assert(p2.drop_last() =~= p);
            assert(digits_val(p2) == digits_val(p) * 10 + (v@[i as int] as u32 - 48));
        }
        let u = v[i] as u32;
        r = r * 10 + (u - 48);
        i += 1;
    }
    r
}

/// The meaning of a decimal integer token, exactly as `i64` reads one: an
/// optional single `+` or `-` sign, then at least one digit, rejected when the
/// value falls outside the `i64` range.
pub open spec fn spec_parse_i64(t: Seq<char>) -> Option<i64> {
    if t.len() >= 1 && (t[0] == '+' || t[0] == '-') {
        let d = t.subrange(1, t.len() as int);
        if d.len() >= 1 && all_digits(d) {
            let v = if t[0] == '-' {
                -digits_val(d)
            } else {
                digits_val(d)
            };
            if -0x8000_0000_0000_0000 <= v && v <= 0x7fff_ffff_ffff_ffff {
                Some(v as i64)
            } else {
                None
            }
        } else {
            None
        }
    } else if t.len() >= 1 && all_digits(t) {
        if digits_val(t) <= 0x7fff_ffff_ffff_ffff {
            Some(digits_val(t) as i64)
        } else {
            None
        }
    } else {
        None
    }
}

/// Reads the decimal integer written in `v[from..to]`, if any.
pub fn parse_i64_range(v: &Vec<char>, from: usize, to: usize) -> (r: Option<i64>)
    requires
        from <= to <= v.len(),
    ensures
        r == spec_parse_i64(v@.subrange(from as int, to as int)),
{
    let ghost t = v@.subrange(from as int, to as int);
    if from == to {
        return None;
    }
    let neg: bool = v[from] == '-';
    let signed: bool = neg || v[from] == '+';
    let start: usize = if signed {
        from + 1
    } else {
        from
    };
    let ghost d = v@.subrange(start as int, to as int);
    proof {
        assert(t[0] == v@[from as int]);
        if signed {
            assert(d =~= t.subrange(1, t.len() as int));
        } else {
            assert(d =~= t);
        }
    }
    if start == to {
        return None;
    }
    let mut acc: u128 = 0;
    let mut over: bool = false;
    let mut i: usize = start;
    while i < to
        invariant
            from < to,
            from <= start <= i <= to <= v.len(),
            t == v@.subrange(from as int, to as int),
            neg == (t[0] == '-'),
            signed == (t[0] == '+' || t[0] == '-'),
            start == if signed { from + 1int } else { from as int },
            d == if signed { t.subrange(1, t.len() as int) } else { t },
            d == v@.subrange(start as int, to as int),
            all_digits(v@.subrange(start as int, i as int)),
            !over ==> acc <= 0xffff_ffff_ffff_ffffu128 && acc as int == digits_val(
                v@.subrange(start as int, i as int),
            ),
            over ==> digits_val(v@.subrange(start as int, i as int)) > 0xffff_ffff_ffff_ffff,
        decreases to - i,
    {
        let u = v[i] as u32;
        if u < 48 || u > 57 {
            proof {
                assert(d[i - start] == v@[i as int]);
                assert(!is_digit(d[i - start]));
                assert(!all_digits(d));
            }
            return None;
        }
        proof {
            let p = v@.subrange(start as int, i as int);
            let p2 = v@.subrange(start as int, (i + 1) as int);
            assert(p2 =~= p.push(v@[i as int]));
            assert(is_digit(v@[i as int]));
            assert forall|k: int| 0 <= k < p2.len() implies is_digit(#[trigger] p2[k]) by {
                if k < p.len() {
                    assert(p2[k] == p[k]);
                }
            }
            assert(p2.drop_last() =~= p);
            assert(digits_val(p2) == digits_val(p) * 10 + (v@[i as int] as u32 - 48));
        }
        let dd = (u - 48) as u128;
        if !over {
            acc = acc * 10 + dd;
            if acc > 0xffff_ffff_ffff_ffffu128 {
                over = true;
            }
        }
        i += 1;
    }
    if over {
        return None;
    }
    if neg {
        if acc <= 0x7fff_ffff_ffff_ffffu128 {
            let x = acc as i64;
            Some(-x)
        } else if acc == 0x8000_0000_0000_0000u128 {
            Some(-0x7fff_ffff_ffff_ffffi64 - 1)
        } else {
            None
        }
    } else {
        if acc <= 0x7fff_ffff_ffff_ffffu128 {
            Some(acc as i64)
        } else {
            None
        }
    }
}

/// The characters of `v[from..to]`, as their own vector.
pub fn sub_vec(v: &Vec<char>, from: usize, to: usize) -> (r: Vec<char>)
    requires
        from <= to <= v.len(),
    ensures
        r@ == v@.subrange(from as int, to as int),
{
    let mut r: Vec<char> = Vec::new();
    let mut i = from;
    while i < to
        invariant
            from <= i <= to <= v.len(),
            r@ == v@.subrange(from as int, i as int),
        decreases to - i,
    {
        r.push(v[i]);
        proof {
            assert(v@.subrange(from as int, (i + 1) as int) =~= v@.subrange(
                from as int,
                i as int,
            ).push(v@[i as int]));
        }
        i += 1;
    }
    r
}

/// Relies on `str::chars`: it yields exactly the string's characters in order.
#[verifier::external_body]
pub fn str_to_chars(s: &str) -> (v: Vec<char>)
    ensures
        v@ == s@,
{
    s.chars().collect()
}

/// Relies on `String`'s `FromIterator` over `char`: the collected string holds
/// exactly the given characters in order.
#[verifier::external_body]
pub fn chars_to_string(v: &Vec<char>) -> (s: String)
    ensures
        s@ == v@,
{
    v.iter().collect()
}

/// The characters of `v[from..to]`, as a `String`.
pub fn sub_string(v: &Vec<char>, from: usize, to: usize) -> (s: String)
    requires
        from <= to <= v.len(),
    ensures
        s@ == v@.subrange(from as int, to as int),
{
    let r = sub_vec(v, from, to);
    chars_to_string(&r)
}

} // verus!
