//! Text helpers with exact contracts over the character view of strings.
use vstd::prelude::*;
use vstd::string::*;

verus! {

pub open spec fn is_ascii_digit(c: char) -> bool {
    '0' <= c && c <= '9'
}

pub open spec fn all_ascii_digits(s: Seq<char>) -> bool {
    forall|i: int| 0 <= i < s.len() ==> is_ascii_digit(#[trigger] s[i])
}

pub open spec fn digit_value(c: char) -> int {
    (c as int) - ('0' as int)
}

/// The value of a string of decimal digits.
pub open spec fn decimal_value(s: Seq<char>) -> int
    decreases s.len(),
{
    if s.len() == 0 {
        0
    } else {
        decimal_value(s.drop_last()) * 10 + digit_value(s.last())
    }
}

/// The number of occurrences of `c` in `s`.
pub open spec fn count_char(s: Seq<char>, c: char) -> nat
    decreases s.len(),
{
    if s.len() == 0 {
        0
    } else {
        count_char(s.drop_last(), c) + if s.last() == c { 1nat } else { 0nat }
    }
}

/// Lower-cases an ASCII letter and leaves every other character alone.
pub open spec fn ascii_lower(c: char) -> char {
    if 'A' <= c && c <= 'Z' {
        ((c as u32) + 32) as char
    } else {
        c
    }
}

pub open spec fn is_prefix(p: Seq<char>, s: Seq<char>) -> bool {
    p.len() <= s.len() && s.subrange(0, p.len() as int) == p
}

pub open spec fn is_suffix(p: Seq<char>, s: Seq<char>) -> bool {
    p.len() <= s.len() && s.subrange(s.len() - p.len(), s.len() as int) == p
}

proof fn lemma_decimal_value_nonneg(s: Seq<char>)
    requires
        all_ascii_digits(s),
    ensures
        decimal_value(s) >= 0,
    decreases s.len(),
{
    if s.len() > 0 {
        lemma_decimal_value_nonneg(s.drop_last());
    }
}

/// A digit string's value is at least that of any of its prefixes.
proof fn lemma_decimal_value_prefix(s: Seq<char>, n: int)
    requires
        all_ascii_digits(s),
        0 <= n <= s.len(),
    ensures
        decimal_value(s.take(n)) <= decimal_value(s),
    decreases s.len(),
{
    if n < s.len() {
        assert(s.take(n) =~= s.drop_last().take(n));
        lemma_decimal_value_prefix(s.drop_last(), n);
        lemma_decimal_value_nonneg(s.drop_last());
    } else {
        assert(s.take(n) =~= s);
    }
}

/// Whether two strings hold the same characters.
pub fn str_eq(a: &str, b: &str) -> (r: bool)
    ensures
        r == (a@ == b@),
{
    let n = a.unicode_len();
    if n != b.unicode_len() {
        return false;
    }
    let mut i: usize = 0;
    while i < n
        invariant
            n == a@.len(),
            n == b@.len(),
            i <= n,
            forall|j: int| 0 <= j < i ==> a@[j] == b@[j],
        decreases n - i,
    {
        if a.get_char(i) != b.get_char(i) {
            return false;
        }
        i = i + 1;
    }
    assert(a@ =~= b@);
    true
}

/// Whether `s` begins with `p`.
pub fn starts_with(s: &str, p: &str) -> (r: bool)
    ensures
        r == is_prefix(p@, s@),
{
    let n = s.unicode_len();
    let m = p.unicode_len();
    if m > n {
        return false;
    }
    let mut i: usize = 0;
    while i < m
        invariant
            n == s@.len(),
            m == p@.len(),
            m <= n,
            i <= m,
            forall|j: int| 0 <= j < i ==> s@[j] == p@[j],
        decreases m - i,
    {
        if s.get_char(i) != p.get_char(i) {
            assert(s@.subrange(0, m as int)[i as int] == s@[i as int]);
            return false;
        }
        i = i + 1;
    }
    assert(s@.subrange(0, m as int) =~= p@);
    true
}

/// Whether `s` ends with `p`.
pub fn ends_with(s: &str, p: &str) -> (r: bool)
    ensures
        r == is_suffix(p@, s@),
{
    let n = s.unicode_len();
    let m = p.unicode_len();
    if m > n {
        return false;
    }
    let tail = s.substring_char(n - m, n);
    str_eq(tail, p)
}

/// Whether `s`, with its ASCII letters lower-cased, equals `lower`.
pub fn eq_ascii_lowercase(s: &str, lower: &str) -> (r: bool)
    ensures
        r == (s@.map_values(|c: char| ascii_lower(c)) == lower@),
{
    let n = s.unicode_len();
    if n != lower.unicode_len() {
        assert(s@.map_values(|c: char| ascii_lower(c)).len() != lower@.len());
        return false;
    }
    let ghost low = s@.map_values(|c: char| ascii_lower(c));
    let mut i: usize = 0;
    while i < n
        invariant
            n == s@.len(),
            n == lower@.len(),
            low == s@.map_values(|c: char| ascii_lower(c)),
            i <= n,
            forall|j: int| 0 <= j < i ==> low[j] == lower@[j],
        decreases n - i,
    {
        let c = s.get_char(i);
        let l = if 'A' <= c && c <= 'Z' {
            char_from_ascii_upper(c)
        } else {
            c
        };
        if l != lower.get_char(i) {
            return false;
        }
        i = i + 1;
    }
    assert(low =~= lower@);
    true
}

fn char_from_ascii_upper(c: char) -> (r: char)
    requires
        'A' <= c && c <= 'Z',
    ensures
        r == ascii_lower(c),
{
    let v: u32 = (c as u32) + 32;
    if v == 97 { 'a' } else if v == 98 { 'b' } else if v == 99 { 'c' } else if v == 100 { 'd' }
    else if v == 101 { 'e' } else if v == 102 { 'f' } else if v == 103 { 'g' } else if v == 104 { 'h' }
    else if v == 105 { 'i' } else if v == 106 { 'j' } else if v == 107 { 'k' } else if v == 108 { 'l' }
    else if v == 109 { 'm' } else if v == 110 { 'n' } else if v == 111 { 'o' } else if v == 112 { 'p' }
    else if v == 113 { 'q' } else if v == 114 { 'r' } else if v == 115 { 's' } else if v == 116 { 't' }
    else if v == 117 { 'u' } else if v == 118 { 'v' } else if v == 119 { 'w' } else if v == 120 { 'x' }
    else if v == 121 { 'y' } else { 'z' }
}

/// Parses a non-empty string of ASCII decimal digits that fits in `usize`.
pub fn parse_usize(s: &str) -> (r: Option<usize>)
    ensures
        r is Some <==> (s@.len() > 0 && all_ascii_digits(s@) && decimal_value(s@) <= usize::MAX),
        r matches Some(v) ==> v == decimal_value(s@),
{
    let n = s.unicode_len();
    if n == 0 {
        return None;
    }
    let mut v: usize = 0;
    let mut i: usize = 0;
    while i < n
        invariant
            n == s@.len(),
            i <= n,
            all_ascii_digits(s@.take(i as int)),
            v == decimal_value(s@.take(i as int)),
        decreases n - i,
    {
        let c = s.get_char(i);
        if !('0' <= c && c <= '9') {
            return None;
        }
        let d: usize = ((c as u32) - 48) as usize;
        assert(s@.take(i + 1).drop_last() =~= s@.take(i as int));
        match v.checked_mul(10) {
            Some(t) => match t.checked_add(d) {
                Some(w) => {
                    v = w;
                }
                None => {
                    proof {
                        assert(all_ascii_digits(s@.take(i + 1)));
                        lemma_overflow_persists(s@, i as int + 1);
                    }
                    return None;
                }
            },
            None => {
                proof {
                    assert(all_ascii_digits(s@.take(i + 1)));
                    lemma_decimal_value_nonneg(s@.take(i as int));
                    assert(decimal_value(s@.take(i + 1)) > usize::MAX) by (nonlinear_arith)
                        requires
                            decimal_value(s@.take(i + 1)) == v * 10 + digit_value(c),
                            v * 10 > usize::MAX,
                            digit_value(c) >= 0,
                    ;
                    lemma_overflow_persists(s@, i as int + 1);
                }
                return None;
            }
        }
        i = i + 1;
    }
    assert(s@.take(n as int) =~= s@);
    Some(v)
}

proof fn lemma_overflow_persists(s: Seq<char>, k: int)
    requires
        0 <= k <= s.len(),
        all_ascii_digits(s.take(k)),
        decimal_value(s.take(k)) > usize::MAX,
    ensures
        !(all_ascii_digits(s) && decimal_value(s) <= usize::MAX),
{
    if all_ascii_digits(s) {
        lemma_decimal_value_prefix(s, k);
    }
}

/// The number of occurrences of `c` among the first `end` characters of `s`.
pub fn count_char_before(s: &str, c: char, end: usize) -> (r: usize)
    requires
        end <= s@.len(),
    ensures
        r == count_char(s@.take(end as int), c),
{
    let mut k: usize = 0;
    let mut i: usize = 0;
    while i < end
        invariant
            end <= s@.len(),
            i <= end,
            k == count_char(s@.take(i as int), c),
            k <= i,
        decreases end - i,
    {
        assert(s@.take(i + 1).drop_last() =~= s@.take(i as int));
        if s.get_char(i) == c {
            k = k + 1;
        }
        i = i + 1;
    }
    k
}


/// `s` with every leading copy of `p` removed.
pub open spec fn trim_start_all(s: Seq<char>, p: Seq<char>) -> Seq<char>
    decreases s.len(),
{
    if p.len() > 0 && is_prefix(p, s) {
        trim_start_all(s.subrange(p.len() as int, s.len() as int), p)
    } else {
        s
    }
}

/// `s` with every leading copy of `p` removed, as `str::trim_start_matches`
/// does for a string pattern.
pub fn trim_start_matches<'a>(s: &'a str, p: &str) -> (r: &'a str)
    ensures
        r@ == trim_start_all(s@, p@),
{
    let m = p.unicode_len();
    if m == 0 {
        return s;
    }
    let n = s.unicode_len();
    let mut i: usize = 0;
    assert(s@.subrange(0, n as int) =~= s@);
    while i <= n && m <= n - i && starts_with(s.substring_char(i, n), p)
        invariant
            i <= n,
            n == s@.len(),
            m == p@.len(),
            m > 0,
            trim_start_all(s@, p@) == trim_start_all(s@.subrange(i as int, n as int), p@),
        decreases n - i,
    {
        assert(s@.subrange(i as int, n as int).subrange(m as int, (n - i) as int) =~= s@.subrange(
            i + m,
            n as int,
        ));
        i = i + m;
    }
    let r = s.substring_char(i, n);
    proof {
        if m > n - i {
            assert(!is_prefix(p@, s@.subrange(i as int, n as int)));
        }
    }
    r
}

/// The value of a hexadecimal or decimal digit, in the given radix.
pub open spec fn radix_digit(c: char, radix: nat) -> Option<nat> {
    if '0' <= c && c <= '9' && (c as int) - ('0' as int) < radix {
        Some(((c as int) - ('0' as int)) as nat)
    } else if radix == 16 && 'a' <= c && c <= 'f' {
        Some(((c as int) - ('a' as int) + 10) as nat)
    } else if radix == 16 && 'A' <= c && c <= 'F' {
        Some(((c as int) - ('A' as int) + 10) as nat)
    } else {
        None
    }
}

pub open spec fn all_radix_digits(s: Seq<char>, radix: nat) -> bool {
    forall|i: int| 0 <= i < s.len() ==> (#[trigger] radix_digit(s[i], radix)) is Some
}

/// The value of a string of digits in the given radix.
pub open spec fn radix_value(s: Seq<char>, radix: nat) -> nat
    decreases s.len(),
{
    if s.len() == 0 {
        0
    } else {
        radix_value(s.drop_last(), radix) * radix + match radix_digit(s.last(), radix) {
            Some(d) => d,
            None => 0,
        }
    }
}

/// What `i64::from_str_radix` gives for `s`: an optional sign, then at least
/// one digit, with a value that fits in `i64`.
pub open spec fn i64_from_str_radix(s: Seq<char>, radix: nat) -> Option<int> {
    let neg = s.len() > 0 && s[0] == '-';
    let digits = if s.len() > 0 && (s[0] == '+' || s[0] == '-') {
        s.drop_first()
    } else {
        s
    };
    if digits.len() == 0 || !all_radix_digits(digits, radix) {
        None
    } else if neg {
        if radix_value(digits, radix) <= 0x8000_0000_0000_0000 {
            Some(-(radix_value(digits, radix) as int))
        } else {
            None
        }
    } else if radix_value(digits, radix) <= 0x7fff_ffff_ffff_ffff {
        Some(radix_value(digits, radix) as int)
    } else {
        None
    }
}

/// How a numeric literal is read as an `i64`: hexadecimal after every leading
/// `0x` is removed where it starts with `0x`, decimal otherwise.
pub open spec fn int_literal_value(v: Seq<char>) -> Option<int> {
    if is_prefix("0x"@, v) {
        i64_from_str_radix(trim_start_all(v, "0x"@), 16)
    } else {
        i64_from_str_radix(v, 10)
    }
}

/// What `usize::from_str` gives for `s`: an optional `+`, then at least one
/// decimal digit, with a value that fits in `usize`.
pub open spec fn usize_from_str(s: Seq<char>) -> Option<nat> {
    let digits = if s.len() > 0 && s[0] == '+' {
        s.drop_first()
    } else {
        s
    };
    if digits.len() == 0 || !all_radix_digits(digits, 10) || radix_value(digits, 10) > usize::MAX {
        None
    } else {
        Some(radix_value(digits, 10))
    }
}

proof fn lemma_radix_value_prefix(s: Seq<char>, k: int, radix: nat)
    requires
        0 <= k <= s.len(),
        radix >= 1,
    ensures
        radix_value(s.take(k), radix) <= radix_value(s, radix),
    decreases s.len(),
{
    if k < s.len() {
        assert(s.take(k) =~= s.drop_last().take(k));
        lemma_radix_value_prefix(s.drop_last(), k, radix);
        let a = radix_value(s.drop_last(), radix);
        assert(a * radix >= a) by (nonlinear_arith)
            requires radix >= 1, a >= 0;
    } else {
        assert(s.take(k) =~= s);
    }
}

fn digit_of(c: char, radix: u64) -> (r: Option<u64>)
    requires
        radix == 10 || radix == 16,
    ensures
        match r {
            Some(d) => radix_digit(c, radix as nat) == Some(d as nat),
            None => radix_digit(c, radix as nat) is None,
        },
{
    if '0' <= c && c <= '9' && ((c as u32) - 48) < radix as u32 {
        Some(((c as u32) - 48) as u64)
    } else if radix == 16 && 'a' <= c && c <= 'f' {
        Some(((c as u32) - 97 + 10) as u64)
    } else if radix == 16 && 'A' <= c && c <= 'F' {
        Some(((c as u32) - 65 + 10) as u64)
    } else {
        None
    }
}

/// The value of `s` as a string of digits in `radix`, where every character
/// is such a digit and the value fits in a `u64`.
fn parse_digits(s: &str, radix: u64) -> (r: Option<u64>)
    requires
        radix == 10 || radix == 16,
    ensures
        r is Some <==> (all_radix_digits(s@, radix as nat) && radix_value(s@, radix as nat) <= u64::MAX),
        r matches Some(v) ==> v == radix_value(s@, radix as nat),
{
    let n = s.unicode_len();
    let mut v: u64 = 0;
    let mut i: usize = 0;
    while i < n
        invariant
            n == s@.len(),
            i <= n,
            radix == 10 || radix == 16,
            all_radix_digits(s@.take(i as int), radix as nat),
            v == radix_value(s@.take(i as int), radix as nat),
        decreases n - i,
    {
        let c = s.get_char(i);
        assert(s@.take(i + 1).drop_last() =~= s@.take(i as int));
        assert(s@.take(i + 1).last() == c);
        let d = match digit_of(c, radix) {
            Some(d) => d,
            None => {
                assert(!all_radix_digits(s@, radix as nat)) by {
                    assert(radix_digit(s@[i as int], radix as nat) is None);
                }
                return None;
            },
        };
        assert(all_radix_digits(s@.take(i + 1), radix as nat)) by {
            assert forall|j: int| 0 <= j < i + 1 implies (#[trigger] radix_digit(s@.take(i + 1)[j], radix as nat)) is Some by {
                if j < i {
                    assert(s@.take(i + 1)[j] == s@.take(i as int)[j]);
                }
            }
        }
        let next = match v.checked_mul(radix) {
            Some(t) => t.checked_add(d),
            None => None,
        };
        match next {
            Some(w) => {
                v = w;
            },
            None => {
                proof {
                    let a = radix_value(s@.take(i as int), radix as nat);
                    assert(a * radix + d > u64::MAX) by (nonlinear_arith)
                        requires
                            v == a,
                            (v as int) * (radix as int) > u64::MAX || (v as int) * (radix as int) + (d as int) > u64::MAX,
                            d >= 0;
                    lemma_radix_value_prefix(s@, i + 1, radix as nat);
                }
                return None;
            },
        }
        i = i + 1;
    }
    assert(s@.take(n as int) =~= s@);
    Some(v)
}

/// `i64::from_str_radix(s, radix)`, for radix 10 or 16.
pub fn i64_parse_radix(s: &str, radix: u64) -> (r: Option<i64>)
    requires
        radix == 10 || radix == 16,
    ensures
        match r {
            Some(v) => i64_from_str_radix(s@, radix as nat) == Some(v as int),
            None => i64_from_str_radix(s@, radix as nat) is None,
        },
{
    let n = s.unicode_len();
    let neg = n > 0 && s.get_char(0) == '-';
    let signed = n > 0 && (s.get_char(0) == '+' || s.get_char(0) == '-');
    let digits = if signed {
        s.substring_char(1, n)
    } else {
        s
    };
    proof {
        if signed {
            assert(digits@ =~= s@.drop_first());
        }
    }
    if digits.unicode_len() == 0 {
        return None;
    }
    match parse_digits(digits, radix) {
        Some(m) => {
            if neg {
                if m <= 0x8000_0000_0000_0000 {
                    if m == 0x8000_0000_0000_0000 {
                        Some(i64::MIN)
                    } else {
                        Some(-(m as i64))
                    }
                } else {
                    None
                }
            } else if m <= 0x7fff_ffff_ffff_ffff {
                Some(m as i64)
            } else {
                None
            }
        },
        None => None,
    }
}

/// How the analyses read a numeric literal as an `i64`.
pub fn parse_int_literal(v: &str) -> (r: Option<i64>)
    ensures
        match r {
            Some(x) => int_literal_value(v@) == Some(x as int),
            None => int_literal_value(v@) is None,
        },
{
    if starts_with(v, "0x") {
        proof { reveal_strlit("0x"); }
        i64_parse_radix(trim_start_matches(v, "0x"), 16)
    } else {
        proof { reveal_strlit("0x"); }
        i64_parse_radix(v, 10)
    }
}

/// `usize::from_str(s)`.
pub fn parse_usize_std(s: &str) -> (r: Option<usize>)
    ensures
        match r {
            Some(v) => usize_from_str(s@) == Some(v as nat),
            None => usize_from_str(s@) is None,
        },
{
    let n = s.unicode_len();
    let digits = if n > 0 && s.get_char(0) == '+' {
        s.substring_char(1, n)
    } else {
        s
    };
    proof {
        if n > 0 && s@[0] == '+' {
            assert(digits@ =~= s@.drop_first());
        }
    }
    if digits.unicode_len() == 0 {
        return None;
    }
    match parse_digits(digits, 10) {
        Some(m) => {
            if m <= usize::MAX as u64 {
                Some(m as usize)
            } else {
                None
            }
        },
        None => {
            proof {
                if all_radix_digits(digits@, 10) {
                    assert(radix_value(digits@, 10) > u64::MAX);
                }
            }
            None
        },
    }
}

} // verus!
