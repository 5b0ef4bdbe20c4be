//! Character-level helpers shared by the inferers: whitespace and digit
//! classes, case-insensitive keyword matching, lexicographic ordering of
//! names, trimming, and the syntactic forms of integer and float literals.

use vstd::prelude::*;

verus! {

/// The Unicode `White_Space` code points, the set `char::is_whitespace`
/// accepts.
pub open spec fn is_ws_char(c: char) -> bool {
    let u = c as u32;
    (9 <= u && u <= 13) || u == 32 || u == 0x85 || u == 0xA0 || u == 0x1680 || (0x2000 <= u && u
        <= 0x200A) || u == 0x2028 || u == 0x2029 || u == 0x202F || u == 0x205F || u == 0x3000
}

/// Whether `c` is a whitespace character.
pub fn is_ws(c: char) -> (r: bool)
    ensures
        r == is_ws_char(c),
{
    let u = c as u32;
    (9 <= u && u <= 13) || u == 32 || u == 0x85 || u == 0xA0 || u == 0x1680 || (0x2000 <= u && u
        <= 0x200A) || u == 0x2028 || u == 0x2029 || u == 0x202F || u == 0x205F || u == 0x3000
}

/// An ASCII decimal digit.
pub open spec fn is_digit_char(c: char) -> bool {
    48 <= c as u32 && c as u32 <= 57
}

/// Whether `c` is an ASCII decimal digit.
pub fn is_digit(c: char) -> (r: bool)
    ensures
        r == is_digit_char(c),
{
    let u = c as u32;
    48 <= u && u <= 57
}

/// The numeric value of an ASCII decimal digit.
pub open spec fn digit_val(c: char) -> int {
    c as u32 - 48
}

/// Two characters are equal up to ASCII case.
pub open spec fn char_eq_ci(a: char, b: char) -> bool {
    let x = a as u32;
    let y = b as u32;
    x == y || (65 <= x && x <= 90 && x + 32 == y) || (65 <= y && y <= 90 && y + 32 == x)
}

/// Two character sequences are equal up to ASCII case.
pub open spec fn str_eq_ci(a: Seq<char>, b: Seq<char>) -> bool {
    a.len() == b.len() && (forall|i: int| 0 <= i < a.len() ==> char_eq_ci(a[i], b[i]))
}

/// Whether `a` equals `b` up to ASCII case.
pub fn eq_ignore_ascii_case(a: &str, b: &str) -> (r: bool)
    ensures
        r == str_eq_ci(a@, b@),
{
    let an = a.unicode_len();
    let bn = b.unicode_len();
    if an != bn {
        return false;
    }
    let mut i: usize = 0;
    while i < an
        invariant
            0 <= i <= an,
            an == a@.len(),
            bn == b@.len(),
            an == bn,
            forall|j: int| 0 <= j < i ==> char_eq_ci(a@[j], b@[j]),
        decreases an - i,
    {
        let x = a.get_char(i) as u32;
        let y = b.get_char(i) as u32;
        let same = x == y || (65 <= x && x <= 90 && x + 32 == y) || (65 <= y && y <= 90 && y + 32
            == x);
        if !same {
            return false;
        }
        i = i + 1;
    }
    true
}

/// Lexicographic order on character sequences by code point; this is the
/// order `str::cmp` induces, since UTF-8 byte order follows code-point
/// order.
pub open spec fn lex_le(a: Seq<char>, b: Seq<char>) -> bool
    decreases a.len(),
{
    if a.len() == 0 {
        true
    } else if b.len() == 0 {
        false
    } else if (a[0] as u32) < (b[0] as u32) {
        true
    } else if (a[0] as u32) > (b[0] as u32) {
        false
    } else {
        lex_le(a.drop_first(), b.drop_first())
    }
}

/// Casting a character to its code point is injective.
proof fn lemma_char_cast_inj(c1: char, c2: char)
    requires
        c1 as u32 == c2 as u32,
    ensures
        c1 == c2,
{
}

/// `lex_le` is total: any two sequences compare one way or the other.
pub proof fn lemma_lex_le_total(a: Seq<char>, b: Seq<char>)
    ensures
        lex_le(a, b) || lex_le(b, a),
    decreases a.len(),
{
    if a.len() > 0 && b.len() > 0 && a[0] as u32 == b[0] as u32 {
        lemma_lex_le_total(a.drop_first(), b.drop_first());
    }
}

/// `lex_le` is transitive.
pub proof fn lemma_lex_le_trans(a: Seq<char>, b: Seq<char>, c: Seq<char>)
    requires
        lex_le(a, b),
        lex_le(b, c),
    ensures
        lex_le(a, c),
    decreases a.len(),
{
    if a.len() > 0 && b.len() > 0 && c.len() > 0 && a[0] as u32 == b[0] as u32 && b[0] as u32
        == c[0] as u32 {
        lemma_lex_le_trans(a.drop_first(), b.drop_first(), c.drop_first());
    }
}

/// `lex_le` is antisymmetric: mutual order means equality.
pub proof fn lemma_lex_le_antisym(a: Seq<char>, b: Seq<char>)
    requires
        lex_le(a, b),
        lex_le(b, a),
    ensures
        a == b,
    decreases a.len(),
{
    if a.len() > 0 && b.len() > 0 {
        if a[0] as u32 == b[0] as u32 {
            lemma_char_cast_inj(a[0], b[0]);
            lemma_lex_le_antisym(a.drop_first(), b.drop_first());
            assert forall|i: int| 0 <= i < a.len() implies a[i] == b[i] by {
                if i > 0 {
                    assert(a[i] == a.drop_first()[i - 1]);
                    assert(b[i] == b.drop_first()[i - 1]);
                }
            }
            assert(a =~= b);
        }
    } else if a.len() == 0 && b.len() == 0 {
        assert(a =~= b);
    }
}

/// Whether `a@` precedes or equals `b@` in lexicographic order.
pub fn str_le(a: &str, b: &str) -> (r: bool)
    ensures
        r == lex_le(a@, b@),
{
    let an = a.unicode_len();
    let bn = b.unicode_len();
    let mut i: usize = 0;
    proof {
        assert(a@.skip(0) =~= a@);
        assert(b@.skip(0) =~= b@);
    }
    loop
        invariant
            0 <= i,
            i <= an,
            i <= bn,
            an == a@.len(),
            bn == b@.len(),
            lex_le(a@, b@) == lex_le(a@.skip(i as int), b@.skip(i as int)),
        decreases an - i,
    {
        if i >= an {
            assert(a@.skip(i as int).len() == 0);
            return true;
        }
        if i >= bn {
            assert(b@.skip(i as int).len() == 0);
            assert(a@.skip(i as int).len() > 0);
            return false;
        }
        let x = a.get_char(i) as u32;
        let y = b.get_char(i) as u32;
        proof {
            assert(a@.skip(i as int)[0] == a@[i as int]);
            assert(b@.skip(i as int)[0] == b@[i as int]);
        }
        if x < y {
            return true;
        }
        if x > y {
            return false;
        }
        proof {
            assert(a@.skip(i as int).drop_first() =~= a@.skip(i as int + 1));
            assert(b@.skip(i as int).drop_first() =~= b@.skip(i as int + 1));
        }
        i = i + 1;
    }
}

/// Strict lexicographic order on character sequences.
pub open spec fn lex_lt(a: Seq<char>, b: Seq<char>) -> bool {
    lex_le(a, b) && a != b
}

/// `lex_le` is reflexive.
pub proof fn lemma_lex_le_refl(a: Seq<char>)
    ensures
        lex_le(a, a),
    decreases a.len(),
{
    if a.len() > 0 {
        lemma_lex_le_refl(a.drop_first());
    }
}

/// Whether `a@` strictly precedes `b@` in lexicographic order.
pub fn str_lt(a: &str, b: &str) -> (r: bool)
    ensures
        r == lex_lt(a@, b@),
{
    let r = !str_le(b, a);
    proof {
        if r {
            lemma_lex_le_total(a@, b@);
            if a@ == b@ {
                lemma_lex_le_refl(a@);
            }
        } else {
            if lex_le(a@, b@) && a@ != b@ {
                lemma_lex_le_antisym(a@, b@);
            }
        }
    }
    r
}

/// Whether `a` and `b` hold the same characters.
pub fn str_eq(a: &str, b: &str) -> (r: bool)
    ensures
        r == (a@ == b@),
{
    let an = a.unicode_len();
    let bn = b.unicode_len();
    if an != bn {
        return false;
    }
    let mut i: usize = 0;
    while i < an
        invariant
            0 <= i <= an,
            an == a@.len(),
            bn == b@.len(),
            an == bn,
            forall|j: int| 0 <= j < i ==> a@[j] == b@[j],
        decreases an - i,
    {
        if a.get_char(i) != b.get_char(i) {
            return false;
        }
        i = i + 1;
    }
    proof {
        assert(a@ =~= b@);
    }
    true
}

/// `s` with leading whitespace removed.
pub open spec fn trim_start_spec(s: Seq<char>) -> Seq<char>
    decreases s.len(),
{
    if s.len() > 0 && is_ws_char(s[0]) {
        trim_start_spec(s.drop_first())
    } else {
        s
    }
}

/// `s` with trailing whitespace removed.
pub open spec fn trim_end_spec(s: Seq<char>) -> Seq<char>
    decreases s.len(),
{
    if s.len() > 0 && is_ws_char(s.last()) {
        trim_end_spec(s.drop_last())
    } else {
        s
    }
}

/// `s` with leading and trailing whitespace removed, as `str::trim`
/// produces it.
pub open spec fn trim_spec(s: Seq<char>) -> Seq<char> {
    trim_end_spec(trim_start_spec(s))
}

/// Strip leading and trailing whitespace characters.
pub fn trim(s: &str) -> (r: &str)
    ensures
        r@ == trim_spec(s@),
{
    let n = s.unicode_len();
    let mut lo: usize = 0;
    proof {
        assert(s@.skip(0) =~= s@);
    }
    while lo < n && is_ws(s.get_char(lo))
        invariant
            0 <= lo <= n,
            n == s@.len(),
            trim_start_spec(s@) == trim_start_spec(s@.skip(lo as int)),
        decreases n - lo,
    {
        proof {
            assert(s@.skip(lo as int)[0] == s@[lo as int]);
            assert(s@.skip(lo as int).drop_first() =~= s@.skip(lo as int + 1));
        }
        lo = lo + 1;
    }
    proof {
        if lo < n {
            assert(s@.skip(lo as int)[0] == s@[lo as int]);
        }
        assert(trim_start_spec(s@) == s@.skip(lo as int));
        assert(s@.skip(lo as int) =~= s@.subrange(lo as int, n as int));
    }
    let mut hi: usize = n;
    while hi > lo && is_ws(s.get_char(hi - 1))
        invariant
            lo <= hi <= n,
            n == s@.len(),
            trim_start_spec(s@) == s@.subrange(lo as int, n as int),
            trim_end_spec(s@.subrange(lo as int, n as int)) == trim_end_spec(
                s@.subrange(lo as int, hi as int),
            ),
        decreases hi,
    {
        proof {
            let cur = s@.subrange(lo as int, hi as int);
            assert(cur.last() == s@[hi as int - 1]);
            assert(cur.drop_last() =~= s@.subrange(lo as int, hi as int - 1));
        }
        hi = hi - 1;
    }
    proof {
        let cur = s@.subrange(lo as int, hi as int);
        if hi > lo {
            assert(cur.last() == s@[hi as int - 1]);
        }
        assert(trim_end_spec(cur) == cur);
    }
    s.substring_char(lo, hi)
}

/// Every character is an ASCII decimal digit.
pub open spec fn all_digits(s: Seq<char>) -> bool {
    forall|i: int| 0 <= i < s.len() ==> is_digit_char(s[i])
}

/// The number a digit sequence denotes in base ten.
pub open spec fn digits_val(s: Seq<char>) -> int
    decreases s.len(),
{
    if s.len() == 0 {
        0
    } else {
        digits_val(s.drop_last()) * 10 + digit_val(s.last())
    }
}

proof fn lemma_digits_val_nonneg(s: Seq<char>)
    requires
        all_digits(s),
    ensures
        digits_val(s) >= 0,
    decreases s.len(),
{
    if s.len() > 0 {
        assert(all_digits(s.drop_last()));
        lemma_digits_val_nonneg(s.drop_last());
    }
}

proof fn lemma_digits_val_take_succ(s: Seq<char>, k: int)
    requires
        0 <= k < s.len(),
    ensures
        digits_val(s.take(k + 1)) == digits_val(s.take(k)) * 10 + digit_val(s[k]),
{
    assert(s.take(k + 1).drop_last() =~= s.take(k));
    assert(s.take(k + 1).last() == s[k]);
}

proof fn lemma_digits_val_take_grows(s: Seq<char>, k: int)
    requires
        0 <= k <= s.len(),
        all_digits(s),
    ensures
        digits_val(s) >= digits_val(s.take(k)),
    decreases s.len() - k,
{
    if k < s.len() {
        lemma_digits_val_take_succ(s, k);
        assert(all_digits(s.take(k)));
        lemma_digits_val_nonneg(s.take(k));
        lemma_digits_val_take_grows(s, k + 1);
    } else {
        assert(s.take(k) =~= s);
    }
}

/// The body of `s` after an optional leading sign.
pub open spec fn strip_sign(s: Seq<char>) -> Seq<char> {
    if s.len() > 0 && (s[0] == '+' || s[0] == '-') {
        s.drop_first()
    } else {
        s
    }
}

/// The exact set of strings `i64::from_str` accepts: an optional sign,
/// one or more ASCII digits, and a value within the 64-bit signed range.
pub open spec fn is_int_literal(s: Seq<char>) -> bool {
    let body = strip_sign(s);
    body.len() > 0 && all_digits(body) && (if s.len() > 0 && s[0] == '-' {
        digits_val(body) <= 0x8000_0000_0000_0000
    } else {
        digits_val(body) <= 0x7fff_ffff_ffff_ffff
    })
}

/// Whether `s` parses as a 64-bit signed integer.
pub fn parses_as_i64(s: &str) -> (r: bool)
    ensures
        r == is_int_literal(s@),
{
    let n = s.unicode_len();
    if n == 0 {
        return false;
    }
    let c0 = s.get_char(0);
    let neg = c0 == '-';
    let start: usize = if c0 == '-' || c0 == '+' {
        1
    } else {
        0
    };
    if n == start {
        return false;
    }
    let limit: u64 = if neg {
        0x8000_0000_0000_0000
    } else {
        0x7fff_ffff_ffff_ffff
    };
    let ghost body = strip_sign(s@);
    proof {
        assert(body =~= s@.skip(start as int));
    }
    let mut acc: u64 = 0;
    let mut i: usize = start;
    while i < n
        invariant
            start <= i <= n,
            n == s@.len(),
            body == strip_sign(s@),
            body == s@.skip(start as int),
            body.len() == n - start,
            forall|j: int| 0 <= j < i - start ==> is_digit_char(body[j]),
            acc == digits_val(body.take(i - start)),
            acc <= limit,
            limit == (if neg {
                0x8000_0000_0000_0000u64
            } else {
                0x7fff_ffff_ffff_ffffu64
            }),
            neg == (s@[0] == '-'),
            n > start,
        decreases n - i,
    {
        let c = s.get_char(i);
        proof {
            assert(body[i - start] == s@[i as int]);
        }
        if !is_digit(c) {
            return false;
        }
        let d: u64 = (c as u32 as u64) - 48;
        if acc > (limit - d) / 10 {
            proof {
                let k = i - start;
                lemma_digits_val_take_succ(body, k);
                assert(digits_val(body.take(k + 1)) == acc * 10 + d);
                assert(acc * 10 + d > limit) by {
                    assert(acc >= (limit - d) / 10 + 1);
                    assert(((limit - d) / 10 + 1) * 10 >= (limit - d) + 1) by (nonlinear_arith);
                    assert(acc * 10 >= ((limit - d) / 10 + 1) * 10) by (nonlinear_arith)
                        requires
                            acc >= (limit - d) / 10 + 1,
                    ;
                }
                if all_digits(body) {
                    lemma_digits_val_take_grows(body, k + 1);
                    assert(digits_val(body) > limit);
                }
            }
            return false;
        }
        proof {
            lemma_digits_val_take_succ(body, i - start);
            assert(acc * 10 + d <= limit) by {
                assert(acc <= (limit - d) / 10);
                assert(acc * 10 <= ((limit - d) / 10) * 10) by (nonlinear_arith)
                    requires
                        acc <= (limit - d) / 10,
                ;
                assert(((limit - d) / 10) * 10 <= limit - d) by (nonlinear_arith);
            }
        }
        acc = acc * 10 + d;
        i = i + 1;
    }
    proof {
        assert(body.take(n - start) =~= body);
    }
    true
}

/// A valid exponent part: an optional sign followed by one or more
/// digits.
pub open spec fn is_exp_part(s: Seq<char>) -> bool {
    let d = strip_sign(s);
    d.len() > 0 && all_digits(d)
}

/// A valid mantissa: `Digit+`, `Digit+ '.' Digit*`, or
/// `Digit* '.' Digit+`.
pub open spec fn is_mantissa(m: Seq<char>) -> bool {
    (m.len() > 0 && all_digits(m)) || (exists|k: int|
        0 <= k < m.len() && m[k] == '.' && all_digits(m.take(k)) && all_digits(m.skip(k + 1))
            && m.len() > 1)
}

/// A valid number: a mantissa with an optional exponent.
pub open spec fn is_number(t: Seq<char>) -> bool {
    is_mantissa(t) || (exists|k: int|
        0 <= k < t.len() && (t[k] == 'e' || t[k] == 'E') && is_mantissa(t.take(k)) && is_exp_part(
            t.skip(k + 1),
        ))
}

/// The exact set of strings `f64::from_str` accepts: an optional sign,
/// then `inf`, `infinity` or `nan` up to case, or a number with an
/// optional exponent.
pub open spec fn is_float_literal(s: Seq<char>) -> bool {
    let t = strip_sign(s);
    str_eq_ci(t, seq!['i', 'n', 'f']) || str_eq_ci(
        t,
        seq!['i', 'n', 'f', 'i', 'n', 'i', 't', 'y'],
    ) || str_eq_ci(t, seq!['n', 'a', 'n']) || is_number(t)
}

/// Whether every character of `s` is a digit.
fn all_digits_exec(s: &str) -> (r: bool)
    ensures
        r == all_digits(s@),
{
    let n = s.unicode_len();
    let mut i: usize = 0;
    while i < n
        invariant
            0 <= i <= n,
            n == s@.len(),
            forall|j: int| 0 <= j < i ==> is_digit_char(s@[j]),
        decreases n - i,
    {
        if !is_digit(s.get_char(i)) {
            return false;
        }
        i = i + 1;
    }
    true
}

proof fn lemma_mantissa_has_no_e(m: Seq<char>, i: int)
    requires
        is_mantissa(m),
        0 <= i < m.len(),
    ensures
        m[i] != 'e' && m[i] != 'E',
{
    if m.len() > 0 && all_digits(m) {
        assert(is_digit_char(m[i]));
    } else {
        let k = choose|k: int|
            0 <= k < m.len() && m[k] == '.' && all_digits(m.take(k)) && all_digits(m.skip(k + 1))
                && m.len() > 1;
        if i < k {
            assert(is_digit_char(m.take(k)[i]));
        } else if i > k {
            assert(is_digit_char(m.skip(k + 1)[i - k - 1]));
        }
    }
}

/// Whether `m` has the form of a float mantissa.
fn is_mantissa_exec(m: &str) -> (r: bool)
    ensures
        r == is_mantissa(m@),
{
    let n = m.unicode_len();
    let mut i: usize = 0;
    while i < n
        invariant
            0 <= i <= n,
            n == m@.len(),
            forall|j: int| 0 <= j < i ==> m@[j] != '.',
        decreases n - i,
    {
        if m.get_char(i) == '.' {
            let before_ok = all_digits_exec(m.substring_char(0, i));
            let after_ok = all_digits_exec(m.substring_char(i + 1, n));
            proof {
                assert(m@.subrange(0, i as int) =~= m@.take(i as int));
                assert(m@.subrange(i as int + 1, n as int) =~= m@.skip(i as int + 1));
            }
            if before_ok && after_ok && n > 1 {
                return true;
            }
            proof {
                assert(!(m@.len() > 0 && all_digits(m@)));
                assert forall|k: int|
                    !(0 <= k < m@.len() && m@[k] == '.' && all_digits(m@.take(k)) && all_digits(
                        m@.skip(k + 1),
                    ) && m@.len() > 1) by {
                    if 0 <= k < m@.len() && m@[k] == '.' {
                        if k < i {
                        } else if k > i {
                            assert(m@.take(k)[i as int] == '.');
                            assert(!is_digit_char(m@.take(k)[i as int]));
                        }
                    }
                }
            }
            return false;
        }
        i = i + 1;
    }
    proof {
        if n > 0 && !all_digits(m@) {
            assert forall|k: int|
                !(0 <= k < m@.len() && m@[k] == '.' && all_digits(m@.take(k)) && all_digits(
                    m@.skip(k + 1),
                ) && m@.len() > 1) by {}
        }
    }
    all_digits_exec(m) && n > 0
}

/// Whether `t` has the form of a number, mantissa plus optional
/// exponent.
fn is_number_exec(t: &str) -> (r: bool)
    ensures
        r == is_number(t@),
{
    let n = t.unicode_len();
    let mut i: usize = 0;
    while i < n
        invariant
            0 <= i <= n,
            n == t@.len(),
            forall|j: int| 0 <= j < i ==> t@[j] != 'e' && t@[j] != 'E',
        decreases n - i,
    {
        let c = t.get_char(i);
        if c == 'e' || c == 'E' {
            let mant = t.substring_char(0, i);
            let rest = t.substring_char(i + 1, n);
            proof {
                assert(t@.subrange(0, i as int) =~= t@.take(i as int));
                assert(t@.subrange(i as int + 1, n as int) =~= t@.skip(i as int + 1));
            }
            let mant_ok = is_mantissa_exec(mant);
            let exp_ok = is_exp_ok(rest);
            proof {
                if !(mant_ok && exp_ok) {
                    assert(!is_mantissa(t@)) by {
                        if is_mantissa(t@) {
                            lemma_mantissa_has_no_e(t@, i as int);
                        }
                    }
                    assert forall|k: int|
                        !(0 <= k < t@.len() && (t@[k] == 'e' || t@[k] == 'E') && is_mantissa(
                            t@.take(k),
                        ) && is_exp_part(t@.skip(k + 1))) by {
                        if 0 <= k < t@.len() && (t@[k] == 'e' || t@[k] == 'E') && is_mantissa(
                            t@.take(k),
                        ) {
                            if k < i {
                            } else if k > i {
                                assert(t@.take(k)[i as int] == t@[i as int]);
                                lemma_mantissa_has_no_e(t@.take(k), i as int);
                            }
                        }
                    }
                } else {
                    assert(0 <= i < t@.len() && (t@[i as int] == 'e' || t@[i as int] == 'E')
                        && is_mantissa(t@.take(i as int)) && is_exp_part(t@.skip(i as int + 1)));
                }
            }
            return mant_ok && exp_ok;
        }
        i = i + 1;
    }
    proof {
        assert forall|k: int|
            !(0 <= k < t@.len() && (t@[k] == 'e' || t@[k] == 'E') && is_mantissa(t@.take(k))
                && is_exp_part(t@.skip(k + 1))) by {}
    }
    is_mantissa_exec(t)
}

/// Whether `s` is a valid exponent body.
fn is_exp_ok(s: &str) -> (r: bool)
    ensures
        r == is_exp_part(s@),
{
    let n = s.unicode_len();
    if n == 0 {
        return false;
    }
    let c0 = s.get_char(0);
    if c0 == '+' || c0 == '-' {
        let d = s.substring_char(1, n);
        proof {
            assert(s@.subrange(1, n as int) =~= s@.drop_first());
        }
        if n == 1 {
            return false;
        }
        all_digits_exec(d)
    } else {
        all_digits_exec(s)
    }
}

/// Whether `s` parses as a 64-bit float.
pub fn parses_as_f64(s: &str) -> (r: bool)
    ensures
        r == is_float_literal(s@),
{
    let n = s.unicode_len();
    let t: &str = if n > 0 {
        let c0 = s.get_char(0);
        if c0 == '+' || c0 == '-' {
            proof {
                assert(s@.subrange(1, n as int) =~= s@.drop_first());
            }
            s.substring_char(1, n)
        } else {
            s
        }
    } else {
        s
    };
    proof {
        assert(t@ == strip_sign(s@));
        reveal_strlit("inf");
        reveal_strlit("infinity");
        reveal_strlit("nan");
        assert("inf"@ =~= seq!['i', 'n', 'f']);
        assert("infinity"@ =~= seq!['i', 'n', 'f', 'i', 'n', 'i', 't', 'y']);
        assert("nan"@ =~= seq!['n', 'a', 'n']);
    }
    if eq_ignore_ascii_case(t, "inf") || eq_ignore_ascii_case(t, "infinity") || eq_ignore_ascii_case(
        t,
        "nan",
    ) {
        return true;
    }
    is_number_exec(t)
}

} // verus!
