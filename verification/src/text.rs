//! Decimal text: the specification of decimal digit runs and signed
//! decimal numerals, with verified executable conversions between `u64`
//! / `i64` values and their canonical decimal text.  Runtime values are
//! textual encodings, so these conversions carry the numeric half of the
//! evaluator's semantics.

use vstd::prelude::*;
use vstd::string::*;

verus! {

pub open spec fn is_digit(c: char) -> bool {
    '0' <= c && c <= '9'
}

pub open spec fn digit_val(c: char) -> int {
    c as u32 - '0' as u32
}

pub open spec fn digit_char(d: int) -> char {
    if d == 0 { '0' } else if d == 1 { '1' } else if d == 2 { '2' } else if d == 3 { '3' }
    else if d == 4 { '4' } else if d == 5 { '5' } else if d == 6 { '6' } else if d == 7 { '7' }
    else if d == 8 { '8' } else { '9' }
}

pub open spec fn all_digits(s: Seq<char>) -> bool {
    forall|i: int| 0 <= i < s.len() ==> is_digit(#[trigger] s[i])
}

/// The value of a run of decimal digits, most significant digit first.
pub open spec fn digits_val(s: Seq<char>) -> int
    decreases s.len(),
{
    if s.len() == 0 {
        0
    } else {
        digits_val(s.drop_last()) * 10 + digit_val(s.last())
    }
}

/// The canonical decimal text of a non-negative integer: no sign, no
/// leading zero except for the single digit of zero itself.
pub open spec fn dec_digits(n: int) -> Seq<char>
    recommends
        n >= 0,
    decreases n,
{
    if n < 10 {
        seq![digit_char(n)]
    } else {
        dec_digits(n / 10).push(digit_char(n % 10))
    }
}

/// The canonical decimal text of an integer: a `-` before the digits of
/// a negative value, the bare digits otherwise.
pub open spec fn int_text(n: int) -> Seq<char> {
    if n < 0 {
        seq!['-'] + dec_digits(-n)
    } else {
        dec_digits(n)
    }
}

/// The digits of a signed numeral: the text with a single leading `+`
/// or `-` removed.
pub open spec fn sign_split(s: Seq<char>) -> Seq<char> {
    if s.len() > 0 && (s[0] == '-' || s[0] == '+') {
        s.skip(1)
    } else {
        s
    }
}

/// Which texts denote an integer: an optional `+` or `-` sign followed
/// by one or more decimal digits and nothing else, of any magnitude.
pub open spec fn int_of_text(s: Seq<char>) -> Option<int> {
    if sign_split(s).len() > 0 && all_digits(sign_split(s)) {
        if s.len() > 0 && s[0] == '-' {
            Option::Some(-digits_val(sign_split(s)))
        } else {
            Option::Some(digits_val(sign_split(s)))
        }
    } else {
        Option::None
    }
}

/// Signed decimal text restricted to the values an `i64` can hold; text
/// of a larger magnitude does not denote a number at runtime.
pub open spec fn i64_of_text(s: Seq<char>) -> Option<int> {
    match int_of_text(s) {
        Option::Some(v) => if i64::MIN <= v <= i64::MAX {
            Option::Some(v)
        } else {
            Option::None
        },
        Option::None => Option::None,
    }
}

pub proof fn lemma_digits_val_nonneg(s: Seq<char>)
    requires
        all_digits(s),
    ensures
        digits_val(s) >= 0,
    decreases s.len(),
{
    if s.len() > 0 {
        assert(forall|i: int| 0 <= i < s.drop_last().len() ==> is_digit(#[trigger] s.drop_last()[i]));
        lemma_digits_val_nonneg(s.drop_last());
        assert(digits_val(s.drop_last()) * 10 >= 0) by (nonlinear_arith)
            requires
                digits_val(s.drop_last()) >= 0,
        ;
    }
}

/// Reading one more digit multiplies the value so far by ten and adds
/// the digit.
pub proof fn lemma_digits_val_step(s: Seq<char>, a: int, i: int)
    requires
        0 <= a <= i < s.len(),
    ensures
        digits_val(s.subrange(a, i + 1)) == digits_val(s.subrange(a, i)) * 10 + digit_val(s[i]),
{
    let t = s.subrange(a, i + 1);
    assert(t.len() == i + 1 - a);
    assert(t.drop_last() =~= s.subrange(a, i));
    assert(t.last() == s[i]);
}

pub proof fn lemma_subrange_push(s: Seq<char>, a: int, i: int)
    requires
        0 <= a <= i < s.len(),
    ensures
        s.subrange(a, i + 1) == s.subrange(a, i).push(s[i]),
{
    assert(s.subrange(a, i + 1) =~= s.subrange(a, i).push(s[i]));
}

pub proof fn lemma_dec_digits_shape(n: int)
    requires
        n >= 0,
    ensures
        dec_digits(n).len() >= 1,
        all_digits(dec_digits(n)),
    decreases n,
{
    if n >= 10 {
        lemma_dec_digits_shape(n / 10);
        let d = dec_digits(n / 10);
        let c = digit_char(n % 10);
        assert(is_digit(c));
        assert(forall|i: int| 0 <= i < d.push(c).len() ==> is_digit(#[trigger] d.push(c)[i]));
    } else {
        assert(is_digit(digit_char(n)));
    }
}

/// Printing a value and reading the digits back yields the value.
pub proof fn lemma_digits_val_of_dec(n: int)
    requires
        n >= 0,
    ensures
        digits_val(dec_digits(n)) == n,
    decreases n,
{
    if n < 10 {
        let s = dec_digits(n);
        assert(s.drop_last() =~= Seq::<char>::empty());
        assert(digits_val(Seq::<char>::empty()) == 0);
        assert(s.last() == digit_char(n));
        assert(digits_val(s) == digits_val(s.drop_last()) * 10 + digit_val(s.last()));
        assert(digit_val(digit_char(n)) == n);
    } else {
        lemma_digits_val_of_dec(n / 10);
        let d = dec_digits(n / 10);
        let c = digit_char(n % 10);
        assert(d.push(c).drop_last() =~= d);
        assert(d.push(c).last() == c);
        assert(digit_val(c) == n % 10);
        vstd::arithmetic::div_mod::lemma_fundamental_div_mod(n, 10);
    }
}

/// Printing an `i64` and parsing the text back yields the value: the
/// decimal encoding is lossless.
pub proof fn lemma_int_text_round_trip(n: int)
    requires
        i64::MIN <= n <= i64::MAX,
    ensures
        i64_of_text(int_text(n)) == Option::Some(n),
{
    if n >= 0 {
        let s = dec_digits(n);
        lemma_dec_digits_shape(n);
        lemma_digits_val_of_dec(n);
        assert(is_digit(s[0]));
        assert(s[0] != '-' && s[0] != '+');
        assert(sign_split(s) == s);
    } else {
        let d = dec_digits(-n);
        let s = seq!['-'] + d;
        lemma_dec_digits_shape(-n);
        lemma_digits_val_of_dec(-n);
        assert(s[0] == '-');
        assert(sign_split(s) =~= d);
    }
}

/// Whether `c` is a decimal digit.
pub fn char_is_digit(c: char) -> (r: bool)
    ensures
        r == is_digit(c),
{
    '0' <= c && c <= '9'
}

/// The numeric value of a decimal digit.
pub fn char_digit_val(c: char) -> (r: u32)
    requires
        is_digit(c),
    ensures
        r == digit_val(c),
        r <= 9,
{
    (c as u32) - ('0' as u32)
}

/// The decimal digit with numeric value `d`.
pub fn digit_to_char(d: u64) -> (r: char)
    requires
        d <= 9,
    ensures
        r == digit_char(d as int),
{
    if d == 0 { '0' } else if d == 1 { '1' } else if d == 2 { '2' } else if d == 3 { '3' }
    else if d == 4 { '4' } else if d == 5 { '5' } else if d == 6 { '6' } else if d == 7 { '7' }
    else if d == 8 { '8' } else { '9' }
}

/// Relies on `String::push`: appends one character to the string.
#[verifier::external_body]
pub(crate) fn push_char(s: &mut String, c: char)
    ensures
        final(s)@ == old(s)@.push(c),
{
    s.push(c)
}

/// Relies on `str::chars` (through `collect`): the characters of the
/// string, in order.
#[verifier::external_body]
pub(crate) fn str_chars(s: &str) -> (r: Vec<char>)
    ensures
        r@ == s@,
{
    s.chars().collect()
}

/// Copies the characters `v[from..to]` into a fresh string.
pub fn chars_string(v: &Vec<char>, from: usize, to: usize) -> (r: String)
    requires
        from <= to <= v@.len(),
    ensures
        r@ == v@.subrange(from as int, to as int),
{
    let mut s = String::new();
    let mut i: usize = from;
    while i < to
        invariant
            from <= i <= to <= v@.len(),
            s@ == v@.subrange(from as int, i as int),
        decreases to - i,
    {
        push_char(&mut s, v[i]);
        proof {
            lemma_subrange_push(v@, from as int, i as int);
        }
        i += 1;
    }
    s
}

/// The value of the digit run `v[from..to]`, or `None` when it exceeds
/// what a `u64` can hold.
pub fn digits_u64(v: &Vec<char>, from: usize, to: usize) -> (r: Option<u64>)
    requires
        from <= to <= v@.len(),
        all_digits(v@.subrange(from as int, to as int)),
    ensures
        match r {
            Option::Some(x) => x as int == digits_val(v@.subrange(from as int, to as int)),
            Option::None => digits_val(v@.subrange(from as int, to as int)) > u64::MAX,
        },
{
    let mut acc: u64 = 0;
    let mut big = false;
    let mut i: usize = from;
    while i < to
        invariant
            from <= i <= to <= v@.len(),
            all_digits(v@.subrange(from as int, to as int)),
            !big ==> acc as int == digits_val(v@.subrange(from as int, i as int)),
            big ==> digits_val(v@.subrange(from as int, i as int)) > u64::MAX,
        decreases to - i,
    {
        let c = v[i];
        proof {
            assert(v@.subrange(from as int, to as int)[i - from] == v@[i as int]);
        }
        let d: u64 = char_digit_val(c) as u64;
        let ghost old_val = digits_val(v@.subrange(from as int, i as int));
        proof {
            lemma_digits_val_step(v@, from as int, i as int);
            lemma_digits_val_nonneg(v@.subrange(from as int, i as int));
        }
        if !big {
            let mul = acc.checked_mul(10);
            match mul {
                Option::Some(a10) => {
                    let sum = a10.checked_add(d);
                    match sum {
                        Option::Some(a) => {
                            acc = a;
                        },
                        Option::None => {
                            big = true;
                        },
                    }
                },
                Option::None => {
                    big = true;
                },
            }
        } else {
            proof {
                assert(old_val * 10 + digit_val(c) > u64::MAX) by (nonlinear_arith)
                    requires
                        old_val > u64::MAX,
                        digit_val(c) >= 0,
                ;
            }
        }
        i += 1;
        proof {
            assert(v@.subrange(from as int, i as int) == v@.subrange(from as int, i - 1).push(
                v@[i - 1],
            )) by {
                lemma_subrange_push(v@, from as int, i - 1);
            }
        }
    }
    proof {
        assert(v@.subrange(from as int, i as int) == v@.subrange(from as int, to as int));
    }
    if big {
        Option::None
    } else {
        Option::Some(acc)
    }
}

/// The canonical decimal text of `n`.
pub fn u64_text(n: u64) -> (r: String)
    ensures
        r@ == dec_digits(n as int),
{
    let mut rev: Vec<char> = Vec::new();
    let mut m: u64 = n;
    if m == 0 {
        rev.push('0');
        proof {
            assert(rev@.reverse() =~= seq!['0']);
        }
    }
    proof {
        if m > 0 {
            assert(rev@.reverse() =~= Seq::<char>::empty());
            assert(dec_digits(n as int) + rev@.reverse() =~= dec_digits(n as int));
        }
    }
    while m > 0
        invariant
            m > 0 ==> dec_digits(n as int) == dec_digits(m as int) + rev@.reverse(),
            m == 0 ==> dec_digits(n as int) == rev@.reverse(),
        decreases m,
    {
        let ghost prev_rev = rev@;
        let ghost prev_m = m as int;
        let d: u64 = m % 10;
        rev.push(digit_to_char(d));
        m = m / 10;
        proof {
            let dc = digit_char(d as int);
            assert(rev@.reverse() =~= seq![dc] + prev_rev.reverse());
            if m > 0 {
                assert(prev_m >= 10);
                assert(dec_digits(prev_m) == dec_digits(prev_m / 10).push(digit_char(prev_m % 10)));
                assert(dec_digits(prev_m) + prev_rev.reverse()
                    =~= dec_digits(m as int) + (seq![dc] + prev_rev.reverse()));
            } else {
                assert(prev_m < 10);
                assert(dec_digits(prev_m) =~= seq![dc]);
                assert(dec_digits(prev_m) + prev_rev.reverse() =~= seq![dc] + prev_rev.reverse());
            }
        }
    }
    let mut s = String::new();
    let k: usize = rev.len();
    let mut i: usize = 0;
    while i < k
        invariant
            i <= k,
            k == rev@.len(),
            dec_digits(n as int) == rev@.reverse(),
            s@ == rev@.reverse().subrange(0, i as int),
        decreases k - i,
    {
        push_char(&mut s, rev[k - 1 - i]);
        proof {
            assert(rev@.reverse()[i as int] == rev@[k - 1 - i]);
            lemma_subrange_push(rev@.reverse(), 0, i as int);
        }
        i += 1;
    }
    proof {
        assert(rev@.reverse().subrange(0, k as int) =~= rev@.reverse());
    }
    s
}

/// Whether two texts hold the same characters.
pub fn str_eq(a: &str, b: &str) -> (r: bool)
    ensures
        r == (a@ == b@),
{
    let n: usize = a.unicode_len();
    let m: usize = b.unicode_len();
    if n != m {
        return false;
    }
    let mut i: usize = 0;
    while i < n
        invariant
            i <= n,
            n == a@.len(),
            n == b@.len(),
            forall|k: int| 0 <= k < i ==> a@[k] == b@[k],
        decreases n - i,
    {
        if a.get_char(i) != b.get_char(i) {
            return false;
        }
        i += 1;
    }
    proof {
        assert(a@ =~= b@);
    }
    true
}

/// The canonical decimal text of `n`, signed.
pub fn i64_text(n: i64) -> (r: String)
    ensures
        r@ == int_text(n as int),
{
    if n >= 0 {
        u64_text(n as u64)
    } else {
        let mag: u64 = ((-(n + 1)) as u64) + 1;
        let mut s = String::from_str("-");
        let digits = u64_text(mag);
        s.append(digits.as_str());
        proof {
            reveal_strlit("-");
            assert(mag as int == -(n as int));
            assert(s@ =~= seq!['-'] + dec_digits(-(n as int)));
        }
        s
    }
}

/// Reads `s` as a signed decimal `i64`, exactly when `i64_of_text`
/// accepts it.
pub fn text_i64(s: &str) -> (r: Option<i64>)
    ensures
        match r {
            Option::Some(v) => i64_of_text(s@) == Option::Some(v as int),
            Option::None => i64_of_text(s@) is None,
        },
{
    let n: usize = s.unicode_len();
    let mut start: usize = 0;
    let mut neg = false;
    if n > 0 {
        let c0 = s.get_char(0);
        if c0 == '-' {
            neg = true;
            start = 1;
        } else if c0 == '+' {
            start = 1;
        }
    }
    let ghost body = sign_split(s@);
    proof {
        assert(body =~= s@.subrange(start as int, n as int));
    }
    if start >= n {
        return Option::None;
    }
    let mut acc: u64 = 0;
    let mut big = false;
    let mut i: usize = start;
    while i < n
        invariant
            start <= i <= n,
            start < n,
            n == s@.len(),
            body == sign_split(s@),
            body == s@.subrange(start as int, n as int),
            neg == (s@.len() > 0 && s@[0] == '-'),
            all_digits(s@.subrange(start as int, i as int)),
            !big ==> acc as int == digits_val(s@.subrange(start as int, i as int)),
            big ==> digits_val(s@.subrange(start as int, i as int)) > u64::MAX,
        decreases n - i,
    {
        let c = s.get_char(i);
        if !char_is_digit(c) {
            proof {
                assert(body[i - start] == s@[i as int]);
                assert(!all_digits(body));
            }
            return Option::None;
        }
        let d: u64 = char_digit_val(c) as u64;
        let ghost old_val = digits_val(s@.subrange(start as int, i as int));
        proof {
            lemma_subrange_push(s@, start as int, i as int);
            lemma_digits_val_step(s@, start as int, i as int);
            lemma_digits_val_nonneg(s@.subrange(start as int, i as int));
        }
        if !big {
            let mul = acc.checked_mul(10);
            match mul {
                Option::Some(a10) => {
                    let sum = a10.checked_add(d);
                    match sum {
                        Option::Some(a) => {
                            acc = a;
                        },
                        Option::None => {
                            big = true;
                        },
                    }
                },
                Option::None => {
                    big = true;
                },
            }
        } else {
            proof {
                assert(old_val * 10 + digit_val(c) > u64::MAX) by (nonlinear_arith)
                    requires
                        old_val > u64::MAX,
                        digit_val(c) >= 0,
                ;
            }
        }
        i += 1;
    }
    proof {
        assert(body.len() > 0);
        lemma_digits_val_nonneg(body);
    }
    if big {
        return Option::None;
    }
    if neg {
        if acc <= 9223372036854775808u64 {
            let v: i64 = if acc == 9223372036854775808u64 {
                i64::MIN
            } else {
                -(acc as i64)
            };
            Option::Some(v)
        } else {
            Option::None
        }
    } else {
        if acc <= 9223372036854775807u64 {
            Option::Some(acc as i64)
        } else {
            Option::None
        }
    }
}

} // verus!
