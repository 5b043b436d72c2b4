//! Decimal integer strings.
//!
//! Conditional expressions and the variable increment/decrement operators
//! work on arbitrary-precision integers written in decimal.  The values
//! travel through the interpreter as strings; this module gives those
//! strings a mathematical meaning (`int_val`) and performs the arithmetic
//! through `num_bigint`.

use vstd::prelude::*;

verus! {

/// An ASCII decimal digit.
pub open spec fn is_digit(c: char) -> bool {
    48 <= c as u32 && c as u32 <= 57
}

/// Numeric value of one ASCII decimal digit.
pub open spec fn digit_val(c: char) -> int {
    c as u32 - 48
}

/// A non-empty run of ASCII decimal digits: the words the classifier
/// accepts as number literals.
pub open spec fn is_uint_str(s: Seq<char>) -> bool {
    s.len() > 0 && forall|i: int| 0 <= i < s.len() ==> is_digit(s[i])
}

/// An optionally `-`-signed, non-empty run of ASCII decimal digits.
pub open spec fn is_int_str(s: Seq<char>) -> bool {
    is_uint_str(s) || (s.len() > 1 && s[0] == '-' && is_uint_str(s.skip(1)))
}

/// Value of a digit string, most significant digit first.
pub open spec fn uint_val(s: Seq<char>) -> int
    decreases s.len(),
{
    if s.len() == 0 {
        0
    } else {
        uint_val(s.drop_last()) * 10 + digit_val(s.last())
    }
}

/// Value of an optionally signed digit string.
pub open spec fn int_val(s: Seq<char>) -> int {
    if s.len() > 0 && s[0] == '-' {
        -uint_val(s.skip(1))
    } else {
        uint_val(s)
    }
}

/// The character of one decimal digit value.
pub open spec fn digit_char(d: int) -> char {
    if d == 0 {
        '0'
    } else if d == 1 {
        '1'
    } else if d == 2 {
        '2'
    } else if d == 3 {
        '3'
    } else if d == 4 {
        '4'
    } else if d == 5 {
        '5'
    } else if d == 6 {
        '6'
    } else if d == 7 {
        '7'
    } else if d == 8 {
        '8'
    } else {
        '9'
    }
}

/// Canonical decimal spelling of a non-negative integer.
pub open spec fn udec(n: nat) -> Seq<char>
    decreases n,
{
    if n < 10 {
        seq![digit_char(n as int)]
    } else {
        udec(n / 10).push(digit_char((n % 10) as int))
    }
}

/// Canonical decimal spelling of an integer.
pub open spec fn dec(n: int) -> Seq<char> {
    if n >= 0 {
        udec(n as nat)
    } else {
        seq!['-'] + udec((-n) as nat)
    }
}

/// Relies on `num_bigint::BigInt`: `from_str` accepts an optional sign
/// followed by decimal digits, `Add` is integer addition, and `Display`
/// prints the value in canonical decimal (no leading zeros, `-` only on
/// negative values).  Used for `$name++`, `$name--` and the `++`/`--`
/// builtins, whose values may exceed any machine integer.
#[verifier::external_body]
pub fn big_add(a: &str, b: &str) -> (r: String)
    requires
        is_int_str(a@),
        is_int_str(b@),
    ensures
        r@ == dec(int_val(a@) + int_val(b@)),
{
    let x: num_bigint::BigInt = a.parse().unwrap();
    let y: num_bigint::BigInt = b.parse().unwrap();
    (x + y).to_string()
}

/// Relies on `num_bigint::BigInt`: `from_str` as above, and `Ord` ordering
/// values as integers.  Used by the numeric comparators of conditional
/// expressions, which compare with arbitrary precision.
#[verifier::external_body]
pub fn big_cmp(a: &str, b: &str) -> (r: i8)
    requires
        is_int_str(a@),
        is_int_str(b@),
    ensures
        r == -1 || r == 0 || r == 1,
        (r == -1) <==> int_val(a@) < int_val(b@),
        (r == 0) <==> int_val(a@) == int_val(b@),
        (r == 1) <==> int_val(a@) > int_val(b@),
{
    let x: num_bigint::BigInt = a.parse().unwrap();
    let y: num_bigint::BigInt = b.parse().unwrap();
    match x.cmp(&y) {
        core::cmp::Ordering::Less => -1,
        core::cmp::Ordering::Equal => 0,
        core::cmp::Ordering::Greater => 1,
    }
}

/// Negate a decimal integer string.
pub fn neg_int_str(s: &str) -> (r: String)
    requires
        is_int_str(s@),
    ensures
        is_int_str(r@),
        int_val(r@) == -int_val(s@),
{
    let n = s.unicode_len();
    if n > 0 && s.get_char(0) == '-' {
        proof {
            assert(!is_uint_str(s@));
        }
        let r = String::from_str(s.substring_char(1, n));
        proof {
            assert(r@ =~= s@.skip(1));
        }
        r
    } else {
        let r = String::from_str("-").concat(s);
        proof {
            reveal_strlit("-");
            assert(r@.skip(1) =~= s@);
            assert(r@[0] == '-');
        }
        r
    }
}

/// Does `s` spell a non-negative decimal integer?
pub fn check_uint_str(s: &str) -> (r: bool)
    ensures
        r == is_uint_str(s@),
{
    let n = s.unicode_len();
    if n == 0 {
        return false;
    }
    let mut i: usize = 0;
    while i < n
        invariant
            0 <= i <= n,
            n == s@.len(),
            forall|j: int| 0 <= j < i ==> is_digit(s@[j]),
        decreases n - i,
    {
        let c = s.get_char(i);
        let u = c as u32;
        if !(48 <= u && u <= 57) {
            return false;
        }
        i = i + 1;
    }
    true
}

/// Does `s` spell an optionally `-`-signed decimal integer?
pub fn check_int_str(s: &str) -> (r: bool)
    ensures
        r == is_int_str(s@),
{
    let n = s.unicode_len();
    if n > 1 && s.get_char(0) == '-' {
        let tail = s.substring_char(1, n);
        if check_uint_str(tail) {
            return true;
        }
    }
    check_uint_str(s)
}

/// The canonical spelling is a well-formed digit string with the spelled
/// value.
pub proof fn lemma_udec_wf(n: nat)
    ensures
        is_uint_str(udec(n)),
        uint_val(udec(n)) == n,
    decreases n,
{
    if n < 10 {
        assert(is_digit(digit_char(n as int)));
        assert(udec(n).drop_last() =~= Seq::<char>::empty());
        assert(uint_val(Seq::<char>::empty()) == 0);
        assert(digit_val(digit_char(n as int)) == n);
    } else {
        lemma_udec_wf(n / 10);
        let d = digit_char((n % 10) as int);
        assert(is_digit(d));
        assert(digit_val(d) == n % 10);
        assert(udec(n).drop_last() =~= udec(n / 10));
        assert(udec(n).last() == d);
        assert(forall|i: int|
            0 <= i < udec(n / 10).len() ==> udec(n)[i] == udec(n / 10)[i]);
        assert(n / 10 * 10 + n % 10 == n);
    }
}

/// The canonical signed spelling is well formed and spells the value.
pub proof fn lemma_dec_wf(n: int)
    ensures
        is_int_str(dec(n)),
        int_val(dec(n)) == n,
{
    if n >= 0 {
        lemma_udec_wf(n as nat);
        assert(!is_digit('-'));
        assert(dec(n)[0] != '-');
    } else {
        lemma_udec_wf((-n) as nat);
        assert(dec(n)[0] == '-');
        assert(dec(n).skip(1) =~= udec((-n) as nat));
        assert(!is_uint_str(dec(n)));
    }
}

/// One decimal digit as text.
fn digit_str(d: u8) -> (r: &'static str)
    requires
        d < 10,
    ensures
        r@ == seq![digit_char(d as int)],
{
    let r: &'static str = if d == 0 {
        "0"
    } else if d == 1 {
        "1"
    } else if d == 2 {
        "2"
    } else if d == 3 {
        "3"
    } else if d == 4 {
        "4"
    } else if d == 5 {
        "5"
    } else if d == 6 {
        "6"
    } else if d == 7 {
        "7"
    } else if d == 8 {
        "8"
    } else {
        "9"
    };
    proof {
        reveal_strlit("0");
        reveal_strlit("1");
        reveal_strlit("2");
        reveal_strlit("3");
        reveal_strlit("4");
        reveal_strlit("5");
        reveal_strlit("6");
        reveal_strlit("7");
        reveal_strlit("8");
        reveal_strlit("9");
        assert(r@ =~= seq![digit_char(d as int)]);
    }
    r
}

/// The digit characters of a digit stack, most recently pushed first.
pub open spec fn rev_digit_chars(ds: Seq<u8>) -> Seq<char>
    decreases ds.len(),
{
    if ds.len() == 0 {
        Seq::empty()
    } else {
        seq![digit_char(ds.last() as int)] + rev_digit_chars(ds.drop_last())
    }
}

/// Index form of `rev_digit_chars`.
proof fn lemma_rev_digit_chars_index(ds: Seq<u8>)
    ensures
        rev_digit_chars(ds).len() == ds.len(),
        forall|t: int|
            0 <= t < ds.len() ==> rev_digit_chars(ds)[t] == digit_char(
                ds[ds.len() - 1 - t] as int,
            ),
    decreases ds.len(),
{
    if ds.len() > 0 {
        lemma_rev_digit_chars_index(ds.drop_last());
    }
}

/// Render a non-negative machine integer in decimal.
fn u64_to_dec(n0: u64) -> (r: String)
    ensures
        r@ == udec(n0 as nat),
{
    let mut n: u64 = n0;
    let mut stack: Vec<u8> = Vec::new();
    proof {
        assert(rev_digit_chars(stack@) =~= Seq::<char>::empty());
        assert(udec(n0 as nat) + Seq::<char>::empty() =~= udec(n0 as nat));
    }
    while n >= 10
        invariant
            udec(n0 as nat) == udec(n as nat) + rev_digit_chars(stack@),
            forall|j: int| 0 <= j < stack@.len() ==> stack@[j] < 10,
        decreases n,
    {
        let d = (n % 10) as u8;
        let ghost stack0 = stack@;
        stack.push(d);
        n = n / 10;
        proof {
            assert(stack@.drop_last() =~= stack0);
            assert(udec((n * 10 + d) as nat) == udec(n as nat).push(digit_char(d as int)));
            assert(udec(n as nat).push(digit_char(d as int)) =~= udec(n as nat) + seq![
                digit_char(d as int),
            ]);
            assert((udec(n as nat) + seq![digit_char(d as int)]) + rev_digit_chars(stack0)
                =~= udec(n as nat) + (seq![digit_char(d as int)] + rev_digit_chars(stack0)));
        }
    }
    let mut out = String::from_str(digit_str(n as u8));
    proof {
        assert(out@ =~= udec(n as nat));
        lemma_rev_digit_chars_index(stack@);
    }
    let total = stack.len();
    let mut m: usize = 0;
    while m < total
        invariant
            0 <= m <= total,
            total == stack@.len(),
            forall|j: int| 0 <= j < stack@.len() ==> stack@[j] < 10,
            udec(n0 as nat) == udec(n as nat) + rev_digit_chars(stack@),
            rev_digit_chars(stack@).len() == total,
            forall|t: int|
                0 <= t < total ==> rev_digit_chars(stack@)[t] == digit_char(
                    stack@[total - 1 - t] as int,
                ),
            out@ == udec(n as nat) + rev_digit_chars(stack@).take(m as int),
        decreases total - m,
    {
        let d = stack[total - 1 - m];
        out.append(digit_str(d));
        proof {
            assert(rev_digit_chars(stack@).take(m + 1) =~= rev_digit_chars(stack@).take(
                m as int,
            ).push(rev_digit_chars(stack@)[m as int]));
            assert((udec(n as nat) + rev_digit_chars(stack@).take(m as int)) + seq![
                digit_char(stack@[total - 1 - m] as int),
            ] =~= udec(n as nat) + rev_digit_chars(stack@).take(m + 1));
        }
        m = m + 1;
    }
    proof {
        assert(rev_digit_chars(stack@).take(total as int) =~= rev_digit_chars(stack@));
    }
    out
}

/// Render a signed machine integer in decimal.
pub fn i32_to_dec(c: i32) -> (r: String)
    ensures
        r@ == dec(c as int),
        is_int_str(r@),
        int_val(r@) == c as int,
{
    proof {
        lemma_dec_wf(c as int);
    }
    if c >= 0 {
        u64_to_dec(c as u64)
    } else {
        let mag = -(c as i64);
        let body = u64_to_dec(mag as u64);
        let r = String::from_str("-").concat(body.as_str());
        proof {
            reveal_strlit("-");
            assert(r@ =~= seq!['-'] + udec((-(c as int)) as nat));
        }
        r
    }
}

/// Parse a signed decimal integer that fits in a 32-bit machine integer.
pub fn parse_i32(s: &str) -> (r: Option<i32>)
    ensures
        match r {
            Option::Some(v) => is_int_str(s@) && v as int == int_val(s@),
            Option::None => !is_int_str(s@) || int_val(s@) < -0x8000_0000 || int_val(s@)
                > 0x7fff_ffff,
        },
{
    if !check_int_str(s) {
        return None;
    }
    let n = s.unicode_len();
    let negative = s.get_char(0) == '-';
    let start: usize = if negative {
        1
    } else {
        0
    };
    let ghost digits = s@.skip(start as int);
    proof {
        if negative {
            assert(!is_uint_str(s@));
        } else {
            assert(digits =~= s@);
        }
    }
    let cap: i64 = 0x8000_0001;
    let mut acc: i64 = 0;
    let mut i: usize = start;
    proof {
        assert(digits.take(0) =~= Seq::<char>::empty());
    }
    while i < n
        invariant
            start <= i <= n,
            n == s@.len(),
            0 <= start <= 1,
            digits == s@.skip(start as int),
            is_uint_str(digits),
            0 <= acc <= cap,
            cap == 0x8000_0001,
            uint_val(digits.take(i - start)) <= 0x8000_0000 ==> acc == uint_val(
                digits.take(i - start),
            ),
            uint_val(digits.take(i - start)) > 0x8000_0000 ==> acc == cap,
        decreases n - i,
    {
        proof {
            assert(digits[i - start] == s@[i as int]);
            assert(is_digit(s@[i as int]));
            assert(digits.take(i - start + 1).drop_last() =~= digits.take(i - start));
            assert(digits.take(i - start + 1).last() == digits[i - start]);
        }
        let d = (s.get_char(i) as u32) - 48;
        acc = acc * 10 + (d as i64);
        if acc > cap {
            acc = cap;
        }
        i = i + 1;
    }
    proof {
        assert(digits.take(n - start) =~= digits);
    }
    if acc >= cap {
        return None;
    }
    if negative {
        if acc > 0x8000_0000 {
            None
        } else {
            Some((-acc) as i32)
        }
    } else {
        if acc > 0x7fff_ffff {
            None
        } else {
            Some(acc as i32)
        }
    }
}

} // verus!
