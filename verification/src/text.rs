//! Text utilities: decimal numerals, byte-wise string ordering, characters of a
//! string.

use vstd::prelude::*;
use vstd::std_specs::iter::IteratorSpec;
use vstd::string::StringSliceAdditionalSpecFns;
use vstd::utf8::encode_utf8;

verus! {

/// `c` is one of the ten ASCII decimal digits.
pub open spec fn is_digit(c: char) -> bool {
    '0' <= c && c <= '9'
}

/// The number a decimal digit stands for.
pub open spec fn digit_value(c: char) -> int {
    c as int - '0' as int
}

/// The character that writes the digit `d` (0 to 9).
pub open spec fn digit_char(d: int) -> char {
    (d + '0' as int) as char
}

/// Every character of `s` is a decimal digit.
pub open spec fn all_digits(s: Seq<char>) -> bool {
    forall|i: int| 0 <= i < s.len() ==> is_digit(#[trigger] s[i])
}

/// The number that the digit string `s` writes in base ten (0 for the empty string).
pub open spec fn digits_value(s: Seq<char>) -> int
    decreases s.len(),
{
    if s.len() == 0 {
        0
    } else {
        digits_value(s.drop_last()) * 10 + digit_value(s.last())
    }
}

/// The integer that `s` writes: an optional `+` or `-`, then one or more decimal
/// digits, nothing else, and a value that fits in 64 signed bits.
pub open spec fn parse_int(s: Seq<char>) -> Option<int> {
    let signed = s.len() > 0 && (s[0] == '-' || s[0] == '+');
    let negative = s.len() > 0 && s[0] == '-';
    let body = if signed { s.subrange(1, s.len() as int) } else { s };
    let magnitude = digits_value(body);
    let value = if negative { -magnitude } else { magnitude };
    if body.len() > 0 && all_digits(body) && i64::MIN <= value <= i64::MAX {
        Some(value)
    } else {
        None
    }
}

/// The decimal digits of a natural number, most significant first, without
/// leading zeros.
pub open spec fn nat_digits(n: nat) -> Seq<char>
    decreases n,
{
    if n < 10 {
        seq![digit_char(n as int)]
    } else {
        nat_digits(n / 10).push(digit_char((n % 10) as int))
    }
}

/// The decimal numeral of an integer: a `-` for negative numbers, then the digits.
pub open spec fn decimal(n: int) -> Seq<char> {
    if n < 0 {
        seq!['-'] + nat_digits((-n) as nat)
    } else {
        nat_digits(n as nat)
    }
}

/// Lexicographic order on byte strings: `a` and `b` agree on their first `k`
/// bytes, and there `a` ends while `b` goes on, or `a` has the smaller byte.
pub open spec fn bytes_lt(a: Seq<u8>, b: Seq<u8>) -> bool {
    exists|k: int|
        0 <= k <= a.len() && k <= b.len() && #[trigger] a.take(k) == b.take(k) && (k == a.len()
            && k < b.len() || k < a.len() && k < b.len() && a[k] < b[k])
}

/// The order of two strings: lexicographic on their UTF-8 encodings.
pub open spec fn text_lt(a: Seq<char>, b: Seq<char>) -> bool {
    bytes_lt(encode_utf8(a), encode_utf8(b))
}

/// A prefix of a digit string never writes a larger number than the whole.
pub proof fn lemma_digits_prefix(s: Seq<char>, k: int)
    requires
        all_digits(s),
        0 <= k <= s.len(),
    ensures
        0 <= digits_value(s.take(k)) <= digits_value(s),
    decreases s.len(),
{
    if k == s.len() {
        assert(s.take(k) =~= s);
        if s.len() > 0 {
            assert(is_digit(s.last()));
            lemma_digits_prefix(s.drop_last(), k - 1);
        }
    } else {
        let t = s.drop_last();
        assert(is_digit(s.last()));
        assert forall|i: int| 0 <= i < t.len() implies is_digit(#[trigger] t[i]) by {
            assert(t[i] == s[i]);
        }
        lemma_digits_prefix(t, k);
        assert(t.take(k) =~= s.take(k));
        lemma_digits_prefix(t, t.len() as int);
        assert(t.take(t.len() as int) =~= t);
    }
}

/// Reading one more digit multiplies by ten and adds the digit.
pub proof fn lemma_digits_step(s: Seq<char>, k: int)
    requires
        0 <= k < s.len(),
    ensures
        digits_value(s.take(k + 1)) == digits_value(s.take(k)) * 10 + digit_value(s[k]),
{
    assert(s.take(k + 1).drop_last() =~= s.take(k));
    assert(s.take(k + 1).last() == s[k]);
}

/// The characters of a string, in order.
pub fn to_chars(s: &str) -> (v: Vec<char>)
    ensures
        v@ == s@,
{
    let mut v: Vec<char> = Vec::new();
    for c in it: s.chars()
        invariant
            v@ == it.seq().take(it.index() as int),
            it.seq() == s@,
    {
        v.push(c);
    }
    v
}

/// `s` holds exactly the characters of `word`.
pub fn is_word(s: &String, word: &str) -> (b: bool)
    ensures
        b == (s@ == word@),
{
    let k = String::from_str(word);
    *s == k
}

/// The number that the digits `chars[from..to]` write, negated where
/// `negative` is set; none where one of them is no digit or the number does
/// not fit in 64 signed bits.
pub fn read_digits(chars: &Vec<char>, from: usize, to: usize, negative: bool) -> (r: Option<i64>)
    requires
        from <= to <= chars.len(),
    ensures
        ({
            let body = chars@.subrange(from as int, to as int);
            let value = if negative {
                -digits_value(body)
            } else {
                digits_value(body)
            };
            &&& r is Some <==> all_digits(body) && i64::MIN <= value <= i64::MAX
            &&& r is Some ==> r->0 as int == value
        }),
{
    let ghost body = chars@.subrange(from as int, to as int);
    let mut acc: i64 = 0;
    let mut i: usize = from;
    while i < to
        invariant
            from <= i <= to <= chars.len(),
            body == chars@.subrange(from as int, to as int),
            all_digits(body.take(i - from)),
            acc == if negative {
                -digits_value(body.take(i - from))
            } else {
                digits_value(body.take(i - from))
            },
            0 <= digits_value(body.take(i - from)),
        decreases to - i,
    {
        let c = chars[i];
        if !(c >= '0' && c <= '9') {
            assert(!is_digit(body[i - from]));
            return None;
        }
        let d: i64 = (c as u32 - '0' as u32) as i64;
        let ghost k = i - from;
        proof {
            lemma_digits_step(body, k);
            assert(body.take(k + 1).drop_last() =~= body.take(k));
            assert forall|j: int| 0 <= j < k + 1 implies is_digit(#[trigger] body.take(k + 1)[j]) by {
                if j < k {
                    assert(body.take(k)[j] == body[j]);
                }
            }
            if all_digits(body) {
                lemma_digits_prefix(body, k + 1);
            }
        }
        let shifted = acc.checked_mul(10);
        let next = match shifted {
            Some(m) => if negative {
                m.checked_sub(d)
            } else {
                m.checked_add(d)
            },
            None => None,
        };
        match next {
            None => {
                proof {
                    let grown = digits_value(body.take(k + 1));
                    assert(grown == digits_value(body.take(k)) * 10 + d);
                    assert(grown > i64::MAX || -grown < i64::MIN);
                }
                return None;
            },
            Some(x) => {
                acc = x;
            },
        }
        i += 1;
    }
    proof {
        assert(body.take(to - from) =~= body);
    }
    Some(acc)
}

/// Reads a signed decimal integer, as [`parse_int`] defines it.
pub fn parse_i64(s: &str) -> (r: Option<i64>)
    ensures
        r is Some <==> parse_int(s@) is Some,
        r is Some ==> r->0 as int == parse_int(s@)->0,
{
    let chars = to_chars(s);
    let n = chars.len();
    if n == 0 {
        return None;
    }
    let negative = chars[0] == '-';
    let start: usize = if chars[0] == '-' || chars[0] == '+' {
        1
    } else {
        0
    };
    if start == n {
        return None;
    }
    proof {
        if start == 0 {
            assert(chars@.subrange(0, n as int) =~= s@);
        }
    }
    read_digits(&chars, start, n, negative)
}

/// The one-character string of a decimal digit.
fn digit_str(d: u64) -> (r: &'static str)
    requires
        d < 10,
    ensures
        r@ == seq![digit_char(d as int)],
{
    proof {
        reveal_strlit("0");
        reveal_strlit("1");
        reveal_strlit("2");
        reveal_strlit("3");
        reveal_strlit("4");
        reveal_strlit("5");
        reveal_strlit("6");
        reveal_strlit("7");
        reveal_strlit("8");
        reveal_strlit("9");
    }
    let r = if d == 0 {
        "0"
    } else if d == 1 {
        "1"
    } else if d == 2 {
        "2"
    } else if d == 3 {
        "3"
    } else if d == 4 {
        "4"
    } else if d == 5 {
        "5"
    } else if d == 6 {
        "6"
    } else if d == 7 {
        "7"
    } else if d == 8 {
        "8"
    } else {
        "9"
    };
    assert(r@ =~= seq![digit_char(d as int)]);
    r
}

/// Appends the decimal digits of `n` to `s`.
fn push_digits(s: &mut String, n: u64)
    ensures
        final(s)@ == old(s)@ + nat_digits(n as nat),
    decreases n,
{
    if n >= 10 {
        push_digits(s, n / 10);
    }
    s.append(digit_str(n % 10));
    assert(s@ =~= old(s)@ + nat_digits(n as nat));
}

/// The decimal numeral of `n`.
pub fn i64_to_string(n: i64) -> (r: String)
    ensures
        r@ == decimal(n as int),
{
    let mut s = String::new();
    if n < 0 {
        proof {
            reveal_strlit("-");
        }
        s.append("-");
        let wide: i128 = n as i128;
        let magnitude: u64 = (-wide) as u64;
        push_digits(&mut s, magnitude);
        assert(s@ =~= decimal(n as int));
    } else {
        push_digits(&mut s, n as u64);
        assert(s@ =~= decimal(n as int));
    }
    s
}

/// Whether `a` comes strictly before `b` in the byte-wise order of strings.
pub fn str_lt(a: &str, b: &str) -> (r: bool)
    ensures
        r == text_lt(a@, b@),
{
    let x = a.as_bytes();
    let y = b.as_bytes();
    let ghost xs = x@;
    let ghost ys = y@;
    let mut i: usize = 0;
    while i < x.len() && i < y.len()
        invariant
            i <= x.len(),
            i <= y.len(),
            xs == x@,
            ys == y@,
            xs == encode_utf8(a@),
            ys == encode_utf8(b@),
            xs.take(i as int) == ys.take(i as int),
        decreases x.len() - i,
    {
        if x[i] != y[i] {
            let r = x[i] < y[i];
            proof {
                if r {
                    assert(xs.take(i as int) == ys.take(i as int) && i < xs.len() && i < ys.len()
                        && xs[i as int] < ys[i as int]);
                }
                if !r {
                    assert forall|k: int|
                        0 <= k <= xs.len() && k <= ys.len() && #[trigger] xs.take(k) == ys.take(
                            k,
                        ) implies !(k == xs.len() && k < ys.len() || k < xs.len() && k < ys.len()
                        && xs[k] < ys[k]) by {
                        if k > i {
                            assert(xs.take(k)[i as int] == ys.take(k)[i as int]);
                        } else if k < i {
                            assert(xs.take(i as int)[k] == ys.take(i as int)[k]);
                        }
                    }
                }
            }
            return r;
        }
        proof {
            assert(xs.take(i + 1) =~= xs.take(i as int).push(xs[i as int]));
            assert(ys.take(i + 1) =~= ys.take(i as int).push(ys[i as int]));
        }
        i += 1;
    }
    let r = x.len() < y.len();
    proof {
        if r {
            assert(xs.take(i as int) == ys.take(i as int) && i == xs.len() && i < ys.len());
        }
        if !r {
            assert forall|k: int|
                0 <= k <= xs.len() && k <= ys.len() && #[trigger] xs.take(k) == ys.take(
                    k,
                ) implies !(k == xs.len() && k < ys.len() || k < xs.len() && k < ys.len() && xs[k]
                < ys[k]) by {
                if k < i {
                    assert(xs.take(i as int)[k] == ys.take(i as int)[k]);
                }
            }
        }
    }
    r
}

} // verus!
