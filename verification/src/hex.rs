use vstd::prelude::*;

verus! {

/// The sixteen digits of base 16, in lower case.
pub open spec fn hex_alphabet() -> Seq<char> {
    seq!['0', '1', '2', '3', '4', '5', '6', '7', '8', '9', 'a', 'b', 'c', 'd', 'e', 'f']
}

/// The sixteen digits of base 16, in upper case.
pub open spec fn hex_upper_alphabet() -> Seq<char> {
    seq!['0', '1', '2', '3', '4', '5', '6', '7', '8', '9', 'A', 'B', 'C', 'D', 'E', 'F']
}

/// The digit of value `d`, below 16, in upper or lower case.
pub open spec fn cased_digit(d: nat, upper: bool) -> char {
    if upper {
        hex_upper_alphabet()[d as int]
    } else {
        hex_alphabet()[d as int]
    }
}

/// The lower-case digit of value `d`, below 16.
pub open spec fn digit_char(d: nat) -> char {
    cased_digit(d, false)
}

/// `n` written in base 16 with no leading zero, in upper or lower case.
pub open spec fn hex_text(n: nat, upper: bool) -> Seq<char>
    decreases n,
{
    if n < 16 {
        seq![cased_digit(n, upper)]
    } else {
        hex_text(n / 16, upper) + seq![cased_digit(n % 16, upper)]
    }
}

/// `n` written in base 16 with lower-case digits and no leading zero, as
/// `{:x}` formats it.
pub open spec fn hex_string(n: nat) -> Seq<char> {
    hex_text(n, false)
}

/// `n` written in base 16 with upper-case digits and no leading zero, as
/// `{:X}` formats it.
pub open spec fn hex_string_upper(n: nat) -> Seq<char> {
    hex_text(n, true)
}

/// The value of a digit of base 16, in either case.
pub open spec fn hex_digit_value(c: char) -> Option<nat> {
    if '0' <= c && c <= '9' {
        Some((c as nat - '0' as nat) as nat)
    } else if 'a' <= c && c <= 'f' {
        Some((c as nat - 'a' as nat + 10) as nat)
    } else if 'A' <= c && c <= 'F' {
        Some((c as nat - 'A' as nat + 10) as nat)
    } else {
        None
    }
}

/// Every character is a digit of base 16.
pub open spec fn all_hex_digits(s: Seq<char>) -> bool {
    forall|i: int| 0 <= i < s.len() ==> (#[trigger] hex_digit_value(s[i])) is Some
}

/// The number that digits of base 16 denote.
pub open spec fn hex_digits_value(s: Seq<char>) -> nat
    decreases s.len(),
{
    if s.len() == 0 {
        0
    } else {
        hex_digits_value(s.drop_last()) * 16 + hex_digit_value(s.last()).unwrap_or(0)
    }
}

/// `s` without every `0x` that it begins with, as `trim_start_matches("0x")`
/// leaves it.
pub open spec fn strip_0x(s: Seq<char>) -> Seq<char>
    decreases s.len(),
{
    if s.len() >= 2 && s[0] == '0' && s[1] == 'x' {
        strip_0x(s.subrange(2, s.len() as int))
    } else {
        s
    }
}

/// The digits of an unsigned number: a leading `+` is allowed.
pub open spec fn unsigned_digits(s: Seq<char>) -> Seq<char> {
    if s.len() >= 1 && s[0] == '+' {
        s.subrange(1, s.len() as int)
    } else {
        s
    }
}

/// What `u64::from_str_radix(s.trim_start_matches("0x"), 16)` gives: the
/// number when, after the prefixes, some digits of base 16 remain, all of
/// them digits, and they fit in 64 bits.
pub open spec fn hex_value(s: Seq<char>) -> Option<u64> {
    let d = unsigned_digits(strip_0x(s));
    if d.len() > 0 && all_hex_digits(d) && hex_digits_value(d) <= u64::MAX {
        Some(hex_digits_value(d) as u64)
    } else {
        None
    }
}

proof fn lemma_value_grows(s: Seq<char>, k: int)
    requires
        0 <= k <= s.len(),
    ensures
        hex_digits_value(s.subrange(0, k)) <= hex_digits_value(s),
    decreases s.len() - k,
{
    if k < s.len() {
        lemma_value_grows(s, k + 1);
        assert(s.subrange(0, k + 1).drop_last() =~= s.subrange(0, k));
    } else {
        assert(s.subrange(0, k) =~= s);
    }
}

/// The value of a digit of base 16, if `c` is one.
pub fn digit_value(c: char) -> (r: Option<u64>)
    ensures
        r is Some <==> hex_digit_value(c) is Some,
        r is Some ==> r->0 == hex_digit_value(c)->0,
        r is Some ==> r->0 < 16,
{
    if '0' <= c && c <= '9' {
        Some((c as u64) - ('0' as u64))
    } else if 'a' <= c && c <= 'f' {
        Some((c as u64) - ('a' as u64) + 10)
    } else if 'A' <= c && c <= 'F' {
        Some((c as u64) - ('A' as u64) + 10)
    } else {
        None
    }
}

/// Reads a number of base 16 after the `0x` prefixes; `None` where
/// `u64::from_str_radix` fails.
pub fn hex_to_u64(num: &str) -> (r: Option<u64>)
    ensures
        r == hex_value(num@),
{
    let n = num.unicode_len();
    let ghost s = num@;
    let mut i: usize = 0;
    assert(s.subrange(0, n as int) =~= s);
    while n >= 2 && i <= n - 2 && num.get_char(i) == '0' && num.get_char(i + 1) == 'x'
        invariant
            n == s.len(),
            s == num@,
            i <= n,
            strip_0x(s) == strip_0x(s.subrange(i as int, n as int)),
        decreases n - i,
    {
        assert(s.subrange(i as int, n as int).subrange(2, (n - i) as int) =~= s.subrange(
            i + 2,
            n as int,
        ));
        i = i + 2;
    }
    let ghost rest = s.subrange(i as int, n as int);
    assert(strip_0x(rest) == rest);
    if i < n && num.get_char(i) == '+' {
        i = i + 1;
    }
    let ghost d = unsigned_digits(rest);
    assert(d =~= s.subrange(i as int, n as int));
    if i == n {
        return None;
    }
    let start = i;
    let mut acc: u64 = 0;
    while i < n
        invariant
            n == s.len(),
            s == num@,
            start <= i <= n,
            d == s.subrange(start as int, n as int),
            d == unsigned_digits(strip_0x(s)),
            d.len() > 0,
            all_hex_digits(s.subrange(start as int, i as int)),
            acc == hex_digits_value(s.subrange(start as int, i as int)),
        decreases n - i,
    {
        let c = num.get_char(i);
        let v = digit_value(c);
        match v {
            None => {
                assert(d[i - start] == c);
                assert(hex_digit_value(d[i - start]) is None);
                return None;
            },
            Some(dv) => {
                let ghost next = s.subrange(start as int, i + 1);
                assert(next.drop_last() =~= s.subrange(start as int, i as int));
                assert(next.last() == c);
                if acc > (u64::MAX - dv) / 16 {
                    proof {
                        assert(hex_digits_value(next) == acc * 16 + dv);
                        assert(acc * 16 + dv > u64::MAX) by (nonlinear_arith)
                            requires
                                acc > (u64::MAX - dv) / 16,
                                dv < 16,
                        ;
                        assert(next =~= d.subrange(0, i + 1 - start));
                        lemma_value_grows(d, i + 1 - start);
                    }
                    return None;
                }
                acc = acc * 16 + dv;
                assert forall|j: int| 0 <= j < next.len() implies (#[trigger] hex_digit_value(
                    next[j],
                )) is Some by {
                    if j < next.len() - 1 {
                        assert(next[j] == s.subrange(start as int, i as int)[j]);
                    }
                }
                i = i + 1;
            },
        }
    }
    assert(s.subrange(start as int, n as int) =~= d);
    Some(acc)
}

/// Reads a number written in base 16, such as `0x1b4`, as the node writes
/// block numbers.
pub fn from_hex_to_int(num: &str) -> (n: u64)
    requires
        hex_value(num@) is Some,
    ensures
        n == hex_value(num@)->0,
{
    hex_to_u64(num).unwrap()
}

/// Writes `n` in base 16, lower case, no leading zero.
pub fn to_hex_lower(n: u64) -> (s: String)
    ensures
        s@ == hex_string(n as nat),
{
    let digits = "0123456789abcdef";
    proof {
        reveal_strlit("0123456789abcdef");
        assert(digits@ =~= hex_alphabet());
    }
    let mut m = n;
    let d = (m % 16) as usize;
    let mut s = String::from_str(digits.substring_char(d, d + 1));
    assert(s@ =~= seq![digit_char(d as nat)]);
    m = m / 16;
    while m > 0
        invariant
            digits@ == hex_alphabet(),
            hex_string(n as nat) == (if m == 0 {
                s@
            } else {
                hex_string(m as nat) + s@
            }),
        decreases m,
    {
        let d = (m % 16) as usize;
        let digit = digits.substring_char(d, d + 1);
        assert(digit@ =~= seq![digit_char(d as nat)]);
        let ghost old_s = s@;
        s = String::from_str(digit).concat(s.as_str());
        assert(hex_string(m as nat) + old_s =~= (if m / 16 == 0 {
            s@
        } else {
            hex_string((m / 16) as nat) + s@
        }));
        m = m / 16;
    }
    s
}


proof fn lemma_digit_char(d: nat, upper: bool)
    requires
        d < 16,
    ensures
        hex_digit_value(cased_digit(d, upper)) == Some(d),
        cased_digit(d, upper) != 'x',
        cased_digit(d, upper) != '+',
        cased_digit(d, upper) == '0' ==> d == 0,
{
    assert(hex_alphabet()[0] == '0');
    assert(hex_upper_alphabet()[0] == '0');
    if d == 0 {} else if d == 1 {} else if d == 2 {} else if d == 3 {} else if d == 4 {
    } else if d == 5 {} else if d == 6 {} else if d == 7 {} else if d == 8 {} else if d == 9 {
    } else if d == 10 {} else if d == 11 {} else if d == 12 {} else if d == 13 {
    } else if d == 14 {} else {}
}

proof fn lemma_hex_text(n: nat, upper: bool)
    ensures
        hex_text(n, upper).len() >= 1,
        all_hex_digits(hex_text(n, upper)),
        hex_digits_value(hex_text(n, upper)) == n,
        hex_text(n, upper)[0] == '0' ==> n == 0,
        forall|i: int| 0 <= i < hex_text(n, upper).len() ==> #[trigger] hex_text(n, upper)[i] != 'x',
        hex_text(n, upper)[0] != '+',
    decreases n,
{
    let h = hex_text(n, upper);
    if n < 16 {
        lemma_digit_char(n, upper);
        assert(h.drop_last() =~= Seq::<char>::empty());
        assert(hex_digits_value(h.drop_last()) == 0);
    } else {
        let p = hex_text(n / 16, upper);
        lemma_hex_text(n / 16, upper);
        lemma_digit_char(n % 16, upper);
        assert(h.drop_last() =~= p);
        assert(h.last() == cased_digit(n % 16, upper));
        vstd::arithmetic::div_mod::lemma_fundamental_div_mod(n as int, 16);
        assert(hex_digits_value(h) == hex_digits_value(p) * 16 + n % 16);
        assert(h[0] == p[0]);
        assert forall|i: int| 0 <= i < h.len() implies (#[trigger] hex_digit_value(h[i])) is Some by {
            if i < p.len() {
                assert(h[i] == p[i]);
            }
        }
        assert forall|i: int| 0 <= i < h.len() implies #[trigger] h[i] != 'x' by {
            if i < p.len() {
                assert(h[i] == p[i]);
            }
        }
    }
}

/// A number written as the requests write block numbers, `0x` and then
/// lower-case digits of base 16, reads back as itself.
pub proof fn law_hex_roundtrip(n: u64)
    ensures
        hex_value(seq!['0', 'x'] + hex_string(n as nat)) == Some(n),
{
    let h = hex_string(n as nat);
    lemma_hex_text(n as nat, false);
    let s = seq!['0', 'x'] + h;
    assert(s.subrange(2, s.len() as int) =~= h);
    if h.len() >= 2 {
        assert(h[1] != 'x');
    }
    assert(strip_0x(h) == h);
    assert(strip_0x(s) == h);
    assert(unsigned_digits(h) == h);
}


/// A number written in base 16 with upper-case digits and no prefix, as
/// `{:X}` writes it, reads back as itself.
pub proof fn law_hex_roundtrip_upper(n: u64)
    ensures
        hex_value(hex_string_upper(n as nat)) == Some(n),
{
    let h = hex_string_upper(n as nat);
    lemma_hex_text(n as nat, true);
    if h.len() >= 2 {
        assert(h[1] != 'x');
    }
    assert(strip_0x(h) == h);
    assert(unsigned_digits(h) == h);
}

} // verus!
