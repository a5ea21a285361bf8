//! Characters, decimal integers and words: the lexical layer of rule text.

use vstd::prelude::*;
use vstd::string::*;

verus! {

/// Relies on `String::push`: the character is appended at the end.
pub assume_specification[ String::push ](s: &mut String, ch: char)
    ensures
        final(s)@ == old(s)@.push(ch),
;

pub open spec fn is_digit(c: char) -> bool {
    '0' <= c <= '9'
}

pub open spec fn digit_value(c: char) -> int {
    c as int - '0' as int
}

pub open spec fn digit_char(d: int) -> char {
    ((d + '0' as int) as u32) as char
}

pub open spec fn all_digits(s: Seq<char>) -> bool {
    forall|i: int| 0 <= i < s.len() ==> is_digit(#[trigger] s[i])
}

/// The value of a string of decimal digits, most significant first.
pub open spec fn digits_value(s: Seq<char>) -> int
    decreases s.len(),
{
    if s.len() == 0 {
        0
    } else {
        digits_value(s.drop_last()) * 10 + digit_value(s.last())
    }
}

/// The shortest decimal writing of a natural number.
pub open spec fn nat_text(n: nat) -> Seq<char>
    decreases n,
{
    if n < 10 {
        seq![digit_char(n as int)]
    } else {
        nat_text(n / 10).push(digit_char(n as int % 10))
    }
}

/// The decimal writing of an integer, with a leading `-` when negative.
pub open spec fn int_text(v: int) -> Seq<char> {
    if v < 0 {
        seq!['-'] + nat_text((-v) as nat)
    } else {
        nat_text(v as nat)
    }
}

/// The integer that a token writes: decimal digits with an optional sign.
pub open spec fn int_of_text(t: Seq<char>) -> Option<int> {
    if t.len() > 0 && (t[0] == '-' || t[0] == '+') {
        let rest = t.drop_first();
        if rest.len() > 0 && all_digits(rest) {
            Some(if t[0] == '-' { -digits_value(rest) } else { digits_value(rest) })
        } else {
            None
        }
    } else if t.len() > 0 && all_digits(t) {
        Some(digits_value(t))
    } else {
        None
    }
}

/// The integer that a token writes, where it lies within `lo..=hi`.
pub open spec fn int_in(t: Seq<char>, lo: int, hi: int) -> Option<int> {
    match int_of_text(t) {
        Some(v) => if lo <= v <= hi { Some(v) } else { None },
        None => None,
    }
}

/// A writing of `n` on at least two digits, zero first where needed.
pub open spec fn two_digits(n: nat) -> Seq<char> {
    if n < 10 { seq!['0'] + nat_text(n) } else { nat_text(n) }
}

/// A writing of a year on four digits where it has at most four.
pub open spec fn year_text(y: int) -> Seq<char> {
    if 0 <= y <= 9999 {
        seq![
            digit_char(y / 1000),
            digit_char((y / 100) % 10),
            digit_char((y / 10) % 10),
            digit_char(y % 10),
        ]
    } else {
        int_text(y)
    }
}

pub proof fn lemma_digit_char(d: int)
    requires
        0 <= d < 10,
    ensures
        is_digit(digit_char(d)),
        digit_value(digit_char(d)) == d,
{
}

pub proof fn lemma_nat_text(n: nat)
    ensures
        nat_text(n).len() > 0,
        all_digits(nat_text(n)),
        digits_value(nat_text(n)) == n,
        n < 10 ==> nat_text(n).len() == 1,
        n >= 10 ==> nat_text(n).len() >= 2,
    decreases n,
{
    if n < 10 {
        lemma_digit_char(n as int);
        assert(nat_text(n).drop_last() =~= Seq::<char>::empty());
        assert(digits_value(Seq::<char>::empty()) == 0);
    } else {
        lemma_nat_text(n / 10);
        lemma_digit_char(n as int % 10);
        vstd::arithmetic::div_mod::lemma_fundamental_div_mod(n as int, 10);
        let s = nat_text(n);
        assert(s.drop_last() =~= nat_text(n / 10));
        assert(s.last() == digit_char(n as int % 10));
        assert(digits_value(s) == digits_value(s.drop_last()) * 10 + digit_value(s.last()));
        assert(digits_value(s) == (n / 10) * 10 + n % 10);
        assert forall|i: int| 0 <= i < s.len() implies is_digit(#[trigger] s[i]) by {
            if i < s.len() - 1 {
                assert(s[i] == nat_text(n / 10)[i]);
            }
        }
    }
}

pub proof fn lemma_int_text(v: int)
    ensures
        int_of_text(int_text(v)) == Some(v),
        forall|i: int|
            0 <= i < int_text(v).len() ==> (is_digit(#[trigger] int_text(v)[i]) || int_text(v)[i]
                == '-'),
        int_text(v).len() > 0,
{
    if v < 0 {
        let n = (-v) as nat;
        lemma_nat_text(n);
        let t = int_text(v);
        assert(t.drop_first() =~= nat_text(n));
        assert forall|i: int| 0 <= i < t.len() implies (is_digit(#[trigger] t[i]) || t[i]
            == '-') by {
            if i > 0 {
                assert(t[i] == nat_text(n)[i - 1]);
            }
        }
    } else {
        lemma_nat_text(v as nat);
    }
}

/// Values of digit strings grow as digits are appended.
pub proof fn lemma_digits_prefix_le(s: Seq<char>, j: int)
    requires
        all_digits(s),
        0 <= j <= s.len(),
    ensures
        digits_value(s.take(j)) <= digits_value(s),
        0 <= digits_value(s),
    decreases s.len(),
{
    if s.len() > 0 {
        let p = s.drop_last();
        assert(all_digits(p)) by {
            assert forall|i: int| 0 <= i < p.len() implies is_digit(#[trigger] p[i]) by {
                assert(p[i] == s[i]);
            }
        }
        assert(is_digit(s[s.len() - 1]));
        if j < s.len() {
            lemma_digits_prefix_le(p, j);
            assert(p.take(j) =~= s.take(j));
        } else {
            lemma_digits_prefix_le(p, 0);
            assert(s.take(j) =~= s);
        }
    } else {
        assert(s.take(j) =~= s);
    }
}

/// The characters of a string slice.
pub fn chars_of(s: &str) -> (r: Vec<char>)
    ensures
        r@ == s@,
{
    let n = s.unicode_len();
    let mut r: Vec<char> = Vec::new();
    let mut i: usize = 0;
    while i < n
        invariant
            n == s@.len(),
            i <= n,
            r@ == s@.take(i as int),
        decreases n - i,
    {
        let c = s.get_char(i);
        r.push(c);
        i = i + 1;
        assert(r@ =~= s@.take(i as int));
    }
    assert(r@ =~= s@);
    r
}

/// The string made of `cs[a..b]`.
pub fn string_of(cs: &Vec<char>, a: usize, b: usize) -> (r: String)
    requires
        a <= b <= cs@.len(),
    ensures
        r@ == cs@.subrange(a as int, b as int),
{
    let mut r = String::new();
    let mut i: usize = a;
    while i < b
        invariant
            a <= i <= b <= cs@.len(),
            r@ == cs@.subrange(a as int, i as int),
        decreases b - i,
    {
        r.push(cs[i]);
        i = i + 1;
        assert(r@ =~= cs@.subrange(a as int, i as int));
    }
    r
}

/// Whether `cs[a..b]` spells `w`.
pub fn word_is(cs: &Vec<char>, a: usize, b: usize, w: &str) -> (r: bool)
    requires
        a <= b <= cs@.len(),
    ensures
        r == (cs@.subrange(a as int, b as int) == w@),
{
    let n = w.unicode_len();
    if b - a != n {
        return false;
    }
    let mut i: usize = 0;
    while i < n
        invariant
            n == w@.len(),
            b - a == n,
            a <= b <= cs@.len(),
            i <= n,
            forall|k: int| 0 <= k < i ==> cs@[a + k] == w@[k],
        decreases n - i,
    {
        if cs[a + i] != w.get_char(i) {
            assert(cs@.subrange(a as int, b as int)[i as int] != w@[i as int]);
            return false;
        }
        i = i + 1;
    }
    assert(cs@.subrange(a as int, b as int) =~= w@);
    true
}

/// The index of the first `c` in `s`, or the length of `s`.
pub open spec fn find_from(s: Seq<char>, c: char) -> int
    decreases s.len(),
{
    if s.len() == 0 {
        0
    } else if s[0] == c {
        0
    } else {
        1 + find_from(s.drop_first(), c)
    }
}

pub proof fn lemma_find_from(s: Seq<char>, c: char)
    ensures
        0 <= find_from(s, c) <= s.len(),
        find_from(s, c) < s.len() ==> s[find_from(s, c)] == c,
        forall|k: int| 0 <= k < find_from(s, c) ==> s[k] != c,
    decreases s.len(),
{
    if s.len() > 0 && s[0] != c {
        lemma_find_from(s.drop_first(), c);
        assert forall|k: int| 0 <= k < find_from(s, c) implies s[k] != c by {
            if k > 0 {
                assert(s[k] == s.drop_first()[k - 1]);
            }
        }
    }
}

/// An index that holds `c` and none before it is what `find_from` gives.
pub proof fn lemma_find_from_at(s: Seq<char>, c: char, j: int)
    requires
        0 <= j <= s.len(),
        j < s.len() ==> s[j] == c,
        forall|k: int| 0 <= k < j ==> s[k] != c,
    ensures
        find_from(s, c) == j,
    decreases s.len(),
{
    if s.len() > 0 && j > 0 {
        assert(s[0] != c);
        assert forall|k: int| 0 <= k < j - 1 implies s.drop_first()[k] != c by {
            assert(s.drop_first()[k] == s[k + 1]);
        }
        lemma_find_from_at(s.drop_first(), c, j - 1);
    }
}

/// The index of the first `c` in `cs[a..b]`, relative to the whole, or `b`.
pub fn find_char(cs: &Vec<char>, a: usize, b: usize, c: char) -> (r: usize)
    requires
        a <= b <= cs@.len(),
    ensures
        a <= r <= b,
        r - a == find_from(cs@.subrange(a as int, b as int), c),
{
    let mut i: usize = a;
    while i < b && cs[i] != c
        invariant
            a <= i <= b <= cs@.len(),
            forall|k: int| a <= k < i ==> cs@[k] != c,
        decreases b - i,
    {
        i = i + 1;
    }
    let ghost s = cs@.subrange(a as int, b as int);
    proof {
        lemma_find_from_at(s, c, i - a);
    }
    i
}

/// The integer that `cs[a..b]` writes, where it lies within `lo..=hi`.
pub fn parse_int(cs: &Vec<char>, a: usize, b: usize, lo: i64, hi: i64) -> (r: Option<i64>)
    requires
        a <= b <= cs@.len(),
        -0x1_0000_0000 <= lo,
        hi <= 0x1_0000_0000,
    ensures
        match r {
            Some(v) => int_in(cs@.subrange(a as int, b as int), lo as int, hi as int) == Some(
                v as int,
            ),
            None => int_in(cs@.subrange(a as int, b as int), lo as int, hi as int) is None,
        },
{
    let ghost t = cs@.subrange(a as int, b as int);
    if a == b {
        return None;
    }
    let negative = cs[a] == '-';
    let start: usize = if cs[a] == '-' || cs[a] == '+' { a + 1 } else { a };
    let ghost rest = cs@.subrange(start as int, b as int);
    assert(t.len() > 0 && t[0] == cs@[a as int]);
    proof {
        if start == a + 1 {
            assert(rest =~= t.drop_first());
        } else {
            assert(rest =~= t);
        }
    }
    if start == b {
        return None;
    }
    let mut acc: i64 = 0;
    let mut i: usize = start;
    while i < b
        invariant
            start <= i <= b <= cs@.len(),
            rest == cs@.subrange(start as int, b as int),
            t == cs@.subrange(a as int, b as int),
            t.len() > 0,
            start < b,
            -0x1_0000_0000 <= lo,
            hi <= 0x1_0000_0000,
            (start == a + 1 && (t[0] == '-' || t[0] == '+') && rest == t.drop_first() && negative
                == (t[0] == '-')) || (start == a && !(t[0] == '-' || t[0] == '+') && rest == t
                && !negative),
            all_digits(rest.take(i - start)),
            acc as int == digits_value(rest.take(i - start)),
            0 <= acc <= 0x1_0000_0001,
        decreases b - i,
    {
        let c = cs[i];
        if !('0' <= c && c <= '9') {
            assert(rest[i - start] == c);
            assert(!all_digits(rest));
            assert(int_of_text(t) is None);
            return None;
        }
        let d = (c as u32 - '0' as u32) as i64;
        proof {
            let p = rest.take(i - start + 1);
            assert(p.drop_last() =~= rest.take(i - start));
            assert(p.last() == c);
            assert(all_digits(p)) by {
                assert forall|k: int| 0 <= k < p.len() implies is_digit(#[trigger] p[k]) by {
                    if k < p.len() - 1 {
                        assert(p[k] == rest.take(i - start)[k]);
                    }
                }
            }
            assert(digits_value(p) == acc * 10 + d);
        }
        acc = acc * 10 + d;
        i = i + 1;
        if acc > 0x1_0000_0000 {
            proof {
                let j = i - start;
                assert(acc == digits_value(rest.take(j)));
                if all_digits(rest) {
                    lemma_digits_prefix_le(rest, j);
                    if start == a + 1 {
                        assert(rest.len() > 0);
                        assert(int_of_text(t) == Some(
                            if t[0] == '-' { -digits_value(rest) } else { digits_value(rest) },
                        ));
                    } else {
                        assert(int_of_text(t) == Some(digits_value(rest)));
                    }
                }
                assert(int_of_text(t) is None || int_of_text(t)->0 > hi || int_of_text(t)->0 < lo);
            }
            return None;
        }
    }
    assert(rest.take(b - start) =~= rest);
    let v: i64 = if negative { -acc } else { acc };
    assert(all_digits(rest) && acc == digits_value(rest));
    assert(int_of_text(t) == Some(v as int));
    if v < lo || v > hi {
        return None;
    }
    Some(v)
}

/// The character of a decimal digit.
pub fn digit_to_char(d: u32) -> (c: char)
    requires
        d < 10,
    ensures
        c == digit_char(d as int),
{
    if d == 0 { '0' }
    else if d == 1 { '1' }
    else if d == 2 { '2' }
    else if d == 3 { '3' }
    else if d == 4 { '4' }
    else if d == 5 { '5' }
    else if d == 6 { '6' }
    else if d == 7 { '7' }
    else if d == 8 { '8' }
    else { '9' }
}

/// Appends the decimal writing of `n`.
pub fn push_nat(out: &mut String, n: u64)
    ensures
        final(out)@ == old(out)@ + nat_text(n as nat),
    decreases n,
{
    if n >= 10 {
        push_nat(out, n / 10);
    }
    let d = (n % 10) as u32;
    let c = digit_to_char(d);
    out.push(c);
    assert(final(out)@ =~= old(out)@ + nat_text(n as nat)) by {
        if n >= 10 {
            assert(nat_text(n as nat) == nat_text((n / 10) as nat).push(digit_char(n as int % 10)));
        }
    }
}

/// Appends the decimal writing of `v`.
pub fn push_int(out: &mut String, v: i64)
    requires
        v > i64::MIN,
    ensures
        final(out)@ == old(out)@ + int_text(v as int),
{
    if v < 0 {
        out.push('-');
        push_nat(out, (-v) as u64);
        assert(final(out)@ =~= old(out)@ + int_text(v as int));
    } else {
        push_nat(out, v as u64);
    }
}

} // verus!
