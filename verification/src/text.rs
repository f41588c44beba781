//! Decimal text conversions and small string-building helpers.

use vstd::prelude::*;

verus! {

/// The decimal digit character for a value in `0..10`.
pub open spec fn digit_char(d: int) -> char {
    if d == 0 { '0' }
    else if d == 1 { '1' }
    else if d == 2 { '2' }
    else if d == 3 { '3' }
    else if d == 4 { '4' }
    else if d == 5 { '5' }
    else if d == 6 { '6' }
    else if d == 7 { '7' }
    else if d == 8 { '8' }
    else { '9' }
}

/// Decimal digits of a natural number, most significant first, no leading
/// zeros (zero is written as a single `0`).
pub open spec fn nat_digits(n: nat) -> Seq<char>
    decreases n,
{
    if n < 10 {
        seq![digit_char(n as int)]
    } else {
        nat_digits(n / 10).push(digit_char((n % 10) as int))
    }
}

/// Reading back the digits of `n` gives `n`.
pub proof fn lemma_nat_digits_value(n: nat)
    ensures
        digits_value(nat_digits(n)) == n,
        forall|i: int| 0 <= i < nat_digits(n).len() ==> is_digit(#[trigger] nat_digits(n)[i]),
    decreases n,
{
    let s = nat_digits(n);
    if n < 10 {
        assert(s.drop_last() =~= Seq::<char>::empty());
        assert(digits_value(s.drop_last()) == 0);
        assert(s.last() == digit_char(n as int));
        assert(digit_value(digit_char(n as int)) == n);
        assert(digits_value(s) == digits_value(s.drop_last()) * 10 + digit_value(s.last()));
        assert(is_digit(s[0]));
    } else {
        lemma_nat_digits_value(n / 10);
        let d = (n % 10) as int;
        assert(s.drop_last() =~= nat_digits(n / 10));
        assert(s.last() == digit_char(d));
        assert(digit_value(digit_char(d)) == d);
        assert(digits_value(s) == digits_value(s.drop_last()) * 10 + digit_value(s.last()));
        assert((n / 10) * 10 + n % 10 == n);
        assert forall|i: int| 0 <= i < s.len() implies is_digit(#[trigger] s[i]) by {
            if i < s.len() - 1 {
                assert(s[i] == nat_digits(n / 10)[i]);
            }
        }
    }
}

/// Different numbers have different digits.
pub proof fn lemma_nat_digits_injective(a: nat, b: nat)
    ensures
        nat_digits(a) == nat_digits(b) ==> a == b,
{
    lemma_nat_digits_value(a);
    lemma_nat_digits_value(b);
}

/// How `Display` writes a signed integer: an optional `-` followed by the
/// decimal digits of its magnitude.
pub open spec fn int_text(v: int) -> Seq<char> {
    if v < 0 {
        seq!['-'] + nat_digits((-v) as nat)
    } else {
        nat_digits(v as nat)
    }
}

/// Whether `c` is an ASCII decimal digit.
pub open spec fn is_digit(c: char) -> bool {
    '0' <= c && c <= '9'
}

/// The numeric value of an ASCII digit character.
pub open spec fn digit_value(c: char) -> int {
    (c as int) - ('0' as int)
}

/// The value of a string of decimal digits (most significant first).
pub open spec fn digits_value(s: Seq<char>) -> int
    decreases s.len(),
{
    if s.len() == 0 {
        0
    } else {
        digits_value(s.drop_last()) * 10 + digit_value(s.last())
    }
}

/// Appends one character (`String::push`).
#[verifier::external_body]
pub(crate) fn push_char(s: &mut String, c: char)
    ensures
        final(s)@ == old(s)@.push(c),
{
    s.push(c);
}

/// Appends a string slice.
pub fn push_str(s: &mut String, t: &str)
    ensures
        final(s)@ == old(s)@ + t@,
{
    s.append(t);
}

/// Appends the contents of another string.
pub fn push_string(s: &mut String, t: &String)
    ensures
        final(s)@ == old(s)@ + t@,
{
    s.append(t.as_str());
}

/// The characters of a string slice, in order.
pub fn chars_of(s: &str) -> (r: Vec<char>)
    ensures
        r@ == s@,
{
    let mut v: Vec<char> = Vec::new();
    for c in it: s.chars()
        invariant
            v@ == it.seq().take(it.index() as int),
    {
        v.push(c);
    }
    v
}

/// Whether `s` starts with `p`.
pub fn has_prefix(s: &String, p: &str) -> (r: bool)
    ensures
        r == p@.is_prefix_of(s@),
{
    let sc = chars_of(s.as_str());
    let pc = chars_of(p);
    assert(sc@ == s@ && pc@ == p@);
    if pc.len() > sc.len() {
        return false;
    }
    let mut i: usize = 0;
    while i < pc.len()
        invariant
            sc@ == s@,
            pc@ == p@,
            pc@.len() <= sc@.len(),
            i <= pc@.len(),
            forall|k: int| 0 <= k < i ==> pc@[k] == sc@[k],
        decreases pc@.len() - i,
    {
        if pc[i] != sc[i] {
            assert(pc@[i as int] != sc@.subrange(0, pc@.len() as int)[i as int]);
            assert(!(pc@ =~= sc@.subrange(0, pc@.len() as int)));
            return false;
        }
        i = i + 1;
    }
    assert(pc@ =~= sc@.subrange(0, pc@.len() as int));
    true
}

/// A fresh string holding the text of a literal.
pub fn string_of(t: &str) -> (r: String)
    ensures
        r@ == t@,
{
    String::from_str(t)
}

/// The digit character for `d`.
pub fn digit_to_char(d: u64) -> (c: char)
    requires
        d < 10,
    ensures
        c == digit_char(d as int),
{
    if d == 0 { '0' }
    else if d == 1 { '1' }
    else if d == 2 { '2' }
    else if d == 3 { '3' }
    else if d == 4 { '4' }
    else if d == 5 { '5' }
    else if d == 6 { '6' }
    else if d == 7 { '7' }
    else if d == 8 { '8' }
    else { '9' }
}

/// Appends the decimal digits of `n`.
pub fn push_nat(s: &mut String, n: u64)
    ensures
        final(s)@ == old(s)@ + nat_digits(n as nat),
    decreases n,
{
    if n >= 10 {
        push_nat(s, n / 10);
    }
    push_char(s, digit_to_char(n % 10));
    proof {
        assert(old(s)@ + nat_digits(n as nat) =~= if n >= 10 {
            old(s)@ + nat_digits((n / 10) as nat) + seq![digit_char((n % 10) as int)]
        } else {
            old(s)@ + seq![digit_char((n % 10) as int)]
        });
    }
}

/// Appends the decimal text of a signed integer.
pub fn push_int(s: &mut String, v: i64)
    ensures
        final(s)@ == old(s)@ + int_text(v as int),
{
    if v < 0 {
        push_char(s, '-');
        let m: u64 = if v == i64::MIN { 9223372036854775808u64 } else { (-v) as u64 };
        push_nat(s, m);
        assert(old(s)@ + int_text(v as int) =~= old(s)@.push('-') + nat_digits(m as nat));
    } else {
        push_nat(s, v as u64);
    }
}

/// The decimal text of a signed integer.
pub fn int_to_string(v: i64) -> (r: String)
    ensures
        r@ == int_text(v as int),
{
    let mut s = String::new();
    push_int(&mut s, v);
    assert(Seq::<char>::empty() + int_text(v as int) =~= int_text(v as int));
    s
}

proof fn lemma_digits_value_nonneg(s: Seq<char>)
    requires
        forall|i: int| 0 <= i < s.len() ==> is_digit(#[trigger] s[i]),
    ensures
        digits_value(s) >= 0,
    decreases s.len(),
{
    if s.len() > 0 {
        lemma_digits_value_nonneg(s.drop_last());
    }
}

proof fn lemma_digits_value_mono(s: Seq<char>, c: char)
    requires
        forall|i: int| 0 <= i < s.len() ==> is_digit(#[trigger] s[i]),
        is_digit(c),
    ensures
        digits_value(s.push(c)) >= digits_value(s),
        digits_value(s.push(c)) == digits_value(s) * 10 + digit_value(c),
{
    lemma_digits_value_nonneg(s);
    assert(s.push(c).drop_last() =~= s);
}

/// Parses a nonempty run of decimal digits as an `i64`; `None` when the
/// value does not fit (`str::parse::<i64>` on such text).
pub fn parse_digits_i64(s: &Vec<char>) -> (r: Option<i64>)
    requires
        forall|i: int| 0 <= i < s@.len() ==> is_digit(#[trigger] s@[i]),
    ensures
        r == (if digits_value(s@) <= i64::MAX as int {
            Some(digits_value(s@) as i64)
        } else {
            None::<i64>
        }),
{
    let mut acc: i64 = 0;
    let mut i: usize = 0;
    while i < s.len()
        invariant
            0 <= i <= s@.len(),
            forall|k: int| 0 <= k < s@.len() ==> is_digit(#[trigger] s@[k]),
            acc as int == digits_value(s@.take(i as int)),
            acc >= 0,
        decreases s@.len() - i,
    {
        let c = s[i];
        let d: i64 = (c as u32 - '0' as u32) as i64;
        assert(s@.take(i + 1) =~= s@.take(i as int).push(c));
        proof {
            lemma_digits_value_mono(s@.take(i as int), c);
        }
        if acc > (i64::MAX - d) / 10 {
            // Every further digit keeps the value at least this large.
            proof {
                lemma_prefix_value_bound(s@, (i + 1) as int);
            }
            return None;
        }
        acc = acc * 10 + d;
        i = i + 1;
    }
    assert(s@.take(i as int) =~= s@);
    Some(acc)
}

proof fn lemma_prefix_value_bound(s: Seq<char>, k: int)
    requires
        0 <= k <= s.len(),
        forall|i: int| 0 <= i < s.len() ==> is_digit(#[trigger] s[i]),
    ensures
        digits_value(s) >= digits_value(s.take(k)),
    decreases s.len() - k,
{
    if k < s.len() {
        lemma_prefix_value_bound(s, k + 1);
        assert(s.take(k + 1) =~= s.take(k).push(s[k]));
        lemma_digits_value_mono(s.take(k), s[k]);
    } else {
        assert(s.take(k) =~= s);
    }
}

} // verus!
