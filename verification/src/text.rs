//! Characters, whitespace, words, and decimal digits: the textual groundwork
//! for the filter chain and for mention tokens.

use vstd::prelude::*;

verus! {

/// The Unicode `White_Space` code points: the set `char::is_whitespace`
/// recognises and `str::split_whitespace` splits on.
pub open spec fn is_space_char(c: char) -> bool {
    let u = c as u32;
    (0x09 <= u && u <= 0x0D) || u == 0x20 || u == 0x85 || u == 0xA0 || u == 0x1680 || (0x2000 <= u
        && u <= 0x200A) || u == 0x2028 || u == 0x2029 || u == 0x202F || u == 0x205F || u == 0x3000
}

/// Executable whitespace test, equal to `is_space_char`.
pub fn space_char(c: char) -> (r: bool)
    ensures
        r == is_space_char(c),
{
    let u = c as u32;
    (0x09 <= u && u <= 0x0D) || u == 0x20 || u == 0x85 || u == 0xA0 || u == 0x1680 || (0x2000 <= u
        && u <= 0x200A) || u == 0x2028 || u == 0x2029 || u == 0x202F || u == 0x205F || u == 0x3000
}

/// Relies on `str::chars`: the iterator yields exactly the characters of the
/// string, in order, which is this string's view.
#[verifier::external_body]
pub(crate) fn to_chars(s: &str) -> (r: Vec<char>)
    ensures
        r@ == s@,
{
    s.chars().collect()
}

/// Relies on `String`'s `FromIterator<char>`: collecting characters yields
/// the string whose view is exactly that character sequence.
#[verifier::external_body]
pub(crate) fn chars_to_string(v: &Vec<char>) -> (r: String)
    ensures
        r@ == v@,
{
    v.iter().collect()
}

/// Character-wise string equality.
pub fn str_eq(a: &str, b: &str) -> (r: bool)
    ensures
        r == (a@ == b@),
{
    let va = to_chars(a);
    let vb = to_chars(b);
    if va.len() != vb.len() {
        assert(a@.len() != b@.len());
        return false;
    }
    let n = va.len();
    let mut i: usize = 0;
    while i < n
        invariant
            n == va@.len() == vb@.len(),
            va@ == a@,
            vb@ == b@,
            i <= n,
            forall|j: int| 0 <= j < i ==> a@[j] == b@[j],
        decreases n - i,
    {
        if va[i] != vb[i] {
            assert(a@ != b@);
            return false;
        }
        i = i + 1;
    }
    assert(a@ =~= b@);
    true
}

/// Words remaining in `t` when scanning left to right, where `in_word` says
/// whether the character just before `t` was part of a word.  A word is a
/// maximal run of non-whitespace characters; empty tokens are excluded.
pub open spec fn word_count_from(t: Seq<char>, in_word: bool) -> nat
    decreases t.len(),
{
    if t.len() == 0 {
        0
    } else if is_space_char(t[0]) {
        word_count_from(t.drop_first(), false)
    } else if in_word {
        word_count_from(t.drop_first(), true)
    } else {
        1 + word_count_from(t.drop_first(), true)
    }
}

/// Number of whitespace-separated words in `t`, as `str::split_whitespace`
/// would count them.
pub open spec fn word_count(t: Seq<char>) -> nat {
    word_count_from(t, false)
}

/// Counts the whitespace-separated words of `s`.
pub fn count_words(s: &str) -> (n: usize)
    ensures
        n == word_count(s@),
{
    let cs = to_chars(s);
    let n = cs.len();
    let mut i: usize = 0;
    let mut in_word = false;
    let mut count: usize = 0;
    assert(cs@.skip(0) =~= cs@);
    while i < n
        invariant
            n == cs@.len(),
            cs@ == s@,
            i <= n,
            count <= i,
            count + word_count_from(cs@.skip(i as int), in_word) == word_count(s@),
        decreases n - i,
    {
        proof {
            assert(cs@.skip(i as int).drop_first() =~= cs@.skip(i as int + 1));
            assert(cs@.skip(i as int)[0] == cs@[i as int]);
        }
        let c = cs[i];
        if space_char(c) {
            in_word = false;
        } else if !in_word {
            in_word = true;
            count = count + 1;
        }
        i = i + 1;
    }
    assert(cs@.skip(n as int) =~= Seq::<char>::empty());
    count
}

/// The character for the decimal digit `d`.
pub open spec fn dec_digit_char(d: int) -> char {
    if d == 0 {
        '0'
    } else if d == 1 {
        '1'
    } else if d == 2 {
        '2'
    } else if d == 3 {
        '3'
    } else if d == 4 {
        '4'
    } else if d == 5 {
        '5'
    } else if d == 6 {
        '6'
    } else if d == 7 {
        '7'
    } else if d == 8 {
        '8'
    } else {
        '9'
    }
}

/// The decimal digit string of `n`, without leading zeros (a lone zero for 0).
pub open spec fn dec_digits_of(n: nat) -> Seq<char>
    decreases n,
{
    if n < 10 {
        seq![dec_digit_char(n as int)]
    } else {
        dec_digits_of(n / 10) + seq![dec_digit_char((n % 10) as int)]
    }
}

/// The character for one decimal digit value.
fn digit_char(d: u64) -> (c: char)
    requires
        d < 10,
    ensures
        c == dec_digit_char(d as int),
{
    match d {
        0 => '0',
        1 => '1',
        2 => '2',
        3 => '3',
        4 => '4',
        5 => '5',
        6 => '6',
        7 => '7',
        8 => '8',
        _ => '9',
    }
}

/// Renders `x` in decimal, matching `dec_digits_of`.
pub fn u64_to_dec_chars(x: u64) -> (r: Vec<char>)
    ensures
        r@ == dec_digits_of(x as nat),
    decreases x,
{
    if x < 10 {
        let mut v: Vec<char> = Vec::new();
        v.push(digit_char(x));
        v
    } else {
        let mut v = u64_to_dec_chars(x / 10);
        v.push(digit_char(x % 10));
        v
    }
}

/// Whether `c` is a decimal digit.
pub open spec fn is_dec_digit(c: char) -> bool {
    0x30 <= c as u32 && c as u32 <= 0x39
}

/// Executable test for `is_dec_digit`.
pub fn dec_digit(c: char) -> (r: bool)
    ensures
        r == is_dec_digit(c),
{
    let u = c as u32;
    0x30 <= u && u <= 0x39
}

/// The value of one decimal digit character.
pub open spec fn digit_val(c: char) -> nat
    recommends
        is_dec_digit(c),
{
    (c as u32 - 0x30) as nat
}

/// The value of a decimal digit string, most significant digit first.
pub open spec fn digits_val(ds: Seq<char>) -> nat
    decreases ds.len(),
{
    if ds.len() == 0 {
        0
    } else {
        digits_val(ds.drop_last()) * 10 + digit_val(ds.last())
    }
}

/// Longer digit strings never shrink in value: each appended digit multiplies
/// the value by ten.
pub proof fn lemma_digits_val_take_mono(ds: Seq<char>, j: int)
    requires
        0 <= j <= ds.len(),
    ensures
        digits_val(ds.take(j)) <= digits_val(ds),
    decreases ds.len() - j,
{
    if j < ds.len() {
        assert(ds.take(j + 1).drop_last() =~= ds.take(j));
        assert(digits_val(ds.take(j + 1)) == digits_val(ds.take(j)) * 10 + digit_val(
            ds.take(j + 1).last(),
        ));
        lemma_digits_val_take_mono(ds, j + 1);
    } else {
        assert(ds.take(j) =~= ds);
    }
}

/// Parses the decimal digit characters `t[start..end]` as a `u64`; `None`
/// exactly when the value does not fit.
pub fn parse_u64_digits(t: &Vec<char>, start: usize, end: usize) -> (r: Option<u64>)
    requires
        start <= end <= t@.len(),
        forall|j: int| start <= j < end ==> is_dec_digit(t@[j]),
    ensures
        r matches Some(v) ==> v == digits_val(t@.subrange(start as int, end as int)),
        r is Some <==> digits_val(t@.subrange(start as int, end as int)) <= u64::MAX,
{
    let ghost ds = t@.subrange(start as int, end as int);
    let mut v: u64 = 0;
    let mut j: usize = start;
    assert(ds.take(0) =~= Seq::<char>::empty());
    while j < end
        invariant
            start <= j <= end <= t@.len(),
            forall|k: int| start <= k < end ==> is_dec_digit(t@[k]),
            ds == t@.subrange(start as int, end as int),
            v == digits_val(ds.take(j - start)),
        decreases end - j,
    {
        let c = t[j];
        let d: u64 = (c as u32 - 0x30) as u64;
        proof {
            assert(ds.take(j - start + 1).drop_last() =~= ds.take(j - start));
            assert(ds.take(j - start + 1).last() == t@[j as int]);
        }
        let wide: u128 = (v as u128) * 10 + (d as u128);
        if wide > u64::MAX as u128 {
            proof {
                lemma_digits_val_take_mono(ds, j - start + 1);
            }
            return None;
        }
        v = wide as u64;
        j = j + 1;
    }
    assert(ds.take(end - start) =~= ds);
    Some(v)
}

} // verus!
