//! Character-level helpers shared by the parsers and the page builders.
//!
//! Text is modelled as `Seq<char>`: the view of `String` and `str`.

use vstd::prelude::*;
use vstd::string::*;

verus! {

broadcast use vstd::string::group_string_axioms;

/// `String::push` appends one character to the end of the string.
pub assume_specification[ String::push ](s: &mut String, c: char)
    ensures
        final(s)@ == old(s)@.push(c),
;

/// The texts of a list of strings.
pub open spec fn texts(v: Seq<String>) -> Seq<Seq<char>> {
    Seq::new(v.len(), |i: int| v[i]@)
}

/// The texts of a list of pairs of strings.
pub open spec fn text_pairs(v: Seq<(String, String)>) -> Seq<(Seq<char>, Seq<char>)> {
    Seq::new(v.len(), |i: int| (v[i].0@, v[i].1@))
}

pub proof fn lemma_texts_push(v: Seq<String>, s: String)
    ensures
        texts(v.push(s)) == texts(v).push(s@),
{
    assert(texts(v.push(s)) =~= texts(v).push(s@));
}

pub proof fn lemma_text_pairs_push(v: Seq<(String, String)>, p: (String, String))
    ensures
        text_pairs(v.push(p)) == text_pairs(v).push((p.0@, p.1@)),
{
    assert(text_pairs(v.push(p)) =~= text_pairs(v).push((p.0@, p.1@)));
}

pub proof fn lemma_text_pairs_add(v: Seq<(String, String)>, w: Seq<(String, String)>)
    ensures
        text_pairs(v + w) == text_pairs(v) + text_pairs(w),
{
    assert(text_pairs(v + w) =~= text_pairs(v) + text_pairs(w));
}

/// The characters of `s`, in order.
pub fn chars_of(s: &str) -> (res: Vec<char>)
    ensures
        res@ == s@,
{
    let mut out: Vec<char> = Vec::new();
    for c in it: s.chars()
        invariant
            it.seq() == s@,
            out@ == s@.take(it.index()),
    {
        assert(s@.take(it.index() + 1) == s@.take(it.index()).push(c));
        out.push(c);
    }
    assert(s@.take(s@.len() as int) == s@);
    out
}

/// Appends `v[from..to]` to `out`.
pub fn push_range(out: &mut String, v: &Vec<char>, from: usize, to: usize)
    requires
        from <= to <= v.len(),
    ensures
        final(out)@ == old(out)@ + v@.subrange(from as int, to as int),
{
    let mut i: usize = from;
    while i < to
        invariant
            from <= i <= to <= v.len(),
            out@ == old(out)@ + v@.subrange(from as int, i as int),
        decreases to - i,
    {
        out.push(v[i]);
        i += 1;
        assert(v@.subrange(from as int, i as int) == v@.subrange(from as int, i - 1).push(
            v@[i - 1],
        ));
    }
}

/// The text `v[from..to]` as a `String`.
pub fn string_of_range(v: &Vec<char>, from: usize, to: usize) -> (res: String)
    requires
        from <= to <= v.len(),
    ensures
        res@ == v@.subrange(from as int, to as int),
{
    let mut out = String::new();
    push_range(&mut out, v, from, to);
    out
}

/// The text `v` as a `String`.
pub fn string_of(v: &Vec<char>) -> (res: String)
    ensures
        res@ == v@,
{
    let res = string_of_range(v, 0, v.len());
    assert(v@.subrange(0, v@.len() as int) == v@);
    res
}

/// `a + b` as a fresh `String`.
pub fn concat2(a: &str, b: &str) -> (res: String)
    ensures
        res@ == a@ + b@,
{
    let mut out = String::new();
    out.append(a);
    out.append(b);
    out
}

/// `a + b + c` as a fresh `String`.
pub fn concat3(a: &str, b: &str, c: &str) -> (res: String)
    ensures
        res@ == a@ + b@ + c@,
{
    let mut out = concat2(a, b);
    out.append(c);
    out
}

/// Whether `s` ends with `suffix`.
pub open spec fn has_suffix(s: Seq<char>, suffix: Seq<char>) -> bool {
    s.len() >= suffix.len() && s.subrange(s.len() - suffix.len(), s.len() as int) == suffix
}

/// Whether `s` starts with `prefix`.
pub open spec fn has_prefix(s: Seq<char>, prefix: Seq<char>) -> bool {
    s.len() >= prefix.len() && s.subrange(0, prefix.len() as int) == prefix
}

/// Whether `v[from..]` starts with `w`.
fn matches_at(v: &Vec<char>, from: usize, w: &Vec<char>) -> (res: bool)
    requires
        from + w.len() <= v.len(),
    ensures
        res == (v@.subrange(from as int, from + w.len()) == w@),
{
    let mut i: usize = 0;
    while i < w.len()
        invariant
            i <= w.len(),
            from + w.len() <= v.len(),
            forall|j: int| 0 <= j < i ==> v@[from + j] == w@[j],
        decreases w.len() - i,
    {
        if v[from + i] != w[i] {
            assert(v@.subrange(from as int, from + w.len())[i as int] != w@[i as int]);
            return false;
        }
        i += 1;
    }
    assert(v@.subrange(from as int, from + w.len()) =~= w@);
    true
}

/// Tests `has_suffix(v, suffix)`.
pub fn ends_with(v: &Vec<char>, suffix: &str) -> (res: bool)
    ensures
        res == has_suffix(v@, suffix@),
{
    let w = chars_of(suffix);
    if w.len() > v.len() {
        return false;
    }
    matches_at(v, v.len() - w.len(), &w)
}

/// Tests `has_prefix(v, prefix)`.
pub fn starts_with(v: &Vec<char>, prefix: &str) -> (res: bool)
    ensures
        res == has_prefix(v@, prefix@),
{
    let w = chars_of(prefix);
    if w.len() > v.len() {
        return false;
    }
    matches_at(v, 0, &w)
}

/// The position of the last `sep` in `s`, or `-1` where there is none.
pub open spec fn last_index_of(s: Seq<char>, sep: char) -> int
    decreases s.len(),
{
    if s.len() == 0 {
        -1
    } else if s.last() == sep {
        s.len() - 1
    } else {
        last_index_of(s.drop_last(), sep)
    }
}

pub proof fn lemma_last_index_of(s: Seq<char>, sep: char)
    ensures
        -1 <= last_index_of(s, sep) < s.len(),
        last_index_of(s, sep) >= 0 ==> s[last_index_of(s, sep)] == sep,
        forall|j: int| last_index_of(s, sep) < j < s.len() ==> s[j] != sep,
    decreases s.len(),
{
    if s.len() > 0 && s.last() != sep {
        let t = s.drop_last();
        lemma_last_index_of(t, sep);
        assert forall|j: int| last_index_of(s, sep) < j < s.len() implies s[j] != sep by {
            if j < t.len() {
                assert(t[j] == s[j]);
            }
        }
    }
}

/// Finds the last `sep` in `v`.
pub fn find_last(v: &Vec<char>, sep: char) -> (res: Option<usize>)
    ensures
        match res {
            Some(i) => i == last_index_of(v@, sep) && i < v.len(),
            None => last_index_of(v@, sep) == -1,
        },
{
    proof {
        lemma_last_index_of(v@, sep);
    }
    let mut i: usize = v.len();
    assert(v@.take(v@.len() as int) == v@);
    while i > 0
        invariant
            i <= v.len(),
            last_index_of(v@, sep) == last_index_of(v@.take(i as int), sep),
        decreases i,
    {
        if v[i - 1] == sep {
            return Some(i - 1);
        }
        assert(v@.take(i as int).drop_last() == v@.take(i - 1));
        i -= 1;
    }
    None
}

/// The part of a `/`-separated path before its last separator; empty where it has none.
pub open spec fn parent_dir(path: Seq<char>) -> Seq<char> {
    if last_index_of(path, '/') < 0 {
        Seq::empty()
    } else {
        path.subrange(0, last_index_of(path, '/'))
    }
}

/// The part of a `/`-separated path after its last separator; all of it where it has none.
pub open spec fn file_name(path: Seq<char>) -> Seq<char> {
    path.subrange(last_index_of(path, '/') + 1, path.len() as int)
}

/// `s` without its first `n` characters; empty where it has no more than `n`.
pub open spec fn skip_chars(s: Seq<char>, n: int) -> Seq<char> {
    if 0 <= n <= s.len() {
        s.subrange(n, s.len() as int)
    } else {
        Seq::empty()
    }
}

/// Computes `skip_chars(v, n)`.
pub fn skip_of(v: &Vec<char>, n: usize) -> (res: String)
    ensures
        res@ == skip_chars(v@, n as int),
{
    if n <= v.len() {
        string_of_range(v, n, v.len())
    } else {
        String::new()
    }
}

/// Computes `parent_dir(v)`.
pub fn parent_of(v: &Vec<char>) -> (res: String)
    ensures
        res@ == parent_dir(v@),
{
    match find_last(v, '/') {
        Some(i) => string_of_range(v, 0, i),
        None => String::new(),
    }
}

/// Computes `file_name(v)`.
pub fn file_name_of(v: &Vec<char>) -> (res: String)
    ensures
        res@ == file_name(v@),
{
    match find_last(v, '/') {
        Some(i) => string_of_range(v, i + 1, v.len()),
        None => string_of_range(v, 0, v.len()),
    }
}

/// The pieces of `s` between occurrences of `sep`: one more than the number of separators.
pub open spec fn split(s: Seq<char>, sep: char) -> Seq<Seq<char>>
    decreases s.len(),
{
    if s.len() == 0 {
        seq![Seq::<char>::empty()]
    } else {
        let before = split(s.drop_last(), sep);
        if s.last() == sep {
            before.push(Seq::empty())
        } else {
            before.drop_last().push(before.last().push(s.last()))
        }
    }
}

/// Computes `split(v, sep)`.
pub fn split_on(v: &Vec<char>, sep: char) -> (res: Vec<Vec<char>>)
    ensures
        res@.len() == split(v@, sep).len(),
        forall|k: int| 0 <= k < res@.len() ==> (#[trigger] res@[k])@ == split(v@, sep)[k],
{
    let mut parts: Vec<Vec<char>> = Vec::new();
    let mut current: Vec<char> = Vec::new();
    let mut i: usize = 0;
    assert(v@.take(0) == Seq::<char>::empty());
    while i < v.len()
        invariant
            i <= v.len(),
            parts@.len() + 1 == split(v@.take(i as int), sep).len(),
            forall|k: int|
                0 <= k < parts@.len() ==> (#[trigger] parts@[k])@ == split(
                    v@.take(i as int),
                    sep,
                )[k],
            current@ == split(v@.take(i as int), sep).last(),
        decreases v.len() - i,
    {
        let c = v[i];
        proof {
            assert(v@.take(i + 1).drop_last() == v@.take(i as int));
            assert(v@.take(i + 1).last() == c);
        }
        if c == sep {
            parts.push(current);
            current = Vec::new();
        } else {
            current.push(c);
        }
        i += 1;
    }
    assert(v@.take(v@.len() as int) == v@);
    parts.push(current);
    parts
}

/// The decimal digit `d` as a character.
pub open spec fn digit_char(d: int) -> char {
    (('0' as int) + d) as char
}

/// The decimal numeral of `n`, without leading zeros.
pub open spec fn decimal(n: nat) -> Seq<char>
    decreases n,
{
    if n < 10 {
        seq![digit_char(n as int)]
    } else {
        decimal(n / 10).push(digit_char((n % 10) as int))
    }
}

/// The decimal numeral of `i`, with a leading `-` where it is negative.
pub open spec fn signed_decimal(i: int) -> Seq<char> {
    if i < 0 {
        seq!['-'] + decimal((-i) as nat)
    } else {
        decimal(i as nat)
    }
}

fn digit(d: u64) -> (c: char)
    requires
        d < 10,
    ensures
        c == digit_char(d as int),
{
    (48u8 + d as u8) as char
}

/// Appends `decimal(n)` to `out`.
pub fn push_decimal(out: &mut String, n: u64)
    ensures
        final(out)@ == old(out)@ + decimal(n as nat),
    decreases n,
{
    if n < 10 {
        out.push(digit(n));
        assert(old(out)@.push(digit_char(n as int)) == old(out)@ + decimal(n as nat));
    } else {
        push_decimal(out, n / 10);
        out.push(digit(n % 10));
        assert((old(out)@ + decimal((n / 10) as nat)).push(digit_char((n % 10) as int))
            == old(out)@ + decimal(n as nat));
    }
}

/// Appends `signed_decimal(i)` to `out`.
pub fn push_signed(out: &mut String, i: i32)
    ensures
        final(out)@ == old(out)@ + signed_decimal(i as int),
{
    if i < 0 {
        out.push('-');
        let m: u64 = (-(i as i64)) as u64;
        push_decimal(out, m);
        assert(old(out)@.push('-') + decimal(m as nat) == old(out)@ + (seq!['-'] + decimal(
            m as nat,
        )));
    } else {
        push_decimal(out, i as u64);
    }
}

/// Whether `c` is one of `0` to `9`.
pub open spec fn is_digit(c: char) -> bool {
    '0' <= c <= '9'
}

/// The value of a run of decimal digits.
pub open spec fn digits_value(s: Seq<char>) -> nat
    decreases s.len(),
{
    if s.len() == 0 {
        0
    } else {
        (digits_value(s.drop_last()) * 10 + (s.last() as int - '0' as int)) as nat
    }
}

/// Whether `s` starts with a sign.
pub open spec fn has_sign(s: Seq<char>) -> bool {
    s.len() > 0 && (s[0] == '+' || s[0] == '-')
}

/// `s` without its sign.
pub open spec fn unsigned_part(s: Seq<char>) -> Seq<char> {
    if has_sign(s) {
        s.subrange(1, s.len() as int)
    } else {
        s
    }
}

/// Whether every character of `s` is a decimal digit.
pub open spec fn all_digits(s: Seq<char>) -> bool {
    forall|i: int| 0 <= i < s.len() ==> is_digit(#[trigger] s[i])
}

/// The integer that `s` spells: an optional `+` or `-`, then one or more decimal digits, with a
/// value that fits 32 signed bits. `None` for any other text.
pub open spec fn parse_int(s: Seq<char>) -> Option<int> {
    let digits = unsigned_part(s);
    let value = if s.len() > 0 && s[0] == '-' {
        -(digits_value(digits) as int)
    } else {
        digits_value(digits) as int
    };
    if digits.len() > 0 && all_digits(digits) && i32::MIN <= value <= i32::MAX {
        Some(value)
    } else {
        None
    }
}

proof fn lemma_digits_value_grows(s: Seq<char>, k: int)
    requires
        0 <= k <= s.len(),
        all_digits(s),
    ensures
        digits_value(s.take(k)) <= digits_value(s),
    decreases s.len() - k,
{
    if k < s.len() {
        lemma_digits_value_grows(s, k + 1);
        assert(s.take(k + 1).drop_last() == s.take(k));
        assert(is_digit(s[k]));
    } else {
        assert(s.take(k) == s);
    }
}

/// Computes `parse_int(v)`.
pub fn parse_i32(v: &Vec<char>) -> (res: Option<i32>)
    ensures
        match res {
            Some(i) => parse_int(v@) == Some(i as int),
            None => parse_int(v@) is None,
        },
{
    let n = v.len();
    if n == 0 {
        return None;
    }
    let negative = v[0] == '-';
    let start: usize = if v[0] == '+' || v[0] == '-' {
        1
    } else {
        0
    };
    let ghost digits = unsigned_part(v@);
    assert(digits == v@.subrange(start as int, n as int));
    if start == n {
        return None;
    }
    let mut acc: i64 = 0;
    let mut i: usize = start;
    assert(digits.take(0) == Seq::<char>::empty());
    while i < n
        invariant
            start <= i <= n,
            n == v.len(),
            digits == v@.subrange(start as int, n as int),
            digits == unsigned_part(v@),
            forall|j: int| 0 <= j < i - start ==> is_digit(#[trigger] digits[j]),
            acc == digits_value(digits.take(i - start)),
            0 <= acc <= 0x8000_0000,
        decreases n - i,
    {
        let c = v[i];
        assert(digits[i - start] == c);
        if !('0' <= c && c <= '9') {
            assert(!all_digits(digits));
            return None;
        }
        let d: i64 = (c as u32 - '0' as u32) as i64;
        proof {
            assert(digits.take(i - start + 1).drop_last() == digits.take(i - start));
            assert(digits.take(i - start + 1).last() == c);
        }
        acc = acc * 10 + d;
        i += 1;
        if acc > 0x8000_0000 {
            proof {
                if all_digits(digits) {
                    lemma_digits_value_grows(digits, i - start);
                }
            }
            return None;
        }
    }
    assert(digits.take(digits.len() as int) == digits);
    assert(all_digits(digits));
    if negative {
        Some((-acc) as i32)
    } else if acc > 0x7fff_ffff {
        None
    } else {
        Some(acc as i32)
    }
}

} // verus!
