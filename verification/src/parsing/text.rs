//! Operations on text that the other modules share: joining and splitting,
//! and the decimal form of integers.

use vstd::prelude::*;
use vstd::string::*;

verus! {

/// The contents of a vector of strings, one character sequence per string.
pub open spec fn texts(v: Seq<String>) -> Seq<Seq<char>> {
    Seq::new(v.len(), |i: int| v[i]@)
}

/// The contents of a vector of string slices.
pub open spec fn slice_texts(v: Seq<&str>) -> Seq<Seq<char>> {
    Seq::new(v.len(), |i: int| v[i]@)
}

/// All the parts written one after another.
pub open spec fn concat(parts: Seq<Seq<char>>) -> Seq<char>
    decreases parts.len(),
{
    if parts.len() == 0 {
        Seq::empty()
    } else {
        concat(parts.drop_last()) + parts.last()
    }
}

/// The parts written one after another with `sep` between neighbours.
pub open spec fn join(parts: Seq<Seq<char>>, sep: Seq<char>) -> Seq<char>
    decreases parts.len(),
{
    if parts.len() == 0 {
        Seq::empty()
    } else if parts.len() == 1 {
        parts[0]
    } else {
        join(parts.drop_last(), sep) + sep + parts.last()
    }
}

/// The pieces of `s` between occurrences of `sep`; never empty.
pub open spec fn split(s: Seq<char>, sep: char) -> Seq<Seq<char>>
    decreases s.len(),
{
    if s.len() == 0 {
        seq![Seq::empty()]
    } else {
        let before = split(s.drop_last(), sep);
        if s.last() == sep {
            before.push(Seq::empty())
        } else {
            before.drop_last().push(before.last().push(s.last()))
        }
    }
}

/// `count` copies of `unit`.
pub open spec fn repeat(unit: Seq<char>, count: nat) -> Seq<char>
    decreases count,
{
    if count == 0 {
        Seq::empty()
    } else {
        repeat(unit, (count - 1) as nat) + unit
    }
}

/// The character that writes the digit `d`.
pub open spec fn digit_char(d: nat) -> char {
    if d == 0 {
        '0'
    } else if d == 1 {
        '1'
    } else if d == 2 {
        '2'
    } else if d == 3 {
        '3'
    } else if d == 4 {
        '4'
    } else if d == 5 {
        '5'
    } else if d == 6 {
        '6'
    } else if d == 7 {
        '7'
    } else if d == 8 {
        '8'
    } else {
        '9'
    }
}

/// Whether `c` is one of the ten decimal digits.
pub open spec fn is_digit_char(c: char) -> bool {
    exists|d: nat| d < 10 && c == #[trigger] digit_char(d)
}

/// The digit that `c` writes; meaningful for decimal digits only.
pub open spec fn digit_value(c: char) -> nat {
    if c == '1' {
        1
    } else if c == '2' {
        2
    } else if c == '3' {
        3
    } else if c == '4' {
        4
    } else if c == '5' {
        5
    } else if c == '6' {
        6
    } else if c == '7' {
        7
    } else if c == '8' {
        8
    } else if c == '9' {
        9
    } else {
        0
    }
}

/// Decimal digits of a natural number, most significant first, no padding.
pub open spec fn nat_text(n: nat) -> Seq<char>
    decreases n,
{
    if n < 10 {
        seq![digit_char(n)]
    } else {
        nat_text(n / 10).push(digit_char(n % 10))
    }
}

/// Decimal form of an integer: a minus sign for negatives, then the digits.
pub open spec fn int_text(i: int) -> Seq<char> {
    if i < 0 {
        seq!['-'] + nat_text((-i) as nat)
    } else {
        nat_text(i as nat)
    }
}

/// The number that a run of decimal digits denotes.
pub open spec fn digits_number(s: Seq<char>) -> nat
    decreases s.len(),
{
    if s.len() == 0 {
        0
    } else {
        digits_number(s.drop_last()) * 10 + digit_value(s.last())
    }
}

pub proof fn lemma_concat_push(parts: Seq<Seq<char>>, last: Seq<char>)
    ensures
        concat(parts.push(last)) == concat(parts) + last,
{
    assert(parts.push(last).drop_last() =~= parts);
}

pub proof fn lemma_join_push(parts: Seq<Seq<char>>, sep: Seq<char>, last: Seq<char>)
    requires
        parts.len() > 0,
    ensures
        join(parts.push(last), sep) == join(parts, sep) + sep + last,
{
    assert(parts.push(last).drop_last() =~= parts);
}

/// `String::push` appends one character.
pub assume_specification[ String::push ](s: &mut String, c: char)
    ensures
        final(s)@ == old(s)@.push(c),
;

/// `String::pop` removes the last character, if there is one, and returns it.
pub assume_specification[ String::pop ](s: &mut String) -> (r: Option<char>)
    ensures
        old(s)@.len() == 0 ==> r is None && final(s)@ == old(s)@,
        old(s)@.len() > 0 ==> r == Some(old(s)@.last()) && final(s)@ == old(s)@.drop_last(),
;

/// `s` without its last `count` characters, or empty if it has fewer.
pub open spec fn trimmed(s: Seq<char>, count: nat) -> Seq<char>
    decreases count,
{
    if count == 0 || s.len() == 0 {
        s
    } else {
        trimmed(s.drop_last(), (count - 1) as nat)
    }
}

/// Whether two texts are the same, character by character.
pub fn same_text(a: &str, b: &str) -> (r: bool)
    ensures
        r == (a@ == b@),
{
    let x = String::from_str(a);
    let y = String::from_str(b);
    x == y
}

/// A fresh copy of every string of `v`.
pub fn copy_texts(v: &Vec<String>) -> (r: Vec<String>)
    ensures
        r@ == v@,
{
    let mut r: Vec<String> = Vec::new();
    let mut i: usize = 0;
    while i < v.len()
        invariant
            i <= v.len(),
            r@ == v@.take(i as int),
        decreases v.len() - i,
    {
        r.push(v[i].clone());
        assert(v@.take(i as int).push(v@[i as int]) =~= v@.take(i + 1));
        i += 1;
    }
    assert(v@.take(v.len() as int) =~= v@);
    r
}

/// Owned copies of a vector of string slices.
pub fn own_texts(v: &Vec<&str>) -> (r: Vec<String>)
    ensures
        texts(r@) == slice_texts(v@),
{
    let mut r: Vec<String> = Vec::new();
    let mut i: usize = 0;
    while i < v.len()
        invariant
            i <= v.len(),
            r.len() == i,
            forall|k: int| 0 <= k < i ==> r@[k]@ == v@[k]@,
        decreases v.len() - i,
    {
        r.push(String::from_str(v[i]));
        i += 1;
    }
    assert(texts(r@) =~= slice_texts(v@));
    r
}

/// All the strings of `parts[from..to]` written one after another.
pub fn concat_range(parts: &Vec<String>, from: usize, to: usize) -> (r: String)
    requires
        from <= to <= parts.len(),
    ensures
        r@ == concat(texts(parts@).subrange(from as int, to as int)),
{
    let mut r = String::new();
    let mut i: usize = from;
    while i < to
        invariant
            from <= i <= to <= parts.len(),
            r@ == concat(texts(parts@).subrange(from as int, i as int)),
        decreases to - i,
    {
        r.append(parts[i].as_str());
        proof {
            let t = texts(parts@);
            assert(t.subrange(from as int, i as int).push(t[i as int]) =~= t.subrange(
                from as int,
                i + 1,
            ));
            lemma_concat_push(t.subrange(from as int, i as int), t[i as int]);
        }
        i += 1;
    }
    r
}

/// The strings of `parts` with `sep` between neighbours.
pub fn join_texts(parts: &Vec<String>, sep: &str) -> (r: String)
    ensures
        r@ == join(texts(parts@), sep@),
{
    let mut r = String::new();
    let mut i: usize = 0;
    while i < parts.len()
        invariant
            i <= parts.len(),
            r@ == join(texts(parts@).take(i as int), sep@),
        decreases parts.len() - i,
    {
        proof {
            let t = texts(parts@);
            assert(t.take(i as int).push(t[i as int]) =~= t.take(i + 1));
            if i > 0 {
                lemma_join_push(t.take(i as int), sep@, t[i as int]);
            } else {
                assert(t.take(1).len() == 1);
                assert(t.take(1)[0] == t[0]);
            }
        }
        if i > 0 {
            r.append(sep);
        }
        r.append(parts[i].as_str());
        i += 1;
    }
    assert(texts(parts@).take(parts.len() as int) =~= texts(parts@));
    r
}

/// Cuts `s` at every occurrence of `sep`.
pub fn split_text(s: &str, sep: char) -> (r: Vec<String>)
    ensures
        texts(r@) == split(s@, sep),
{
    let n = s.unicode_len();
    let mut done: Vec<String> = Vec::new();
    let mut current = String::new();
    let mut i: usize = 0;
    while i < n
        invariant
            i <= n,
            n == s@.len(),
            texts(done@).push(current@) == split(s@.take(i as int), sep),
        decreases n - i,
    {
        let c = s.get_char(i);
        proof {
            let p = s@.take(i + 1);
            assert(p.drop_last() =~= s@.take(i as int));
            assert(p.last() == c);
            assert(texts(done@).push(current@).drop_last() =~= texts(done@));
        }
        if c == sep {
            done.push(current);
            current = String::new();
            assert(texts(done@).push(current@) =~= split(s@.take(i + 1), sep));
        } else {
            current.push(c);
            assert(texts(done@).push(current@) =~= split(s@.take(i + 1), sep));
        }
        i += 1;
    }
    assert(s@.take(n as int) =~= s@);
    done.push(current);
    assert(texts(done@) =~= split(s@, sep));
    done
}

/// `count` copies of `unit`.
pub fn repeat_text(unit: &str, count: usize) -> (r: String)
    ensures
        r@ == repeat(unit@, count as nat),
{
    let mut r = String::new();
    let mut i: usize = 0;
    while i < count
        invariant
            i <= count,
            r@ == repeat(unit@, i as nat),
        decreases count - i,
    {
        r.append(unit);
        i += 1;
    }
    r
}

fn digit_of(d: u64) -> (c: char)
    requires
        d < 10,
    ensures
        c == digit_char(d as nat),
{
    if d == 0 {
        '0'
    } else if d == 1 {
        '1'
    } else if d == 2 {
        '2'
    } else if d == 3 {
        '3'
    } else if d == 4 {
        '4'
    } else if d == 5 {
        '5'
    } else if d == 6 {
        '6'
    } else if d == 7 {
        '7'
    } else if d == 8 {
        '8'
    } else {
        '9'
    }
}

fn push_number(out: &mut String, n: u64)
    ensures
        final(out)@ == old(out)@ + nat_text(n as nat),
    decreases n,
{
    if n >= 10 {
        push_number(out, n / 10);
    }
    out.push(digit_of(n % 10));
    assert(final(out)@ =~= old(out)@ + nat_text(n as nat));
}

/// The decimal digits of `n`.
pub fn number_text(n: usize) -> (r: String)
    ensures
        r@ == nat_text(n as nat),
{
    let mut r = String::new();
    push_number(&mut r, n as u64);
    assert(r@ =~= nat_text(n as nat));
    r
}

/// The decimal form of `i`.
pub fn integer_text(i: i64) -> (r: String)
    ensures
        r@ == int_text(i as int),
{
    let mut r = String::new();
    if i < 0 {
        r.push('-');
        let magnitude: u64 = ((-(i + 1)) as u64) + 1;
        push_number(&mut r, magnitude);
    } else {
        push_number(&mut r, i as u64);
    }
    assert(r@ =~= int_text(i as int));
    r
}

/// Whether `g` is a single decimal digit.
pub fn is_digit(g: &str) -> (b: bool)
    ensures
        b == (g@.len() == 1 && is_digit_char(g@[0])),
{
    if g.unicode_len() != 1 {
        return false;
    }
    let c = g.get_char(0);
    let b = c == '0' || c == '1' || c == '2' || c == '3' || c == '4' || c == '5' || c == '6' || c
        == '7' || c == '8' || c == '9';
    proof {
        if b {
            assert(c == digit_char(digit_value(c)));
        }
    }
    b
}

fn value_of(c: char) -> (d: u64)
    ensures
        d == digit_value(c),
        d < 10,
{
    if c == '1' {
        1
    } else if c == '2' {
        2
    } else if c == '3' {
        3
    } else if c == '4' {
        4
    } else if c == '5' {
        5
    } else if c == '6' {
        6
    } else if c == '7' {
        7
    } else if c == '8' {
        8
    } else if c == '9' {
        9
    } else {
        0
    }
}

/// The number written by `s`, a run of decimal digits, if it fits in `i64`.
pub fn parse_digits(s: &str) -> (r: Option<i64>)
    ensures
        r matches Some(v) ==> v == digits_number(s@),
        r is Some <==> digits_number(s@) <= i64::MAX,
{
    let n = s.unicode_len();
    let mut total: u64 = 0;
    let mut i: usize = 0;
    while i < n
        invariant
            i <= n,
            n == s@.len(),
            total == digits_number(s@.take(i as int)),
            total <= i64::MAX,
        decreases n - i,
    {
        let d = value_of(s.get_char(i));
        proof {
            assert(s@.take(i + 1).drop_last() =~= s@.take(i as int));
            assert(s@.take(i + 1).last() == s@[i as int]);
        }
        if total > (i64::MAX as u64 - d) / 10 {
            proof {
                lemma_digits_number_grows(s@, i + 1);
            }
            return None;
        }
        total = total * 10 + d;
        i += 1;
    }
    assert(s@.take(n as int) =~= s@);
    Some(total as i64)
}

/// A run of digits denotes at least what any of its prefixes denotes.
pub proof fn lemma_digits_number_grows(s: Seq<char>, k: int)
    requires
        0 <= k <= s.len(),
    ensures
        digits_number(s.take(k)) <= digits_number(s),
    decreases s.len() - k,
{
    if k < s.len() {
        assert(s.take(k + 1).drop_last() =~= s.take(k));
        lemma_digits_number_grows(s, k + 1);
    } else {
        assert(s.take(k) =~= s);
    }
}

} // verus!
