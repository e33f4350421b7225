//! Character-vector utilities: repetition, decimal formatting, centering,
//! in-place character writes, splitting, and lexicographic comparison.

use vstd::prelude::*;

use crate::span::chars_of;

verus! {

/// `n` copies of the character `c`.
pub open spec fn repeat_char(c: char, n: int) -> Seq<char> {
    Seq::new(if n >= 0 {
        n as nat
    } else {
        0
    }, |i: int| c)
}

/// Appends `n` copies of `c` to the vector.
#[verifier::loop_isolation(false)]
pub fn push_repeat(out: &mut Vec<char>, c: char, n: usize)
    ensures
        final (out)@ == old(out)@ + repeat_char(c, n as int),
{
    let mut i: usize = 0;
    while i < n
        invariant
            i <= n,
            out@ == old(out)@ + repeat_char(c, i as int),
        decreases n - i,
    {
        out.push(c);
        proof {
            assert(old(out)@ + repeat_char(c, i as int) + seq![c] =~= old(out)@ + repeat_char(
                c,
                i + 1,
            ));
        }
        i = i + 1;
    }
}

/// Appends the characters of a string to the vector.
pub fn push_str_chars(out: &mut Vec<char>, s: &str)
    ensures
        final (out)@ == old(out)@ + s@,
{
    let mut cs = chars_of(s);
    out.append(&mut cs);
}

/// Appends a copy of the characters of `v` to the vector.
pub fn push_chars(out: &mut Vec<char>, v: &Vec<char>)
    ensures
        final (out)@ == old(out)@ + v@,
{
    let mut tmp = vstd::slice::slice_to_vec(v.as_slice());
    out.append(&mut tmp);
}

/// The character for a single decimal digit.
pub open spec fn digit_char(d: int) -> char {
    if d == 0 {
        '0'
    } else if d == 1 {
        '1'
    } else if d == 2 {
        '2'
    } else if d == 3 {
        '3'
    } else if d == 4 {
        '4'
    } else if d == 5 {
        '5'
    } else if d == 6 {
        '6'
    } else if d == 7 {
        '7'
    } else if d == 8 {
        '8'
    } else {
        '9'
    }
}

/// The decimal digits of `n`, most significant first.
pub open spec fn dec_str(n: int) -> Seq<char>
    decreases n,
{
    if n < 10 {
        seq![digit_char(n)]
    } else {
        dec_str(n / 10).push(digit_char(n % 10))
    }
}

fn digit_of(d: usize) -> (c: char)
    requires
        d < 10,
    ensures
        c == digit_char(d as int),
{
    if d == 0 {
        '0'
    } else if d == 1 {
        '1'
    } else if d == 2 {
        '2'
    } else if d == 3 {
        '3'
    } else if d == 4 {
        '4'
    } else if d == 5 {
        '5'
    } else if d == 6 {
        '6'
    } else if d == 7 {
        '7'
    } else if d == 8 {
        '8'
    } else {
        '9'
    }
}

/// Formats `n` as decimal digits.
pub fn dec_chars(n: usize) -> (r: Vec<char>)
    ensures
        r@ == dec_str(n as int),
    decreases n,
{
    let d = n % 10;
    let c = digit_of(d);
    if n < 10 {
        let mut v: Vec<char> = Vec::new();
        v.push(c);
        proof {
            assert(v@ =~= seq![digit_char(n as int)]);
        }
        v
    } else {
        assert(n / 10 < n);
        let mut v = dec_chars(n / 10);
        v.push(c);
        v
    }
}

/// `s` centered within `width` columns: the excess space is split in half,
/// with the odd column going to the right. Text at least `width` wide is
/// returned unchanged.
pub open spec fn centered(s: Seq<char>, width: int) -> Seq<char> {
    if s.len() >= width {
        s
    } else {
        let pad = width - s.len();
        repeat_char(' ', pad / 2) + s + repeat_char(' ', pad - pad / 2)
    }
}

/// Appends `s` centered within `width` columns.
pub fn push_centered(out: &mut Vec<char>, s: &Vec<char>, width: usize)
    ensures
        final (out)@ == old(out)@ + centered(s@, width as int),
{
    let n = s.len();
    if n >= width {
        push_chars(out, s);
    } else {
        let pad = width - n;
        let left = pad / 2;
        push_repeat(out, ' ', left);
        push_chars(out, s);
        push_repeat(out, ' ', pad - left);
        proof {
            assert(out@ =~= old(out)@ + centered(s@, width as int));
        }
    }
}

/// Overwrites the character at `offset`, if it lies within the text, and
/// reports whether it did; text past the end is left unchanged.
pub fn set_char_at(s: &mut Vec<char>, offset: usize, c: char) -> (r: bool)
    ensures
        offset < old(s)@.len() ==> final (s)@ == old(s)@.update(offset as int, c) && r,
        offset >= old(s)@.len() ==> final (s)@ == old(s)@ && !r,
{
    if offset < s.len() {
        s[offset] = c;
        true
    } else {
        false
    }
}

/// Splits the text at two positions, clamped into the text and put in
/// ascending order, yielding the three pieces.
pub open spec fn spec_split3(s: Seq<char>, a: int, b: int) -> (Seq<char>, Seq<char>, Seq<char>) {
    let lo0 = if a <= b {
        a
    } else {
        b
    };
    let hi0 = if a <= b {
        b
    } else {
        a
    };
    let lo = if lo0 > s.len() {
        s.len() as int
    } else {
        lo0
    };
    let hi = if hi0 > s.len() {
        s.len() as int
    } else {
        hi0
    };
    (s.subrange(0, lo), s.subrange(lo, hi), s.subrange(hi, s.len() as int))
}

/// Splits the text at the two given positions, clamped into the text and
/// put in ascending order, into three pieces.
pub fn split3(s: &Vec<char>, a: usize, b: usize) -> (r: (Vec<char>, Vec<char>, Vec<char>))
    ensures
        r.0@ == spec_split3(s@, a as int, b as int).0,
        r.1@ == spec_split3(s@, a as int, b as int).1,
        r.2@ == spec_split3(s@, a as int, b as int).2,
{
    let n = s.len();
    let lo0: usize = if a <= b {
        a
    } else {
        b
    };
    let hi0: usize = if a <= b {
        b
    } else {
        a
    };
    let lo: usize = if lo0 > n {
        n
    } else {
        lo0
    };
    let hi: usize = if hi0 > n {
        n
    } else {
        hi0
    };
    let before = copy_range(s, 0, lo);
    let middle = copy_range(s, lo, hi);
    let after = copy_range(s, hi, n);
    (before, middle, after)
}

/// Copies the characters of `s` between `from` and `to`.
#[verifier::loop_isolation(false)]
pub fn copy_range(s: &Vec<char>, from: usize, to: usize) -> (r: Vec<char>)
    requires
        from <= to <= s@.len(),
    ensures
        r@ == s@.subrange(from as int, to as int),
{
    let mut out: Vec<char> = Vec::new();
    let mut i: usize = from;
    while i < to
        invariant
            from <= i <= to,
            out@ == s@.subrange(from as int, i as int),
        decreases to - i,
    {
        out.push(s[i]);
        proof {
            assert(s@.subrange(from as int, i as int) + seq![s@[i as int]] =~= s@.subrange(
                from as int,
                i + 1,
            ));
        }
        i = i + 1;
    }
    out
}

/// Whether `a` comes strictly before `b` in lexicographic character order.
pub open spec fn lex_lt(a: Seq<char>, b: Seq<char>) -> bool
    decreases a.len(),
{
    if b.len() == 0 {
        false
    } else if a.len() == 0 {
        true
    } else if a[0] != b[0] {
        a[0] < b[0]
    } else {
        lex_lt(a.drop_first(), b.drop_first())
    }
}

/// Compares two character sequences lexicographically.
#[verifier::loop_isolation(false)]
pub fn chars_lt(a: &Vec<char>, b: &Vec<char>) -> (r: bool)
    ensures
        r == lex_lt(a@, b@),
{
    let mut i: usize = 0;
    proof {
        assert(a@.skip(0) =~= a@);
        assert(b@.skip(0) =~= b@);
    }
    loop
        invariant
            i <= a@.len(),
            i <= b@.len(),
            lex_lt(a@, b@) == lex_lt(a@.skip(i as int), b@.skip(i as int)),
        decreases a@.len() - i,
    {
        if i >= b.len() {
            proof {
                assert(b@.skip(i as int).len() == 0);
            }
            return false;
        }
        if i >= a.len() {
            proof {
                assert(a@.skip(i as int).len() == 0);
                assert(b@.skip(i as int).len() > 0);
            }
            return true;
        }
        let ca = a[i];
        let cb = b[i];
        proof {
            assert(a@.skip(i as int)[0] == a@[i as int]);
            assert(b@.skip(i as int)[0] == b@[i as int]);
        }
        if ca != cb {
            return ca < cb;
        }
        proof {
            assert(a@.skip(i as int).drop_first() =~= a@.skip(i + 1));
            assert(b@.skip(i as int).drop_first() =~= b@.skip(i + 1));
        }
        i = i + 1;
    }
}

} // verus!
