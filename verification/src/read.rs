//! Text scanning of graph lines: the compute half of reading a graph back.
//! A line is consumed integer by integer: `parse_next_int` reads the leading
//! digit run, `find_next_int` advances past it to the next digit run.

use vstd::prelude::*;

verus! {

/// An ASCII decimal digit.
pub open spec fn is_ascii_digit(c: char) -> bool {
    48 <= c as u32 <= 57
}

/// The value of a digit run, most significant first.
pub open spec fn dec_value(s: Seq<char>) -> int
    decreases s.len(),
{
    if s.len() == 0 {
        0
    } else {
        dec_value(s.drop_last()) * 10 + (s.last() as u32 - 48)
    }
}

/// Whether the first `i` characters of `s` are all digits.
pub open spec fn all_digits_to(s: Seq<char>, i: int) -> bool {
    forall|m: int| 0 <= m < i ==> is_ascii_digit(#[trigger] s[m])
}

fn is_digit_at(line: &str, i: usize) -> (r: bool)
    requires
        i < line@.len(),
    ensures
        r == is_ascii_digit(line@[i as int]),
{
    let c = line.get_char(i);
    let cu = c as u32;
    48 <= cu && cu <= 57
}

/// Reads the leading digit run of `line` as an integer. The line must start
/// with a digit and the run's value must fit the accumulator.
pub fn parse_next_int(line: &str) -> (r: i64)
    requires
        line@.len() > 0,
        is_ascii_digit(line@[0]),
        forall|i: int|
            0 <= i <= line@.len() && all_digits_to(line@, i) ==> #[trigger] dec_value(
                line@.subrange(0, i),
            ) <= u32::MAX,
    ensures
        exists|i: int|
            0 < i <= line@.len() && #[trigger] all_digits_to(line@, i) && (i == line@.len()
                || !is_ascii_digit(line@[i])) && r == dec_value(line@.subrange(0, i)),
{
    let n = line.unicode_len();
    let mut i: usize = 0;
    let mut acc: u32 = 0;
    proof {
        assert(line@.subrange(0, 0) =~= Seq::<char>::empty());
    }
    while i < n && is_digit_at(line, i)
        invariant
            n == line@.len(),
            i <= n,
            all_digits_to(line@, i as int),
            acc as int == dec_value(line@.subrange(0, i as int)),
            forall|k: int|
                0 <= k <= line@.len() && all_digits_to(line@, k) ==> #[trigger] dec_value(
                    line@.subrange(0, k),
                ) <= u32::MAX,
        decreases n - i,
    {
        let c = line.get_char(i);
        let d = (c as u32) - 48;
        proof {
            let cur = line@.subrange(0, i + 1);
            assert(cur.drop_last() =~= line@.subrange(0, i as int));
            assert(cur.last() == line@[i as int]);
            assert(all_digits_to(line@, i + 1));
            assert(dec_value(cur) <= u32::MAX);
            assert(dec_value(cur) == acc as int * 10 + d);
        }
        acc = acc * 10 + d;
        i = i + 1;
    }
    proof {
        assert(0 < i <= line@.len() && all_digits_to(line@, i as int) && (i == line@.len()
            || !is_ascii_digit(line@[i as int])) && acc as int == dec_value(
            line@.subrange(0, i as int),
        ));
    }
    acc as i64
}

/// Skips the leading digit run, then the non-digits after it, and returns the
/// rest of the line from the next digit on; `None` when no digit follows the
/// leading run.
pub fn find_next_int<'a>(line: &'a str) -> (r: Option<&'a str>)
    ensures
        match r {
            Some(rest) => exists|i: int, j: int|
                #![trigger all_digits_to(line@, i), line@.subrange(j, line@.len() as int)]
                {
                    &&& 0 <= i <= j < line@.len()
                    &&& all_digits_to(line@, i)
                    &&& forall|m: int| i <= m < j ==> !is_ascii_digit(#[trigger] line@[m])
                    &&& is_ascii_digit(line@[j])
                    &&& rest@ == line@.subrange(j, line@.len() as int)
                },
            None => forall|j: int, m: int|
                0 <= m <= j < line@.len() && is_ascii_digit(#[trigger] line@[j])
                    ==> is_ascii_digit(#[trigger] line@[m]),
        },
{
    let n = line.unicode_len();
    let mut i: usize = 0;
    while i < n && is_digit_at(line, i)
        invariant
            n == line@.len(),
            i <= n,
            all_digits_to(line@, i as int),
        decreases n - i,
    {
        i = i + 1;
    }
    let mut j: usize = i;
    while j < n && !is_digit_at(line, j)
        invariant
            n == line@.len(),
            i <= j <= n,
            all_digits_to(line@, i as int),
            forall|m: int| i <= m < j ==> !is_ascii_digit(#[trigger] line@[m]),
        decreases n - j,
    {
        j = j + 1;
    }
    if j < n {
        let rest = line.substring_char(j, n);
        Some(rest)
    } else {
        proof {
            assert forall|j2: int, m: int|
                0 <= m <= j2 < line@.len() && is_ascii_digit(#[trigger] line@[j2])
                    implies is_ascii_digit(#[trigger] line@[m]) by {
                assert(j2 < i);
            }
        }
        None
    }
}

} // verus!
