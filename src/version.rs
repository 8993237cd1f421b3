//! Comparison of dotted version numbers such as `1.2.3`.
use vstd::prelude::*;
use crate::text::{find_char, index_of};

verus! {

/// Whether every character of `s` is an ASCII digit.
pub open spec fn all_digits(s: Seq<char>) -> bool {
    forall|i: int| 0 <= i < s.len() ==> is_digit(#[trigger] s[i])
}

/// Whether `c` is one of the ASCII digits `0` to `9` (code points 48 to 57).
pub open spec fn is_digit(c: char) -> bool {
    48 <= c as u32 <= 57
}

/// The number that the ASCII digits `s` spell in decimal.
pub open spec fn digits_value(s: Seq<char>) -> int
    decreases s.len(),
{
    if s.len() == 0 {
        0
    } else {
        digits_value(s.drop_last()) * 10 + (s.last() as u32 - 48)
    }
}

/// What `str::parse::<u32>` gives for `s`: an optional `+` followed by at
/// least one ASCII digit, with a value that fits in `u32`.
pub open spec fn parsed_u32(s: Seq<char>) -> Option<u32> {
    let d = if s.len() > 0 && s[0] == '+' {
        s.drop_first()
    } else {
        s
    };
    if d.len() > 0 && all_digits(d) && digits_value(d) <= u32::MAX {
        Some(digits_value(d) as u32)
    } else {
        None
    }
}

proof fn lemma_digits_value_grows(d: Seq<char>, k: int)
    requires
        all_digits(d),
        0 <= k <= d.len(),
    ensures
        0 <= digits_value(d.subrange(0, k)) <= digits_value(d),
    decreases d.len(),
{
    if d.len() > 0 {
        let p = d.drop_last();
        assert(all_digits(p)) by {
            assert forall|i: int| 0 <= i < p.len() implies is_digit(#[trigger] p[i]) by {
                assert(p[i] == d[i]);
            }
        }
        lemma_digits_value_grows(p, if k < d.len() { k } else { p.len() as int });
        assert(is_digit(d[d.len() - 1]));
        if k < d.len() {
            assert(p.subrange(0, k) =~= d.subrange(0, k));
        } else {
            assert(d.subrange(0, k) =~= d);
        }
    } else {
        assert(d.subrange(0, k) =~= d);
    }
}

/// Reads `s` as `str::parse::<u32>` does: an optional `+`, then one or more
/// ASCII digits whose value fits in `u32`; anything else gives `None`.
pub fn parse_u32(s: &str) -> (r: Option<u32>)
    ensures
        r == parsed_u32(s@),
{
    let n = s.unicode_len();
    let start: usize = if n > 0 && s.get_char(0) == '+' {
        1
    } else {
        0
    };
    let ghost d = s@.subrange(start as int, n as int);
    assert(d =~= if s@.len() > 0 && s@[0] == '+' {
        s@.drop_first()
    } else {
        s@
    });
    if start == n {
        return None;
    }
    let mut acc: u64 = 0;
    let mut i: usize = start;
    assert(s@.subrange(start as int, start as int) =~= Seq::<char>::empty());
    while i < n
        invariant
            start <= i <= n,
            n == s@.len(),
            d == s@.subrange(start as int, n as int),
            d == (if s@.len() > 0 && s@[0] == '+' {
                s@.drop_first()
            } else {
                s@
            }),
            all_digits(s@.subrange(start as int, i as int)),
            acc as int == digits_value(s@.subrange(start as int, i as int)),
            acc <= u32::MAX,
        decreases n - i,
    {
        let c = s.get_char(i);
        if (c as u32) < 48 || (c as u32) > 57 {
            proof {
                assert(d[i - start] == c);
                assert(!is_digit(c));
                assert(!all_digits(d));
            }
            return None;
        }
        let v: u64 = acc * 10 + ((c as u32) - 48) as u64;
        let ghost prefix = s@.subrange(start as int, i + 1);
        proof {
            assert(prefix.drop_last() =~= s@.subrange(start as int, i as int));
            assert(prefix.last() == c);
            assert(digits_value(prefix) == v as int);
            assert(all_digits(prefix)) by {
                assert forall|j: int| 0 <= j < prefix.len() implies is_digit(#[trigger] prefix[j]) by {
                    if j < prefix.len() - 1 {
                        assert(prefix[j] == s@.subrange(start as int, i as int)[j]);
                    }
                }
            }
        }
        if v > u32::MAX as u64 {
            proof {
                if all_digits(d) {
                    assert(d.subrange(0, i + 1 - start) =~= prefix);
                    lemma_digits_value_grows(d, i + 1 - start);
                    assert(digits_value(d) > u32::MAX);
                }
            }
            return None;
        }
        acc = v;
        i = i + 1;
    }
    assert(s@.subrange(start as int, n as int) == d);
    Some(acc as u32)
}

/// The numbers of the dot separated parts of `s`; parts that are not a
/// number are left out.
pub open spec fn version_parts(s: Seq<char>) -> Seq<u32>
    decreases s.len(),
{
    let n = index_of(s, '.');
    let head = s.subrange(0, if n <= s.len() { n as int } else { s.len() as int });
    let rest = if n < s.len() {
        version_parts(s.subrange(n as int + 1, s.len() as int))
    } else {
        Seq::empty()
    };
    match parsed_u32(head) {
        Some(v) => seq![v] + rest,
        None => rest,
    }
}

/// The part at `i`, or 0 where there is none.
pub open spec fn part_or_zero(p: Seq<u32>, i: int) -> u32 {
    if 0 <= i < p.len() {
        p[i]
    } else {
        0
    }
}

/// Whether `latest` is newer than `current`, by their first three numbers.
pub open spec fn is_newer(current: Seq<char>, latest: Seq<char>) -> bool {
    let c = version_parts(current);
    let l = version_parts(latest);
    part_or_zero(l, 0) > part_or_zero(c, 0) || (part_or_zero(l, 0) == part_or_zero(c, 0) && (
    part_or_zero(l, 1) > part_or_zero(c, 1) || (part_or_zero(l, 1) == part_or_zero(c, 1)
        && part_or_zero(l, 2) > part_or_zero(c, 2))))
}

fn parse_version(s: &str) -> (r: Vec<u32>)
    ensures
        r@ == version_parts(s@),
{
    let n = s.unicode_len();
    let mut parts: Vec<u32> = Vec::new();
    let mut start: usize = 0;
    assert(s@.subrange(0, n as int) =~= s@);
    loop
        invariant
            n == s@.len(),
            start <= n,
            parts@ + version_parts(s@.subrange(start as int, n as int)) == version_parts(s@),
        decreases n - start,
    {
        let ghost rest = s@.subrange(start as int, n as int);
        let ghost before = parts@;
        let end = find_char(s, '.', start, n);
        proof {
            crate::text::lemma_index_of_bound(rest, '.');
            assert(s@.subrange(start as int, end as int) =~= rest.subrange(0, end - start));
        }
        if let Some(v) = parse_u32(s.substring_char(start, end)) {
            parts.push(v);
        }
        if end < n {
            assert(s@.subrange(end + 1, n as int) =~= rest.subrange(
                end - start + 1,
                rest.len() as int,
            ));
            assert(parts@ + version_parts(s@.subrange(end + 1, n as int)) =~= before
                + version_parts(rest));
            start = end + 1;
        } else {
            assert(parts@ =~= before + version_parts(rest));
            assert(parts@ + version_parts(s@.subrange(n as int, n as int)) =~= parts@);
            return parts;
        }
    }
}

fn part_at(p: &Vec<u32>, i: usize) -> (r: u32)
    ensures
        r == part_or_zero(p@, i as int),
{
    if i < p.len() {
        p[i]
    } else {
        0
    }
}

/// Whether version `latest` is newer than version `current`, comparing
/// their first three numbers, a missing one counting as 0.
pub fn compare_versions(current: &str, latest: &str) -> (r: bool)
    ensures
        r == is_newer(current@, latest@),
{
    let c = parse_version(current);
    let l = parse_version(latest);
    let mut i: usize = 0;
    while i < 3
        invariant
            i <= 3,
            c@ == version_parts(current@),
            l@ == version_parts(latest@),
            forall|j: int| 0 <= j < i ==> part_or_zero(l@, j) == part_or_zero(c@, j),
        decreases 3 - i,
    {
        let cv = part_at(&c, i);
        let lv = part_at(&l, i);
        if lv > cv {
            return true;
        }
        if lv < cv {
            return false;
        }
        i = i + 1;
    }
    false
}

} // verus!
