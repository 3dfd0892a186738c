use vstd::prelude::*;

use crate::decimal::{
    all_ascii_digits, decimal_digits, decimal_value, is_ascii_digit, lemma_decimal_digits,
    lemma_decimal_prefix_le,
};
use crate::errors::{ServerError, ServerErrorView};
use vstd::string::StringSliceAdditionalSpecFns;

verus! {

/// The byte `+`.
pub open spec fn plus_byte() -> u8 {
    43
}

/// The byte `-`, which separates the two ends of a byte range.
pub open spec fn dash_byte() -> u8 {
    45
}

/// `bytes=`, the unit that may precede the start of a range.
pub open spec fn range_unit() -> Seq<u8> {
    seq![98u8, 121u8, 116u8, 101u8, 115u8, 61u8]
}

/// What `u64::from_str` reads from `s`: an optional `+`, then one or more ASCII digits
/// whose value fits in 64 bits; anything else is no number.
pub open spec fn spec_parse_u64(s: Seq<u8>) -> Option<u64> {
    let d = if s.len() > 0 && s[0] == plus_byte() {
        s.drop_first()
    } else {
        s
    };
    if d.len() > 0 && all_ascii_digits(d) && decimal_value(d) <= u64::MAX {
        Some(decimal_value(d) as u64)
    } else {
        None
    }
}

/// `s` with every leading repetition of the non-empty pattern `p` removed.
pub open spec fn spec_trim_start_matches(s: Seq<u8>, p: Seq<u8>) -> Seq<u8>
    decreases s.len(),
{
    if 0 < p.len() <= s.len() && s.take(p.len() as int) == p {
        spec_trim_start_matches(s.skip(p.len() as int), p)
    } else {
        s
    }
}

/// `k` is the position of the one and only `-` in `s`, so that splitting `s` at `-`
/// gives exactly two parts.
pub open spec fn single_dash_at(s: Seq<u8>, k: int) -> bool {
    &&& 0 <= k < s.len()
    &&& s[k] == dash_byte()
    &&& forall|j: int| 0 <= j < s.len() && j != k ==> s[j] != dash_byte()
}

/// The range that the text `s` of a `Range` header asks for: `None` unless `s` splits at `-`
/// into exactly two parts. The start is the first part with leading `bytes=` removed, read as a
/// number, or `start_default` where it is none; the end is the second part read likewise,
/// or `end_default`.
pub open spec fn spec_parse_byte_range(s: Seq<u8>, start_default: u64, end_default: u64) -> Option<(u64, u64)> {
    if exists|k: int| single_dash_at(s, k) {
        let k = choose|k: int| single_dash_at(s, k);
        let start = match spec_parse_u64(spec_trim_start_matches(s.take(k), range_unit())) {
            Some(v) => v,
            None => start_default,
        };
        let end = match spec_parse_u64(s.skip(k + 1)) {
            Some(v) => v,
            None => end_default,
        };
        Some((start, end))
    } else {
        None
    }
}

/// The text of the error for a range that is not two parts joined by `-`.
pub open spec fn invalid_range_message() -> Seq<char> {
    "Invalid range format."@
}

/// Reads `s[lo..hi]` as `u64::from_str` does.
fn parse_u64_in(s: &[u8], lo: usize, hi: usize) -> (r: Option<u64>)
    requires
        lo <= hi <= s@.len(),
    ensures
        r == spec_parse_u64(s@.subrange(lo as int, hi as int)),
{
    let ghost whole = s@.subrange(lo as int, hi as int);
    let mut i = lo;
    if i < hi && s[i] == 43 {
        i = i + 1;
    }
    let start = i;
    let ghost d = s@.subrange(start as int, hi as int);
    assert(d =~= (if whole.len() > 0 && whole[0] == plus_byte() {
        whole.drop_first()
    } else {
        whole
    }));
    if start == hi {
        return None;
    }
    let mut acc: u64 = 0;
    assert(s@.subrange(start as int, start as int) =~= Seq::<u8>::empty());
    while i < hi
        invariant
            lo <= start <= i <= hi <= s@.len(),
            start < hi,
            d == s@.subrange(start as int, hi as int),
            whole == s@.subrange(lo as int, hi as int),
            d == (if whole.len() > 0 && whole[0] == plus_byte() {
                whole.drop_first()
            } else {
                whole
            }),
            all_ascii_digits(s@.subrange(start as int, i as int)),
            acc as nat == decimal_value(s@.subrange(start as int, i as int)),
        decreases hi - i,
    {
        let b = s[i];
        let ghost pre = s@.subrange(start as int, i as int);
        let ghost next = s@.subrange(start as int, i + 1);
        assert(d[i - start] == b);
        if b < 48 || b > 57 {
            assert(!is_ascii_digit(d[i - start]));
            return None;
        }
        assert(next.drop_last() =~= pre);
        assert(all_ascii_digits(next)) by {
            assert forall|j: int| 0 <= j < next.len() implies is_ascii_digit(#[trigger] next[j]) by {
                if j < pre.len() {
                    assert(next[j] == pre[j]);
                }
            }
        }
        let digit = (b - 48) as u64;
        let overflow: bool;
        match acc.checked_mul(10) {
            None => {
                overflow = true;
            },
            Some(m) => match m.checked_add(digit) {
                None => {
                    overflow = true;
                },
                Some(v) => {
                    overflow = false;
                    acc = v;
                },
            },
        }
        if overflow {
            proof {
                if all_ascii_digits(d) {
                    assert(d.take(i + 1 - start) =~= next);
                    lemma_decimal_prefix_le(d, i + 1 - start);
                }
            }
            return None;
        }
        i = i + 1;
    }
    assert(s@.subrange(start as int, i as int) =~= d);
    Some(acc)
}

/// The position in `s[lo..hi]` after every leading `bytes=`.
fn skip_range_units(s: &[u8], lo: usize, hi: usize) -> (r: usize)
    requires
        lo <= hi <= s@.len(),
    ensures
        lo <= r <= hi,
        s@.subrange(r as int, hi as int) == spec_trim_start_matches(
            s@.subrange(lo as int, hi as int),
            range_unit(),
        ),
{
    let mut i = lo;
    while i <= hi && hi - i >= 6 && s[i] == 98 && s[i + 1] == 121 && s[i + 2] == 116
        && s[i + 3] == 101 && s[i + 4] == 115 && s[i + 5] == 61
        invariant
            lo <= i <= hi <= s@.len(),
            spec_trim_start_matches(s@.subrange(i as int, hi as int), range_unit())
                == spec_trim_start_matches(s@.subrange(lo as int, hi as int), range_unit()),
        decreases hi - i,
    {
        let ghost t = s@.subrange(i as int, hi as int);
        assert(t.take(6) =~= range_unit());
        assert(t.skip(6) =~= s@.subrange(i + 6, hi as int));
        i = i + 6;
    }
    let ghost t = s@.subrange(i as int, hi as int);
    if hi - i >= 6 {
        assert(t.take(6) != range_unit()) by {
            let u = range_unit();
            if s[i as int] != 98 {
                assert(t.take(6)[0] != u[0]);
            } else if s[i + 1] != 121 {
                assert(t.take(6)[1] != u[1]);
            } else if s[i + 2] != 116 {
                assert(t.take(6)[2] != u[2]);
            } else if s[i + 3] != 101 {
                assert(t.take(6)[3] != u[3]);
            } else if s[i + 4] != 115 {
                assert(t.take(6)[4] != u[4]);
            } else {
                assert(t.take(6)[5] != u[5]);
            }
        }
    }
    i
}

/// Reads the range that the bytes `s` of a `Range` header ask for, as
/// [`parse_byte_range_request`] does on a string.
pub fn parse_byte_range_bytes(s: &[u8], start_default: u64, end_default: u64) -> (res: Result<(u64, u64), ServerError>)
    ensures
        match spec_parse_byte_range(s@, start_default, end_default) {
            Some(r) => res matches Ok(v) && v == r,
            None => res matches Err(e) && e@ == ServerErrorView::CustomError(invalid_range_message()),
        },
{
    let n = s.len();
    let mut dashes: usize = 0;
    let mut first: usize = 0;
    let mut second: usize = 0;
    let mut i: usize = 0;
    while i < n
        invariant
            n == s@.len(),
            i <= n,
            dashes <= 2,
            dashes == 0 ==> forall|j: int| 0 <= j < i ==> s@[j] != dash_byte(),
            dashes >= 1 ==> first < i && s@[first as int] == dash_byte(),
            dashes >= 1 ==> forall|j: int| 0 <= j < first ==> s@[j] != dash_byte(),
            dashes == 1 ==> forall|j: int| 0 <= j < i && j != first ==> s@[j] != dash_byte(),
            dashes == 2 ==> first < second < i && s@[second as int] == dash_byte(),
        decreases n - i,
    {
        if s[i] == 45 {
            if dashes == 0 {
                first = i;
                dashes = 1;
            } else if dashes == 1 {
                second = i;
                dashes = 2;
            }
        }
        i = i + 1;
    }
    if dashes != 1 {
        proof {
            assert forall|k: int| !single_dash_at(s@, k) by {
                if single_dash_at(s@, k) {
                    if dashes == 2 {
                        if k == first {
                            assert(s@[second as int] != dash_byte());
                        } else {
                            assert(s@[first as int] != dash_byte());
                        }
                    } else {
                        assert(s@[k] != dash_byte());
                    }
                }
            }
        }
        return Err(ServerError::CustomError(String::from_str("Invalid range format.")));
    }
    proof {
        assert(single_dash_at(s@, first as int));
        let k = choose|k: int| single_dash_at(s@, k);
        assert(k == first);
        assert(s@.subrange(0, first as int) =~= s@.take(first as int));
        assert(s@.subrange(first + 1, n as int) =~= s@.skip(first + 1));
    }
    let from = skip_range_units(s, 0, first);
    let start = match parse_u64_in(s, from, first) {
        Some(v) => v,
        None => start_default,
    };
    let end = match parse_u64_in(s, first + 1, n) {
        Some(v) => v,
        None => end_default,
    };
    Ok((start, end))
}

/// Reads the range that the text of a `Range` header asks for, such as `bytes=0-1023`.
/// The text must split at `-` into exactly two parts, else the error is
/// `CustomError("Invalid range format.")`; a part that is not a number gives way to the
/// matching default.
pub fn parse_byte_range_request(range_str: &str, start_default: u64, end_default: u64) -> (res: Result<(u64, u64), ServerError>)
    ensures
        match spec_parse_byte_range(range_str.spec_bytes(), start_default, end_default) {
            Some(r) => res matches Ok(v) && v == r,
            None => res matches Err(e) && e@ == ServerErrorView::CustomError(invalid_range_message()),
        },
{
    parse_byte_range_bytes(range_str.as_bytes(), start_default, end_default)
}

/// A number written in decimal is read back as that number.
pub proof fn lemma_decimal_reads_back(n: u64)
    ensures
        spec_parse_u64(decimal_digits(n as nat)) == Some(n),
{
    let d = decimal_digits(n as nat);
    lemma_decimal_digits(n as nat);
    assert(is_ascii_digit(d[0]));
}

/// A range written as `bytes=`, a number in decimal, `-` and a number in decimal is read back
/// as those two numbers, whatever the defaults.
pub proof fn lemma_written_range_reads_back(start: u64, end: u64, start_default: u64, end_default: u64)
    ensures
        spec_parse_byte_range(
            range_unit() + decimal_digits(start as nat) + seq![dash_byte()] + decimal_digits(end as nat),
            start_default,
            end_default,
        ) == Some((start, end)),
{
    let a = decimal_digits(start as nat);
    let b = decimal_digits(end as nat);
    let u = range_unit();
    let s = u + a + seq![dash_byte()] + b;
    lemma_decimal_digits(start as nat);
    lemma_decimal_digits(end as nat);
    lemma_decimal_reads_back(start);
    lemma_decimal_reads_back(end);
    let k: int = 6 + a.len() as int;
    assert forall|j: int| 0 <= j < s.len() && j != k implies s[j] != dash_byte() by {
        if j < 6 {
            assert(s[j] == u[j]);
        } else if j < k {
            assert(s[j] == a[j - 6]);
            assert(is_ascii_digit(a[j - 6]));
        } else {
            assert(s[j] == b[j - k - 1]);
            assert(is_ascii_digit(b[j - k - 1]));
        }
    }
    assert(s[k] == dash_byte());
    assert(single_dash_at(s, k));
    let c = choose|c: int| single_dash_at(s, c);
    assert(c == k);
    let head = s.take(k);
    assert(head =~= u + a);
    assert(head.take(6) =~= u);
    assert(head.skip(6) =~= a);
    assert(is_ascii_digit(a[0]));
    if a.len() >= 6 {
        assert(a.take(6)[0] != u[0]);
    }
    assert(spec_trim_start_matches(a, u) == a);
    assert(spec_trim_start_matches(head, u) == a);
    assert(s.skip(k + 1) =~= b);
}

/// A range with a start and no end, `bytes=a-`, reads as `(a, end_default)`: a missing end
/// always takes the end default, whatever the start and the start default.
pub proof fn lemma_open_end_takes_end_default(start: u64, start_default: u64, end_default: u64)
    ensures
        spec_parse_byte_range(
            seq![98u8, 121u8, 116u8, 101u8, 115u8, 61u8] + decimal_digits(start as nat) + seq![45u8],
            start_default,
            end_default,
        ) == Some((start, end_default)),
{
    let a = decimal_digits(start as nat);
    let u = range_unit();
    assert(seq![98u8, 121u8, 116u8, 101u8, 115u8, 61u8] == u);
    let s = u + a + seq![dash_byte()];
    lemma_decimal_digits(start as nat);
    lemma_decimal_reads_back(start);
    let k: int = 6 + a.len() as int;
    assert forall|j: int| 0 <= j < s.len() && j != k implies s[j] != dash_byte() by {
        if j < 6 {
            assert(s[j] == u[j]);
        } else {
            assert(s[j] == a[j - 6]);
            assert(is_ascii_digit(a[j - 6]));
        }
    }
    assert(single_dash_at(s, k));
    let c = choose|c: int| single_dash_at(s, c);
    assert(c == k);
    let head = s.take(k);
    assert(head =~= u + a);
    assert(head.take(6) =~= u);
    assert(head.skip(6) =~= a);
    assert(is_ascii_digit(a[0]));
    if a.len() >= 6 {
        assert(a.take(6)[0] != u[0]);
    }
    assert(spec_trim_start_matches(a, u) == a);
    assert(spec_trim_start_matches(head, u) == a);
    assert(s.skip(k + 1) =~= Seq::<u8>::empty());
}

/// A range with an end and no start, `bytes=-b`, reads as `(start_default, b)`: a missing
/// start always takes the start default, whatever the end and the end default.
pub proof fn lemma_open_start_takes_start_default(end: u64, start_default: u64, end_default: u64)
    ensures
        spec_parse_byte_range(
            seq![98u8, 121u8, 116u8, 101u8, 115u8, 61u8, 45u8] + decimal_digits(end as nat),
            start_default,
            end_default,
        ) == Some((start_default, end)),
{
    let b = decimal_digits(end as nat);
    let u = range_unit();
    let s = seq![98u8, 121u8, 116u8, 101u8, 115u8, 61u8, 45u8] + b;
    lemma_decimal_digits(end as nat);
    lemma_decimal_reads_back(end);
    let k: int = 6;
    assert forall|j: int| 0 <= j < s.len() && j != k implies s[j] != dash_byte() by {
        if j < 6 {
            assert(s[j] == u[j]);
        } else {
            assert(s[j] == b[j - 7]);
            assert(is_ascii_digit(b[j - 7]));
        }
    }
    assert(s[k] == dash_byte());
    assert(single_dash_at(s, k));
    let c = choose|c: int| single_dash_at(s, c);
    assert(c == k);
    let head = s.take(k);
    assert(head =~= u);
    assert(head.take(6) =~= u);
    assert(head.skip(6) =~= Seq::<u8>::empty());
    assert(spec_trim_start_matches(Seq::<u8>::empty(), u) == Seq::<u8>::empty());
    assert(spec_trim_start_matches(head, u) == Seq::<u8>::empty());
    assert(spec_parse_u64(Seq::<u8>::empty()) is None);
    assert(s.skip(k + 1) =~= b);
}

} // verus!
