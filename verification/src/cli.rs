//! Parsers for the command-line geometry, size and duration arguments.
//!
//! A geometry is written `x,y WxH` (as produced by region-selection
//! tools); a size is `WxH`; a duration is a whole number of seconds.

use vstd::prelude::*;

verus! {

/// Why a geometry, size or duration string was rejected.
#[derive(Clone, Copy, Debug, PartialEq, Eq, Structural)]
pub enum ParseGeometryError {
    /// A numeric field is not a valid integer of the expected range.
    Int,
    /// The string does not consist of a location and a size separated by
    /// one space.
    Structure,
    /// The location is not two comma-separated coordinates.
    Location,
    /// The size is not two `x`-separated lengths.
    Size,
}

/// The character is a decimal digit.
pub open spec fn is_digit(c: char) -> bool {
    48 <= c as u32 <= 57
}

/// A non-empty run of decimal digits.
pub open spec fn is_digits(s: Seq<char>) -> bool {
    s.len() > 0 && forall|i: int| 0 <= i < s.len() ==> is_digit(#[trigger] s[i])
}

/// The number a digit run denotes.
pub open spec fn digits_val(s: Seq<char>) -> int
    decreases s.len(),
{
    if s.len() == 0 {
        0
    } else {
        digits_val(s.drop_last()) * 10 + (s.last() as u32 - 48)
    }
}

/// An optionally signed integer literal.
pub open spec fn is_int_str(s: Seq<char>) -> bool {
    if s.len() > 0 && (s[0] == '-' || s[0] == '+') {
        is_digits(s.skip(1))
    } else {
        is_digits(s)
    }
}

/// An optionally plus-signed (never negative) integer literal.
pub open spec fn is_uint_str(s: Seq<char>) -> bool {
    if s.len() > 0 && s[0] == '+' {
        is_digits(s.skip(1))
    } else {
        is_digits(s)
    }
}

/// The value an integer literal denotes.
pub open spec fn int_str_val(s: Seq<char>) -> int {
    if s.len() > 0 && s[0] == '-' {
        -digits_val(s.skip(1))
    } else if s.len() > 0 && s[0] == '+' {
        digits_val(s.skip(1))
    } else {
        digits_val(s)
    }
}

/// The position of the first occurrence of `c`, or the length when `c`
/// does not occur.
pub open spec fn first_idx(s: Seq<char>, c: char) -> int
    decreases s.len(),
{
    if s.len() == 0 {
        0
    } else if s[0] == c {
        0
    } else {
        1 + first_idx(s.drop_first(), c)
    }
}

/// `c` occurs somewhere in `s`.
pub open spec fn has_char(s: Seq<char>, c: char) -> bool {
    exists|i: int| 0 <= i < s.len() && s[i] == c
}

proof fn lemma_first_idx(s: Seq<char>, c: char)
    ensures
        0 <= first_idx(s, c) <= s.len(),
        first_idx(s, c) < s.len() ==> s[first_idx(s, c)] == c,
        forall|j: int| 0 <= j < first_idx(s, c) ==> s[j] != c,
        first_idx(s, c) == s.len() ==> !has_char(s, c),
    decreases s.len(),
{
    if s.len() > 0 && s[0] != c {
        lemma_first_idx(s.drop_first(), c);
        let f = first_idx(s, c);
        assert forall|j: int| 0 <= j < f implies s[j] != c by {
            if j > 0 {
                assert(s.drop_first()[j - 1] != c);
            }
        }
        if f == s.len() && has_char(s, c) {
            let i = choose|i: int| 0 <= i < s.len() && s[i] == c;
            assert(s.drop_first()[i - 1] == c);
        }
    }
}

/// A digit run's value never shrinks as the run grows to the right.
proof fn lemma_digits_prefix_le(s: Seq<char>, k: int)
    requires
        0 <= k <= s.len(),
        forall|i: int| 0 <= i < s.len() ==> is_digit(#[trigger] s[i]),
    ensures
        0 <= digits_val(s.subrange(0, k)) <= digits_val(s.subrange(0, s.len() as int)),
    decreases s.len() - k,
{
    if k == s.len() {
        lemma_digits_nonneg(s.subrange(0, k));
    } else {
        lemma_digits_prefix_le(s, k + 1);
        lemma_digits_nonneg(s.subrange(0, k));
        assert(s.subrange(0, k + 1).drop_last() =~= s.subrange(0, k));
        assert(digits_val(s.subrange(0, k + 1)) == digits_val(s.subrange(0, k)) * 10 + (s[k] as u32
            - 48));
    }
}

proof fn lemma_digits_nonneg(s: Seq<char>)
    requires
        forall|i: int| 0 <= i < s.len() ==> is_digit(#[trigger] s[i]),
    ensures
        digits_val(s) >= 0,
    decreases s.len(),
{
    if s.len() > 0 {
        assert(forall|i: int|
            0 <= i < s.drop_last().len() ==> is_digit(#[trigger] s.drop_last()[i]));
        lemma_digits_nonneg(s.drop_last());
    }
}

/// Parses the digit run `s[from..to]` as an unsigned number of at most
/// `u64` size.
fn parse_digits(s: &str, from: usize, to: usize) -> (r: Result<u64, ()>)
    requires
        from <= to <= s@.len(),
    ensures
        r is Ok <==> (is_digits(s@.subrange(from as int, to as int)) && digits_val(
            s@.subrange(from as int, to as int),
        ) <= u64::MAX),
        r matches Ok(v) ==> v == digits_val(s@.subrange(from as int, to as int)),
{
    let ghost sub = s@.subrange(from as int, to as int);
    if from == to {
        return Err(());
    }
    let mut acc: u64 = 0;
    let mut i: usize = from;
    while i < to
        invariant
            from <= i <= to <= s@.len(),
            sub == s@.subrange(from as int, to as int),
            forall|j: int| from <= j < i ==> is_digit(#[trigger] s@[j]),
            acc == digits_val(s@.subrange(from as int, i as int)),
        decreases to - i,
    {
        let c = s.get_char(i);
        let cv = c as u32;
        if cv < 48 || cv > 57 {
            proof {
                assert(sub[i - from] == s@[i as int]);
                assert(!is_digits(sub));
            }
            return Err(());
        }
        let d = (cv - 48) as u64;
        let wide: u128 = (acc as u128) * 10 + (d as u128);
        proof {
            assert(s@.subrange(from as int, i + 1).drop_last() =~= s@.subrange(
                from as int,
                i as int,
            ));
        }
        if wide > u64::MAX as u128 {
            proof {
                let whole = sub;
                if is_digits(whole) {
                    lemma_digits_prefix_le(whole, i + 1 - from);
                    assert(whole.subrange(0, i + 1 - from) =~= s@.subrange(from as int, i + 1));
                    assert(whole.subrange(0, whole.len() as int) =~= whole);
                }
            }
            return Err(());
        }
        acc = acc * 10 + d;
        i += 1;
    }
    proof {
        assert(s@.subrange(from as int, to as int) =~= sub);
    }
    Ok(acc)
}

/// Parses `s[from..to]` as an optionally plus-signed `u32`.
fn parse_u32_range(s: &str, from: usize, to: usize) -> (r: Result<u32, ()>)
    requires
        from <= to <= s@.len(),
    ensures
        r is Ok <==> (is_uint_str(s@.subrange(from as int, to as int)) && int_str_val(
            s@.subrange(from as int, to as int),
        ) <= u32::MAX),
        r matches Ok(v) ==> v == int_str_val(s@.subrange(from as int, to as int)),
{
    let ghost sub = s@.subrange(from as int, to as int);
    let start = if from < to && s.get_char(from) == '+' {
        proof {
            assert(sub[0] == s@[from as int]);
            assert(sub.skip(1) =~= s@.subrange(from + 1, to as int));
        }
        from + 1
    } else {
        from
    };
    match parse_digits(s, start, to) {
        Ok(v) if v <= u32::MAX as u64 => Ok(v as u32),
        _ => Err(()),
    }
}

/// Parses `s[from..to]` as an optionally signed `i32`.
fn parse_i32_range(s: &str, from: usize, to: usize) -> (r: Result<i32, ()>)
    requires
        from <= to <= s@.len(),
    ensures
        r is Ok <==> (is_int_str(s@.subrange(from as int, to as int)) && i32::MIN <= int_str_val(
            s@.subrange(from as int, to as int),
        ) <= i32::MAX),
        r matches Ok(v) ==> v == int_str_val(s@.subrange(from as int, to as int)),
{
    let ghost sub = s@.subrange(from as int, to as int);
    if from < to {
        let c0 = s.get_char(from);
        proof {
            assert(sub[0] == s@[from as int]);
            assert(sub.skip(1) =~= s@.subrange(from + 1, to as int));
        }
        if c0 == '-' {
            return match parse_digits(s, from + 1, to) {
                Ok(v) if v <= 0x8000_0000u64 => Ok((-(v as i64)) as i32),
                _ => Err(()),
            };
        }
        if c0 == '+' {
            return match parse_digits(s, from + 1, to) {
                Ok(v) if v <= i32::MAX as u64 => Ok(v as i32),
                _ => Err(()),
            };
        }
    }
    match parse_digits(s, from, to) {
        Ok(v) if v <= i32::MAX as u64 => Ok(v as i32),
        _ => Err(()),
    }
}

/// The literal denotes a `u32`.
pub open spec fn ok_u32(s: Seq<char>) -> bool {
    is_uint_str(s) && int_str_val(s) <= u32::MAX
}

/// The literal denotes an `i32`.
pub open spec fn ok_i32(s: Seq<char>) -> bool {
    is_int_str(s) && i32::MIN <= int_str_val(s) <= i32::MAX
}

/// What parsing a `WxH` size yields: the two lengths split at the first
/// `x`, a number error taking precedence over a shape error.
pub open spec fn spec_parse_size(s: Seq<char>) -> Result<(u32, u32), ParseGeometryError> {
    let xi = first_idx(s, 'x');
    if !ok_u32(s.subrange(0, xi)) {
        Err(ParseGeometryError::Int)
    } else if xi == s.len() {
        Err(ParseGeometryError::Size)
    } else {
        let rest = s.skip(xi + 1);
        let yi = first_idx(rest, 'x');
        if !ok_u32(rest.subrange(0, yi)) {
            Err(ParseGeometryError::Int)
        } else if yi != rest.len() {
            Err(ParseGeometryError::Size)
        } else {
            Ok(
                (
                    int_str_val(s.subrange(0, xi)) as u32,
                    int_str_val(rest.subrange(0, yi)) as u32,
                ),
            )
        }
    }
}

/// What parsing an `x,y WxH` geometry yields: location and size split at
/// the single space, the location split at the single comma.
pub open spec fn spec_parse_geometry(s: Seq<char>) -> Result<
    (i32, i32, u32, u32),
    ParseGeometryError,
> {
    let sp = first_idx(s, ' ');
    if sp == s.len() {
        Err(ParseGeometryError::Structure)
    } else {
        let loc = s.subrange(0, sp);
        let rest = s.skip(sp + 1);
        if first_idx(rest, ' ') != rest.len() {
            Err(ParseGeometryError::Structure)
        } else {
            let ci = first_idx(loc, ',');
            if !ok_i32(loc.subrange(0, ci)) {
                Err(ParseGeometryError::Int)
            } else if ci == loc.len() {
                Err(ParseGeometryError::Location)
            } else {
                let locrest = loc.skip(ci + 1);
                let ci2 = first_idx(locrest, ',');
                if !ok_i32(locrest.subrange(0, ci2)) {
                    Err(ParseGeometryError::Int)
                } else if ci2 != locrest.len() {
                    Err(ParseGeometryError::Location)
                } else {
                    match spec_parse_size(rest) {
                        Ok((w, h)) => Ok(
                            (
                                int_str_val(loc.subrange(0, ci)) as i32,
                                int_str_val(locrest.subrange(0, ci2)) as i32,
                                w,
                                h,
                            ),
                        ),
                        Err(e) => Err(e),
                    }
                }
            }
        }
    }
}

/// The position of the first `c` at or after `from`.
fn find_first(s: &str, from: usize, c: char) -> (idx: usize)
    requires
        from <= s@.len(),
    ensures
        from <= idx <= s@.len(),
        idx == from + first_idx(s@.skip(from as int), c),
{
    let ghost tail = s@.skip(from as int);
    let n = s.unicode_len();
    let mut i: usize = from;
    while i < n
        invariant
            from <= i <= n,
            n == s@.len(),
            tail == s@.skip(from as int),
            forall|j: int| from <= j < i ==> s@[j] != c,
        decreases n - i,
    {
        if s.get_char(i) == c {
            proof {
                lemma_first_idx(tail, c);
                let f = first_idx(tail, c);
                if f < i - from {
                    assert(s@[from + f] != c);
                    assert(tail[f] == s@[from + f]);
                } else if f > i - from {
                    assert(tail[i - from] != c);
                    assert(tail[i - from] == s@[i as int]);
                }
            }
            return i;
        }
        i += 1;
    }
    proof {
        lemma_first_idx(tail, c);
        let f = first_idx(tail, c);
        if f < n - from {
            assert(tail[f] == s@[from + f]);
        }
    }
    n
}

/// Parses `s[from..to]` as an optionally plus-signed `u64`.
fn parse_u64_range(s: &str, from: usize, to: usize) -> (r: Result<u64, ()>)
    requires
        from <= to <= s@.len(),
    ensures
        r is Ok <==> (is_uint_str(s@.subrange(from as int, to as int)) && int_str_val(
            s@.subrange(from as int, to as int),
        ) <= u64::MAX),
        r matches Ok(v) ==> v == int_str_val(s@.subrange(from as int, to as int)),
{
    let ghost sub = s@.subrange(from as int, to as int);
    let start = if from < to && s.get_char(from) == '+' {
        proof {
            assert(sub[0] == s@[from as int]);
            assert(sub.skip(1) =~= s@.subrange(from + 1, to as int));
        }
        from + 1
    } else {
        from
    };
    match parse_digits(s, start, to) {
        Ok(v) => Ok(v),
        Err(_) => Err(()),
    }
}

/// Parses a `WxH` size argument: two unsigned pixel lengths separated by
/// a single `x`.
pub fn parse_size(s: &str) -> (r: Result<(u32, u32), ParseGeometryError>)
    ensures
        r == spec_parse_size(s@),
{
    proof {
        assert(s@.skip(0) =~= s@);
    }
    let n = s.unicode_len();
    let xi = find_first(s, 0, 'x');
    let sx = match parse_u32_range(s, 0, xi) {
        Ok(v) => v,
        Err(_) => {
            return Err(ParseGeometryError::Int);
        },
    };
    if xi == n {
        return Err(ParseGeometryError::Size);
    }
    let ghost rest = s@.skip(xi + 1);
    let yi = find_first(s, xi + 1, 'x');
    proof {
        assert(rest.subrange(0, yi - (xi + 1)) =~= s@.subrange(xi + 1, yi as int));
    }
    let sy = match parse_u32_range(s, xi + 1, yi) {
        Ok(v) => v,
        Err(_) => {
            return Err(ParseGeometryError::Int);
        },
    };
    if yi != n {
        return Err(ParseGeometryError::Size);
    }
    proof {
        assert(yi - (xi + 1) == rest.len());
    }
    Ok((sx, sy))
}

/// Parses an `x,y WxH` geometry argument: a signed location and an
/// unsigned size, as region-selection tools print it.
pub fn parse_geometry(s: &str) -> (r: Result<(i32, i32, u32, u32), ParseGeometryError>)
    ensures
        r == spec_parse_geometry(s@),
{
    proof {
        assert(s@.skip(0) =~= s@);
    }
    let n = s.unicode_len();
    let sp = find_first(s, 0, ' ');
    if sp == n {
        return Err(ParseGeometryError::Structure);
    }
    let ghost loc = s@.subrange(0, sp as int);
    let ghost rest = s@.skip(sp + 1);
    let sp2 = find_first(s, sp + 1, ' ');
    if sp2 != n {
        proof {
            assert(sp2 - (sp + 1) != rest.len());
        }
        return Err(ParseGeometryError::Structure);
    }
    let ci = find_first(s, 0, ',');
    let ci_loc = if ci < sp {
        ci
    } else {
        sp
    };
    proof {
        // the first comma of the location piece
        lemma_first_idx(loc, ',');
        lemma_first_idx(s@.skip(0), ',');
        let f = first_idx(loc, ',');
        if f < ci_loc - 0 {
            assert(loc[f] == s@[f]);
        } else if f > ci_loc {
            if ci < sp {
                assert(loc[ci as int] == s@[ci as int]);
                assert(s@.skip(0)[ci as int] == s@[ci as int]);
            }
        }
        assert(f == ci_loc);
        assert(loc.subrange(0, ci_loc as int) =~= s@.subrange(0, ci_loc as int));
    }
    let x = match parse_i32_range(s, 0, ci_loc) {
        Ok(v) => v,
        Err(_) => {
            return Err(ParseGeometryError::Int);
        },
    };
    if ci_loc == sp {
        return Err(ParseGeometryError::Location);
    }
    let ghost locrest = loc.skip(ci_loc + 1);
    let ci2 = find_first(s, ci_loc + 1, ',');
    let ci2_loc = if ci2 < sp {
        ci2
    } else {
        sp
    };
    proof {
        lemma_first_idx(locrest, ',');
        lemma_first_idx(s@.skip(ci_loc + 1), ',');
        let f = first_idx(locrest, ',');
        assert(locrest.len() == sp - (ci_loc + 1));
        if f < ci2_loc - (ci_loc + 1) {
            assert(locrest[f] == s@[ci_loc + 1 + f]);
            assert(s@.skip(ci_loc + 1)[f] == s@[ci_loc + 1 + f]);
        } else if f > ci2_loc - (ci_loc + 1) {
            if ci2 < sp {
                assert(locrest[ci2 - (ci_loc + 1)] == s@[ci2 as int]);
                assert(s@.skip(ci_loc + 1)[ci2 - (ci_loc + 1)] == s@[ci2 as int]);
            }
        }
        assert(f == ci2_loc - (ci_loc + 1));
        assert(locrest.subrange(0, ci2_loc - (ci_loc + 1)) =~= s@.subrange(
            ci_loc + 1,
            ci2_loc as int,
        ));
    }
    let y = match parse_i32_range(s, ci_loc + 1, ci2_loc) {
        Ok(v) => v,
        Err(_) => {
            return Err(ParseGeometryError::Int);
        },
    };
    if ci2_loc != sp {
        return Err(ParseGeometryError::Location);
    }
    // the size piece is everything after the space
    let xi = find_first(s, sp + 1, 'x');
    proof {
        assert(rest.subrange(0, xi - (sp + 1)) =~= s@.subrange(sp + 1, xi as int));
    }
    let w = match parse_u32_range(s, sp + 1, xi) {
        Ok(v) => v,
        Err(_) => {
            return Err(ParseGeometryError::Int);
        },
    };
    if xi == n {
        return Err(ParseGeometryError::Size);
    }
    let ghost sizerest = rest.skip(xi - (sp + 1) + 1);
    let yi = find_first(s, xi + 1, 'x');
    proof {
        assert(sizerest =~= s@.skip(xi + 1));
        assert(sizerest.subrange(0, yi - (xi + 1)) =~= s@.subrange(xi + 1, yi as int));
        lemma_first_idx(sizerest, 'x');
        lemma_first_idx(s@.skip(xi + 1), 'x');
    }
    let h = match parse_u32_range(s, xi + 1, yi) {
        Ok(v) => v,
        Err(_) => {
            return Err(ParseGeometryError::Int);
        },
    };
    if yi != n {
        return Err(ParseGeometryError::Size);
    }
    Ok((x, y, w, h))
}

/// Parses a history duration argument: a whole number of seconds.
pub fn parse_duration(s: &str) -> (r: Result<u64, ParseGeometryError>)
    ensures
        r is Ok <==> (is_uint_str(s@) && int_str_val(s@) <= u64::MAX),
        r matches Ok(v) ==> v == int_str_val(s@),
        r matches Err(e) ==> e == ParseGeometryError::Int,
{
    let n = s.unicode_len();
    proof {
        assert(s@.subrange(0, n as int) =~= s@);
    }
    match parse_u64_range(s, 0, n) {
        Ok(v) => Ok(v),
        Err(_) => Err(ParseGeometryError::Int),
    }
}

} // verus!
