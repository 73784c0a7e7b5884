//! Region filters of the command-line inspector: by byte range, by field
//! path substring and by region type name.

use vstd::prelude::*;
use crate::region::Region;
use crate::text::{
    chars_of, contains_chars, contains_seq, decimal, push_char, push_decimal, push_str,
    string_from_chars, trim_chars, trim_seq,
};

verus! {

/// Kinds of integer parse failure (`std::num::IntErrorKind`).
#[derive(Debug, Clone, Copy, PartialEq, Eq, Structural)]
pub enum IntError {
    Empty,
    InvalidDigit,
    PosOverflow,
}

/// Message of an integer parse failure, as `ParseIntError` displays it.
pub open spec fn int_error_message(e: IntError) -> Seq<char> {
    match e {
        IntError::Empty => "cannot parse integer from empty string"@,
        IntError::InvalidDigit => "invalid digit found in string"@,
        IntError::PosOverflow => "number too large to fit in target type"@,
    }
}

/// Value of a digit character in the given radix (10 or 16).
pub open spec fn digit_value(c: char, radix: nat) -> Option<nat> {
    if '0' <= c && c <= '9' {
        Some((c as nat - '0' as nat) as nat)
    } else if radix == 16 && 'a' <= c && c <= 'f' {
        Some((c as nat - 'a' as nat + 10) as nat)
    } else if radix == 16 && 'A' <= c && c <= 'F' {
        Some((c as nat - 'A' as nat + 10) as nat)
    } else {
        None
    }
}

/// Digits read left to right, stopping at the first invalid digit or overflow.
pub open spec fn digits_value(d: Seq<char>, radix: nat, k: nat) -> Result<nat, IntError>
    decreases k,
{
    if k == 0 || k > d.len() {
        Ok(0)
    } else {
        match digits_value(d, radix, (k - 1) as nat) {
            Err(e) => Err(e),
            Ok(v) => match digit_value(d[k - 1], radix) {
                None => Err(IntError::InvalidDigit),
                Some(x) => if v * radix + x > usize::MAX {
                    Err(IntError::PosOverflow)
                } else {
                    Ok(v * radix + x)
                },
            },
        }
    }
}

/// `usize::from_str_radix(s, radix)`.
pub open spec fn parse_usize(s: Seq<char>, radix: nat) -> Result<nat, IntError> {
    if s.len() == 0 {
        Err(IntError::Empty)
    } else if (s[0] == '+' || s[0] == '-') && s.len() == 1 {
        Err(IntError::InvalidDigit)
    } else {
        let d = if s[0] == '+' { s.drop_first() } else { s };
        digits_value(d, radix, d.len())
    }
}

fn digit_exec(c: char, radix: u32) -> (r: Option<u32>)
    requires
        radix == 10 || radix == 16,
    ensures
        match digit_value(c, radix as nat) {
            Some(v) => r == Some(v as u32),
            None => r is None,
        },
{
    if '0' <= c && c <= '9' {
        Some(c as u32 - '0' as u32)
    } else if radix == 16 && 'a' <= c && c <= 'f' {
        Some(c as u32 - 'a' as u32 + 10)
    } else if radix == 16 && 'A' <= c && c <= 'F' {
        Some(c as u32 - 'A' as u32 + 10)
    } else {
        None
    }
}

proof fn lemma_digits_err(d: Seq<char>, radix: nat, k: nat, n: nat)
    requires
        k <= n <= d.len(),
        digits_value(d, radix, k) is Err,
    ensures
        digits_value(d, radix, n) == digits_value(d, radix, k),
    decreases n - k,
{
    if n > k {
        lemma_digits_err(d, radix, k, (n - 1) as nat);
    }
}

/// Parses an unsigned integer in radix 10 or 16.
pub fn parse_usize_radix(s: &[char], radix: u32) -> (r: Result<usize, IntError>)
    requires
        radix == 10 || radix == 16,
    ensures
        match parse_usize(s@, radix as nat) {
            Ok(v) => r is Ok && r->Ok_0 as nat == v,
            Err(e) => r is Err && r->Err_0 == e,
        },
{
    if s.len() == 0 {
        return Err(IntError::Empty);
    }
    if (s[0] == '+' || s[0] == '-') && s.len() == 1 {
        return Err(IntError::InvalidDigit);
    }
    let start: usize = if s[0] == '+' { 1 } else { 0 };
    let ghost d = if s@[0] == '+' { s@.drop_first() } else { s@ };
    assert(d =~= s@.subrange(start as int, s@.len() as int));
    let mut v: usize = 0;
    let mut i: usize = start;
    while i < s.len()
        invariant
            start <= i <= s@.len(),
            d == s@.subrange(start as int, s@.len() as int),
            parse_usize(s@, radix as nat) == digits_value(d, radix as nat, d.len()),
            radix == 10 || radix == 16,
            digits_value(d, radix as nat, (i - start) as nat) == Ok::<nat, IntError>(v as nat),
        decreases s@.len() - i,
    {
        assert(d[i - start] == s@[i as int]);
        match digit_exec(s[i], radix) {
            None => {
                proof {
                    lemma_digits_err(d, radix as nat, (i - start + 1) as nat, d.len());
                }
                return Err(IntError::InvalidDigit);
            },
            Some(x) => {
                if v > (usize::MAX - x as usize) / radix as usize {
                    proof {
                        let vi = v as int;
                        let xi = x as int;
                        let ri = radix as int;
                        let m = usize::MAX as int;
                        assert(vi * ri + xi > m) by (nonlinear_arith)
                            requires
                                vi > (m - xi) / ri,
                                ri > 0,
                                0 <= xi <= m;
                        lemma_digits_err(d, radix as nat, (i - start + 1) as nat, d.len());
                    }
                    return Err(IntError::PosOverflow);
                }
                proof {
                    let vi = v as int;
                    let xi = x as int;
                    let ri = radix as int;
                    let m = usize::MAX as int;
                    assert(vi * ri + xi <= m) by (nonlinear_arith)
                        requires
                            0 <= vi <= (m - xi) / ri,
                            ri > 0,
                            0 <= xi <= m;
                }
                v = v * radix as usize + x as usize;
            },
        }
        i = i + 1;
    }
    Ok(v)
}

/// Appends the message of an integer parse failure.
fn push_int_error(out: &mut String, e: &IntError)
    ensures
        final(out)@ == old(out)@ + int_error_message(*e),
{
    match e {
        IntError::Empty => push_str(out, "cannot parse integer from empty string"),
        IntError::InvalidDigit => push_str(out, "invalid digit found in string"),
        IntError::PosOverflow => push_str(out, "number too large to fit in target type"),
    }
}

/// The text after a leading `0x` / `0X`, if there is one.
pub open spec fn hex_body(s: Seq<char>) -> Option<Seq<char>> {
    if s.len() >= 2 && s[0] == '0' && (s[1] == 'x' || s[1] == 'X') {
        Some(s.subrange(2, s.len() as int))
    } else {
        None
    }
}

/// A byte offset: hexadecimal after `0x` / `0X`, decimal otherwise, or the
/// error message.
pub open spec fn spec_parse_offset(s: Seq<char>) -> Result<nat, Seq<char>> {
    match hex_body(s) {
        Some(h) => match parse_usize(h, 16) {
            Ok(v) => Ok(v),
            Err(e) => Err("invalid hex offset '"@ + s + "': "@ + int_error_message(e)),
        },
        None => match parse_usize(s, 10) {
            Ok(v) => Ok(v),
            Err(e) => Err("invalid offset '"@ + s + "': "@ + int_error_message(e)),
        },
    }
}

/// Parses a byte offset: `0x10` / `0X10` (hexadecimal) or `16` (decimal).
pub fn parse_offset(s: &str) -> (r: Result<usize, String>)
    ensures
        match spec_parse_offset(s@) {
            Ok(v) => r is Ok && r->Ok_0 as nat == v,
            Err(m) => r is Err && r->Err_0@ == m,
        },
{
    let cs = chars_of(s);
    parse_offset_chars(cs.as_slice())
}

/// Parses a byte offset given as characters.
fn parse_offset_chars(s: &[char]) -> (r: Result<usize, String>)
    ensures
        match spec_parse_offset(s@) {
            Ok(v) => r is Ok && r->Ok_0 as nat == v,
            Err(m) => r is Err && r->Err_0@ == m,
        },
{
    if s.len() >= 2 && s[0] == '0' && (s[1] == 'x' || s[1] == 'X') {
        let mut h: Vec<char> = Vec::new();
        let mut i: usize = 2;
        while i < s.len()
            invariant
                2 <= i <= s@.len(),
                h@ == s@.subrange(2, i as int),
            decreases s@.len() - i,
        {
            h.push(s[i]);
            i = i + 1;
            assert(h@ =~= s@.subrange(2, i as int));
        }
        match parse_usize_radix(h.as_slice(), 16) {
            Ok(v) => Ok(v),
            Err(e) => {
                let mut m = crate::text::string_of("invalid hex offset '");
                let st = string_from_chars(s);
                push_str(&mut m, st.as_str());
                push_str(&mut m, "': ");
                push_int_error(&mut m, &e);
                Err(m)
            },
        }
    } else {
        match parse_usize_radix(s, 10) {
            Ok(v) => Ok(v),
            Err(e) => {
                let mut m = crate::text::string_of("invalid offset '");
                let st = string_from_chars(s);
                push_str(&mut m, st.as_str());
                push_str(&mut m, "': ");
                push_int_error(&mut m, &e);
                Err(m)
            },
        }
    }
}

/// `..` occurs in `s` at index `i`.
pub open spec fn dots_at(s: Seq<char>, i: int) -> bool {
    0 <= i && i + 1 < s.len() && s[i] == '.' && s[i + 1] == '.'
}

/// Index of the first `..` in `s`.
pub open spec fn first_dots(s: Seq<char>) -> Option<int> {
    if exists|i: int| dots_at(s, i) {
        Some(choose|i: int| dots_at(s, i) && forall|j: int| 0 <= j < i ==> !dots_at(s, j))
    } else {
        None
    }
}

/// `s.split("..")` yields exactly two parts: the text before the first `..`
/// and the text after it (which holds no further `..`).
pub open spec fn split_range(s: Seq<char>) -> Option<(Seq<char>, Seq<char>)> {
    match first_dots(s) {
        Some(i) => {
            let rest = s.subrange(i + 2, s.len() as int);
            if exists|j: int| dots_at(rest, j) {
                None
            } else {
                Some((s.subrange(0, i), rest))
            }
        },
        None => None,
    }
}

/// A byte range `START..END` (each side trimmed and parsed as an offset) with
/// START below END, or the error message.
pub open spec fn spec_parse_byte_range(s: Seq<char>) -> Result<(nat, nat), Seq<char>> {
    match split_range(s) {
        None => Err("invalid byte range '"@ + s + "': expected format 'START..END' (e.g. '16..32' or '0x10..0x20')"@),
        Some((a, b)) => match spec_parse_offset(trim_seq(a)) {
            Err(m) => Err(m),
            Ok(start) => match spec_parse_offset(trim_seq(b)) {
                Err(m) => Err(m),
                Ok(end) => if start >= end {
                    Err("invalid byte range: start ("@ + decimal(start) + ") must be less than end ("@ + decimal(end) + ")"@)
                } else {
                    Ok((start, end))
                },
            },
        },
    }
}

proof fn lemma_first_dots(s: Seq<char>, i: int)
    requires
        dots_at(s, i),
        forall|j: int| 0 <= j < i ==> !dots_at(s, j),
    ensures
        first_dots(s) == Some(i),
{
    let k = choose|k: int| dots_at(s, k) && forall|j: int| 0 <= j < k ==> !dots_at(s, j);
    if k < i {
        assert(!dots_at(s, k));
    }
    if k > i {
        assert(!dots_at(s, i));
    }
}

/// Finds the first `..` at or after `from`.
fn find_dots(s: &[char], from: usize) -> (r: Option<usize>)
    requires
        from <= s@.len(),
    ensures
        match r {
            Some(i) => from <= i && dots_at(s@, i as int) && forall|j: int| from <= j < i ==> !dots_at(s@, j),
            None => forall|j: int| from <= j ==> !dots_at(s@, j),
        },
{
    let n = s.len();
    let mut i: usize = from;
    while i < n && n - i > 1
        invariant
            n == s@.len(),
            from <= i,
            i <= s@.len(),
            forall|j: int| from <= j < i ==> !dots_at(s@, j),
        decreases s@.len() - i,
    {
        if s[i] == '.' && s[i + 1] == '.' {
            return Some(i);
        }
        i = i + 1;
    }
    None
}

/// Parses a byte range such as `16..32` or `0x10..0x20`.
pub fn parse_byte_range(s: &str) -> (r: Result<std::ops::Range<usize>, String>)
    ensures
        match spec_parse_byte_range(s@) {
            Ok((a, b)) => r is Ok && r->Ok_0.start as nat == a && r->Ok_0.end as nat == b,
            Err(m) => r is Err && r->Err_0@ == m,
        },
{
    let cs = chars_of(s);
    match parse_byte_range_chars(cs.as_slice()) {
        Ok((a, b)) => Ok(a..b),
        Err(m) => Err(m),
    }
}

/// Parses a byte range given as characters.
fn parse_byte_range_chars(s: &[char]) -> (r: Result<(usize, usize), String>)
    ensures
        match spec_parse_byte_range(s@) {
            Ok((a, b)) => r is Ok && r->Ok_0.0 as nat == a && r->Ok_0.1 as nat == b,
            Err(m) => r is Err && r->Err_0@ == m,
        },
{
    let _ = s.len();
    let bad = match find_dots(s, 0) {
        None => true,
        Some(i) => {
            proof {
                lemma_first_dots(s@, i as int);
            }
            let rest_has = find_dots(s, i + 2);
            proof {
                let rest = s@.subrange(i + 2, s@.len() as int);
                if rest_has is Some {
                    assert(dots_at(rest, rest_has->0 - (i + 2)));
                } else {
                    assert forall|j: int| !dots_at(rest, j) by {
                        if dots_at(rest, j) {
                            assert(dots_at(s@, j + i + 2));
                        }
                    }
                }
            }
            rest_has.is_some()
        },
    };
    if bad {
        let mut m = crate::text::string_of("invalid byte range '");
        let st = string_from_chars(s);
        push_str(&mut m, st.as_str());
        push_str(&mut m, "': expected format 'START..END' (e.g. '16..32' or '0x10..0x20')");
        return Err(m);
    }
    let i = match find_dots(s, 0) {
        Some(i) => i,
        None => 0,
    };
    proof {
        lemma_first_dots(s@, i as int);
    }
    let mut a: Vec<char> = Vec::new();
    let mut k: usize = 0;
    while k < i
        invariant
            k <= i,
            i + 2 <= s@.len(),
            a@ == s@.subrange(0, k as int),
        decreases i - k,
    {
        a.push(s[k]);
        k = k + 1;
        assert(a@ =~= s@.subrange(0, k as int));
    }
    let mut b: Vec<char> = Vec::new();
    let mut k: usize = i + 2;
    while k < s.len()
        invariant
            i + 2 <= k <= s@.len(),
            b@ == s@.subrange(i + 2, k as int),
        decreases s@.len() - k,
    {
        b.push(s[k]);
        k = k + 1;
        assert(b@ =~= s@.subrange(i + 2, k as int));
    }
    let start = match parse_offset_chars(trim_chars(a.as_slice()).as_slice()) {
        Ok(v) => v,
        Err(m) => return Err(m),
    };
    let end = match parse_offset_chars(trim_chars(b.as_slice()).as_slice()) {
        Ok(v) => v,
        Err(m) => return Err(m),
    };
    if start >= end {
        let mut m = crate::text::string_of("invalid byte range: start (");
        push_decimal(&mut m, start as u64);
        push_str(&mut m, ") must be less than end (");
        push_decimal(&mut m, end as u64);
        push_str(&mut m, ")");
        return Err(m);
    }
    Ok((start, end))
}

/// Half-open ranges `[a0, a1)` and `[b0, b1)` share a byte.
pub open spec fn overlaps(a0: int, a1: int, b0: int, b1: int) -> bool {
    a0 < b1 && b0 < a1
}

/// Whether two half-open byte ranges overlap.
pub fn ranges_overlap(a: &std::ops::Range<usize>, b: &std::ops::Range<usize>) -> (r: bool)
    ensures
        r == overlaps(a.start as int, a.end as int, b.start as int, b.end as int),
{
    a.start < b.end && b.start < a.end
}

/// Path components joined by `.`.
pub open spec fn join_path(p: Seq<String>) -> Seq<char>
    decreases p.len(),
{
    if p.len() == 0 {
        Seq::empty()
    } else if p.len() == 1 {
        p[0]@
    } else {
        join_path(p.drop_last()) + seq!['.'] + p.last()@
    }
}

/// Joins path components with `.`.
pub fn join_dotted(p: &Vec<String>) -> (r: String)
    ensures
        r@ == join_path(p@),
{
    let mut r = String::new();
    let mut i: usize = 0;
    while i < p.len()
        invariant
            i <= p@.len(),
            r@ == join_path(p@.take(i as int)),
        decreases p@.len() - i,
    {
        assert(p@.take(i + 1).drop_last() =~= p@.take(i as int));
        if i > 0 {
            push_char(&mut r, '.');
        }
        push_str(&mut r, p[i].as_str());
        i = i + 1;
        assert(r@ =~= join_path(p@.take(i as int)));
    }
    assert(p@.take(p@.len() as int) =~= p@);
    r
}

/// Region `r` (whose type short name is `tname`) passes the filters.
pub open spec fn passes(r: Region, tname: Seq<char>, range: Option<(nat, nat)>, field: Option<Seq<char>>, rtype: Option<Seq<char>>) -> bool {
    &&& match range {
        Some((a, b)) => overlaps(r.byte_range.start as int, r.byte_range.end as int, a as int, b as int),
        None => true,
    }
    &&& match field {
        Some(f) => contains_seq(join_path(r.field_path@), f),
        None => true,
    }
    &&& match rtype {
        Some(t) => tname == t,
        None => true,
    }
}

/// Indices `i < k` of the regions that pass the filters, in order.
pub open spec fn passing(regions: Seq<Region>, names: Seq<String>, range: Option<(nat, nat)>, field: Option<Seq<char>>, rtype: Option<Seq<char>>, k: nat) -> Seq<usize>
    decreases k,
{
    if k == 0 || k > regions.len() {
        Seq::empty()
    } else {
        let prev = passing(regions, names, range, field, rtype, (k - 1) as nat);
        if passes(regions[k - 1], names[k - 1]@, range, field, rtype) {
            prev.push((k - 1) as usize)
        } else {
            prev
        }
    }
}

/// Optional text as characters.
pub open spec fn opt_chars(o: Option<&str>) -> Option<Seq<char>> {
    match o {
        Some(s) => Some(s@),
        None => None,
    }
}

/// Applies all filters and returns the indices of the matching regions.
/// `type_names[i]` is the short type name of `regions[i]`.
pub fn apply_filters(regions: &[Region], type_names: &[String], byte_range_str: Option<&str>, field_filter: Option<&str>, region_type_filter: Option<&str>) -> (r: Result<Vec<usize>, String>)
    requires
        type_names@.len() == regions@.len(),
    ensures
        match byte_range_str {
            Some(s) => match spec_parse_byte_range(s@) {
                Err(m) => r is Err && r->Err_0@ == m,
                Ok(rg) => r is Ok && r->Ok_0@ == passing(regions@, type_names@, Some(rg), opt_chars(field_filter), opt_chars(region_type_filter), regions@.len()),
            },
            None => r is Ok && r->Ok_0@ == passing(regions@, type_names@, None, opt_chars(field_filter), opt_chars(region_type_filter), regions@.len()),
        },
{
    let range: Option<std::ops::Range<usize>> = match byte_range_str {
        Some(s) => {
            match parse_byte_range(s) {
                Ok(p) => Some(p),
                Err(m) => return Err(m),
            }
        },
        None => None,
    };
    let ghost grange: Option<(nat, nat)> = match &range {
        Some(p) => Some((p.start as nat, p.end as nat)),
        None => None,
    };
    let field: Option<Vec<char>> = match field_filter {
        Some(f) => Some(chars_of(f)),
        None => None,
    };
    let rtype: Option<String> = match region_type_filter {
        Some(t) => Some(crate::text::string_of(t)),
        None => None,
    };
    let mut out: Vec<usize> = Vec::new();
    let mut i: usize = 0;
    while i < regions.len()
        invariant
            type_names@.len() == regions@.len(),
            i <= regions@.len(),
            match field {
                Some(f) => opt_chars(field_filter) == Some(f@),
                None => opt_chars(field_filter) is None,
            },
            match rtype {
                Some(t) => opt_chars(region_type_filter) == Some(t@),
                None => opt_chars(region_type_filter) is None,
            },
            match range {
                Some(p) => grange == Some((p.start as nat, p.end as nat)),
                None => grange is None,
            },
            out@ == passing(regions@, type_names@, grange, opt_chars(field_filter), opt_chars(region_type_filter), i as nat),
        decreases regions@.len() - i,
    {
        let region = &regions[i];
        let mut ok = match &range {
            Some(p) => ranges_overlap(&region.byte_range, p),
            None => true,
        };
        if ok {
            if let Some(f) = &field {
                let path = join_dotted(&region.field_path);
                let pc = chars_of(path.as_str());
                ok = contains_chars(pc.as_slice(), f.as_slice());
            }
        }
        if ok {
            if let Some(t) = &rtype {
                ok = type_names[i] == *t;
            }
        }
        assert(ok == passes(regions@[i as int], type_names@[i as int]@, grange, opt_chars(field_filter), opt_chars(region_type_filter)));
        if ok {
            out.push(i);
        }
        i = i + 1;
    }
    Ok(out)
}

/// An index is listed among the first `k` exactly when its region passes.
proof fn lemma_passing_contains(regions: Seq<Region>, names: Seq<String>, range: Option<(nat, nat)>, field: Option<Seq<char>>, rtype: Option<Seq<char>>, k: nat, i: usize)
    requires
        k <= regions.len() <= usize::MAX,
    ensures
        passing(regions, names, range, field, rtype, k).contains(i)
            <==> (i < k && passes(regions[i as int], names[i as int]@, range, field, rtype)),
    decreases k,
{
    if k > 0 {
        lemma_passing_contains(regions, names, range, field, rtype, (k - 1) as nat, i);
        let prev = passing(regions, names, range, field, rtype, (k - 1) as nat);
        let cur = passing(regions, names, range, field, rtype, k);
        if passes(regions[k - 1], names[k - 1]@, range, field, rtype) {
            assert(cur == prev.push((k - 1) as usize));
            if prev.contains(i) {
                let j = choose|j: int| 0 <= j < prev.len() && prev[j] == i;
                assert(cur[j] == i);
            }
            if i == k - 1 {
                assert(cur[prev.len() as int] == i);
            }
            if cur.contains(i) {
                let j = choose|j: int| 0 <= j < cur.len() && cur[j] == i;
                if j < prev.len() {
                    assert(prev[j] == i);
                }
            }
        }
    }
}

/// With no filter every region is listed, in order.
pub proof fn lemma_no_filter_lists_all(regions: Seq<Region>, names: Seq<String>)
    requires
        regions.len() <= usize::MAX,
    ensures
        passing(regions, names, None, None, None, regions.len()) == Seq::new(regions.len(), |i: int| i as usize),
{
    lemma_no_filter_prefix(regions, names, regions.len());
}

proof fn lemma_no_filter_prefix(regions: Seq<Region>, names: Seq<String>, k: nat)
    requires
        k <= regions.len() <= usize::MAX,
    ensures
        passing(regions, names, None, None, None, k) == Seq::new(k, |i: int| i as usize),
    decreases k,
{
    if k > 0 {
        lemma_no_filter_prefix(regions, names, (k - 1) as nat);
        assert(Seq::new(k, |i: int| i as usize) =~= Seq::new((k - 1) as nat, |i: int| i as usize).push((k - 1) as usize));
    } else {
        assert(Seq::new(0, |i: int| i as usize) =~= Seq::<usize>::empty());
    }
}

/// Filters combine by intersection: a region is listed under several filters
/// exactly when each of them alone lists it.
pub proof fn lemma_filters_combine(regions: Seq<Region>, names: Seq<String>, range: Option<(nat, nat)>, field: Option<Seq<char>>, rtype: Option<Seq<char>>, i: usize)
    requires
        regions.len() <= usize::MAX,
    ensures
        passing(regions, names, range, field, rtype, regions.len()).contains(i) <==> {
            &&& passing(regions, names, range, None, None, regions.len()).contains(i)
            &&& passing(regions, names, None, field, None, regions.len()).contains(i)
            &&& passing(regions, names, None, None, rtype, regions.len()).contains(i)
        },
{
    lemma_passing_contains(regions, names, range, field, rtype, regions.len(), i);
    lemma_passing_contains(regions, names, range, None, None, regions.len(), i);
    lemma_passing_contains(regions, names, None, field, None, regions.len(), i);
    lemma_passing_contains(regions, names, None, None, rtype, regions.len(), i);
}

} // verus!

verus! {

// ---------------------------------------------------------------------------
// Hexadecimal offsets: what the digits mean
// ---------------------------------------------------------------------------

/// The sixteen hex digits in order of their values.
pub open spec fn hex_digit_chars() -> Seq<char> {
    seq!['0', '1', '2', '3', '4', '5', '6', '7', '8', '9', 'a', 'b', 'c', 'd', 'e', 'f']
}

/// `c` with an upper-case hex letter `A`-`F` turned into lower case.
pub open spec fn lower_hex_char(c: char) -> char {
    if 'A' <= c && c <= 'F' { ((c as nat) + 32) as char } else { c }
}

/// `s` with its upper-case hex letters turned into lower case.
pub open spec fn lower_hex(s: Seq<char>) -> Seq<char> {
    s.map_values(|c: char| lower_hex_char(c))
}

proof fn lemma_digits_case(d: Seq<char>, k: nat)
    requires
        k <= d.len(),
    ensures
        digits_value(d, 16, k) == digits_value(lower_hex(d), 16, k),
    decreases k,
{
    if k > 0 {
        lemma_digits_case(d, (k - 1) as nat);
        let c = d[k - 1];
        assert(lower_hex(d)[k - 1] == lower_hex_char(c));
        assert(digit_value(c, 16) == digit_value(lower_hex_char(c), 16));
    }
}

/// Upper- and lower-case hex digits mean the same: a text parses in radix 16
/// exactly as its lower-case form does.
pub proof fn lemma_hex_case_insensitive(s: Seq<char>)
    ensures
        parse_usize(s, 16) == parse_usize(lower_hex(s), 16),
{
    let l = lower_hex(s);
    if s.len() > 0 {
        assert(l[0] == lower_hex_char(s[0]));
        if s[0] == '+' {
            assert(l.drop_first() =~= lower_hex(s.drop_first()));
            lemma_digits_case(s.drop_first(), (s.len() - 1) as nat);
        } else {
            lemma_digits_case(s, s.len());
        }
    }
}

/// Each hex digit, in either case, stands for its place in `0123456789abcdef`.
pub proof fn lemma_hex_digit_values()
    ensures
        forall|k: int| 0 <= k < 16 ==> parse_usize(seq![#[trigger] hex_digit_chars()[k]], 16) == Ok::<nat, IntError>(k as nat),
        forall|k: int| 10 <= k < 16 ==> parse_usize(seq![((hex_digit_chars()[k] as nat) - 32) as char], 16) == Ok::<nat, IntError>(k as nat),
{
    assert forall|k: int| 0 <= k < 16 implies parse_usize(seq![#[trigger] hex_digit_chars()[k]], 16) == Ok::<nat, IntError>(k as nat) by {
        let d = seq![hex_digit_chars()[k]];
        assert(digits_value(d, 16, 0) == Ok::<nat, IntError>(0));
    }
    assert forall|k: int| 10 <= k < 16 implies parse_usize(seq![((hex_digit_chars()[k] as nat) - 32) as char], 16) == Ok::<nat, IntError>(k as nat) by {
        let d = seq![((hex_digit_chars()[k] as nat) - 32) as char];
        assert(digits_value(d, 16, 0) == Ok::<nat, IntError>(0));
    }
}

proof fn lemma_digits_prefix(d1: Seq<char>, d2: Seq<char>, radix: nat, k: nat)
    requires
        k <= d1.len(),
        k <= d2.len(),
        d1.take(k as int) == d2.take(k as int),
    ensures
        digits_value(d1, radix, k) == digits_value(d2, radix, k),
    decreases k,
{
    if k > 0 {
        assert(d1[k - 1] == d1.take(k as int)[k - 1]);
        assert(d2[k - 1] == d2.take(k as int)[k - 1]);
        assert(d1.take(k - 1) =~= d1.take(k as int).take(k - 1));
        assert(d2.take(k - 1) =~= d2.take(k as int).take(k - 1));
        lemma_digits_prefix(d1, d2, radix, (k - 1) as nat);
    }
}

/// Hex digits are positional: one more digit `c` after a number `v` gives
/// `16 * v` plus the digit's value, while that fits in `usize`.
pub proof fn lemma_hex_digit_appended(s: Seq<char>, c: char)
    requires
        s.len() > 0,
        s[0] != '+',
        parse_usize(s, 16) is Ok,
        parse_usize(seq![c], 16) is Ok,
        16 * parse_usize(s, 16)->Ok_0 + parse_usize(seq![c], 16)->Ok_0 <= usize::MAX,
    ensures
        parse_usize(s.push(c), 16) == Ok::<nat, IntError>(16 * parse_usize(s, 16)->Ok_0 + parse_usize(seq![c], 16)->Ok_0),
{
    let t = s.push(c);
    assert(t.take(s.len() as int) =~= s.take(s.len() as int));
    lemma_digits_prefix(t, s, 16, s.len());
    assert(digits_value(seq![c], 16, 0) == Ok::<nat, IntError>(0));
    if c == '+' || c == '-' {
        assert(digit_value(c, 16) is None);
    }
}

/// A `0x` offset is the hexadecimal number after the prefix, in either case.
pub proof fn lemma_hex_offset(s: Seq<char>)
    ensures
        (spec_parse_offset(seq!['0', 'x'] + s) is Ok) == (parse_usize(lower_hex(s), 16) is Ok),
        (spec_parse_offset(seq!['0', 'X'] + s) is Ok) == (parse_usize(lower_hex(s), 16) is Ok),
        spec_parse_offset(seq!['0', 'x'] + s) is Ok ==> spec_parse_offset(seq!['0', 'x'] + s)->Ok_0 == parse_usize(lower_hex(s), 16)->Ok_0,
        spec_parse_offset(seq!['0', 'X'] + s) is Ok ==> spec_parse_offset(seq!['0', 'X'] + s)->Ok_0 == parse_usize(lower_hex(s), 16)->Ok_0,
{
    lemma_hex_case_insensitive(s);
    assert((seq!['0', 'x'] + s).subrange(2, (seq!['0', 'x'] + s).len() as int) =~= s);
    assert((seq!['0', 'X'] + s).subrange(2, (seq!['0', 'X'] + s).len() as int) =~= s);
}

} // verus!
