//! Hex text <-> bytes: parsing whitespace-separated hex byte tokens and
//! rendering bytes as space-separated lowercase hex pairs.

use vstd::prelude::*;
use crate::text::{chars_of, is_whitespace, is_ws, push_char, string_from_chars};

verus! {

/// Error returned by [`parse_hex_bytes`].
#[derive(Debug, Clone, PartialEq)]
pub enum HexParseError {
    /// The text holds no byte tokens at all.
    Empty,
    /// The token at `position` (counting tokens from 0) is not a hex byte.
    InvalidByte { token: String, position: usize },
}

/// Whitespace-separated tokens of `s` (`str::split_whitespace`).
pub open spec fn split_ws(s: Seq<char>) -> Seq<Seq<char>>
    decreases s.len(),
{
    if s.len() == 0 {
        Seq::empty()
    } else {
        let prev = split_ws(s.drop_last());
        let c = s.last();
        if is_ws(c) {
            prev
        } else if s.len() > 1 && !is_ws(s[s.len() - 2]) && prev.len() > 0 {
            prev.update(prev.len() - 1, prev.last().push(c))
        } else {
            prev.push(seq![c])
        }
    }
}

/// Value of a hex digit character, if it is one.
pub open spec fn hex_digit_value(c: char) -> Option<nat> {
    if '0' <= c && c <= '9' {
        Some((c as nat - '0' as nat) as nat)
    } else if 'a' <= c && c <= 'f' {
        Some((c as nat - 'a' as nat + 10) as nat)
    } else if 'A' <= c && c <= 'F' {
        Some((c as nat - 'A' as nat + 10) as nat)
    } else {
        None
    }
}

/// Value of a sequence of hex digits (most significant first), if all are digits.
pub open spec fn hex_digits_value(d: Seq<char>) -> Option<nat>
    decreases d.len(),
{
    if d.len() == 0 {
        Some(0)
    } else {
        match (hex_digits_value(d.drop_last()), hex_digit_value(d.last())) {
            (Some(hi), Some(lo)) => Some(hi * 16 + lo),
            _ => None,
        }
    }
}

/// `u8::from_str_radix(d, 16)`: an optional `+`, then at least one hex digit,
/// with a value below 256.
pub open spec fn radix16_u8(d: Seq<char>) -> Option<u8> {
    let digits = if d.len() > 0 && d[0] == '+' { d.drop_first() } else { d };
    if digits.len() == 0 {
        None
    } else {
        match hex_digits_value(digits) {
            Some(v) => if v < 256 { Some(v as u8) } else { None },
            None => None,
        }
    }
}

/// The token without a leading `0x` or `0X`.
pub open spec fn strip_hex_prefix(t: Seq<char>) -> Seq<char> {
    if t.len() >= 2 && t[0] == '0' && (t[1] == 'x' || t[1] == 'X') {
        t.subrange(2, t.len() as int)
    } else {
        t
    }
}

/// The byte a token stands for, if it is a valid hex byte token.
pub open spec fn token_byte(t: Seq<char>) -> Option<u8> {
    radix16_u8(strip_hex_prefix(t))
}

/// Lowercase hex digit for a value below 16.
pub open spec fn hex_char(v: nat) -> char {
    if v < 10 {
        (('0' as nat) + v) as char
    } else {
        (('a' as nat) + v - 10) as char
    }
}

/// The two-character lowercase hex rendering of a byte (`{:02x}`).
pub open spec fn hex_pair(b: u8) -> Seq<char> {
    seq![hex_char(b as nat / 16), hex_char(b as nat % 16)]
}

/// Bytes rendered as lowercase hex pairs joined by single spaces.
pub open spec fn hex_text(d: Seq<u8>) -> Seq<char>
    decreases d.len(),
{
    if d.len() == 0 {
        Seq::empty()
    } else if d.len() == 1 {
        hex_pair(d[0])
    } else {
        hex_text(d.drop_last()) + seq![' '] + hex_pair(d.last())
    }
}

fn hex_digit_exec(c: char) -> (r: Option<u32>)
    ensures
        match hex_digit_value(c) {
            Some(v) => r == Some(v as u32),
            None => r is None,
        },
{
    if '0' <= c && c <= '9' {
        Some(c as u32 - '0' as u32)
    } else if 'a' <= c && c <= 'f' {
        Some(c as u32 - 'a' as u32 + 10)
    } else if 'A' <= c && c <= 'F' {
        Some(c as u32 - 'A' as u32 + 10)
    } else {
        None
    }
}

proof fn lemma_hex_digits_monotone(d: Seq<char>, k: int)
    requires
        0 <= k <= d.len(),
        hex_digits_value(d) is Some,
    ensures
        hex_digits_value(d.subrange(0, k)) is Some,
        hex_digits_value(d.subrange(0, k))->0 <= hex_digits_value(d)->0,
    decreases d.len(),
{
    if k < d.len() {
        assert(d.drop_last().subrange(0, k) =~= d.subrange(0, k));
        lemma_hex_digits_monotone(d.drop_last(), k);
    } else {
        assert(d.subrange(0, k) =~= d);
    }
}

/// Parses one token as a hex byte.
fn parse_token(t: &[char]) -> (r: Option<u8>)
    ensures
        r == token_byte(t@),
{
    let mut start: usize = 0;
    if t.len() >= 2 && t[0] == '0' && (t[1] == 'x' || t[1] == 'X') {
        start = 2;
    }
    let ghost d = strip_hex_prefix(t@);
    assert(d =~= t@.subrange(start as int, t@.len() as int));
    if start < t.len() && t[start] == '+' {
        start = start + 1;
    }
    let ghost digits = t@.subrange(start as int, t@.len() as int);
    assert(digits =~= (if d.len() > 0 && d[0] == '+' { d.drop_first() } else { d }));
    if start >= t.len() {
        return None;
    }
    let mut v: u32 = 0;
    let mut i: usize = start;
    while i < t.len()
        invariant
            start <= i <= t@.len(),
            start < t@.len(),
            digits == t@.subrange(start as int, t@.len() as int),
            d == strip_hex_prefix(t@),
            digits == (if d.len() > 0 && d[0] == '+' { d.drop_first() } else { d }),
            hex_digits_value(t@.subrange(start as int, i as int)) == Some(v as nat),
            v < 256,
        decreases t@.len() - i,
    {
        let ghost prefix = t@.subrange(start as int, i as int);
        let ghost next = t@.subrange(start as int, i + 1);
        assert(next.drop_last() =~= prefix);
        assert(next.last() == t@[i as int]);
        match hex_digit_exec(t[i]) {
            Some(dv) => {
                let nv = v * 16 + dv;
                assert(hex_digits_value(next) == Some(nv as nat));
                if nv >= 256 {
                    proof {
                        if hex_digits_value(digits) is Some {
                            assert(digits.subrange(0, i + 1 - start) =~= next);
                            lemma_hex_digits_monotone(digits, i + 1 - start);
                            assert(hex_digits_value(digits)->0 >= 256);
                        }
                        assert(radix16_u8(d) is None);
                    }
                    return None;
                }
                v = nv;
            },
            None => {
                assert(hex_digits_value(next) is None);
                proof {
                    if hex_digits_value(digits) is Some {
                        assert(digits.subrange(0, i + 1 - start) =~= next);
                        lemma_hex_digits_monotone(digits, i + 1 - start);
                    }
                    assert(radix16_u8(d) is None);
                }
                return None;
            },
        }
        i = i + 1;
    }
    Some(v as u8)
}

/// Splits `s` into whitespace-separated tokens.
fn split_whitespace_chars(s: &[char]) -> (toks: Vec<Vec<char>>)
    ensures
        toks@.len() == split_ws(s@).len(),
        forall|k: int| 0 <= k < toks@.len() ==> #[trigger] toks@[k]@ == split_ws(s@)[k],
{
    let mut toks: Vec<Vec<char>> = Vec::new();
    let mut i: usize = 0;
    while i < s.len()
        invariant
            i <= s@.len(),
            toks@.len() == split_ws(s@.take(i as int)).len(),
            forall|k: int| 0 <= k < toks@.len() ==> #[trigger] toks@[k]@ == split_ws(s@.take(i as int))[k],
        decreases s@.len() - i,
    {
        let c = s[i];
        let ghost pre = s@.take(i as int);
        let ghost cur = s@.take(i + 1);
        assert(cur.drop_last() =~= pre);
        assert(cur.last() == c);
        if is_whitespace(c) {
        } else if i > 0 && !is_whitespace(s[i - 1]) && toks.len() > 0 {
            assert(cur[cur.len() - 2] == s@[i - 1]);
            let last = toks.len() - 1;
            let mut t = toks.pop().unwrap();
            t.push(c);
            toks.push(t);
            assert forall|k: int| 0 <= k < toks@.len() implies #[trigger] toks@[k]@ == split_ws(cur)[k] by {
                if k < last as int {
                } else {
                }
            }
        } else {
            proof {
                if i > 0 {
                    assert(cur[cur.len() - 2] == s@[i - 1]);
                }
            }
            let mut t: Vec<char> = Vec::new();
            t.push(c);
            assert(t@ =~= seq![c]);
            toks.push(t);
        }
        i = i + 1;
    }
    assert(s@.take(s@.len() as int) =~= s@);
    toks
}

/// Parses whitespace-separated hex byte tokens (each optionally prefixed by
/// `0x` / `0X`) into bytes.
pub fn parse_hex_bytes(text: &str) -> (r: Result<Vec<u8>, HexParseError>)
    ensures
        ({
            let toks = split_ws(text@);
            match r {
                Ok(bytes) => toks.len() > 0 && bytes@.len() == toks.len() && forall|k: int|
                    0 <= k < toks.len() ==> token_byte(#[trigger] toks[k]) == Some(bytes@[k]),
                Err(HexParseError::Empty) => toks.len() == 0,
                Err(HexParseError::InvalidByte { token, position }) => position < toks.len()
                    && token@ == toks[position as int] && token_byte(toks[position as int]) is None
                    && forall|k: int| 0 <= k < position ==> token_byte(#[trigger] toks[k]) is Some,
            }
        }),
{
    let cs = chars_of(text);
    let toks = split_whitespace_chars(cs.as_slice());
    if toks.len() == 0 {
        return Err(HexParseError::Empty);
    }
    let mut out: Vec<u8> = Vec::new();
    let mut k: usize = 0;
    while k < toks.len()
        invariant
            cs@ == text@,
            toks@.len() == split_ws(text@).len(),
            forall|j: int| 0 <= j < toks@.len() ==> #[trigger] toks@[j]@ == split_ws(text@)[j],
            k <= toks@.len(),
            out@.len() == k,
            forall|j: int| 0 <= j < k ==> token_byte(#[trigger] split_ws(text@)[j]) == Some(out@[j]),
        decreases toks@.len() - k,
    {
        match parse_token(toks[k].as_slice()) {
            Some(b) => {
                out.push(b);
            },
            None => {
                let token = string_from_chars(toks[k].as_slice());
                return Err(HexParseError::InvalidByte { token, position: k });
            },
        }
        k = k + 1;
    }
    Ok(out)
}

fn hex_char_exec(v: u8) -> (c: char)
    requires
        v < 16,
    ensures
        c == hex_char(v as nat),
{
    if v < 10 {
        ((48u8 + v) as char)
    } else {
        ((87u8 + v) as char)
    }
}

/// Renders bytes as lowercase two-digit hex values separated by single spaces.
pub fn bytes_to_hex(data: &[u8]) -> (s: String)
    ensures
        s@ == hex_text(data@),
{
    let mut s = String::new();
    let mut i: usize = 0;
    while i < data.len()
        invariant
            i <= data@.len(),
            s@ == hex_text(data@.take(i as int)),
        decreases data@.len() - i,
    {
        let b = data[i];
        let ghost pre = data@.take(i as int);
        let ghost cur = data@.take(i + 1);
        assert(cur.drop_last() =~= pre);
        if i > 0 {
            push_char(&mut s, ' ');
        }
        push_char(&mut s, hex_char_exec(b / 16));
        push_char(&mut s, hex_char_exec(b % 16));
        proof {
            if i == 0 {
                assert(s@ =~= hex_pair(b));
            } else {
                assert(s@ =~= hex_text(pre) + seq![' '] + hex_pair(b));
            }
        }
        i = i + 1;
    }
    assert(data@.take(data@.len() as int) =~= data@);
    s
}

proof fn lemma_hex_char(v: nat)
    requires
        v < 16,
    ensures
        !is_ws(hex_char(v)),
        hex_char(v) != '+',
        hex_char(v) != 'x',
        hex_char(v) != 'X',
        hex_digit_value(hex_char(v)) == Some(v),
        lower_hex_digit(hex_char(v)),
{
}

proof fn lemma_token_of_pair(b: u8)
    ensures
        token_byte(hex_pair(b)) == Some(b),
{
    let p = hex_pair(b);
    lemma_hex_char(b as nat / 16);
    lemma_hex_char(b as nat % 16);
    assert(strip_hex_prefix(p) == p);
    let one = p.drop_last();
    assert(one.drop_last() =~= Seq::<char>::empty());
    assert(one.last() == p[0]);
    assert(hex_digits_value(Seq::<char>::empty()) == Some(0nat));
    assert(hex_digits_value(one) == Some(0 * 16 + b as nat / 16));
    assert(hex_digits_value(p) == Some((b as nat / 16) * 16 + b as nat % 16));
}

proof fn lemma_split_append_pair(s: Seq<char>, b: u8)
    requires
        s.len() > 0,
    ensures
        split_ws(s + seq![' '] + hex_pair(b)) == split_ws(s).push(hex_pair(b)),
{
    let p = hex_pair(b);
    lemma_hex_char(b as nat / 16);
    lemma_hex_char(b as nat % 16);
    let s1 = s + seq![' '];
    let s2 = s1.push(p[0]);
    let s3 = s2.push(p[1]);
    assert(s + seq![' '] + p =~= s3);
    assert(s3.drop_last() =~= s2);
    assert(s2.drop_last() =~= s1);
    assert(s1.drop_last() =~= s);
    assert(split_ws(s1) == split_ws(s));
    assert(s2[s2.len() - 2] == ' ');
    assert(split_ws(s2) == split_ws(s).push(seq![p[0]]));
    assert(s3[s3.len() - 2] == p[0]);
    let prev = split_ws(s2);
    assert(prev.last() == seq![p[0]]);
    assert(seq![p[0]].push(p[1]) =~= p);
    assert(split_ws(s3) == prev.update(prev.len() - 1, prev.last().push(p[1])));
    assert(split_ws(s3) =~= split_ws(s).push(p));
}

/// A lowercase hex digit: `0`-`9` or `a`-`f`.
pub open spec fn lower_hex_digit(c: char) -> bool {
    ('0' <= c && c <= '9') || ('a' <= c && c <= 'f')
}

/// Rendering bytes as hex and parsing that text back gives the same bytes:
/// `n` bytes give `3n - 1` characters, whose whitespace tokens are one per
/// byte, each two lowercase hex digits that stand for that byte.
pub proof fn lemma_hex_roundtrip(d: Seq<u8>)
    ensures
        d.len() > 0 ==> hex_text(d).len() == 3 * d.len() - 1,
        split_ws(hex_text(d)).len() == d.len(),
        forall|k: int| 0 <= k < d.len() ==> {
            let t = #[trigger] split_ws(hex_text(d))[k];
            &&& t == hex_pair(d[k])
            &&& t.len() == 2 && lower_hex_digit(t[0]) && lower_hex_digit(t[1])
            &&& token_byte(t) == Some(d[k])
        },
    decreases d.len(),
{
    if d.len() == 0 {
    } else if d.len() == 1 {
        let p = hex_pair(d[0]);
        lemma_hex_char(d[0] as nat / 16);
        lemma_hex_char(d[0] as nat % 16);
        let one = seq![p[0]];
        assert(p.drop_last() =~= one);
        assert(one.drop_last() =~= Seq::<char>::empty());
        assert(split_ws(Seq::<char>::empty()) =~= Seq::<Seq<char>>::empty());
        assert(split_ws(one) =~= Seq::<Seq<char>>::empty().push(one));
        let prev = split_ws(one);
        assert(prev.last() == one);
        assert(one.push(p[1]) =~= p);
        assert(split_ws(p) == prev.update(prev.len() - 1, prev.last().push(p[1])));
        assert(split_ws(p) =~= seq![p]);
        lemma_token_of_pair(d[0]);
        assert(hex_text(d).len() == 2);
    } else {
        let pre = d.drop_last();
        lemma_hex_roundtrip(pre);
        assert(hex_text(pre).len() > 0) by {
            reveal_with_fuel(hex_text, 2);
            if pre.len() == 1 {
            } else {
            }
        }
        lemma_split_append_pair(hex_text(pre), d.last());
        lemma_token_of_pair(d.last());
        lemma_hex_char(d.last() as nat / 16);
        lemma_hex_char(d.last() as nat % 16);
        assert forall|k: int| 0 <= k < d.len() implies {
            let t = #[trigger] split_ws(hex_text(d))[k];
            &&& t == hex_pair(d[k])
            &&& t.len() == 2 && lower_hex_digit(t[0]) && lower_hex_digit(t[1])
            &&& token_byte(t) == Some(d[k])
        } by {
            if k < d.len() - 1 {
                assert(d[k] == pre[k]);
            }
        }
    }
}

} // verus!

verus! {

/// Message of a hex parse error.
pub open spec fn hex_error_text(e: HexParseError) -> Seq<char> {
    match e {
        HexParseError::Empty => "no hex bytes found in input"@,
        HexParseError::InvalidByte { token, position } => "invalid hex byte '"@ + token@ + "' at position "@ + crate::text::decimal(position as nat),
    }
}

impl HexParseError {
    /// The error's message.
    pub fn describe(&self) -> (s: String)
        ensures
            s@ == hex_error_text(*self),
    {
        match self {
            HexParseError::Empty => crate::text::string_of("no hex bytes found in input"),
            HexParseError::InvalidByte { token, position } => {
                let mut s = crate::text::string_of("invalid hex byte '");
                crate::text::push_str(&mut s, token.as_str());
                crate::text::push_str(&mut s, "' at position ");
                crate::text::push_decimal(&mut s, *position as u64);
                s
            },
        }
    }
}

} // verus!
