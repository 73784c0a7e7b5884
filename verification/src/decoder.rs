//! Rebuilds a JSON value from the annotated regions of a FlatBuffers binary.
//! The walker has already rendered every field's value as text; the decoder
//! follows the region tree from the root table and turns those texts back
//! into JSON values.

use vstd::prelude::*;
use crate::region::{Region, RegionType};
use crate::text::{trim_chars, trim_seq, string_from_chars, chars_of, string_of, push_str};

verus! {

/// A decoded JSON value.
#[derive(Debug)]
pub enum DecodedJson {
    Null,
    Bool(bool),
    Int(i64),
    UInt(u64),
    /// Text that is a JSON number when it reads as a floating-point number
    /// and a JSON string otherwise; whoever renders the value decides.
    FloatText(String),
    Str(String),
    Array(Vec<DecodedJson>),
    /// Members in insertion order; a later member replaces an earlier one
    /// with the same key.
    Object(Vec<(String, DecodedJson)>),
}

/// A decoded JSON value with its texts as sequences and objects as maps.
pub enum DecodedView {
    Null,
    Bool(bool),
    Int(i64),
    UInt(u64),
    FloatText(Seq<char>),
    Str(Seq<char>),
    Array(Seq<DecodedView>),
    Object(Map<Seq<char>, DecodedView>),
}

/// View of a decoded value.
pub open spec fn decoded_view(v: DecodedJson) -> DecodedView
    decreases v,
{
    match v {
        DecodedJson::Null => DecodedView::Null,
        DecodedJson::Bool(b) => DecodedView::Bool(b),
        DecodedJson::Int(i) => DecodedView::Int(i),
        DecodedJson::UInt(u) => DecodedView::UInt(u),
        DecodedJson::FloatText(t) => DecodedView::FloatText(t@),
        DecodedJson::Str(t) => DecodedView::Str(t@),
        DecodedJson::Array(items) => DecodedView::Array(items_view(items@)),
        DecodedJson::Object(members) => DecodedView::Object(members_map(members@)),
    }
}

/// Views of a list of decoded values.
pub open spec fn items_view(s: Seq<DecodedJson>) -> Seq<DecodedView>
    decreases s,
{
    if s.len() == 0 {
        Seq::empty()
    } else {
        items_view(s.drop_last()).push(decoded_view(s.last()))
    }
}

/// The map that inserting the members in order gives.
pub open spec fn members_map(s: Seq<(String, DecodedJson)>) -> Map<Seq<char>, DecodedView>
    decreases s,
{
    if s.len() == 0 {
        Map::empty()
    } else {
        members_map(s.drop_last()).insert(s.last().0@, decoded_view(s.last().1))
    }
}

impl View for DecodedJson {
    type V = DecodedView;

    open spec fn view(&self) -> DecodedView {
        decoded_view(*self)
    }
}

// ---------------------------------------------------------------------------
// Reading a value text
// ---------------------------------------------------------------------------

/// Whether a character is a decimal digit.
pub open spec fn is_digit(c: char) -> bool {
    '0' <= c && c <= '9'
}

/// Value of a sequence of decimal digits.
pub open spec fn digits_nat(d: Seq<char>) -> nat
    decreases d.len(),
{
    if d.len() == 0 {
        0
    } else {
        digits_nat(d.drop_last()) * 10 + (d.last() as nat - '0' as nat) as nat
    }
}

/// Every character is a decimal digit.
pub open spec fn all_digits(d: Seq<char>) -> bool {
    forall|i: int| 0 <= i < d.len() ==> is_digit(#[trigger] d[i])
}

/// `s.parse::<u64>()`, when it succeeds.
pub open spec fn parse_u64(s: Seq<char>) -> Option<u64> {
    let d = if s.len() > 0 && s[0] == '+' { s.drop_first() } else { s };
    if d.len() > 0 && all_digits(d) && digits_nat(d) <= u64::MAX {
        Some(digits_nat(d) as u64)
    } else {
        None
    }
}

/// `s.parse::<i64>()`, when it succeeds.
pub open spec fn parse_i64(s: Seq<char>) -> Option<i64> {
    let neg = s.len() > 0 && s[0] == '-';
    let d = if s.len() > 0 && (s[0] == '+' || s[0] == '-') { s.drop_first() } else { s };
    if d.len() > 0 && all_digits(d) {
        if neg && digits_nat(d) <= 0x8000_0000_0000_0000 {
            Some((-(digits_nat(d) as int)) as i64)
        } else if !neg && digits_nat(d) <= i64::MAX {
            Some(digits_nat(d) as i64)
        } else {
            None
        }
    } else {
        None
    }
}

/// A plain value text: a boolean, an integer, or a float-or-string text.
pub open spec fn raw_view(s: Seq<char>) -> DecodedView {
    if s == "true"@ {
        DecodedView::Bool(true)
    } else if s == "false"@ {
        DecodedView::Bool(false)
    } else if parse_i64(s) is Some {
        DecodedView::Int(parse_i64(s)->0)
    } else if parse_u64(s) is Some {
        DecodedView::UInt(parse_u64(s)->0)
    } else {
        DecodedView::FloatText(s)
    }
}

/// Last index `j <= i` where ` (` starts in `s`.
pub open spec fn last_paren(s: Seq<char>, i: int) -> Option<int>
    decreases i + 1,
{
    if i < 0 {
        None
    } else if i + 1 < s.len() && s[i] == ' ' && s[i + 1] == '(' {
        Some(i)
    } else {
        last_paren(s, i - 1)
    }
}

/// Whether a character is alphabetic (Unicode `Alphabetic`).
pub uninterp spec fn alphabetic(c: char) -> bool;

/// `char::is_alphabetic`, named by `alphabetic`.
#[verifier::external_body]
fn is_alphabetic(c: char) -> (r: bool)
    ensures
        r == alphabetic(c),
{
    c.is_alphabetic()
}

/// The value a region's value text stands for: empty text is null;
/// `Name (number)` is the enum name; `number (type)` is the number; any
/// other text is read as a plain value. `None` when the text ends in a way
/// that the reading cannot cut (the text has ` (` but does not end in an
/// ASCII character after it).
pub open spec fn scalar_view(display: Seq<char>) -> Option<DecodedView> {
    let s = trim_seq(display);
    if s.len() == 0 {
        Some(DecodedView::Null)
    } else {
        match last_paren(s, s.len() - 2) {
            None => Some(raw_view(s)),
            Some(q) => if !((s.last() as u32) < 128 && q + 2 <= s.len() - 1) {
                None
            } else {
                let before = s.subrange(0, q);
                let inside = s.subrange(q + 2, s.len() - 1);
                if before.len() > 0 && alphabetic(before[0]) && parse_i64(inside) is Some {
                    Some(DecodedView::Str(before))
                } else {
                    Some(raw_view(before))
                }
            },
        }
    }
}

/// First index at or after `i` that is not a `"`.
pub open spec fn quote_start(s: Seq<char>, i: nat) -> nat
    decreases s.len() - i,
{
    if i < s.len() && s[i as int] == '"' {
        quote_start(s, i + 1)
    } else {
        i
    }
}

/// End of `s[..j]` with trailing `"` removed, not going below `lo`.
pub open spec fn quote_end(s: Seq<char>, j: nat, lo: nat) -> nat
    decreases j,
{
    if j > lo && j <= s.len() && s[j - 1] == '"' {
        quote_end(s, (j - 1) as nat, lo)
    } else {
        j
    }
}

/// `s` without leading and trailing `"` characters.
pub open spec fn trim_quotes(s: Seq<char>) -> Seq<char> {
    let a = quote_start(s, 0);
    s.subrange(a as int, quote_end(s, s.len(), a) as int)
}

/// The last path component, or `fallback` for an empty path.
pub open spec fn last_or(path: Seq<String>, fallback: Seq<char>) -> Seq<char> {
    if path.len() > 0 {
        path.last()@
    } else {
        fallback
    }
}

// ---------------------------------------------------------------------------
// The region tree
// ---------------------------------------------------------------------------

/// First child among `ch[i..]` that is a table, `Some(None)` when there is
/// none, `None` when a child index before it is out of range.
pub open spec fn table_child(a: Seq<Region>, ch: Seq<usize>, i: nat) -> Option<Option<usize>>
    decreases ch.len() - i,
{
    if i >= ch.len() {
        Some(None)
    } else if ch[i as int] >= a.len() {
        None
    } else if a[ch[i as int] as int].region_type is TableSOffset {
        Some(Some(ch[i as int]))
    } else {
        table_child(a, ch, i + 1)
    }
}

/// The string held by the first string-data child among `ch[i..]`, null
/// when there is none, `None` when a child index before it is out of range.
pub open spec fn string_value(a: Seq<Region>, ch: Seq<usize>, i: nat) -> Option<DecodedView>
    decreases ch.len() - i,
{
    if i >= ch.len() {
        Some(DecodedView::Null)
    } else if ch[i as int] >= a.len() {
        None
    } else if a[ch[i as int] as int].region_type is StringData {
        Some(DecodedView::Str(trim_quotes(a[ch[i as int] as int].value_display@)))
    } else {
        string_value(a, ch, i + 1)
    }
}

/// JSON value of region `idx`: a table or inline struct becomes an object of
/// its children's fields; any other region is null. `None` when a region
/// index in the tree is out of range, when a value text cannot be read (see
/// `scalar_view`), or when `fuel` nested objects do not suffice (the region
/// tree has a cycle).
pub open spec fn dec_region(a: Seq<Region>, idx: usize, fuel: nat) -> Option<DecodedView>
    decreases fuel, 0nat, 0nat,
{
    if fuel == 0 || idx >= a.len() {
        None
    } else {
        let r = a[idx as int];
        match r.region_type {
            RegionType::TableSOffset { .. } | RegionType::StructInline { .. } => match dec_fields(a, r.children@, r.children@.len(), (fuel - 1) as nat) {
                Some(m) => Some(DecodedView::Object(m)),
                None => None,
            },
            _ => Some(DecodedView::Null),
        }
    }
}

/// Object holding the fields of the first `k` children in `ch`.
pub open spec fn dec_fields(a: Seq<Region>, ch: Seq<usize>, k: nat, fuel: nat) -> Option<Map<Seq<char>, DecodedView>>
    decreases fuel, 5nat, k,
{
    if k == 0 || k > ch.len() {
        Some(Map::empty())
    } else {
        match dec_fields(a, ch, (k - 1) as nat, fuel) {
            Some(m) => dec_field(a, ch[k - 1], m, fuel),
            None => None,
        }
    }
}

/// Inserts `v`, when present, under `key`.
pub open spec fn put(m: Map<Seq<char>, DecodedView>, key: Seq<char>, v: Option<DecodedView>) -> Option<Map<Seq<char>, DecodedView>> {
    match v {
        Some(x) => Some(m.insert(key, x)),
        None => None,
    }
}

/// Object `m` with the field that region `idx` contributes.
pub open spec fn dec_field(a: Seq<Region>, idx: usize, m: Map<Seq<char>, DecodedView>, fuel: nat) -> Option<Map<Seq<char>, DecodedView>>
    decreases fuel, 4nat, 0nat,
{
    if idx >= a.len() {
        None
    } else {
        let r = a[idx as int];
        match r.region_type {
            RegionType::ScalarField { field_name, .. } => match table_child(a, r.children@, 0) {
                None => None,
                Some(Some(c)) => put(m, field_name@, dec_region(a, c, fuel)),
                Some(None) => put(m, field_name@, scalar_view(r.value_display@)),
            },
            RegionType::StructField { field_name, .. } => put(m, field_name@, scalar_view(r.value_display@)),
            RegionType::StringOffset { field_name } => put(m, field_name@, string_value(a, r.children@, 0)),
            RegionType::StructInline { object_name } => if fuel == 0 {
                None
            } else {
                match dec_fields(a, r.children@, r.children@.len(), (fuel - 1) as nat) {
                    Some(inner) => Some(m.insert(last_or(r.field_path@, object_name@), DecodedView::Object(inner))),
                    None => None,
                }
            },
            RegionType::VectorOffset { field_name } => match dec_vector(a, r.children@, r.children@.len(), fuel) {
                Some(es) => Some(m.insert(field_name@, DecodedView::Array(sort_by_index(es)))),
                None => None,
            },
            RegionType::UnionTypeField { field_name } => put(m, field_name@ + "_type"@, scalar_view(r.value_display@)),
            RegionType::UnionDataOffset { field_name } => match table_child(a, r.children@, 0) {
                None => None,
                Some(Some(c)) => put(m, field_name@, dec_region(a, c, fuel)),
                Some(None) => Some(m),
            },
            RegionType::TableSOffset { .. } => put(m, last_or(r.field_path@, "?"@), dec_region(a, idx, fuel)),
            _ => Some(m),
        }
    }
}

/// Indexed elements of the first `k` vector-element children in `ch`.
pub open spec fn dec_vector(a: Seq<Region>, ch: Seq<usize>, k: nat, fuel: nat) -> Option<Seq<(usize, DecodedView)>>
    decreases fuel, 3nat, k,
{
    if k == 0 || k > ch.len() {
        Some(Seq::empty())
    } else {
        match dec_vector(a, ch, (k - 1) as nat, fuel) {
            None => None,
            Some(es) => {
                let c = ch[k - 1];
                if c >= a.len() {
                    None
                } else {
                    let e = a[c as int];
                    match e.region_type {
                        RegionType::VectorElement { index } => {
                            let v = if e.children@.len() == 0 {
                                scalar_view(e.value_display@)
                            } else {
                                dec_element(a, e.children@, 0, e.value_display@, fuel)
                            };
                            match v {
                                Some(x) => Some(es.push((index, x))),
                                None => None,
                            }
                        },
                        _ => Some(es),
                    }
                }
            },
        }
    }
}

/// Value of a vector element from its children `ch[i..]`: the first table,
/// inline struct or string among them, else the element's own value text.
pub open spec fn dec_element(a: Seq<Region>, ch: Seq<usize>, i: nat, display: Seq<char>, fuel: nat) -> Option<DecodedView>
    decreases fuel, 1nat, ch.len() - i,
{
    if i >= ch.len() {
        scalar_view(display)
    } else if ch[i as int] >= a.len() {
        None
    } else {
        let c = a[ch[i as int] as int];
        match c.region_type {
            RegionType::TableSOffset { .. } => dec_region(a, ch[i as int], fuel),
            RegionType::StructInline { .. } => if fuel == 0 {
                None
            } else {
                match dec_fields(a, c.children@, c.children@.len(), (fuel - 1) as nat) {
                    Some(m) => Some(DecodedView::Object(m)),
                    None => None,
                }
            },
            RegionType::StringData { .. } => Some(DecodedView::Str(trim_quotes(c.value_display@))),
            _ => dec_element(a, ch, i + 1, display, fuel),
        }
    }
}

/// `t` with `e` inserted after every element whose index is not larger
/// (one step of a stable insertion sort).
pub open spec fn insert_by_index(t: Seq<(usize, DecodedView)>, e: (usize, DecodedView)) -> Seq<(usize, DecodedView)>
    decreases t.len(),
{
    if t.len() == 0 {
        seq![e]
    } else if t.last().0 <= e.0 {
        t.push(e)
    } else {
        insert_by_index(t.drop_last(), e).push(t.last())
    }
}

/// Stable sort by index.
pub open spec fn sorted_by_index(s: Seq<(usize, DecodedView)>) -> Seq<(usize, DecodedView)>
    decreases s.len(),
{
    if s.len() == 0 {
        Seq::empty()
    } else {
        insert_by_index(sorted_by_index(s.drop_last()), s.last())
    }
}

/// The values of the elements, stably sorted by index.
pub open spec fn sort_by_index(s: Seq<(usize, DecodedView)>) -> Seq<DecodedView> {
    sorted_by_index(s).map_values(|e: (usize, DecodedView)| e.1)
}

/// Index of the root table: the first table region at depth 0 or 1.
pub open spec fn root_index(a: Seq<Region>, i: nat) -> Option<usize>
    decreases a.len() - i,
{
    if i >= a.len() {
        None
    } else if a[i as int].region_type is TableSOffset && a[i as int].depth <= 1 {
        Some(i as usize)
    } else {
        root_index(a, i + 1)
    }
}

/// The JSON value rebuilt from a list of regions: the root table's object,
/// or null when there is no root table.
pub open spec fn annotations_json(a: Seq<Region>) -> Option<DecodedView> {
    match root_index(a, 0) {
        None => Some(DecodedView::Null),
        Some(i) => dec_region(a, i, a.len()),
    }
}

} // verus!

verus! {

// ---------------------------------------------------------------------------
// Reading a value text: executable side
// ---------------------------------------------------------------------------

/// Whether two character sequences are equal.
fn chars_eq(a: &[char], b: &[char]) -> (r: bool)
    ensures
        r == (a@ == b@),
{
    if a.len() != b.len() {
        return false;
    }
    let mut i: usize = 0;
    while i < a.len()
        invariant
            i <= a@.len(),
            a@.len() == b@.len(),
            forall|k: int| 0 <= k < i ==> a@[k] == b@[k],
        decreases a@.len() - i,
    {
        if a[i] != b[i] {
            return false;
        }
        i = i + 1;
    }
    assert(a@ =~= b@);
    true
}

/// Copies `s[lo..hi]`.
fn copy_chars(s: &[char], lo: usize, hi: usize) -> (r: Vec<char>)
    requires
        lo <= hi <= s@.len(),
    ensures
        r@ == s@.subrange(lo as int, hi as int),
{
    let mut r: Vec<char> = Vec::new();
    let mut k: usize = lo;
    while k < hi
        invariant
            lo <= k <= hi,
            hi <= s@.len(),
            r@ == s@.subrange(lo as int, k as int),
        decreases hi - k,
    {
        r.push(s[k]);
        k = k + 1;
        assert(r@ =~= s@.subrange(lo as int, k as int));
    }
    r
}

/// `n`, or `cap + 1` when `n` is larger.
pub open spec fn capped(n: nat, cap: nat) -> nat {
    if n > cap { cap + 1 } else { n }
}

/// Decimal value of `d[lo..]`, capped at `cap + 1`; `None` when the part is
/// empty or holds a non-digit.
fn digits_capped(d: &[char], lo: usize, cap: u64) -> (r: Option<u128>)
    requires
        lo <= d@.len(),
    ensures
        match r {
            Some(v) => lo < d@.len() && all_digits(d@.subrange(lo as int, d@.len() as int))
                && v as nat == capped(digits_nat(d@.subrange(lo as int, d@.len() as int)), cap as nat),
            None => !(lo < d@.len() && all_digits(d@.subrange(lo as int, d@.len() as int))),
        },
{
    let mut v: u128 = 0;
    let mut i: usize = lo;
    while i < d.len()
        invariant
            lo <= i <= d@.len(),
            all_digits(d@.subrange(lo as int, i as int)),
            v as nat == capped(digits_nat(d@.subrange(lo as int, i as int)), cap as nat),
        decreases d@.len() - i,
    {
        let c = d[i];
        if !('0' <= c && c <= '9') {
            assert(d@.subrange(lo as int, d@.len() as int)[i - lo] == c);
            return None;
        }
        let x = (c as u32 - '0' as u32) as u128;
        let ghost prev = d@.subrange(lo as int, i as int);
        let ghost next = d@.subrange(lo as int, i + 1);
        assert(next.drop_last() =~= prev);
        assert(next.last() == c);
        assert(digits_nat(next) == digits_nat(prev) * 10 + x);
        v = v * 10 + x;
        if v > cap as u128 + 1 {
            v = cap as u128 + 1;
        }
        i = i + 1;
        assert forall|k: int| 0 <= k < next.len() implies is_digit(#[trigger] next[k]) by {
            if k < prev.len() {
                assert(next[k] == prev[k]);
            }
        }
    }
    if i == lo {
        None
    } else {
        Some(v)
    }
}

/// `s.parse::<u64>()`, when it succeeds.
fn parse_u64_chars(s: &[char]) -> (r: Option<u64>)
    ensures
        r == parse_u64(s@),
{
    let lo: usize = if s.len() > 0 && s[0] == '+' { 1 } else { 0 };
    assert(lo == 1 ==> s@.drop_first() =~= s@.subrange(1, s@.len() as int));
    assert(lo == 0 ==> s@ =~= s@.subrange(0, s@.len() as int));
    match digits_capped(s, lo, u64::MAX) {
        Some(v) => if v <= u64::MAX as u128 {
            Some(v as u64)
        } else {
            None
        },
        None => None,
    }
}

/// `s.parse::<i64>()`, when it succeeds.
fn parse_i64_chars(s: &[char]) -> (r: Option<i64>)
    ensures
        r == parse_i64(s@),
{
    let neg = s.len() > 0 && s[0] == '-';
    let lo: usize = if s.len() > 0 && (s[0] == '+' || s[0] == '-') { 1 } else { 0 };
    assert(lo == 1 ==> s@.drop_first() =~= s@.subrange(1, s@.len() as int));
    assert(lo == 0 ==> s@ =~= s@.subrange(0, s@.len() as int));
    match digits_capped(s, lo, 0x8000_0000_0000_0000u64) {
        Some(v) => if neg {
            if v <= 0x8000_0000_0000_0000u128 {
                Some((0i128 - v as i128) as i64)
            } else {
                None
            }
        } else if v <= 0x7FFF_FFFF_FFFF_FFFFu128 {
            Some(v as i64)
        } else {
            None
        },
        None => None,
    }
}

/// A plain value text: a boolean, an integer, or a float-or-string text.
fn raw_value(s: &[char]) -> (r: DecodedJson)
    ensures
        r@ == raw_view(s@),
{
    let t = chars_of("true");
    let f = chars_of("false");
    if chars_eq(s, t.as_slice()) {
        DecodedJson::Bool(true)
    } else if chars_eq(s, f.as_slice()) {
        DecodedJson::Bool(false)
    } else {
        match parse_i64_chars(s) {
            Some(v) => DecodedJson::Int(v),
            None => match parse_u64_chars(s) {
                Some(v) => DecodedJson::UInt(v),
                None => DecodedJson::FloatText(string_from_chars(s)),
            },
        }
    }
}

/// Last index where ` (` starts in `s`.
fn find_last_paren(s: &[char]) -> (r: Option<usize>)
    ensures
        match r {
            Some(q) => last_paren(s@, s@.len() - 2) == Some(q as int) && q + 1 < s@.len(),
            None => last_paren(s@, s@.len() - 2) is None,
        },
{
    if s.len() < 2 {
        assert(last_paren(s@, s@.len() - 2) is None);
        return None;
    }
    let mut j: usize = s.len() - 1;
    while j > 0
        invariant
            j <= s@.len() - 1,
            s@.len() >= 2,
            last_paren(s@, s@.len() - 2) == last_paren(s@, j - 1),
        decreases j,
    {
        let i = j - 1;
        if s[i] == ' ' && s[i + 1] == '(' {
            return Some(i);
        }
        j = i;
    }
    None
}

/// The value a region's value text stands for (see `scalar_view`).
pub fn parse_scalar_value(display: &str) -> (r: Option<DecodedJson>)
    ensures
        match r {
            Some(v) => scalar_view(display@) == Some(v@),
            None => scalar_view(display@) is None,
        },
{
    let cs = chars_of(display);
    let s = trim_chars(cs.as_slice());
    let n = s.len();
    if n == 0 {
        return Some(DecodedJson::Null);
    }
    match find_last_paren(s.as_slice()) {
        None => Some(raw_value(s.as_slice())),
        Some(q) => {
            assert(last_paren(s@, s@.len() - 2) == Some(q as int));
            assert(s@.last() == s[n - 1]);
            let last = s[n - 1] as u32;
            if !(last < 128 && q + 2 <= n - 1) {
                assert(!((s@.last() as u32) < 128 && q + 2 <= s@.len() - 1));
                assert(scalar_view(display@) is None);
                return None;
            }
            let before = copy_chars(s.as_slice(), 0, q);
            let inside = copy_chars(s.as_slice(), q + 2, n - 1);
            if before.len() > 0 && is_alphabetic(before[0]) && parse_i64_chars(inside.as_slice()).is_some() {
                Some(DecodedJson::Str(string_from_chars(before.as_slice())))
            } else {
                Some(raw_value(before.as_slice()))
            }
        },
    }
}

/// `s` without leading and trailing `"` characters.
fn trim_quote_chars(s: &[char]) -> (r: Vec<char>)
    ensures
        r@ == trim_quotes(s@),
{
    let mut a: usize = 0;
    while a < s.len() && s[a] == '"'
        invariant
            a <= s@.len(),
            quote_start(s@, 0) == quote_start(s@, a as nat),
        decreases s@.len() - a,
    {
        a = a + 1;
    }
    let mut b: usize = s.len();
    while b > a && s[b - 1] == '"'
        invariant
            a <= b <= s@.len(),
            quote_start(s@, 0) == a,
            quote_end(s@, s@.len(), a as nat) == quote_end(s@, b as nat, a as nat),
        decreases b,
    {
        b = b - 1;
    }
    copy_chars(s, a, b)
}

/// Field name for an inline struct: the last component of its path, or
/// `fallback` when the path is empty.
pub fn field_name_from_path(path: &[String], fallback: &str) -> (r: String)
    ensures
        r@ == last_or(path@, fallback@),
{
    if path.len() > 0 {
        path[path.len() - 1].clone()
    } else {
        string_of(fallback)
    }
}

} // verus!

verus! {

// ---------------------------------------------------------------------------
// The region tree: executable side
// ---------------------------------------------------------------------------

/// Views of the items, element by element.
pub proof fn lemma_items_view(s: Seq<DecodedJson>)
    ensures
        items_view(s).len() == s.len(),
        forall|i: int| 0 <= i < s.len() ==> #[trigger] items_view(s)[i] == decoded_view(s[i]),
    decreases s.len(),
{
    if s.len() > 0 {
        lemma_items_view(s.drop_last());
    }
}

/// Where `insert_by_index` puts `e`: after the last element whose index is
/// not larger, scanning from the back.
pub open spec fn insert_pos(t: Seq<(usize, DecodedView)>, key: usize) -> nat
    decreases t.len(),
{
    if t.len() == 0 {
        0
    } else if t.last().0 <= key {
        t.len()
    } else {
        insert_pos(t.drop_last(), key)
    }
}

/// `insert_by_index` inserts at `insert_pos`.
pub proof fn lemma_insert_by_index(t: Seq<(usize, DecodedView)>, e: (usize, DecodedView))
    ensures
        insert_pos(t, e.0) <= t.len(),
        insert_by_index(t, e) == t.subrange(0, insert_pos(t, e.0) as int) + seq![e] + t.subrange(insert_pos(t, e.0) as int, t.len() as int),
    decreases t.len(),
{
    if t.len() == 0 {
        assert(insert_by_index(t, e) =~= t.subrange(0, 0) + seq![e] + t.subrange(0, 0));
    } else if t.last().0 <= e.0 {
        assert(insert_by_index(t, e) =~= t.subrange(0, t.len() as int) + seq![e] + t.subrange(t.len() as int, t.len() as int));
    } else {
        let u = t.drop_last();
        lemma_insert_by_index(u, e);
        let p = insert_pos(u, e.0) as int;
        assert(insert_by_index(t, e) =~= t.subrange(0, p) + seq![e] + t.subrange(p, t.len() as int));
    }
}

/// A failed field stays failed over more children.
proof fn lemma_fields_none(a: Seq<Region>, ch: Seq<usize>, k: nat, n: nat, fuel: nat)
    requires
        k <= n <= ch.len(),
        dec_fields(a, ch, k, fuel) is None,
    ensures
        dec_fields(a, ch, n, fuel) is None,
    decreases n - k,
{
    if n > k {
        lemma_fields_none(a, ch, k, (n - 1) as nat, fuel);
    }
}

/// A failed element stays failed over more children.
proof fn lemma_vector_none(a: Seq<Region>, ch: Seq<usize>, k: nat, n: nat, fuel: nat)
    requires
        k <= n <= ch.len(),
        dec_vector(a, ch, k, fuel) is None,
    ensures
        dec_vector(a, ch, n, fuel) is None,
    decreases n - k,
{
    if n > k {
        lemma_vector_none(a, ch, k, (n - 1) as nat, fuel);
    }
}

/// First table child, `Some(None)` when none, `None` on an out-of-range child.
fn find_table_child(a: &[Region], ch: &[usize]) -> (r: Option<Option<usize>>)
    ensures
        r == table_child(a@, ch@, 0),
{
    let mut i: usize = 0;
    while i < ch.len()
        invariant
            i <= ch@.len(),
            table_child(a@, ch@, 0) == table_child(a@, ch@, i as nat),
        decreases ch@.len() - i,
    {
        let c = ch[i];
        if c >= a.len() {
            return None;
        }
        if let RegionType::TableSOffset { .. } = &a[c].region_type {
            return Some(Some(c));
        }
        i = i + 1;
    }
    Some(None)
}

/// The string of the first string-data child, null when there is none.
fn find_string_value(a: &[Region], ch: &[usize]) -> (r: Option<DecodedJson>)
    ensures
        match r {
            Some(v) => string_value(a@, ch@, 0) == Some(v@),
            None => string_value(a@, ch@, 0) is None,
        },
{
    let mut i: usize = 0;
    while i < ch.len()
        invariant
            i <= ch@.len(),
            string_value(a@, ch@, 0) == string_value(a@, ch@, i as nat),
        decreases ch@.len() - i,
    {
        let c = ch[i];
        if c >= a.len() {
            return None;
        }
        if let RegionType::StringData { .. } = &a[c].region_type {
            let cs = chars_of(a[c].value_display.as_str());
            let t = trim_quote_chars(cs.as_slice());
            return Some(DecodedJson::Str(string_from_chars(t.as_slice())));
        }
        i = i + 1;
    }
    Some(DecodedJson::Null)
}

/// JSON value of region `idx` (see `dec_region`).
fn region_to_json(a: &[Region], idx: usize, fuel: usize) -> (r: Option<DecodedJson>)
    ensures
        match r {
            Some(v) => dec_region(a@, idx, fuel as nat) == Some(v@),
            None => dec_region(a@, idx, fuel as nat) is None,
        },
    decreases fuel, 0nat, 0nat,
{
    if fuel == 0 || idx >= a.len() {
        return None;
    }
    let r = &a[idx];
    let is_object = match &r.region_type {
        RegionType::TableSOffset { .. } => true,
        RegionType::StructInline { .. } => true,
        _ => false,
    };
    if is_object {
        let mut obj: Vec<(String, DecodedJson)> = Vec::new();
        if collect_fields(a, r.children.as_slice(), fuel - 1, &mut obj) {
            Some(DecodedJson::Object(obj))
        } else {
            None
        }
    } else {
        Some(DecodedJson::Null)
    }
}

/// Object of the fields of the children `ch` (see `dec_fields`); `false`
/// when it has no value.
fn collect_fields(a: &[Region], ch: &[usize], fuel: usize, obj: &mut Vec<(String, DecodedJson)>) -> (ok: bool)
    requires
        old(obj)@.len() == 0,
    ensures
        ok == dec_fields(a@, ch@, ch@.len(), fuel as nat) is Some,
        ok ==> members_map(final(obj)@) == dec_fields(a@, ch@, ch@.len(), fuel as nat)->0,
    decreases fuel, 5nat, 0nat,
{
    assert(members_map(obj@) =~= Map::<Seq<char>, DecodedView>::empty());
    let mut k: usize = 0;
    while k < ch.len()
        invariant
            k <= ch@.len(),
            dec_fields(a@, ch@, k as nat, fuel as nat) == Some(members_map(obj@)),
        decreases ch@.len() - k,
    {
        if !collect_field(a, ch[k], fuel, obj) {
            proof {
                lemma_fields_none(a@, ch@, (k + 1) as nat, ch@.len(), fuel as nat);
            }
            return false;
        }
        k = k + 1;
    }
    true
}

/// Adds the field that region `idx` contributes to `obj` (see `dec_field`);
/// `false` when it has no value.
#[verifier::spinoff_prover]
fn collect_field(a: &[Region], idx: usize, fuel: usize, obj: &mut Vec<(String, DecodedJson)>) -> (ok: bool)
    ensures
        ok == dec_field(a@, idx, members_map(old(obj)@), fuel as nat) is Some,
        ok ==> members_map(final(obj)@) == dec_field(a@, idx, members_map(old(obj)@), fuel as nat)->0,
    decreases fuel, 4nat, 0nat,
{
    if idx >= a.len() {
        return false;
    }
    let r = &a[idx];
    let ghost m = members_map(obj@);
    let entry: Option<(String, DecodedJson)> = match &r.region_type {
        RegionType::ScalarField { field_name, .. } => match find_table_child(a, r.children.as_slice()) {
            None => None,
            Some(Some(c)) => match region_to_json(a, c, fuel) {
                Some(v) => Some((field_name.clone(), v)),
                None => None,
            },
            Some(None) => match parse_scalar_value(r.value_display.as_str()) {
                Some(v) => Some((field_name.clone(), v)),
                None => None,
            },
        },
        RegionType::StructField { field_name, .. } => match parse_scalar_value(r.value_display.as_str()) {
            Some(v) => Some((field_name.clone(), v)),
            None => None,
        },
        RegionType::StringOffset { field_name } => match find_string_value(a, r.children.as_slice()) {
            Some(v) => Some((field_name.clone(), v)),
            None => None,
        },
        RegionType::StructInline { object_name } => {
            if fuel == 0 {
                None
            } else {
                let mut inner: Vec<(String, DecodedJson)> = Vec::new();
                if collect_fields(a, r.children.as_slice(), fuel - 1, &mut inner) {
                    let name = field_name_from_path(r.field_path.as_slice(), object_name.as_str());
                    Some((name, DecodedJson::Object(inner)))
                } else {
                    None
                }
            }
        },
        RegionType::VectorOffset { field_name } => match build_vector(a, r.children.as_slice(), fuel) {
            Some(items) => Some((field_name.clone(), DecodedJson::Array(items))),
            None => None,
        },
        RegionType::UnionTypeField { field_name } => match parse_scalar_value(r.value_display.as_str()) {
            Some(v) => {
                let mut key = field_name.clone();
                push_str(&mut key, "_type");
                Some((key, v))
            },
            None => None,
        },
        RegionType::UnionDataOffset { field_name } => match find_table_child(a, r.children.as_slice()) {
            None => return false,
            Some(None) => return true,
            Some(Some(c)) => match region_to_json(a, c, fuel) {
                Some(v) => Some((field_name.clone(), v)),
                None => None,
            },
        },
        RegionType::TableSOffset { .. } => match region_to_json(a, idx, fuel) {
            Some(v) => Some((field_name_from_path(r.field_path.as_slice(), "?"), v)),
            None => None,
        },
        _ => return true,
    };
    match entry {
        Some(e) => {
            obj.push(e);
            assert(obj@.drop_last() =~= old(obj)@);
            true
        },
        None => false,
    }
}

/// Values of the vector elements among the children `ch`, sorted by
/// element index (see `dec_vector`); `None` when they have no value.
fn build_vector(a: &[Region], ch: &[usize], fuel: usize) -> (r: Option<Vec<DecodedJson>>)
    ensures
        match r {
            Some(items) => dec_vector(a@, ch@, ch@.len(), fuel as nat) is Some
                && items_view(items@) == sort_by_index(dec_vector(a@, ch@, ch@.len(), fuel as nat)->0),
            None => dec_vector(a@, ch@, ch@.len(), fuel as nat) is None,
        },
    decreases fuel, 3nat, 0nat,
{
    let mut keys: Vec<usize> = Vec::new();
    let mut vals: Vec<DecodedJson> = Vec::new();
    let mut k: usize = 0;
    while k < ch.len()
        invariant
            k <= ch@.len(),
            dec_vector(a@, ch@, k as nat, fuel as nat) is Some,
            keys@ == sorted_by_index(dec_vector(a@, ch@, k as nat, fuel as nat)->0).map_values(|e: (usize, DecodedView)| e.0),
            items_view(vals@) == sorted_by_index(dec_vector(a@, ch@, k as nat, fuel as nat)->0).map_values(|e: (usize, DecodedView)| e.1),
        decreases ch@.len() - k,
    {
        let ghost es = dec_vector(a@, ch@, k as nat, fuel as nat)->0;
        let c = ch[k];
        if c >= a.len() {
            proof {
                lemma_vector_none(a@, ch@, (k + 1) as nat, ch@.len(), fuel as nat);
            }
            return None;
        }
        let e = &a[c];
        if let RegionType::VectorElement { index } = &e.region_type {
            let v = if e.children.len() == 0 {
                parse_scalar_value(e.value_display.as_str())
            } else {
                element_value(a, e.children.as_slice(), e.value_display.as_str(), fuel)
            };
            match v {
                None => {
                    proof {
                        lemma_vector_none(a@, ch@, (k + 1) as nat, ch@.len(), fuel as nat);
                    }
                    return None;
                },
                Some(x) => {
                    let ghost t = sorted_by_index(es);
                    let ghost item = (*index, x@);
                    proof {
                        lemma_insert_by_index(t, item);
                        lemma_items_view(vals@);
                    }
                    let ghost old_vals = vals@;
                    assert(t.subrange(0, t.len() as int) =~= t);
                    let mut j: usize = keys.len();
                    while j > 0 && keys[j - 1] > *index
                        invariant
                            j <= keys@.len(),
                            keys@.len() == t.len(),
                            keys@ == t.map_values(|e: (usize, DecodedView)| e.0),
                            insert_pos(t, *index) == insert_pos(t.subrange(0, j as int), *index),
                        decreases j,
                    {
                        assert(t.subrange(0, j as int).drop_last() =~= t.subrange(0, j - 1));
                        j = j - 1;
                    }
                    proof {
                        if j > 0 {
                            assert(t.subrange(0, j as int).last() == t[j - 1]);
                        }
                        assert(t.subrange(0, j as int).len() == j);
                        assert(insert_pos(t, *index) == j);
                    }
                    keys.insert(j, *index);
                    vals.insert(j, x);
                    proof {
                        lemma_items_view(vals@);
                        let t2 = sorted_by_index(es.push(item));
                        assert(es.push(item).drop_last() =~= es);
                        assert(t2 == insert_by_index(t, item));
                        assert(keys@ =~= t2.map_values(|e: (usize, DecodedView)| e.0));
                        let p = j as int;
                        assert(vals@ == old_vals.insert(p, x));
                        assert forall|i: int| 0 <= i < vals@.len() implies #[trigger] items_view(vals@)[i] == t2.map_values(|e: (usize, DecodedView)| e.1)[i] by {
                            if i < p {
                                assert(vals@[i] == old_vals[i]);
                                assert(items_view(old_vals)[i] == t.map_values(|e: (usize, DecodedView)| e.1)[i]);
                            } else if i == p {
                            } else {
                                assert(vals@[i] == old_vals[i - 1]);
                                assert(items_view(old_vals)[i - 1] == t.map_values(|e: (usize, DecodedView)| e.1)[i - 1]);
                            }
                        }
                        assert(items_view(vals@) =~= t2.map_values(|e: (usize, DecodedView)| e.1));
                    }
                },
            }
        }
        k = k + 1;
    }
    Some(vals)
}

/// Value of a vector element from its children (see `dec_element`).
fn element_value(a: &[Region], ch: &[usize], display: &str, fuel: usize) -> (r: Option<DecodedJson>)
    ensures
        match r {
            Some(v) => dec_element(a@, ch@, 0, display@, fuel as nat) == Some(v@),
            None => dec_element(a@, ch@, 0, display@, fuel as nat) is None,
        },
    decreases fuel, 2nat, 0nat,
{
    let mut i: usize = 0;
    while i < ch.len()
        invariant
            i <= ch@.len(),
            dec_element(a@, ch@, 0, display@, fuel as nat) == dec_element(a@, ch@, i as nat, display@, fuel as nat),
        decreases ch@.len() - i,
    {
        let c = ch[i];
        if c >= a.len() {
            return None;
        }
        let child = &a[c];
        match &child.region_type {
            RegionType::TableSOffset { .. } => {
                return region_to_json(a, c, fuel);
            },
            RegionType::StructInline { .. } => {
                if fuel == 0 {
                    return None;
                }
                let mut obj: Vec<(String, DecodedJson)> = Vec::new();
                if collect_fields(a, child.children.as_slice(), fuel - 1, &mut obj) {
                    return Some(DecodedJson::Object(obj));
                } else {
                    return None;
                }
            },
            RegionType::StringData { .. } => {
                let cs = chars_of(child.value_display.as_str());
                let t = trim_quote_chars(cs.as_slice());
                return Some(DecodedJson::Str(string_from_chars(t.as_slice())));
            },
            _ => {},
        }
        i = i + 1;
    }
    parse_scalar_value(display)
}

/// Rebuilds the JSON value of a FlatBuffers binary from its annotated
/// regions: the object of the first table region at depth 0 or 1, or null
/// when there is none. `None` exactly when the walk over the regions would
/// index out of range or never end (see `annotations_json`).
pub fn annotations_to_json(annotations: &[Region]) -> (r: Option<DecodedJson>)
    ensures
        match r {
            Some(v) => annotations_json(annotations@) == Some(v@),
            None => annotations_json(annotations@) is None,
        },
{
    let mut i: usize = 0;
    while i < annotations.len()
        invariant
            i <= annotations@.len(),
            root_index(annotations@, 0) == root_index(annotations@, i as nat),
        decreases annotations@.len() - i,
    {
        let r = &annotations[i];
        let is_table = match &r.region_type {
            RegionType::TableSOffset { .. } => true,
            _ => false,
        };
        if is_table && r.depth <= 1 {
            return region_to_json(annotations, i, annotations.len());
        }
        i = i + 1;
    }
    Some(DecodedJson::Null)
}

} // verus!

verus! {

/// A region that a vector element takes its value from: a table, an inline
/// struct or string data.
pub open spec fn is_value_region(t: RegionType) -> bool {
    t is TableSOffset || t is StructInline || t is StringData
}

/// A vector element decodes as its first table, struct or string child: when
/// that child is a table or an inline struct, the element's value is exactly
/// the value the child region has on its own (the object of its fields, as a
/// table field or struct field of that type would decode to); any children
/// before it, which are neither, are passed over and the element's own value
/// text is not read.
pub proof fn lemma_element_is_its_object_child(a: Seq<Region>, ch: Seq<usize>, i: nat, display: Seq<char>, fuel: nat, j: nat)
    requires
        i <= j < ch.len(),
        ch[j as int] < a.len(),
        a[ch[j as int] as int].region_type is TableSOffset || a[ch[j as int] as int].region_type is StructInline,
        forall|k: int| i <= k < j ==> #[trigger] ch[k] < a.len() && !is_value_region(a[ch[k] as int].region_type),
    ensures
        dec_element(a, ch, i, display, fuel) == dec_region(a, ch[j as int], fuel),
    decreases j - i,
{
    if i < j {
        assert(ch[i as int] < a.len() && !is_value_region(a[ch[i as int] as int].region_type));
        lemma_element_is_its_object_child(a, ch, i + 1, display, fuel, j);
    }
}

/// A vector element whose first table, struct or string child is string data
/// decodes to that string (without its quotes).
pub proof fn lemma_element_is_its_string_child(a: Seq<Region>, ch: Seq<usize>, i: nat, display: Seq<char>, fuel: nat, j: nat)
    requires
        i <= j < ch.len(),
        ch[j as int] < a.len(),
        a[ch[j as int] as int].region_type is StringData,
        forall|k: int| i <= k < j ==> #[trigger] ch[k] < a.len() && !is_value_region(a[ch[k] as int].region_type),
    ensures
        dec_element(a, ch, i, display, fuel) == Some(DecodedView::Str(trim_quotes(a[ch[j as int] as int].value_display@))),
    decreases j - i,
{
    if i < j {
        assert(ch[i as int] < a.len() && !is_value_region(a[ch[i as int] as int].region_type));
        lemma_element_is_its_string_child(a, ch, i + 1, display, fuel, j);
    }
}

} // verus!
