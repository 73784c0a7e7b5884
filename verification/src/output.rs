//! Text output of the command-line viewer: a padded table, one compact line
//! per region, or rows for a JSON listing.

use vstd::prelude::*;
use crate::filter::{join_dotted, join_path};
use crate::region::Region;
use crate::text::{decimal, hex4, push_char, push_decimal, push_hex4, push_str, string_of};

verus! {

/// How regions are listed.
#[derive(Debug, Clone, Copy, PartialEq, Eq, Structural)]
pub enum OutputFormat {
    Table,
    Json,
    Compact,
}

/// Name of an output format.
pub open spec fn format_text(f: OutputFormat) -> Seq<char> {
    match f {
        OutputFormat::Table => "table"@,
        OutputFormat::Json => "json"@,
        OutputFormat::Compact => "compact"@,
    }
}

/// The format named `s`, or the message refusing the name.
pub open spec fn format_from_text(s: Seq<char>) -> Result<OutputFormat, Seq<char>> {
    if s == "table"@ {
        Ok(OutputFormat::Table)
    } else if s == "json"@ {
        Ok(OutputFormat::Json)
    } else if s == "compact"@ {
        Ok(OutputFormat::Compact)
    } else {
        Err("unknown format '"@ + s + "': expected 'table', 'json', or 'compact'"@)
    }
}

/// Whether two strings hold the same characters.
fn same_text(a: &str, b: &str) -> (r: bool)
    ensures
        r == (a@ == b@),
{
    let x = crate::text::chars_of(a);
    let y = crate::text::chars_of(b);
    if x.len() != y.len() {
        return false;
    }
    let mut i: usize = 0;
    while i < x.len()
        invariant
            i <= x@.len(),
            x@.len() == y@.len(),
            x@ == a@,
            y@ == b@,
            forall|k: int| 0 <= k < i ==> x@[k] == y@[k],
        decreases x@.len() - i,
    {
        if x[i] != y[i] {
            return false;
        }
        i = i + 1;
    }
    assert(x@ =~= y@);
    true
}

impl OutputFormat {
    /// The format's name.
    pub fn name(&self) -> (s: String)
        ensures
            s@ == format_text(*self),
    {
        match self {
            OutputFormat::Table => string_of("table"),
            OutputFormat::Json => string_of("json"),
            OutputFormat::Compact => string_of("compact"),
        }
    }

    /// Parses a format name.
    pub fn from_name(s: &str) -> (r: Result<OutputFormat, String>)
        ensures
            match format_from_text(s@) {
                Ok(f) => r == Ok::<OutputFormat, String>(f),
                Err(m) => r is Err && r->Err_0@ == m,
            },
    {
        if same_text(s, "table") {
            Ok(OutputFormat::Table)
        } else if same_text(s, "json") {
            Ok(OutputFormat::Json)
        } else if same_text(s, "compact") {
            Ok(OutputFormat::Compact)
        } else {
            let mut m = string_of("unknown format '");
            push_str(&mut m, s);
            push_str(&mut m, "': expected 'table', 'json', or 'compact'");
            Err(m)
        }
    }
}

impl std::str::FromStr for OutputFormat {
    type Err = String;

    fn from_str(s: &str) -> (r: Result<OutputFormat, String>)
        ensures
            match format_from_text(s@) {
                Ok(f) => r == Ok::<OutputFormat, String>(f),
                Err(m) => r is Err && r->Err_0@ == m,
            },
    {
        OutputFormat::from_name(s)
    }
}

/// `n` spaces.
pub open spec fn spaces(n: nat) -> Seq<char> {
    Seq::new(n, |i: int| ' ')
}

/// `s` padded with spaces on the right to `w` characters (`{:<w}`).
pub open spec fn pad_right(s: Seq<char>, w: nat) -> Seq<char> {
    if s.len() < w { s + spaces((w - s.len()) as nat) } else { s }
}

/// `s` padded with spaces on the left to `w` characters (`{:>w}`).
pub open spec fn pad_left(s: Seq<char>, w: nat) -> Seq<char> {
    if s.len() < w { spaces((w - s.len()) as nat) + s } else { s }
}

/// Appends `n` spaces.
fn push_spaces(s: &mut String, n: usize)
    ensures
        final(s)@ == old(s)@ + spaces(n as nat),
{
    let mut i: usize = 0;
    while i < n
        invariant
            i <= n,
            s@ == old(s)@ + spaces(i as nat),
        decreases n - i,
    {
        push_char(s, ' ');
        i = i + 1;
        assert(s@ =~= old(s)@ + spaces(i as nat));
    }
}

/// Appends `t` padded on the right to `w` characters.
fn push_padded_right(s: &mut String, t: &str, w: usize)
    ensures
        final(s)@ == old(s)@ + pad_right(t@, w as nat),
{
    let n = crate::text::chars_of(t).len();
    push_str(s, t);
    if n < w {
        push_spaces(s, w - n);
    }
    assert(s@ =~= old(s)@ + pad_right(t@, w as nat));
}

/// Appends `t` padded on the left to `w` characters.
fn push_padded_left(s: &mut String, t: &str, w: usize)
    ensures
        final(s)@ == old(s)@ + pad_left(t@, w as nat),
{
    let n = crate::text::chars_of(t).len();
    if n < w {
        push_spaces(s, w - n);
    }
    push_str(s, t);
    assert(s@ =~= old(s)@ + pad_left(t@, w as nat));
}

/// `s` cut to fit `max` bytes of UTF-8: unchanged when it fits, else its
/// first `max - 3` characters followed by `...`.
pub open spec fn truncated(s: Seq<char>, max: nat) -> Seq<char> {
    if vstd::utf8::encode_utf8(s).len() <= max {
        s
    } else {
        let n: nat = if max >= 3 { (max - 3) as nat } else { 0 };
        s.take(if n < s.len() { n as int } else { s.len() as int }) + "..."@
    }
}

/// Shortens `s` for a table column of `max` bytes, cutting on a character
/// boundary and marking the cut with `...`.
pub fn truncate(s: &str, max: usize) -> (r: String)
    ensures
        r@ == truncated(s@, max as nat),
{
    let bytes = s.as_bytes();
    if bytes.len() <= max {
        return string_of(s);
    }
    let cs = crate::text::chars_of(s);
    let n: usize = if max >= 3 { max - 3 } else { 0 };
    let k: usize = if n < cs.len() { n } else { cs.len() };
    let mut r = String::new();
    let mut i: usize = 0;
    while i < k
        invariant
            i <= k,
            k <= cs@.len(),
            cs@ == s@,
            r@ == s@.take(i as int),
        decreases k - i,
    {
        push_char(&mut r, cs[i]);
        i = i + 1;
        assert(r@ =~= s@.take(i as int));
    }
    push_str(&mut r, "...");
    r
}

/// `0xSSSS..0xEEEE` for a byte range.
pub open spec fn range_text(r: Region) -> Seq<char> {
    hex4(r.byte_range.start as nat) + ".."@ + hex4(r.byte_range.end as nat)
}

/// Two spaces per nesting level.
pub open spec fn indent(depth: nat) -> Seq<char>
    decreases depth,
{
    if depth == 0 { Seq::empty() } else { indent((depth - 1) as nat) + "  "@ }
}

/// The table's header line.
pub open spec fn table_header() -> Seq<char> {
    pad_right("BYTE RANGE"@, 15) + " "@ + pad_left("SIZE"@, 5) + "  "@ + pad_right("TYPE"@, 18) + " "@
        + pad_right("LABEL"@, 30) + " "@ + pad_right("PATH"@, 30) + " VALUE"@
}

/// A region's table line; `tname` is its short type name.
pub open spec fn table_row(r: Region, tname: Seq<char>) -> Seq<char> {
    pad_right(range_text(r), 15) + " "@ + pad_left(decimal((r.byte_range.end - r.byte_range.start) as nat), 5) + "  "@ + pad_right(tname, 18) + " "@
        + pad_right(truncated(indent(r.depth as nat) + r.label@, 30), 30) + " "@
        + pad_right(truncated(join_path(r.field_path@), 30), 30) + " "@ + r.value_display@
}

/// A region's compact line.
pub open spec fn compact_row(r: Region, tname: Seq<char>) -> Seq<char> {
    range_text(r) + " "@ + tname + " "@ + r.label@ + " ["@ + join_path(r.field_path@) + "] = "@ + r.value_display@
}

/// The listed indices are in range and every region has a type name.
pub open spec fn indexable(regions: Seq<Region>, names: Seq<String>, indices: Seq<usize>) -> bool {
    &&& names.len() == regions.len()
    &&& forall|k: int| 0 <= k < indices.len() ==> #[trigger] indices[k] < regions.len()
}

/// As `indexable`, and no listed region ends before it starts (its size is
/// shown).
pub open spec fn listable(regions: Seq<Region>, names: Seq<String>, indices: Seq<usize>) -> bool {
    &&& indexable(regions, names, indices)
    &&& forall|k: int| 0 <= k < indices.len() ==> #[trigger] regions[indices[k] as int].byte_range.start <= regions[indices[k] as int].byte_range.end
}

/// Lines of the listed regions, each followed by a newline.
pub open spec fn rows_text(regions: Seq<Region>, names: Seq<String>, indices: Seq<usize>, compact: bool, k: nat) -> Seq<char>
    decreases k,
{
    if k == 0 || k > indices.len() {
        Seq::empty()
    } else {
        let i = indices[k - 1] as int;
        let line = if compact { compact_row(regions[i], names[i]@) } else { table_row(regions[i], names[i]@) };
        rows_text(regions, names, indices, compact, (k - 1) as nat) + line + "\n"@
    }
}

/// The whole table: header, rule, one line per region, and a count.
pub open spec fn table_text(regions: Seq<Region>, names: Seq<String>, indices: Seq<usize>) -> Seq<char> {
    table_header() + "\n"@ + Seq::new(120, |i: int| '-') + "\n"@ + rows_text(regions, names, indices, false, indices.len())
        + "\n"@ + decimal(indices.len()) + " region(s) shown.\n"@
}

/// Appends a region's range text.
fn push_range(s: &mut String, r: &Region)
    ensures
        final(s)@ == old(s)@ + range_text(*r),
{
    push_hex4(s, r.byte_range.start as u64);
    push_str(s, "..");
    push_hex4(s, r.byte_range.end as u64);
    assert(s@ =~= old(s)@ + range_text(*r));
}

/// Two spaces per nesting level, followed by `label`.
fn indented_label(depth: usize, label: &str) -> (r: String)
    ensures
        r@ == indent(depth as nat) + label@,
{
    let mut r = String::new();
    let mut i: usize = 0;
    while i < depth
        invariant
            i <= depth,
            r@ == indent(i as nat),
        decreases depth - i,
    {
        push_str(&mut r, "  ");
        i = i + 1;
    }
    push_str(&mut r, label);
    r
}

/// Appends a region's table line.
#[verifier::spinoff_prover]
#[verifier::rlimit(40)]
fn push_table_row(s: &mut String, r: &Region, tname: &str)
    requires
        r.byte_range.start <= r.byte_range.end,
    ensures
        final(s)@ == old(s)@ + table_row(*r, tname@),
{
    let mut range = String::new();
    push_range(&mut range, r);
    push_padded_right(s, range.as_str(), 15);
    push_str(s, " ");
    let mut size = String::new();
    push_decimal(&mut size, (r.byte_range.end - r.byte_range.start) as u64);
    push_padded_left(s, size.as_str(), 5);
    push_str(s, "  ");
    push_padded_right(s, tname, 18);
    push_str(s, " ");
    let label = indented_label(r.depth, r.label.as_str());
    let tl = truncate(label.as_str(), 30);
    push_padded_right(s, tl.as_str(), 30);
    push_str(s, " ");
    let path = join_dotted(&r.field_path);
    let tp = truncate(path.as_str(), 30);
    push_padded_right(s, tp.as_str(), 30);
    push_str(s, " ");
    push_str(s, r.value_display.as_str());
    assert(s@ =~= old(s)@ + table_row(*r, tname@));
}

/// Appends a region's compact line.
fn push_compact_row(s: &mut String, r: &Region, tname: &str)
    ensures
        final(s)@ == old(s)@ + compact_row(*r, tname@),
{
    push_range(s, r);
    push_str(s, " ");
    push_str(s, tname);
    push_str(s, " ");
    push_str(s, r.label.as_str());
    push_str(s, " [");
    let path = join_dotted(&r.field_path);
    push_str(s, path.as_str());
    push_str(s, "] = ");
    push_str(s, r.value_display.as_str());
    assert(s@ =~= old(s)@ + compact_row(*r, tname@));
}

/// Appends the lines of the listed regions.
fn push_rows(s: &mut String, regions: &[Region], names: &[String], indices: &[usize], compact: bool)
    requires
        indexable(regions@, names@, indices@),
        !compact ==> listable(regions@, names@, indices@),
    ensures
        final(s)@ == old(s)@ + rows_text(regions@, names@, indices@, compact, indices@.len()),
{
    let mut k: usize = 0;
    while k < indices.len()
        invariant
            k <= indices@.len(),
            indexable(regions@, names@, indices@),
            !compact ==> listable(regions@, names@, indices@),
            s@ == old(s)@ + rows_text(regions@, names@, indices@, compact, k as nat),
        decreases indices@.len() - k,
    {
        let i = indices[k];
        if compact {
            push_compact_row(s, &regions[i], names[i].as_str());
        } else {
            push_table_row(s, &regions[i], names[i].as_str());
        }
        push_str(s, "\n");
        k = k + 1;
        assert(s@ =~= old(s)@ + rows_text(regions@, names@, indices@, compact, k as nat));
    }
}

/// The table listing of the regions at `indices`; `names[i]` is the short
/// type name of `regions[i]`.
pub fn render_table(regions: &[Region], names: &[String], indices: &[usize]) -> (r: String)
    requires
        listable(regions@, names@, indices@),
    ensures
        r@ == table_text(regions@, names@, indices@),
{
    let mut s = String::new();
    push_padded_right(&mut s, "BYTE RANGE", 15);
    push_str(&mut s, " ");
    push_padded_left(&mut s, "SIZE", 5);
    push_str(&mut s, "  ");
    push_padded_right(&mut s, "TYPE", 18);
    push_str(&mut s, " ");
    push_padded_right(&mut s, "LABEL", 30);
    push_str(&mut s, " ");
    push_padded_right(&mut s, "PATH", 30);
    push_str(&mut s, " VALUE");
    push_str(&mut s, "\n");
    let mut i: usize = 0;
    while i < 120
        invariant
            i <= 120,
            s@ == table_header() + "\n"@ + Seq::new(i as nat, |j: int| '-'),
        decreases 120 - i,
    {
        push_char(&mut s, '-');
        i = i + 1;
        assert(s@ =~= table_header() + "\n"@ + Seq::new(i as nat, |j: int| '-'));
    }
    push_str(&mut s, "\n");
    push_rows(&mut s, regions, names, indices, false);
    push_str(&mut s, "\n");
    push_decimal(&mut s, indices.len() as u64);
    push_str(&mut s, " region(s) shown.\n");
    assert(s@ =~= table_text(regions@, names@, indices@));
    s
}

/// The compact listing of the regions at `indices`: one line each.
pub fn render_compact(regions: &[Region], names: &[String], indices: &[usize]) -> (r: String)
    requires
        indexable(regions@, names@, indices@),
    ensures
        r@ == rows_text(regions@, names@, indices@, true, indices@.len()),
{
    let mut s = String::new();
    push_rows(&mut s, regions, names, indices, true);
    assert(s@ =~= rows_text(regions@, names@, indices@, true, indices@.len()));
    s
}

/// One region as a row of the JSON listing.
pub struct RegionOutput {
    pub byte_start: String,
    pub byte_end: String,
    pub size: usize,
    pub region_type: String,
    pub label: String,
    pub field_path: String,
    pub value: String,
    pub depth: usize,
}

/// The JSON row of a region.
pub open spec fn output_row(o: RegionOutput, r: Region, tname: Seq<char>) -> bool {
    &&& o.byte_start@ == hex4(r.byte_range.start as nat)
    &&& o.byte_end@ == hex4(r.byte_range.end as nat)
    &&& o.size == r.byte_range.end - r.byte_range.start
    &&& o.region_type@ == tname
    &&& o.label@ == r.label@
    &&& o.field_path@ == join_path(r.field_path@)
    &&& o.value@ == r.value_display@
    &&& o.depth == r.depth
}

impl RegionOutput {
    /// The JSON row of a region whose short type name is `tname`.
    pub fn from_region(r: &Region, tname: &str) -> (o: RegionOutput)
        requires
            r.byte_range.start <= r.byte_range.end,
        ensures
            output_row(o, *r, tname@),
    {
        let mut byte_start = String::new();
        push_hex4(&mut byte_start, r.byte_range.start as u64);
        let mut byte_end = String::new();
        push_hex4(&mut byte_end, r.byte_range.end as u64);
        assert(byte_start@ =~= hex4(r.byte_range.start as nat));
        assert(byte_end@ =~= hex4(r.byte_range.end as nat));
        RegionOutput {
            byte_start,
            byte_end,
            size: r.byte_range.end - r.byte_range.start,
            region_type: string_of(tname),
            label: r.label.clone(),
            field_path: join_dotted(&r.field_path),
            value: r.value_display.clone(),
            depth: r.depth,
        }
    }
}

/// The JSON rows of the regions at `indices`, in order.
pub fn json_rows(regions: &[Region], names: &[String], indices: &[usize]) -> (rows: Vec<RegionOutput>)
    requires
        listable(regions@, names@, indices@),
    ensures
        rows@.len() == indices@.len(),
        forall|k: int| 0 <= k < indices@.len() ==> output_row(#[trigger] rows@[k], regions@[indices@[k] as int], names@[indices@[k] as int]@),
{
    let mut rows: Vec<RegionOutput> = Vec::new();
    let mut k: usize = 0;
    while k < indices.len()
        invariant
            k <= indices@.len(),
            listable(regions@, names@, indices@),
            rows@.len() == k,
            forall|j: int| 0 <= j < k ==> output_row(#[trigger] rows@[j], regions@[indices@[j] as int], names@[indices@[j] as int]@),
        decreases indices@.len() - k,
    {
        let i = indices[k];
        rows.push(RegionOutput::from_region(&regions[i], names[i].as_str()));
        k = k + 1;
    }
    rows
}

} // verus!
