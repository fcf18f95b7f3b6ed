use vstd::prelude::*;

use crate::error::FerricAlphaError;
use crate::sorted::texts;
use crate::text::{
    chars_of, lemma_seq_lt_irreflexive, lemma_seq_lt_transitive, seq_lt, str_eq, str_less,
};

verus! {

/// The part a column plays in a report table.
#[derive(Debug, Clone, Copy, PartialEq, Eq, Structural)]
pub enum ColumnRole {
    Dimension,
    Measure,
    Statistic,
}

/// The resolution of the integers that store dates.
#[derive(Debug, Clone, Copy, PartialEq, Eq, Structural)]
pub enum ReportTimeUnit {
    Nanoseconds,
    Microseconds,
    Milliseconds,
}

/// How a value column is meant to be shown.
#[derive(Debug, Clone, Copy, PartialEq, Eq, Structural)]
pub enum DisplayUnit {
    Raw,
    DecimalReturn,
    BasisPoints,
    Percent,
    Ratio,
    Count,
}

/// A display unit with a number of decimals.
#[derive(Debug, Clone, Copy, PartialEq, Eq, Structural)]
pub struct DisplayFormat {
    unit: DisplayUnit,
    decimals: u8,
}

impl DisplayFormat {
    pub closed spec fn spec_unit(self) -> DisplayUnit {
        self.unit
    }

    pub closed spec fn spec_decimals(self) -> u8 {
        self.decimals
    }

    /// The format that shows `unit` with `decimals` decimals.
    pub closed spec fn of(unit: DisplayUnit, decimals: u8) -> DisplayFormat {
        DisplayFormat { unit, decimals }
    }

    /// Two display formats are equal exactly when their units and decimals are; so formats
    /// made from a unit and decimals are equal exactly when those are.
    pub proof fn lemma_format_determined(a: DisplayFormat, b: DisplayFormat)
        ensures
            (a == b) <==> (a.spec_unit() == b.spec_unit() && a.spec_decimals() == b.spec_decimals()),
            forall|u1: DisplayUnit, d1: u8, u2: DisplayUnit, d2: u8|
                (#[trigger] DisplayFormat::of(u1, d1) == #[trigger] DisplayFormat::of(u2, d2)) <==> (
                u1 == u2 && d1 == d2),
            forall|u: DisplayUnit, d: u8|
                #[trigger] DisplayFormat::of(u, d).spec_unit() == u && DisplayFormat::of(
                    u,
                    d,
                ).spec_decimals() == d,
    {
        assert forall|u1: DisplayUnit, d1: u8, u2: DisplayUnit, d2: u8|
            (#[trigger] DisplayFormat::of(u1, d1) == #[trigger] DisplayFormat::of(u2, d2)) implies (
            u1 == u2 && d1 == d2) by {
            assert(DisplayFormat::of(u1, d1).unit == DisplayFormat::of(u2, d2).unit);
        }
    }

    pub fn new(unit: DisplayUnit, decimals: u8) -> (r: DisplayFormat)
        ensures
            r == DisplayFormat::of(unit, decimals),
            r.spec_unit() == unit,
            r.spec_decimals() == decimals,
    {
        DisplayFormat { unit, decimals }
    }

    pub fn unit(&self) -> (r: DisplayUnit)
        ensures
            r == self.spec_unit(),
    {
        self.unit
    }

    pub fn decimals(&self) -> (r: u8)
        ensures
            r == self.spec_decimals(),
    {
        self.decimals
    }
}

/// A character allowed inside a table id segment at position `index`: a lower-case ASCII
/// letter anywhere, a digit or an underscore after the first position.
pub open spec fn segment_char_ok(c: char, index: int) -> bool {
    ('a' <= c && c <= 'z') || (index > 0 && (('0' <= c && c <= '9') || c == '_'))
}

/// One dot-separated segment of a table id.
pub open spec fn valid_segment(s: Seq<char>) -> bool {
    &&& s.len() > 0
    &&& s[0] != '_'
    &&& s[s.len() - 1] != '_'
    &&& forall|i: int| 0 <= i < s.len() - 1 ==> !(s[i] == '_' && #[trigger] s[i + 1] == '_')
    &&& forall|i: int| 0 <= i < s.len() ==> segment_char_ok(#[trigger] s[i], i)
}

/// The pieces of `s` between dots, in order (an empty text has one empty piece).
pub open spec fn split_dots(s: Seq<char>) -> Seq<Seq<char>>
    decreases s.len(),
{
    if s.len() == 0 {
        seq![Seq::<char>::empty()]
    } else {
        let rest = split_dots(s.drop_last());
        if s.last() == '.' {
            rest.push(Seq::<char>::empty())
        } else {
            rest.update(rest.len() - 1, rest.last().push(s.last()))
        }
    }
}

/// A table id: non-empty, made of valid dot-separated segments.
pub open spec fn valid_table_id_spec(s: Seq<char>) -> bool {
    s.len() > 0 && forall|k: int| 0 <= k < split_dots(s).len() ==> valid_segment(
        #[trigger] split_dots(s)[k],
    )
}

proof fn lemma_split_dots_nonempty(s: Seq<char>)
    ensures
        split_dots(s).len() >= 1,
    decreases s.len(),
{
    if s.len() > 0 {
        lemma_split_dots_nonempty(s.drop_last());
    }
}

/// Checks `chars[start..end]` as one segment of a table id.
fn segment_ok(chars: &Vec<char>, start: usize, end: usize) -> (r: bool)
    requires
        start <= end <= chars.len(),
    ensures
        r == valid_segment(chars@.subrange(start as int, end as int)),
{
    let ghost s = chars@.subrange(start as int, end as int);
    if start == end {
        return false;
    }
    if chars[start] == '_' || chars[end - 1] == '_' {
        return false;
    }
    let mut i: usize = start;
    while i < end
        invariant
            start <= i <= end <= chars.len(),
            s == chars@.subrange(start as int, end as int),
            forall|k: int| 0 <= k < i - start ==> segment_char_ok(#[trigger] s[k], k),
            forall|k: int|
                0 <= k < i - start - 1 ==> !(s[k] == '_' && #[trigger] s[k + 1] == '_'),
        decreases end - i,
    {
        let c: char = chars[i];
        let first: bool = i == start;
        let ok: bool = ('a' <= c && c <= 'z') || (!first && (('0' <= c && c <= '9') || c
            == '_'));
        if !ok {
            assert(!segment_char_ok(s[i - start], i - start));
            return false;
        }
        if i > start && c == '_' && chars[i - 1] == '_' {
            proof {
                let k: int = i - start - 1;
                assert(s[k] == '_' && s[k + 1] == '_');
            }
            return false;
        }
        i = i + 1;
    }
    true
}

/// Checks a report table id: dot-separated segments of lower-case ASCII letters, digits
/// and single inner underscores, each starting with a letter.
pub fn valid_table_id(id: &str) -> (r: bool)
    ensures
        r == valid_table_id_spec(id@),
{
    let chars = chars_of(id);
    let n: usize = chars.len();
    if n == 0 {
        return false;
    }
    let mut start: usize = 0;
    let mut i: usize = 0;
    while i < n
        invariant
            n == chars@.len(),
            chars@ == id@,
            n > 0,
            start <= i <= n,
            split_dots(chars@.subrange(0, i as int)).len() >= 1,
            split_dots(chars@.subrange(0, i as int)).last() == chars@.subrange(
                start as int,
                i as int,
            ),
            forall|k: int|
                0 <= k < split_dots(chars@.subrange(0, i as int)).len() - 1 ==> valid_segment(
                    #[trigger] split_dots(chars@.subrange(0, i as int))[k],
                ),
        decreases n - i,
    {
        let ghost pre = chars@.subrange(0, i as int);
        let ghost post = chars@.subrange(0, i + 1);
        proof {
            assert(post.drop_last() =~= pre);
            lemma_split_dots_nonempty(pre);
        }
        if chars[i] == '.' {
            if !segment_ok(&chars, start, i) {
                proof {
                    assert(split_dots(post)[split_dots(pre).len() - 1] == split_dots(pre).last());
                    assert(!valid_segment(split_dots(post)[split_dots(pre).len() - 1]));
                    assert(chars@ =~= chars@.subrange(0, n as int));
                    lemma_split_prefix_fails(chars@, i + 1, split_dots(pre).len() - 1);
                }
                return false;
            }
            start = i + 1;
            proof {
                assert(chars@.subrange(start as int, i + 1) =~= Seq::<char>::empty());
            }
        } else {
            proof {
                assert(chars@.subrange(start as int, i + 1) =~= chars@.subrange(
                    start as int,
                    i as int,
                ).push(chars@[i as int]));
            }
        }
        i = i + 1;
    }
    let last_ok: bool = segment_ok(&chars, start, n);
    proof {
        assert(chars@.subrange(0, n as int) =~= chars@);
        assert(chars@ =~= id@);
    }
    last_ok
}

/// Once a completed piece of a prefix is invalid, the whole text is not a table id.
proof fn lemma_split_prefix_fails(s: Seq<char>, i: int, k: int)
    requires
        0 <= i <= s.len(),
        0 <= k < split_dots(s.subrange(0, i)).len() - 1,
        !valid_segment(split_dots(s.subrange(0, i))[k]),
    ensures
        !valid_table_id_spec(s),
    decreases s.len() - i,
{
    if i == s.len() {
        assert(s.subrange(0, i) =~= s);
    } else {
        let pre = s.subrange(0, i);
        let post = s.subrange(0, i + 1);
        assert(post.drop_last() =~= pre);
        lemma_split_dots_nonempty(pre);
        assert(split_dots(post)[k] == split_dots(pre)[k]);
        lemma_split_prefix_fails(s, i + 1, k);
    }
}


/// The values of a report column, one per row; floating-point values are kept as their
/// IEEE-754 bit patterns.
#[derive(Debug, Clone, PartialEq)]
pub enum ReportColumnData {
    Boolean(Vec<Option<bool>>),
    Int32(Vec<Option<i32>>),
    Int64(Vec<Option<i64>>),
    UInt32(Vec<Option<u32>>),
    UInt64(Vec<Option<u64>>),
    Float64(Vec<Option<u64>>),
    String(Vec<Option<String>>),
    Datetime { values: Vec<Option<i64>>, time_unit: ReportTimeUnit, timezone: Option<String> },
}

pub open spec fn data_len(d: ReportColumnData) -> nat {
    match d {
        ReportColumnData::Boolean(v) => v@.len(),
        ReportColumnData::Int32(v) => v@.len(),
        ReportColumnData::Int64(v) => v@.len(),
        ReportColumnData::UInt32(v) => v@.len(),
        ReportColumnData::UInt64(v) => v@.len(),
        ReportColumnData::Float64(v) => v@.len(),
        ReportColumnData::String(v) => v@.len(),
        ReportColumnData::Datetime { values, .. } => values@.len(),
    }
}

/// A double whose exponent bits are not all set is a finite number.
pub open spec fn finite_bits(b: u64) -> bool {
    (b / 0x10_0000_0000_0000) % 0x800 != 0x7ff
}

/// The order of finite doubles by their bits: sign and magnitude, with both zeros equal.
pub open spec fn float_key(b: u64) -> int {
    if b < 0x8000_0000_0000_0000 {
        b as int
    } else {
        -(b - 0x8000_0000_0000_0000)
    }
}

/// The row holds a value (not a null).
pub open spec fn cell_present(d: ReportColumnData, row: int) -> bool {
    0 <= row < data_len(d) && match d {
        ReportColumnData::Boolean(v) => v@[row] is Some,
        ReportColumnData::Int32(v) => v@[row] is Some,
        ReportColumnData::Int64(v) => v@[row] is Some,
        ReportColumnData::UInt32(v) => v@[row] is Some,
        ReportColumnData::UInt64(v) => v@[row] is Some,
        ReportColumnData::Float64(v) => v@[row] is Some,
        ReportColumnData::String(v) => v@[row] is Some,
        ReportColumnData::Datetime { values, .. } => values@[row] is Some,
    }
}

pub open spec fn order_int(a: int, b: int) -> int {
    if a < b {
        -1
    } else if a == b {
        0
    } else {
        1
    }
}

pub open spec fn order_text(a: Seq<char>, b: Seq<char>) -> int {
    if seq_lt(a, b) {
        -1
    } else if a == b {
        0
    } else {
        1
    }
}

pub open spec fn bool_int(b: bool) -> int {
    if b {
        1
    } else {
        0
    }
}

/// How the values of two present rows of a column compare: -1, 0 or 1.
pub open spec fn cell_order(d: ReportColumnData, a: int, b: int) -> int {
    match d {
        ReportColumnData::Boolean(v) => order_int(bool_int(v@[a]->0), bool_int(v@[b]->0)),
        ReportColumnData::Int32(v) => order_int(v@[a]->0 as int, v@[b]->0 as int),
        ReportColumnData::Int64(v) => order_int(v@[a]->0 as int, v@[b]->0 as int),
        ReportColumnData::UInt32(v) => order_int(v@[a]->0 as int, v@[b]->0 as int),
        ReportColumnData::UInt64(v) => order_int(v@[a]->0 as int, v@[b]->0 as int),
        ReportColumnData::Float64(v) => order_int(float_key(v@[a]->0), float_key(v@[b]->0)),
        ReportColumnData::String(v) => order_text(v@[a]->0@, v@[b]->0@),
        ReportColumnData::Datetime { values, .. } => order_int(
            values@[a]->0 as int,
            values@[b]->0 as int,
        ),
    }
}

/// How two rows compare by a list of sort columns, the first difference deciding.
pub open spec fn rows_order(cols: Seq<ReportColumnData>, a: int, b: int) -> int
    decreases cols.len(),
{
    if cols.len() == 0 {
        0
    } else if cell_order(cols[0], a, b) != 0 {
        cell_order(cols[0], a, b)
    } else {
        rows_order(cols.drop_first(), a, b)
    }
}

/// Every value of a float column is finite.
pub open spec fn floats_finite(d: ReportColumnData) -> bool {
    d matches ReportColumnData::Float64(v) ==> forall|i: int|
        0 <= i < v@.len() ==> (#[trigger] v@[i] matches Some(b) ==> finite_bits(b))
}

impl ReportColumnData {
    pub fn len(&self) -> (r: usize)
        ensures
            r == data_len(*self),
    {
        match self {
            ReportColumnData::Boolean(v) => v.len(),
            ReportColumnData::Int32(v) => v.len(),
            ReportColumnData::Int64(v) => v.len(),
            ReportColumnData::UInt32(v) => v.len(),
            ReportColumnData::UInt64(v) => v.len(),
            ReportColumnData::Float64(v) => v.len(),
            ReportColumnData::String(v) => v.len(),
            ReportColumnData::Datetime { values, .. } => values.len(),
        }
    }

    pub fn is_empty(&self) -> (r: bool)
        ensures
            r == (data_len(*self) == 0),
    {
        self.len() == 0
    }

    /// Whether row `row` holds a value.
    fn present(&self, row: usize) -> (r: bool)
        ensures
            r == cell_present(*self, row as int),
    {
        match self {
            ReportColumnData::Boolean(v) => row < v.len() && v[row].is_some(),
            ReportColumnData::Int32(v) => row < v.len() && v[row].is_some(),
            ReportColumnData::Int64(v) => row < v.len() && v[row].is_some(),
            ReportColumnData::UInt32(v) => row < v.len() && v[row].is_some(),
            ReportColumnData::UInt64(v) => row < v.len() && v[row].is_some(),
            ReportColumnData::Float64(v) => row < v.len() && v[row].is_some(),
            ReportColumnData::String(v) => row < v.len() && v[row].is_some(),
            ReportColumnData::Datetime { values, .. } => row < values.len() && values[row].is_some(),
        }
    }

    /// Whether every value of a float column is finite.
    fn all_finite(&self) -> (r: bool)
        ensures
            r == floats_finite(*self),
    {
        match self {
            ReportColumnData::Float64(v) => {
                let mut i: usize = 0;
                while i < v.len()
                    invariant
                        *self == ReportColumnData::Float64(*v),
                        i <= v@.len(),
                        forall|k: int|
                            0 <= k < i ==> (#[trigger] v@[k] matches Some(b) ==> finite_bits(b)),
                    decreases v@.len() - i,
                {
                    match v[i] {
                        Some(b) => {
                            if (b / 0x10_0000_0000_0000) % 0x800 == 0x7ff {
                                assert(!finite_bits(b));
                                assert(!(v@[i as int] matches Some(x) ==> finite_bits(x)));
                                return false;
                            }
                        },
                        None => {},
                    }
                    i = i + 1;
                }
                true
            },
            _ => true,
        }
    }

    /// How the values of two present rows compare.
    fn compare_cells(&self, a: usize, b: usize) -> (r: i8)
        requires
            cell_present(*self, a as int),
            cell_present(*self, b as int),
        ensures
            r as int == cell_order(*self, a as int, b as int),
    {
        match self {
            ReportColumnData::Boolean(v) => {
                let x: i8 = if v[a].unwrap() { 1 } else { 0 };
                let y: i8 = if v[b].unwrap() { 1 } else { 0 };
                if x < y { -1 } else if x == y { 0 } else { 1 }
            },
            ReportColumnData::Int32(v) => {
                let x = v[a].unwrap();
                let y = v[b].unwrap();
                if x < y { -1 } else if x == y { 0 } else { 1 }
            },
            ReportColumnData::Int64(v) => {
                let x = v[a].unwrap();
                let y = v[b].unwrap();
                if x < y { -1 } else if x == y { 0 } else { 1 }
            },
            ReportColumnData::UInt32(v) => {
                let x = v[a].unwrap();
                let y = v[b].unwrap();
                if x < y { -1 } else if x == y { 0 } else { 1 }
            },
            ReportColumnData::UInt64(v) => {
                let x = v[a].unwrap();
                let y = v[b].unwrap();
                if x < y { -1 } else if x == y { 0 } else { 1 }
            },
            ReportColumnData::Float64(v) => {
                let x = v[a].unwrap();
                let y = v[b].unwrap();
                let kx: i128 = if x < 0x8000_0000_0000_0000 {
                    x as i128
                } else {
                    -((x - 0x8000_0000_0000_0000) as i128)
                };
                let ky: i128 = if y < 0x8000_0000_0000_0000 {
                    y as i128
                } else {
                    -((y - 0x8000_0000_0000_0000) as i128)
                };
                if kx < ky { -1 } else if kx == ky { 0 } else { 1 }
            },
            ReportColumnData::String(v) => {
                let x = v[a].as_ref().unwrap();
                let y = v[b].as_ref().unwrap();
                if str_less(x.as_str(), y.as_str()) {
                    -1
                } else if str_eq(x.as_str(), y.as_str()) {
                    0
                } else {
                    1
                }
            },
            ReportColumnData::Datetime { values, .. } => {
                let x = values[a].unwrap();
                let y = values[b].unwrap();
                if x < y { -1 } else if x == y { 0 } else { 1 }
            },
        }
    }
}


/// One named column of a report table.
#[derive(Debug, Clone, PartialEq)]
pub struct ReportColumn {
    name: String,
    label: String,
    role: ColumnRole,
    display: Option<DisplayFormat>,
    data: ReportColumnData,
}

impl ReportColumn {
    pub closed spec fn spec_name(self) -> Seq<char> {
        self.name@
    }

    pub closed spec fn spec_label(self) -> Seq<char> {
        self.label@
    }

    pub closed spec fn spec_role(self) -> ColumnRole {
        self.role
    }

    pub closed spec fn spec_display(self) -> Option<DisplayFormat> {
        self.display
    }

    pub closed spec fn spec_data(self) -> ReportColumnData {
        self.data
    }

    pub fn new(
        name: String,
        label: String,
        role: ColumnRole,
        display: Option<DisplayFormat>,
        data: ReportColumnData,
    ) -> (r: ReportColumn)
        ensures
            r.spec_name() == name@,
            r.spec_label() == label@,
            r.spec_role() == role,
            r.spec_display() == display,
            r.spec_data() == data,
    {
        ReportColumn { name, label, role, display, data }
    }

    pub fn name(&self) -> (r: &str)
        ensures
            r@ == self.spec_name(),
    {
        self.name.as_str()
    }

    pub fn label(&self) -> (r: &str)
        ensures
            r@ == self.spec_label(),
    {
        self.label.as_str()
    }

    pub fn role(&self) -> (r: ColumnRole)
        ensures
            r == self.spec_role(),
    {
        self.role
    }

    pub fn display(&self) -> (r: Option<&DisplayFormat>)
        ensures
            match self.spec_display() {
                Some(d) => r matches Some(x) && *x == d,
                None => r is None,
            },
    {
        match &self.display {
            Some(d) => Some(d),
            None => None,
        }
    }

    pub fn data(&self) -> (r: &ReportColumnData)
        ensures
            *r == self.spec_data(),
    {
        &self.data
    }
}

/// An earlier column carries the same name as column `k`.
pub open spec fn name_repeats(cols: Seq<ReportColumn>, k: int) -> bool {
    exists|j: int| 0 <= j < k && #[trigger] cols[j].spec_name() == cols[k].spec_name()
}

/// The first problem among the first `n` columns, checked column by column: a repeated
/// name, then a float that is not finite.
pub open spec fn column_issue_upto(cols: Seq<ReportColumn>, n: int) -> Option<&'static str>
    decreases n,
{
    if n <= 0 {
        None
    } else {
        match column_issue_upto(cols, n - 1) {
            Some(reason) => Some(reason),
            None => if name_repeats(cols, n - 1) {
                Some("duplicate column name")
            } else if !floats_finite(cols[n - 1].spec_data()) {
                Some("float value is not finite")
            } else {
                None
            },
        }
    }
}

/// The number of rows the first column holds (none without columns).
pub open spec fn first_len(cols: Seq<ReportColumn>) -> nat {
    if cols.len() == 0 {
        0
    } else {
        data_len(cols[0].spec_data())
    }
}

pub open spec fn has_column(cols: Seq<ReportColumn>, name: Seq<char>) -> bool {
    exists|k: int| 0 <= k < cols.len() && #[trigger] cols[k].spec_name() == name
}

/// The position of the column called `name`.
pub open spec fn name_index(cols: Seq<ReportColumn>, name: Seq<char>) -> int {
    choose|k: int| 0 <= k < cols.len() && #[trigger] cols[k].spec_name() == name
}

/// The data of the sort columns, in sort order.
pub open spec fn sort_columns(cols: Seq<ReportColumn>, sort_by: Seq<Seq<char>>) -> Seq<
    ReportColumnData,
> {
    sort_by.map_values(|s: Seq<char>| cols[name_index(cols, s)].spec_data())
}

/// Row `r` sorts after the row before it.
pub open spec fn out_of_order(keys: Seq<ReportColumnData>, r: int) -> bool {
    rows_order(keys, r - 1, r) > 0
}

/// The first rule of a report table that the parts break, in the order the checks run;
/// `None` when they make a table. `stored` is a row count read back with the table, which
/// must then agree with the columns.
pub open spec fn table_issue(
    id: Seq<char>,
    stored: Option<nat>,
    sort_by: Seq<Seq<char>>,
    cols: Seq<ReportColumn>,
) -> Option<&'static str> {
    let rows = first_len(cols);
    let keys = sort_columns(cols, sort_by);
    if !valid_table_id_spec(id) {
        Some("invalid table id")
    } else if column_issue_upto(cols, cols.len() as int) is Some {
        column_issue_upto(cols, cols.len() as int)
    } else if stored is Some && stored->0 != rows {
        Some("row count does not match column data")
    } else if exists|k: int| 0 <= k < cols.len() && data_len(#[trigger] cols[k].spec_data()) != rows {
        Some("column lengths differ")
    } else if exists|j: int| 0 <= j < sort_by.len() && !has_column(cols, #[trigger] sort_by[j]) {
        Some("sort key missing")
    } else if exists|r: int, j: int|
        0 <= r < rows && 0 <= j < keys.len() && !#[trigger] cell_present(keys[j], r) {
        Some("sort key contains null")
    } else if exists|r: int| 1 <= r < rows && #[trigger] out_of_order(keys, r) {
        Some("rows are not sorted by sort_by")
    } else {
        None
    }
}

proof fn lemma_column_issue_none(cols: Seq<ReportColumn>, n: int)
    requires
        column_issue_upto(cols, n) is None,
    ensures
        forall|k: int| 0 <= k < n ==> !#[trigger] name_repeats(cols, k),
        forall|k: int| 0 <= k < n ==> floats_finite(#[trigger] cols[k].spec_data()),
    decreases n,
{
    if n > 0 {
        lemma_column_issue_none(cols, n - 1);
    }
}

/// Once a prefix of the columns shows a problem, the longer prefixes show the same one.
proof fn lemma_column_issue_stable(cols: Seq<ReportColumn>, a: int, b: int)
    requires
        0 <= a <= b,
        column_issue_upto(cols, a) is Some,
    ensures
        column_issue_upto(cols, b) == column_issue_upto(cols, a),
    decreases b - a,
{
    if b > a {
        lemma_column_issue_stable(cols, a, b - 1);
    }
}

/// With no repeated names, a column is found by its name at its own position.
proof fn lemma_name_index(cols: Seq<ReportColumn>, k: int)
    requires
        column_issue_upto(cols, cols.len() as int) is None,
        0 <= k < cols.len(),
    ensures
        has_column(cols, cols[k].spec_name()),
        name_index(cols, cols[k].spec_name()) == k,
{
    lemma_column_issue_none(cols, cols.len() as int);
    let name = cols[k].spec_name();
    assert(cols[k].spec_name() == name);
    let j = name_index(cols, name);
    assert(0 <= j < cols.len() && cols[j].spec_name() == name);
    if j < k {
        assert(!name_repeats(cols, k));
    } else if j > k {
        assert(!name_repeats(cols, j));
    }
}

/// The comparison of the remaining sort columns from position `j` on.
proof fn lemma_rows_order_step(keys: Seq<ReportColumnData>, j: int, a: int, b: int)
    requires
        0 <= j < keys.len(),
    ensures
        rows_order(keys.subrange(j, keys.len() as int), a, b) == if cell_order(keys[j], a, b) != 0 {
            cell_order(keys[j], a, b)
        } else {
            rows_order(keys.subrange(j + 1, keys.len() as int), a, b)
        },
{
    let s = keys.subrange(j, keys.len() as int);
    assert(s[0] == keys[j]);
    assert(s.drop_first() =~= keys.subrange(j + 1, keys.len() as int));
}

/// Compares two rows by the columns at positions `keys`.
fn compare_rows(cols: &Vec<ReportColumn>, keys: &Vec<usize>, a: usize, b: usize) -> (r: i8)
    requires
        forall|j: int| 0 <= j < keys@.len() ==> (#[trigger] keys@[j]) < cols@.len(),
        forall|j: int|
            0 <= j < keys@.len() ==> cell_present(cols@[#[trigger] keys@[j] as int].spec_data(), a as int)
                && cell_present(cols@[keys@[j] as int].spec_data(), b as int),
    ensures
        r as int == rows_order(
            keys@.map_values(|k: usize| cols@[k as int].spec_data()),
            a as int,
            b as int,
        ),
{
    let ghost ks = keys@.map_values(|k: usize| cols@[k as int].spec_data());
    let n: usize = keys.len();
    let mut j: usize = 0;
    assert(ks.subrange(0, n as int) =~= ks);
    while j < n
        invariant
            n == keys@.len(),
            ks == keys@.map_values(|k: usize| cols@[k as int].spec_data()),
            j <= n,
            forall|i: int| 0 <= i < keys@.len() ==> (#[trigger] keys@[i]) < cols@.len(),
            forall|i: int|
                0 <= i < keys@.len() ==> cell_present(cols@[#[trigger] keys@[i] as int].spec_data(), a as int)
                    && cell_present(cols@[keys@[i] as int].spec_data(), b as int),
            rows_order(ks, a as int, b as int) == rows_order(ks.subrange(j as int, n as int), a as int, b as int),
        decreases n - j,
    {
        let k: usize = keys[j];
        proof {
            lemma_rows_order_step(ks, j as int, a as int, b as int);
            assert(ks[j as int] == cols@[k as int].spec_data());
            assert(cell_present(cols@[keys@[j as int] as int].spec_data(), a as int));
        }
        let c: i8 = cols[k].data.compare_cells(a, b);
        if c != 0 {
            return c;
        }
        j = j + 1;
    }
    assert(ks.subrange(n as int, n as int).len() == 0);
    0
}

/// A row count read back with a table, as a number of the model.
pub open spec fn stored_rows(stored: Option<usize>) -> Option<nat> {
    match stored {
        Some(n) => Some(n as nat),
        None => None,
    }
}

/// Checks the parts of a report table and gives the first rule they break.
fn check_table(
    id: &str,
    stored: Option<usize>,
    sort_by: &Vec<String>,
    cols: &Vec<ReportColumn>,
) -> (r: Option<&'static str>)
    ensures
        r == table_issue(id@, stored_rows(stored), texts(sort_by@), cols@),
{
    let ghost st = stored_rows(stored);
    let ghost names = texts(sort_by@);
    if !valid_table_id(id) {
        return Some("invalid table id");
    }
    let n: usize = cols.len();
    let mut k: usize = 0;
    while k < n
        invariant
            st == stored_rows(stored),
            names == texts(sort_by@),
            n == cols@.len(),
            k <= n,
            valid_table_id_spec(id@),
            column_issue_upto(cols@, k as int) is None,
        decreases n - k,
    {
        let mut j: usize = 0;
        while j < k
            invariant
                st == stored_rows(stored),
                names == texts(sort_by@),
                n == cols@.len(),
                j <= k < n,
                valid_table_id_spec(id@),
                column_issue_upto(cols@, k as int) is None,
                forall|i: int| 0 <= i < j ==> cols@[i].spec_name() != cols@[k as int].spec_name(),
            decreases k - j,
        {
            if str_eq(cols[j].name.as_str(), cols[k].name.as_str()) {
                proof {
                    assert(cols@[j as int].spec_name() == cols@[k as int].spec_name());
                    assert(name_repeats(cols@, k as int));
                    assert(column_issue_upto(cols@, k + 1) == Some("duplicate column name"));
                    lemma_column_issue_stable(cols@, k + 1, n as int);
                    assert(table_issue(id@, st, names, cols@) == Some("duplicate column name"));
                }
                return Some("duplicate column name");
            }
            j = j + 1;
        }
        assert(!name_repeats(cols@, k as int));
        if !cols[k].data.all_finite() {
            proof {
                assert(column_issue_upto(cols@, k + 1) == Some("float value is not finite"));
                lemma_column_issue_stable(cols@, k + 1, n as int);
                assert(table_issue(id@, st, names, cols@) == Some("float value is not finite"));
            }
            return Some("float value is not finite");
        }
        k = k + 1;
    }
    proof {
        lemma_column_issue_none(cols@, n as int);
    }
    let rows: usize = if n == 0 {
        0
    } else {
        cols[0].data.len()
    };
    match stored {
        Some(s) => {
            if s != rows {
                assert(table_issue(id@, st, names, cols@) == Some(
                    "row count does not match column data",
                ));
                return Some("row count does not match column data");
            }
        },
        None => {},
    }
    let mut k: usize = 0;
    while k < n
        invariant
            st == stored_rows(stored),
            names == texts(sort_by@),
            n == cols@.len(),
            k <= n,
            rows == first_len(cols@),
            valid_table_id_spec(id@),
            column_issue_upto(cols@, n as int) is None,
            !(st is Some && st->0 != rows),
            forall|i: int| 0 <= i < k ==> data_len(#[trigger] cols@[i].spec_data()) == rows,
        decreases n - k,
    {
        if cols[k].data.len() != rows {
            assert(data_len(cols@[k as int].spec_data()) != rows);
            assert(table_issue(id@, st, names, cols@) == Some("column lengths differ"));
            return Some("column lengths differ");
        }
        k = k + 1;
    }
    let m: usize = sort_by.len();
    let mut keys: Vec<usize> = Vec::new();
    let mut j: usize = 0;
    while j < m
        invariant
            st == stored_rows(stored),
            names == texts(sort_by@),
            n == cols@.len(),
            m == sort_by@.len(),
            names == texts(sort_by@),
            rows == first_len(cols@),
            valid_table_id_spec(id@),
            column_issue_upto(cols@, n as int) is None,
            !(st is Some && st->0 != rows),
            forall|i: int| 0 <= i < n ==> data_len(#[trigger] cols@[i].spec_data()) == rows,
            j <= m,
            keys@.len() == j,
            forall|i: int|
                0 <= i < j ==> (#[trigger] keys@[i]) < n && has_column(cols@, names[i])
                    && keys@[i] == name_index(cols@, names[i]),
        decreases m - j,
    {
        let mut k: usize = 0;
        let mut found: bool = false;
        while k < n && !found
            invariant
                st == stored_rows(stored),
                names == texts(sort_by@),
                n == cols@.len(),
                k <= n,
                j < m,
                names == texts(sort_by@),
                m == sort_by@.len(),
                found ==> k < n && cols@[k as int].spec_name() == names[j as int],
                !found ==> forall|i: int| 0 <= i < k ==> cols@[i].spec_name() != names[j as int],
            decreases n - k + if found { 0int } else { 1int },
        {
            if str_eq(cols[k].name.as_str(), sort_by[j].as_str()) {
                found = true;
            } else {
                k = k + 1;
            }
        }
        if !found {
            proof {
                assert(!has_column(cols@, names[j as int]));
                assert(table_issue(id@, st, names, cols@) == Some("sort key missing"));
            }
            return Some("sort key missing");
        }
        proof {
            lemma_name_index(cols@, k as int);
        }
        keys.push(k);
        j = j + 1;
    }
    let ghost ks = keys@.map_values(|k: usize| cols@[k as int].spec_data());
    assert(ks =~= sort_columns(cols@, names));
    assert forall|j: int| 0 <= j < names.len() implies has_column(cols@, #[trigger] names[j]) by {
        assert(keys@[j] < n);
    }
    let mut r: usize = 0;
    while r < rows
        invariant
            st == stored_rows(stored),
            names == texts(sort_by@),
            n == cols@.len(),
            rows == first_len(cols@),
            keys@.len() == m,
            m == names.len(),
            valid_table_id_spec(id@),
            column_issue_upto(cols@, n as int) is None,
            !(st is Some && st->0 != rows),
            forall|i: int| 0 <= i < n ==> data_len(#[trigger] cols@[i].spec_data()) == rows,
            !(exists|j: int| 0 <= j < names.len() && !has_column(cols@, #[trigger] names[j])),
            ks == keys@.map_values(|k: usize| cols@[k as int].spec_data()),
            ks == sort_columns(cols@, names),
            forall|i: int| 0 <= i < m ==> (#[trigger] keys@[i]) < n,
            r <= rows,
            forall|x: int, i: int| 0 <= x < r && 0 <= i < m ==> #[trigger] cell_present(ks[i], x),
        decreases rows - r,
    {
        let mut j: usize = 0;
        while j < m
            invariant
                st == stored_rows(stored),
                names == texts(sort_by@),
                n == cols@.len(),
                keys@.len() == m,
                m == names.len(),
                valid_table_id_spec(id@),
                column_issue_upto(cols@, n as int) is None,
                !(st is Some && st->0 != rows),
                rows == first_len(cols@),
                forall|i: int| 0 <= i < n ==> data_len(#[trigger] cols@[i].spec_data()) == rows,
                !(exists|j: int| 0 <= j < names.len() && !has_column(cols@, #[trigger] names[j])),
                ks == keys@.map_values(|k: usize| cols@[k as int].spec_data()),
                ks == sort_columns(cols@, names),
                forall|i: int| 0 <= i < m ==> (#[trigger] keys@[i]) < n,
                r < rows,
                j <= m,
                forall|x: int, i: int| 0 <= x < r && 0 <= i < m ==> #[trigger] cell_present(ks[i], x),
                forall|i: int| 0 <= i < j ==> #[trigger] cell_present(ks[i], r as int),
            decreases m - j,
        {
            if !cols[keys[j]].data.present(r) {
                assert(!cell_present(ks[j as int], r as int));
                assert(table_issue(id@, st, names, cols@) == Some("sort key contains null"));
                return Some("sort key contains null");
            }
            j = j + 1;
        }
        r = r + 1;
    }
    let mut r: usize = 1;
    while r < rows
        invariant
            st == stored_rows(stored),
            names == texts(sort_by@),
            n == cols@.len(),
            rows == first_len(cols@),
            keys@.len() == m,
            m == names.len(),
            valid_table_id_spec(id@),
            column_issue_upto(cols@, n as int) is None,
            !(st is Some && st->0 != rows),
            forall|i: int| 0 <= i < n ==> data_len(#[trigger] cols@[i].spec_data()) == rows,
            !(exists|j: int| 0 <= j < names.len() && !has_column(cols@, #[trigger] names[j])),
            ks == keys@.map_values(|k: usize| cols@[k as int].spec_data()),
            ks == sort_columns(cols@, names),
            forall|i: int| 0 <= i < m ==> (#[trigger] keys@[i]) < n,
            forall|x: int, i: int| 0 <= x < rows && 0 <= i < m ==> #[trigger] cell_present(ks[i], x),
            1 <= r,
            r <= rows || rows == 0,
            forall|x: int| 1 <= x < r && x < rows ==> !#[trigger] out_of_order(ks, x),
        decreases rows - r,
    {
        proof {
            assert forall|i: int| 0 <= i < keys@.len() implies cell_present(
                cols@[#[trigger] keys@[i] as int].spec_data(),
                (r - 1) as int,
            ) && cell_present(cols@[keys@[i] as int].spec_data(), r as int) by {
                assert(ks[i] == cols@[keys@[i] as int].spec_data());
                assert(cell_present(ks[i], (r - 1) as int));
                assert(cell_present(ks[i], r as int));
            }
        }
        if compare_rows(cols, &keys, r - 1, r) > 0 {
            assert(out_of_order(ks, r as int));
            assert(table_issue(id@, st, names, cols@) == Some("rows are not sorted by sort_by"));
            return Some("rows are not sorted by sort_by");
        }
        r = r + 1;
    }
    assert(table_issue(id@, st, names, cols@) is None);
    None
}


/// A validated report table: an id, a title, the sort keys and equally long columns.
#[derive(Debug, PartialEq)]
pub struct ReportTable {
    id: String,
    title: String,
    row_count: usize,
    sort_by: Vec<String>,
    columns: Vec<ReportColumn>,
}

impl ReportTable {
    pub closed spec fn spec_id(self) -> Seq<char> {
        self.id@
    }

    pub closed spec fn spec_title(self) -> Seq<char> {
        self.title@
    }

    pub closed spec fn spec_row_count(self) -> nat {
        self.row_count as nat
    }

    pub closed spec fn spec_sort_by(self) -> Seq<Seq<char>> {
        texts(self.sort_by@)
    }

    pub closed spec fn spec_columns(self) -> Seq<ReportColumn> {
        self.columns@
    }

    /// The table meets every rule of a report table, its stored row count included.
    pub open spec fn checked(self) -> bool {
        table_issue(
            self.spec_id(),
            Some(self.spec_row_count()),
            self.spec_sort_by(),
            self.spec_columns(),
        ) is None
    }

    #[verifier::type_invariant]
    spec fn consistent(self) -> bool {
        self.checked()
    }

    /// Builds a table, checking in turn the id, each column's name and float values,
    /// the column lengths, the sort keys, nulls in sort columns and the row order; the
    /// first rule broken is the error.
    pub fn new(id: String, title: String, sort_by: Vec<String>, columns: Vec<ReportColumn>) -> (r:
        Result<ReportTable, FerricAlphaError>)
        ensures
            match table_issue(id@, None, texts(sort_by@), columns@) {
                None => r matches Ok(t) && t.spec_id() == id@ && t.spec_title() == title@
                    && t.spec_row_count() == first_len(columns@) && t.spec_sort_by() == texts(
                    sort_by@,
                ) && t.spec_columns() == columns@,
                Some(reason) => r == Err::<ReportTable, FerricAlphaError>(
                    FerricAlphaError::InvalidReport { operation: "ReportTable::new", reason },
                ),
            },
    {
        match check_table(id.as_str(), None, &sort_by, &columns) {
            Some(reason) => Err(FerricAlphaError::InvalidReport { operation: "ReportTable::new", reason }),
            None => {
                let row_count: usize = if columns.len() == 0 {
                    0
                } else {
                    columns[0].data.len()
                };
                proof {
                    lemma_stored_row_count(id@, texts(sort_by@), columns@);
                }
                Ok(ReportTable { id, title, row_count, sort_by, columns })
            },
        }
    }

    pub fn id(&self) -> (r: &str)
        ensures
            r@ == self.spec_id(),
            self.checked(),
    {
        proof {
            use_type_invariant(self);
        }
        self.id.as_str()
    }

    pub fn title(&self) -> (r: &str)
        ensures
            r@ == self.spec_title(),
            self.checked(),
    {
        proof {
            use_type_invariant(self);
        }
        self.title.as_str()
    }

    pub fn row_count(&self) -> (r: usize)
        ensures
            r == self.spec_row_count(),
            r == first_len(self.spec_columns()),
            self.checked(),
    {
        proof {
            use_type_invariant(self);
        }
        self.row_count
    }

    pub fn sort_by(&self) -> (r: &[String])
        ensures
            texts(r@) == self.spec_sort_by(),
            self.checked(),
    {
        proof {
            use_type_invariant(self);
        }
        self.sort_by.as_slice()
    }

    pub fn columns(&self) -> (r: &[ReportColumn])
        ensures
            r@ == self.spec_columns(),
            self.checked(),
    {
        proof {
            use_type_invariant(self);
        }
        self.columns.as_slice()
    }

    /// The column names, in column order.
    pub fn column_names(&self) -> (r: Vec<&str>)
        ensures
            r@.len() == self.spec_columns().len(),
            forall|i: int| 0 <= i < r@.len() ==> (#[trigger] r@[i])@ == self.spec_columns()[i].spec_name(),
    {
        let mut names: Vec<&str> = Vec::new();
        let mut i: usize = 0;
        while i < self.columns.len()
            invariant
                i <= self.columns@.len(),
                names@.len() == i,
                forall|k: int| 0 <= k < i ==> (#[trigger] names@[k])@ == self.columns@[k].spec_name(),
            decreases self.columns@.len() - i,
        {
            names.push(self.columns[i].name.as_str());
            i = i + 1;
        }
        names
    }
}

/// Reads a table back with the row count stored beside it, under the same checks as
/// `ReportTable::new` and, after the column checks, the stored count against the columns.
pub fn validate_table(
    id: String,
    title: String,
    row_count: usize,
    sort_by: Vec<String>,
    columns: Vec<ReportColumn>,
) -> (r: Result<ReportTable, FerricAlphaError>)
    ensures
        match table_issue(id@, Some(row_count as nat), texts(sort_by@), columns@) {
            None => r matches Ok(t) && t.spec_id() == id@ && t.spec_title() == title@
                && t.spec_row_count() == row_count && t.spec_sort_by() == texts(sort_by@)
                && t.spec_columns() == columns@,
            Some(reason) => r == Err::<ReportTable, FerricAlphaError>(
                FerricAlphaError::InvalidReport { operation: "TearSheetData::from_json", reason },
            ),
        },
{
    match check_table(id.as_str(), Some(row_count), &sort_by, &columns) {
        Some(reason) => Err(
            FerricAlphaError::InvalidReport { operation: "TearSheetData::from_json", reason },
        ),
        None => Ok(ReportTable { id, title, row_count, sort_by, columns }),
    }
}

/// A table passes its checks with no stored row count exactly when it passes them with
/// the row count of its columns: what `new` accepts reads back unchanged.
pub proof fn lemma_stored_row_count(id: Seq<char>, sort_by: Seq<Seq<char>>, cols: Seq<ReportColumn>)
    ensures
        table_issue(id, None, sort_by, cols) == table_issue(id, Some(first_len(cols)), sort_by, cols),
{
}

proof fn lemma_cell_order(d: ReportColumnData, a: int, b: int, c: int)
    ensures
        cell_order(d, a, a) == 0,
        -1 <= cell_order(d, a, b) <= 1,
        cell_order(d, a, b) <= 0 && cell_order(d, b, c) <= 0 ==> cell_order(d, a, c) <= 0,
        cell_order(d, a, b) < 0 && cell_order(d, b, c) <= 0 ==> cell_order(d, a, c) < 0,
        cell_order(d, a, b) <= 0 && cell_order(d, b, c) < 0 ==> cell_order(d, a, c) < 0,
{
    match d {
        ReportColumnData::String(v) => {
            let x = v@[a]->0@;
            let y = v@[b]->0@;
            let z = v@[c]->0@;
            lemma_seq_lt_irreflexive(x);
            lemma_seq_lt_irreflexive(y);
            if seq_lt(x, y) && seq_lt(y, z) {
                lemma_seq_lt_transitive(x, y, z);
            }
        },
        _ => {},
    }
}

/// Comparing a row with itself finds no difference.
pub proof fn lemma_rows_order_reflexive(keys: Seq<ReportColumnData>, a: int)
    ensures
        rows_order(keys, a, a) == 0,
    decreases keys.len(),
{
    if keys.len() > 0 {
        lemma_cell_order(keys[0], a, a, a);
        lemma_rows_order_reflexive(keys.drop_first(), a);
    }
}

/// Row order by sort columns is transitive.
pub proof fn lemma_rows_order_transitive(keys: Seq<ReportColumnData>, a: int, b: int, c: int)
    requires
        rows_order(keys, a, b) <= 0,
        rows_order(keys, b, c) <= 0,
    ensures
        rows_order(keys, a, c) <= 0,
    decreases keys.len(),
{
    if keys.len() > 0 {
        lemma_cell_order(keys[0], a, b, c);
        if cell_order(keys[0], a, b) == 0 && cell_order(keys[0], b, c) == 0 {
            lemma_rows_order_transitive(keys.drop_first(), a, b, c);
        }
    }
}

/// The rows of a checked table are in order of its sort keys: no earlier row sorts after
/// a later one.
pub proof fn lemma_checked_rows_sorted(
    id: Seq<char>,
    stored: Option<nat>,
    sort_by: Seq<Seq<char>>,
    cols: Seq<ReportColumn>,
    a: int,
    b: int,
)
    requires
        table_issue(id, stored, sort_by, cols) is None,
        0 <= a <= b < first_len(cols),
    ensures
        rows_order(sort_columns(cols, sort_by), a, b) <= 0,
    decreases b - a,
{
    let keys = sort_columns(cols, sort_by);
    if a == b {
        lemma_rows_order_reflexive(keys, a);
    } else {
        lemma_checked_rows_sorted(id, stored, sort_by, cols, a, b - 1);
        assert(!out_of_order(keys, b));
        lemma_rows_order_transitive(keys, a, b - 1, b);
    }
}

/// What a checked table holds: a valid id, distinct column names, finite floats, columns
/// of one length, and a present value in every sort column on every row.
pub proof fn lemma_checked_shape(
    id: Seq<char>,
    stored: Option<nat>,
    sort_by: Seq<Seq<char>>,
    cols: Seq<ReportColumn>,
)
    requires
        table_issue(id, stored, sort_by, cols) is None,
    ensures
        valid_table_id_spec(id),
        forall|i: int, j: int|
            0 <= i < j < cols.len() ==> #[trigger] cols[i].spec_name() != #[trigger] cols[j].spec_name(),
        forall|k: int| 0 <= k < cols.len() ==> floats_finite(#[trigger] cols[k].spec_data()),
        forall|k: int| 0 <= k < cols.len() ==> data_len(#[trigger] cols[k].spec_data()) == first_len(cols),
        stored matches Some(n) ==> n == first_len(cols),
        forall|j: int| 0 <= j < sort_by.len() ==> has_column(cols, #[trigger] sort_by[j]),
        forall|r: int, j: int|
            0 <= r < first_len(cols) && 0 <= j < sort_by.len() ==> #[trigger] cell_present(
                sort_columns(cols, sort_by)[j],
                r,
            ),
{
    lemma_column_issue_none(cols, cols.len() as int);
    assert forall|i: int, j: int|
        0 <= i < j < cols.len() implies #[trigger] cols[i].spec_name() != #[trigger] cols[j].spec_name() by {
        assert(!name_repeats(cols, j));
    }
}

} // verus!
