use vstd::arithmetic::power::pow;
use vstd::prelude::*;

use crate::errors::Error;
use crate::schema::Schema;
use crate::record::{Entry, Values};
use crate::value::{physical_of, same_text, PhysicalType, Value, ValueView};

verus! {

/// Records a segment holds before it is closed without waiting for its timer.
pub const CACHE_CAPACITY: usize = 1000;

/// A column definition: its name and physical type.
#[derive(Debug, Clone, PartialEq)]
pub struct Field {
    pub name: String,
    pub physical: PhysicalType,
}

/// A column definition as plain values.
pub type FieldView = (Seq<char>, PhysicalType);

impl View for Field {
    type V = FieldView;

    open spec fn view(&self) -> FieldView {
        (self.name@, self.physical)
    }
}

/// The views of a list of column definitions.
pub open spec fn fields_view(v: Seq<Field>) -> Seq<FieldView> {
    v.map_values(|f: Field| f@)
}

/// The schema a record induces: its columns in key order, each with the
/// physical type of its value.
pub open spec fn schema_of(r: Seq<Entry>) -> Seq<FieldView> {
    r.map_values(|e: Entry| (e.0, physical_of(e.1)))
}

/// Builds the column definitions a record induces.
pub fn fields_of(values: &Values) -> (r: Vec<Field>)
    ensures
        fields_view(r@) == schema_of(values@),
{
    let mut out: Vec<Field> = Vec::new();
    let mut i: usize = 0;
    while i < values.len()
        invariant
            i <= values@.len(),
            fields_view(out@) == schema_of(values@.take(i as int)),
        decreases values@.len() - i,
    {
        let name = values.key_at(i).clone();
        let physical = values.value_at(i).physical_type();
        let f = Field { name, physical };
        assert(f@ == (values@[i as int].0, physical_of(values@[i as int].1)));
        let ghost before = out@;
        out.push(f);
        assert(values@.take(i + 1) =~= values@.take(i as int).push(values@[i as int]));
        assert(schema_of(values@.take(i + 1)) =~= schema_of(values@.take(i as int)).push(f@));
        assert(fields_view(out@) =~= fields_view(before).push(f@));
        i = i + 1;
    }
    assert(values@.take(i as int) =~= values@);
    out
}

/// A copy of a list of column definitions.
pub fn copy_fields(fields: &Vec<Field>) -> (r: Vec<Field>)
    ensures
        fields_view(r@) == fields_view(fields@),
{
    let mut out: Vec<Field> = Vec::new();
    let mut i: usize = 0;
    while i < fields.len()
        invariant
            i <= fields@.len(),
            fields_view(out@) == fields_view(fields@).take(i as int),
        decreases fields@.len() - i,
    {
        let f = Field { name: fields[i].name.clone(), physical: fields[i].physical };
        let ghost before = out@;
        out.push(f);
        assert(fields_view(out@) =~= fields_view(before).push(f@));
        assert(fields_view(fields@).take(i + 1) =~= fields_view(fields@).take(i as int).push(
            fields@[i as int]@,
        ));
        i = i + 1;
    }
    assert(fields_view(fields@).take(i as int) =~= fields_view(fields@));
    out
}

/// Whether a record has exactly the given columns, in order, with values of
/// the given types.
pub fn fits(fields: &Vec<Field>, values: &Values) -> (r: bool)
    ensures
        r == (schema_of(values@) == fields_view(fields@)),
{
    if fields.len() != values.len() {
        assert(schema_of(values@).len() != fields_view(fields@).len());
        return false;
    }
    let mut i: usize = 0;
    while i < fields.len()
        invariant
            i <= fields@.len(),
            fields@.len() == values@.len(),
            forall|j: int| 0 <= j < i ==> schema_of(values@)[j] == fields_view(fields@)[j],
        decreases fields@.len() - i,
    {
        if !same_text(fields[i].name.as_str(), values.key_at(i).as_str())
            || fields[i].physical != values.value_at(i).physical_type() {
            assert(schema_of(values@)[i as int] != fields_view(fields@)[i as int]);
            return false;
        }
        i = i + 1;
    }
    assert(schema_of(values@) =~= fields_view(fields@));
    true
}

/// A typed column vector.
#[derive(Debug, Clone, PartialEq)]
pub enum Column {
    Int64(Vec<i64>),
    /// Float values by their bit patterns.
    Float(Vec<u64>),
    String(Vec<String>),
}

pub enum ColumnView {
    Int64(Seq<i64>),
    Float(Seq<u64>),
    Str(Seq<Seq<char>>),
}

impl View for Column {
    type V = ColumnView;

    open spec fn view(&self) -> ColumnView {
        match self {
            Column::Int64(v) => ColumnView::Int64(v@),
            Column::Float(v) => ColumnView::Float(v@),
            Column::String(v) => ColumnView::Str(v@.map_values(|s: String| s@)),
        }
    }
}

pub open spec fn int_of(v: ValueView) -> i64 {
    match v {
        ValueView::Int64(x) => x,
        _ => 0,
    }
}

pub open spec fn float_of(v: ValueView) -> u64 {
    match v {
        ValueView::Float(x) => x,
        _ => 0,
    }
}

pub open spec fn text_of(v: ValueView) -> Seq<char> {
    match v {
        ValueView::Str(s) => s,
        _ => Seq::empty(),
    }
}

/// Column `j` of the records, in record order, typed as `t`.
pub open spec fn column_of(rs: Seq<Seq<Entry>>, j: int, t: PhysicalType) -> ColumnView {
    match t {
        PhysicalType::Int64 => ColumnView::Int64(rs.map_values(|r: Seq<Entry>| int_of(r[j].1))),
        PhysicalType::Float => ColumnView::Float(rs.map_values(|r: Seq<Entry>| float_of(r[j].1))),
        PhysicalType::ByteArray => ColumnView::Str(rs.map_values(|r: Seq<Entry>| text_of(r[j].1))),
    }
}

/// Every record has the given schema.
pub open spec fn all_fit(rs: Seq<Seq<Entry>>, fields: Seq<FieldView>) -> bool {
    forall|i: int| 0 <= i < rs.len() ==> schema_of(#[trigger] rs[i]) == fields
}

/// The columns of records that share a schema: one per field, in field
/// order, named as the field and holding each record's value in turn.
pub open spec fn pivot(rs: Seq<Seq<Entry>>, fields: Seq<FieldView>) -> Seq<(Seq<char>, ColumnView)> {
    Seq::new(fields.len(), |j: int| (fields[j].0, column_of(rs, j, fields[j].1)))
}

/// The views of a list of named columns.
pub open spec fn columns_view(c: Seq<(String, Column)>) -> Seq<(Seq<char>, ColumnView)> {
    c.map_values(|p: (String, Column)| (p.0@, p.1@))
}

/// The value a record holds in column `j`, as the column of type `t` holds it.
pub open spec fn cell_of(r: Seq<Entry>, j: int, t: PhysicalType) -> ColumnView {
    match t {
        PhysicalType::Int64 => ColumnView::Int64(seq![int_of(r[j].1)]),
        PhysicalType::Float => ColumnView::Float(seq![float_of(r[j].1)]),
        PhysicalType::ByteArray => ColumnView::Str(seq![text_of(r[j].1)]),
    }
}

/// Number of values a column holds.
pub open spec fn column_len(c: ColumnView) -> nat {
    match c {
        ColumnView::Int64(v) => v.len(),
        ColumnView::Float(v) => v.len(),
        ColumnView::Str(v) => v.len(),
    }
}

/// The values of two columns of one type, one after the other.
pub open spec fn column_concat(a: ColumnView, b: ColumnView) -> ColumnView {
    match (a, b) {
        (ColumnView::Int64(x), ColumnView::Int64(y)) => ColumnView::Int64(x + y),
        (ColumnView::Float(x), ColumnView::Float(y)) => ColumnView::Float(x + y),
        (ColumnView::Str(x), ColumnView::Str(y)) => ColumnView::Str(x + y),
        _ => a,
    }
}

/// No record is lost or repeated: each column of a closed segment holds one
/// value per record, and its value at position `i` is the one record `i` holds.
pub proof fn lemma_pivot_holds_each_record(rs: Seq<Seq<Entry>>, fields: Seq<FieldView>, j: int, i: int)
    requires
        0 <= j < fields.len(),
        0 <= i < rs.len(),
    ensures
        column_len(pivot(rs, fields)[j].1) == rs.len(),
        pivot(rs, fields)[j].0 == fields[j].0,
        column_concat(
            column_concat(
                column_of(rs.take(i), j, fields[j].1),
                cell_of(rs[i], j, fields[j].1),
            ),
            column_of(rs.skip(i + 1), j, fields[j].1),
        ) == pivot(rs, fields)[j].1,
{
    let a = rs.take(i);
    let b = rs.skip(i + 1);
    assert(rs =~= a + seq![rs[i]] + b);
    match fields[j].1 {
        PhysicalType::Int64 => {
            assert(rs.map_values(|x: Seq<Entry>| int_of(x[j].1)) =~= a.map_values(
                |x: Seq<Entry>| int_of(x[j].1),
            ) + seq![int_of(rs[i][j].1)] + b.map_values(|x: Seq<Entry>| int_of(x[j].1)));
        },
        PhysicalType::Float => {
            assert(rs.map_values(|x: Seq<Entry>| float_of(x[j].1)) =~= a.map_values(
                |x: Seq<Entry>| float_of(x[j].1),
            ) + seq![float_of(rs[i][j].1)] + b.map_values(|x: Seq<Entry>| float_of(x[j].1)));
        },
        PhysicalType::ByteArray => {
            assert(rs.map_values(|x: Seq<Entry>| text_of(x[j].1)) =~= a.map_values(
                |x: Seq<Entry>| text_of(x[j].1),
            ) + seq![text_of(rs[i][j].1)] + b.map_values(|x: Seq<Entry>| text_of(x[j].1)));
        },
    }
}

/// Segments keep the order of appending: when the records of an index go to
/// one segment and, after it closed, to the next, the two files' columns
/// together hold exactly the records in the order they were appended.
pub proof fn lemma_pivot_concat(rs1: Seq<Seq<Entry>>, rs2: Seq<Seq<Entry>>, fields: Seq<FieldView>, j: int)
    requires
        0 <= j < fields.len(),
    ensures
        column_concat(pivot(rs1, fields)[j].1, pivot(rs2, fields)[j].1) == pivot(rs1 + rs2, fields)[j].1,
{
    let rs = rs1 + rs2;
    assert(rs.map_values(|x: Seq<Entry>| int_of(x[j].1)) =~= rs1.map_values(
        |x: Seq<Entry>| int_of(x[j].1),
    ) + rs2.map_values(|x: Seq<Entry>| int_of(x[j].1)));
    assert(rs.map_values(|x: Seq<Entry>| float_of(x[j].1)) =~= rs1.map_values(
        |x: Seq<Entry>| float_of(x[j].1),
    ) + rs2.map_values(|x: Seq<Entry>| float_of(x[j].1)));
    assert(rs.map_values(|x: Seq<Entry>| text_of(x[j].1)) =~= rs1.map_values(
        |x: Seq<Entry>| text_of(x[j].1),
    ) + rs2.map_values(|x: Seq<Entry>| text_of(x[j].1)));
}

/// The views of a list of records.
pub open spec fn records_view(v: Seq<Values>) -> Seq<Seq<Entry>> {
    v.map_values(|r: Values| r@)
}

/// Row-oriented buffer of the records of one segment.
#[derive(Debug)]
pub struct Cache {
    records: Vec<Values>,
}

impl View for Cache {
    type V = Seq<Seq<Entry>>;

    closed spec fn view(&self) -> Seq<Seq<Entry>> {
        records_view(self.records@)
    }
}

fn build_column(records: &Vec<Values>, j: usize, t: PhysicalType) -> (c: Column)
    requires
        forall|i: int|
            0 <= i < records@.len() ==> j < (#[trigger] records@[i])@.len() && physical_of(
                records@[i]@[j as int].1,
            ) == t,
    ensures
        c@ == column_of(records_view(records@), j as int, t),
{
    let ghost rs = records_view(records@);
    let n = records.len();
    match t {
        PhysicalType::Int64 => {
            let mut out: Vec<i64> = Vec::new();
            let mut i: usize = 0;
            while i < n
                invariant
                    i <= n,
                    t == PhysicalType::Int64,
                    n == records@.len(),
                    rs == records_view(records@),
                    out@ == rs.take(i as int).map_values(|r: Seq<Entry>| int_of(r[j as int].1)),
                    forall|k: int|
                        0 <= k < records@.len() ==> j < (#[trigger] records@[k])@.len()
                            && physical_of(records@[k]@[j as int].1) == t,
                decreases n - i,
            {
                assert(j < records@[i as int]@.len());
                assert(physical_of(records@[i as int]@[j as int].1) == t);
                let v = records[i].value_at(j);
                match v {
                    Value::Int64(x) => {
                        out.push(*x);
                    },
                    _ => {
                        assert(false);
                    },
                }
                assert(rs.take(i + 1) =~= rs.take(i as int).push(rs[i as int]));
                assert(out@ =~= rs.take(i + 1).map_values(|r: Seq<Entry>| int_of(r[j as int].1)));
                i = i + 1;
            }
            assert(rs.take(n as int) =~= rs);
            Column::Int64(out)
        },
        PhysicalType::Float => {
            let mut out: Vec<u64> = Vec::new();
            let mut i: usize = 0;
            while i < n
                invariant
                    i <= n,
                    t == PhysicalType::Float,
                    n == records@.len(),
                    rs == records_view(records@),
                    out@ == rs.take(i as int).map_values(|r: Seq<Entry>| float_of(r[j as int].1)),
                    forall|k: int|
                        0 <= k < records@.len() ==> j < (#[trigger] records@[k])@.len()
                            && physical_of(records@[k]@[j as int].1) == t,
                decreases n - i,
            {
                assert(j < records@[i as int]@.len());
                assert(physical_of(records@[i as int]@[j as int].1) == t);
                let v = records[i].value_at(j);
                match v {
                    Value::Float(x) => {
                        out.push(*x);
                    },
                    _ => {
                        assert(false);
                    },
                }
                assert(rs.take(i + 1) =~= rs.take(i as int).push(rs[i as int]));
                assert(out@ =~= rs.take(i + 1).map_values(|r: Seq<Entry>| float_of(r[j as int].1)));
                i = i + 1;
            }
            assert(rs.take(n as int) =~= rs);
            Column::Float(out)
        },
        PhysicalType::ByteArray => {
            let mut out: Vec<String> = Vec::new();
            let mut i: usize = 0;
            while i < n
                invariant
                    i <= n,
                    t == PhysicalType::ByteArray,
                    n == records@.len(),
                    rs == records_view(records@),
                    out@.map_values(|s: String| s@) == rs.take(i as int).map_values(
                        |r: Seq<Entry>| text_of(r[j as int].1),
                    ),
                    forall|k: int|
                        0 <= k < records@.len() ==> j < (#[trigger] records@[k])@.len()
                            && physical_of(records@[k]@[j as int].1) == t,
                decreases n - i,
            {
                assert(j < records@[i as int]@.len());
                assert(physical_of(records@[i as int]@[j as int].1) == t);
                let v = records[i].value_at(j);
                match v {
                    Value::String(x) => {
                        let ghost before = out@;
                        out.push(x.clone());
                        assert(out@.map_values(|s: String| s@) =~= before.map_values(
                            |s: String| s@,
                        ).push(text_of(rs[i as int][j as int].1)));
                    },
                    _ => {
                        assert(false);
                    },
                }
                assert(rs.take(i + 1) =~= rs.take(i as int).push(rs[i as int]));
                assert(out@.map_values(|s: String| s@) =~= rs.take(i + 1).map_values(
                    |r: Seq<Entry>| text_of(r[j as int].1),
                ));
                i = i + 1;
            }
            assert(rs.take(n as int) =~= rs);
            Column::String(out)
        },
    }
}

impl Cache {
    /// Every cached record is well formed.
    pub closed spec fn wf(&self) -> bool {
        forall|i: int| 0 <= i < self.records@.len() ==> (#[trigger] self.records@[i]).wf()
    }

    pub fn new() -> (r: Cache)
        ensures
            r@ == Seq::<Seq<Entry>>::empty(),
            r.wf(),
    {
        let r = Cache { records: Vec::new() };
        assert(r@ =~= Seq::<Seq<Entry>>::empty());
        r
    }

    /// Appends a record.
    pub fn add(&mut self, values: Values)
        requires
            old(self).wf(),
            values.wf(),
        ensures
            final(self)@ == old(self)@.push(values@),
            final(self).wf(),
    {
        self.records.push(values);
        assert(self@ =~= old(self)@.push(values@));
    }

    /// Number of records.
    pub fn len(&self) -> (r: usize)
        ensures
            r == self@.len(),
    {
        self.records.len()
    }

    /// Whether the cache has reached its capacity.
    pub fn full(&self) -> (r: bool)
        ensures
            r == (self@.len() >= CACHE_CAPACITY),
    {
        self.records.len() >= CACHE_CAPACITY
    }

    pub fn is_empty(&self) -> (r: bool)
        ensures
            r == (self@.len() == 0),
    {
        self.records.len() == 0
    }

    /// Pivots the records into columns, one per field.
    pub fn to_columns(&self, fields: &Vec<Field>) -> (r: Vec<(String, Column)>)
        requires
            all_fit(self@, fields_view(fields@)),
        ensures
            columns_view(r@) == pivot(self@, fields_view(fields@)),
    {
        let ghost fv = fields_view(fields@);
        let mut out: Vec<(String, Column)> = Vec::new();
        let mut j: usize = 0;
        while j < fields.len()
            invariant
                j <= fields@.len(),
                fv == fields_view(fields@),
                all_fit(self@, fv),
                columns_view(out@) == pivot(self@, fv).take(j as int),
            decreases fields@.len() - j,
        {
            assert forall|i: int| 0 <= i < self.records@.len() implies j < (
            #[trigger] self.records@[i])@.len() && physical_of(self.records@[i]@[j as int].1)
                == fields@[j as int].physical by {
                assert(self@[i] == self.records@[i]@);
                assert(schema_of(self@[i]) == fv);
                assert(schema_of(self@[i])[j as int] == fv[j as int]);
            }
            let c = build_column(&self.records, j, fields[j].physical);
            let ghost before = out@;
            let name = fields[j].name.clone();
            assert(self@ == records_view(self.records@));
            assert((name@, c@) == pivot(self@, fv)[j as int]);
            out.push((name, c));
            assert(columns_view(out@) =~= columns_view(before).push((name@, c@)));
            assert(columns_view(out@) =~= pivot(self@, fv).take(j + 1));
            j = j + 1;
        }
        assert(pivot(self@, fv).take(j as int) =~= pivot(self@, fv));
        out
    }
}

/// The `k`-th hexadecimal digit of a 128-bit id, most significant first.
pub open spec fn nibble(id: u128, k: int) -> int {
    (id as int / pow(16, (31 - k) as nat)) % 16
}

/// The character code of a lowercase hexadecimal digit.
pub open spec fn hex_code(d: int) -> int {
    if d < 10 {
        48 + d
    } else {
        87 + d
    }
}

/// The character code at position `i` of the hyphenated form of an id: 32
/// lowercase hex digits in groups of 8-4-4-4-12, separated by '-'.
pub open spec fn uuid_code(id: u128, i: int) -> int {
    if i == 8 || i == 13 || i == 18 || i == 23 {
        45
    } else {
        let before = (if i > 8 { 1int } else { 0 }) + (if i > 13 { 1int } else { 0 }) + (if i > 18 {
            1int
        } else {
            0
        }) + (if i > 23 { 1int } else { 0 });
        hex_code(nibble(id, i - before))
    }
}

/// Whether `s` is the hyphenated form of `id`.
pub open spec fn is_hyphenated(s: Seq<char>, id: u128) -> bool {
    s.len() == 36 && forall|i: int| 0 <= i < 36 ==> #[trigger] (s[i] as int) == uuid_code(id, i)
}

/// Relies on uuid's hyphenated display of `Uuid::from_u128(id)`: the id's 16
/// big-endian bytes as lowercase hex, in groups of 8-4-4-4-12.
#[verifier::external_body]
fn hyphenated(id: u128) -> (r: String)
    ensures
        is_hyphenated(r@, id),
{
    uuid::Uuid::from_u128(id).as_hyphenated().to_string()
}

/// Whether `s` names the file of the segment with this id:
/// `./<hyphenated id>.parquet`.
pub open spec fn is_file_name_of(s: Seq<char>, id: u128) -> bool {
    &&& s.len() == 46
    &&& s.subrange(0, 2) == "./"@
    &&& is_hyphenated(s.subrange(2, 38), id)
    &&& s.subrange(38, 46) == ".parquet"@
}

/// The path of the columnar file for the segment with this id.
pub fn segment_file_name(id: u128) -> (r: String)
    ensures
        is_file_name_of(r@, id),
{
    let mut name = String::from_str("./");
    let h = hyphenated(id);
    name.append(h.as_str());
    name.append(".parquet");
    proof {
        reveal_strlit("./");
        reveal_strlit(".parquet");
        assert(name@.subrange(0, 2) =~= "./"@);
        assert(name@.subrange(2, 38) =~= h@);
        assert(name@.subrange(38, 46) =~= ".parquet"@);
    }
    name
}

/// One batch of records for one index, bound for one columnar file.
#[derive(Debug)]
pub struct Segment {
    uuid: u128,
    fields: Vec<Field>,
    cache: Option<Cache>,
}

/// What the columnar writer needs of a closed segment.
#[derive(Debug)]
pub struct Closed {
    pub uuid: u128,
    pub file_name: String,
    pub fields: Vec<Field>,
    pub columns: Vec<(String, Column)>,
}

/// A new, empty segment with id `id` for the index of `schema`.
pub fn new(schema: &Schema, id: u128) -> (r: Segment)
    ensures
        r.id() == id,
        r.schema() == fields_view(schema.fields@),
        r.records() == Some(Seq::<Seq<Entry>>::empty()),
        r.wf(),
{
    Segment { uuid: id, fields: copy_fields(&schema.fields), cache: Some(Cache::new()) }
}

impl Segment {
    /// The segment's id.
    pub closed spec fn id(&self) -> u128 {
        self.uuid
    }

    pub fn uuid(&self) -> (r: u128)
        ensures
            r == self.id(),
    {
        self.uuid
    }

    /// The schema the segment's records share.
    pub closed spec fn schema(&self) -> Seq<FieldView> {
        fields_view(self.fields@)
    }

    /// The records appended so far; `None` once the cache is gone.
    pub closed spec fn records(&self) -> Option<Seq<Seq<Entry>>> {
        match self.cache {
            Some(c) => Some(c@),
            None => None,
        }
    }

    /// Every cached record has the segment's schema.
    pub closed spec fn wf(&self) -> bool {
        match self.cache {
            Some(c) => c.wf() && all_fit(c@, fields_view(self.fields@)),
            None => true,
        }
    }

    /// True when there is no cache or it holds no record.
    pub fn is_empty(&self) -> (r: bool)
        ensures
            r == (self.records() is None || self.records().unwrap().len() == 0),
    {
        match self.cache.as_ref() {
            Some(c) => c.is_empty(),
            None => true,
        }
    }

    /// True when the cache has reached its capacity.
    pub fn full(&self) -> (r: bool)
        ensures
            r == (self.records() is Some && self.records().unwrap().len() >= CACHE_CAPACITY),
    {
        match self.cache.as_ref() {
            Some(c) => c.full(),
            None => false,
        }
    }

    /// Appends a record with the segment's schema.
    pub fn add(&mut self, values: Values) -> (r: Result<(), Error>)
        requires
            old(self).wf(),
            values.wf(),
        ensures
            final(self).wf(),
            final(self).id() == old(self).id(),
            final(self).schema() == old(self).schema(),
            old(self).records() is None ==> r == Err::<(), Error>(Error::SegmentWithoutCache)
                && final(self).records() == old(self).records(),
            old(self).records() is Some && schema_of(values@) != old(self).schema() ==> r == Err::<
                (),
                Error,
            >(Error::SchemaMismatch) && final(self).records() == old(self).records(),
            old(self).records() is Some && schema_of(values@) == old(self).schema() ==> r is Ok
                && final(self).records() == Some(old(self).records().unwrap().push(values@)),
    {
        if !fits(&self.fields, &values) {
            if self.cache.is_none() {
                return Err(Error::SegmentWithoutCache);
            }
            return Err(Error::SchemaMismatch);
        }
        match self.cache.as_mut() {
            None => Err(Error::SegmentWithoutCache),
            Some(c) => {
                c.add(values);
                Ok(())
            },
        }
    }

    /// Pivots the records into columns and names the file they go to; the
    /// caller writes that file.
    pub fn close(self) -> (r: Result<Closed, Error>)
        requires
            self.wf(),
        ensures
            self.records() is None ==> r == Err::<Closed, Error>(Error::SegmentWithoutCache),
            self.records() is Some ==> (r matches Ok(c) && c.uuid == self.id() && is_file_name_of(
                c.file_name@,
                self.id(),
            ) && fields_view(c.fields@) == self.schema()
                && columns_view(c.columns@) == pivot(self.records().unwrap(), self.schema())),
    {
        match self.cache {
            None => Err(Error::SegmentWithoutCache),
            Some(c) => {
                let columns = c.to_columns(&self.fields);
                let file_name = segment_file_name(self.uuid);
                Ok(Closed { uuid: self.uuid, file_name, fields: self.fields, columns })
            },
        }
    }
}

} // verus!
