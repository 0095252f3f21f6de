use vstd::prelude::*;

use crate::record::{insert_entry, lemma_insert_greatest, sorted, Entry, Values};
use crate::value::{same_text, Value, ValueView};

verus! {

/// A decoded change, routed by index name.
#[derive(Debug, Clone)]
pub enum Event {
    Insert(String, Values),
    Update(String, Values),
    Delete(String, Values),
    /// The segment with this id, for this index, has reached its lifetime.
    SegmentExpired(String, u128),
}

impl Default for Event {
    fn default() -> (r: Self)
        ensures
            r matches Event::Insert(index, values) && index@ == "undefined index"@ && values@.len()
                == 0,
    {
        Event::Insert(String::from_str("undefined index"), Values::new())
    }
}

/// What kind of row change a mutation is.
#[derive(Debug, Clone, Copy, PartialEq, Eq, Structural)]
pub enum MutationKind {
    Insert,
    Update,
    Delete,
}

impl MutationKind {
    /// The kind that a wire name denotes: "insert", "update" or "delete".
    pub fn from_name(name: &str) -> (r: Option<MutationKind>)
        ensures
            name@ == "insert"@ ==> r == Some(MutationKind::Insert),
            name@ == "update"@ ==> r == Some(MutationKind::Update),
            name@ == "delete"@ ==> r == Some(MutationKind::Delete),
            name@ != "insert"@ && name@ != "update"@ && name@ != "delete"@ ==> r is None,
    {
        proof {
            reveal_strlit("insert");
            reveal_strlit("update");
            reveal_strlit("delete");
            assert("insert"@[0] != "update"@[0]);
            assert("insert"@[0] != "delete"@[0]);
            assert("update"@[0] != "delete"@[0]);
        }
        if same_text(name, "insert") {
            Some(MutationKind::Insert)
        } else if same_text(name, "update") {
            Some(MutationKind::Update)
        } else if same_text(name, "delete") {
            Some(MutationKind::Delete)
        } else {
            None
        }
    }
}

/// A JSON scalar of the wire format, as far as decoding reads it.
#[derive(Debug, Clone, PartialEq)]
pub enum Scalar {
    /// A number that fits a signed 64-bit integer.
    Integer(i64),
    Text(String),
    /// Anything else (a float, a number out of range, null, ...).
    Other,
}

pub enum ScalarView {
    Integer(i64),
    Text(Seq<char>),
    Other,
}

impl View for Scalar {
    type V = ScalarView;

    open spec fn view(&self) -> ScalarView {
        match self {
            Scalar::Integer(x) => ScalarView::Integer(*x),
            Scalar::Text(s) => ScalarView::Text(s@),
            Scalar::Other => ScalarView::Other,
        }
    }
}

/// One row change as the logical-replication JSON carries it: three lists,
/// aligned by position.
#[derive(Debug, Clone)]
pub struct Mutation {
    pub kind: MutationKind,
    pub table: String,
    pub columns: Vec<String>,
    pub values: Vec<Scalar>,
    pub types: Vec<String>,
}

/// Why a mutation could not be decoded.
#[derive(Debug, Clone, Copy, PartialEq, Eq, Structural)]
pub enum DecodeError {
    /// The column, value and type lists differ in length.
    ColumnCountMismatch,
    /// A column type other than "integer" or "text".
    UnknownType,
    /// A value that does not fit its column type.
    ValueMismatch,
}

/// How one wire value decodes under its column type.
pub open spec fn decode_scalar(ty: Seq<char>, v: ScalarView) -> Result<ValueView, DecodeError> {
    if ty == "integer"@ {
        match v {
            ScalarView::Integer(x) => Ok(ValueView::Int64(x)),
            _ => Err(DecodeError::ValueMismatch),
        }
    } else if ty == "text"@ {
        match v {
            ScalarView::Text(s) => Ok(ValueView::Str(s)),
            _ => Err(DecodeError::ValueMismatch),
        }
    } else {
        Err(DecodeError::UnknownType)
    }
}

/// The record that the first `n` aligned columns decode to, each set in turn.
pub open spec fn decode_columns(
    cols: Seq<Seq<char>>,
    types: Seq<Seq<char>>,
    vals: Seq<ScalarView>,
    n: nat,
) -> Result<Seq<Entry>, DecodeError>
    decreases n,
{
    if n == 0 {
        Ok(Seq::empty())
    } else {
        match decode_columns(cols, types, vals, (n - 1) as nat) {
            Err(e) => Err(e),
            Ok(acc) => match decode_scalar(types[n - 1], vals[n - 1]) {
                Err(e) => Err(e),
                Ok(v) => Ok(insert_entry(acc, cols[n - 1], v)),
            },
        }
    }
}

/// The texts of a list of strings.
pub open spec fn texts(v: Seq<String>) -> Seq<Seq<char>> {
    v.map_values(|c: String| c@)
}

/// The views of a list of wire scalars.
pub open spec fn scalars(v: Seq<Scalar>) -> Seq<ScalarView> {
    v.map_values(|x: Scalar| x@)
}

/// The record that a mutation's three lists decode to.
pub open spec fn decode_record(m: Mutation) -> Result<Seq<Entry>, DecodeError> {
    let cols = texts(m.columns@);
    let types = texts(m.types@);
    let vals = scalars(m.values@);
    if cols.len() != types.len() || cols.len() != vals.len() {
        Err(DecodeError::ColumnCountMismatch)
    } else {
        decode_columns(cols, types, vals, cols.len())
    }
}

/// The wire type name of a value's tag.
pub open spec fn wire_type_of(v: ValueView) -> Seq<char> {
    match v {
        ValueView::Str(_) => "text"@,
        _ => "integer"@,
    }
}

/// The wire scalar that carries a value.
pub open spec fn scalar_of(v: ValueView) -> ScalarView {
    match v {
        ValueView::Int64(x) => ScalarView::Integer(x),
        ValueView::Str(s) => ScalarView::Text(s),
        ValueView::Float(_) => ScalarView::Other,
    }
}

/// Decoding what a record encodes to gives the record back, for records of
/// integers and strings: the columns, types and values listed in key order
/// decode, one after the other, to the same entries.
pub proof fn lemma_decode_encode(r: Seq<Entry>)
    requires
        sorted(r),
        forall|i: int| 0 <= i < r.len() ==> !(#[trigger] r[i].1 is Float),
    ensures
        decode_columns(
            r.map_values(|e: Entry| e.0),
            r.map_values(|e: Entry| wire_type_of(e.1)),
            r.map_values(|e: Entry| scalar_of(e.1)),
            r.len(),
        ) == Ok::<Seq<Entry>, DecodeError>(r),
{
    lemma_decode_prefix(r, r.len());
    assert(r.take(r.len() as int) =~= r);
}

proof fn lemma_decode_prefix(r: Seq<Entry>, n: nat)
    requires
        n <= r.len(),
        sorted(r),
        forall|i: int| 0 <= i < r.len() ==> !(#[trigger] r[i].1 is Float),
    ensures
        decode_columns(
            r.map_values(|e: Entry| e.0),
            r.map_values(|e: Entry| wire_type_of(e.1)),
            r.map_values(|e: Entry| scalar_of(e.1)),
            n,
        ) == Ok::<Seq<Entry>, DecodeError>(r.take(n as int)),
    decreases n,
{
    let cols = r.map_values(|e: Entry| e.0);
    let types = r.map_values(|e: Entry| wire_type_of(e.1));
    let vals = r.map_values(|e: Entry| scalar_of(e.1));
    if n == 0 {
        assert(r.take(0) =~= Seq::<Entry>::empty());
    } else {
        lemma_decode_prefix(r, (n - 1) as nat);
        let k = (n - 1) as int;
        let acc = r.take(k);
        assert(!(r[k].1 is Float));
        reveal_strlit("text");
        reveal_strlit("integer");
        assert("text"@.len() != "integer"@.len());
        assert(types[k] == wire_type_of(r[k].1));
        assert(vals[k] == scalar_of(r[k].1));
        assert(decode_scalar(types[k], vals[k]) == Ok::<ValueView, DecodeError>(r[k].1));
        assert forall|j: int| 0 <= j < acc.len() implies crate::value::key_lt(
            #[trigger] acc[j].0,
            cols[k],
        ) by {
            assert(acc[j] == r[j]);
        }
        lemma_insert_greatest(acc, cols[k], r[k].1);
        assert(acc.push((cols[k], r[k].1)) =~= r.take(n as int));
    }
}

/// Whether a column type is the given name.
fn is_type(ty: &String, name: &str) -> (r: bool)
    ensures
        r == (ty@ == name@),
{
    same_text(ty.as_str(), name)
}

impl Value {
    /// Decodes one wire value under its column type.
    pub fn from_wire(ty: &String, v: &Scalar) -> (r: Result<Value, DecodeError>)
        ensures
            match r {
                Ok(x) => decode_scalar(ty@, v@) == Ok::<ValueView, DecodeError>(x@),
                Err(e) => decode_scalar(ty@, v@) == Err::<ValueView, DecodeError>(e),
            },
    {
        if is_type(ty, "integer") {
            match v {
                Scalar::Integer(x) => Ok(Value::Int64(*x)),
                _ => Err(DecodeError::ValueMismatch),
            }
        } else if is_type(ty, "text") {
            match v {
                Scalar::Text(s) => Ok(Value::String(s.clone())),
                _ => Err(DecodeError::ValueMismatch),
            }
        } else {
            Err(DecodeError::UnknownType)
        }
    }
}

proof fn lemma_decode_error_stays(
    cols: Seq<Seq<char>>,
    types: Seq<Seq<char>>,
    vals: Seq<ScalarView>,
    i: nat,
    n: nat,
)
    requires
        i <= n,
        decode_columns(cols, types, vals, i) is Err,
    ensures
        decode_columns(cols, types, vals, n) == decode_columns(cols, types, vals, i),
    decreases n - i,
{
    if i < n {
        lemma_decode_error_stays(cols, types, vals, i, (n - 1) as nat);
    }
}

/// What a mutation decodes to: an insert carries its decoded record; an
/// update or a delete keeps its kind, with an empty record.
pub open spec fn decodes_to(m: Mutation, r: Result<Event, DecodeError>) -> bool {
    match m.kind {
        MutationKind::Insert => match decode_record(m) {
            Ok(rec) => r matches Ok(Event::Insert(index, values)) && index@ == m.table@ && values@
                == rec && values.wf(),
            Err(e) => r == Err::<Event, DecodeError>(e),
        },
        MutationKind::Update => r matches Ok(Event::Update(index, values)) && index@ == m.table@
            && values@.len() == 0,
        MutationKind::Delete => r matches Ok(Event::Delete(index, values)) && index@ == m.table@
            && values@.len() == 0,
    }
}

impl Event {
    /// Decodes one mutation. The index is the mutation's table.
    pub fn from_mutation(m: &Mutation) -> (r: Result<Event, DecodeError>)
        ensures
            decodes_to(*m, r),
    {
        match m.kind {
            MutationKind::Update => {
                return Ok(Event::Update(m.table.clone(), Values::new()));
            },
            MutationKind::Delete => {
                return Ok(Event::Delete(m.table.clone(), Values::new()));
            },
            MutationKind::Insert => {},
        }
        let n = m.columns.len();
        if n != m.types.len() || n != m.values.len() {
            return Err(DecodeError::ColumnCountMismatch);
        }
        let ghost cols = texts(m.columns@);
        let ghost types = texts(m.types@);
        let ghost vals = scalars(m.values@);
        let mut acc = Values::new();
        let mut i: usize = 0;
        while i < n
            invariant
                i <= n,
                m.kind == MutationKind::Insert,
                n == m.columns@.len(),
                n == m.types@.len(),
                n == m.values@.len(),
                cols == texts(m.columns@),
                types == texts(m.types@),
                vals == scalars(m.values@),
                acc.wf(),
                decode_columns(cols, types, vals, i as nat) == Ok::<Seq<Entry>, DecodeError>(acc@),
            decreases n - i,
        {
            match Value::from_wire(&m.types[i], &m.values[i]) {
                Ok(v) => {
                    acc.insert(m.columns[i].clone(), v);
                },
                Err(e) => {
                    proof {
                        assert(types[i as int] == m.types@[i as int]@);
                        assert(vals[i as int] == m.values@[i as int]@);
                        assert(decode_columns(cols, types, vals, (i + 1) as nat) == Err::<
                            Seq<Entry>,
                            DecodeError,
                        >(e));
                        lemma_decode_error_stays(cols, types, vals, (i + 1) as nat, n as nat);
                    }
                    return Err(e);
                },
            }
            i = i + 1;
        }
        Ok(Event::Insert(m.table.clone(), acc))
    }
}

/// The error a mutation fails to decode with, if any.
pub open spec fn decode_error(m: Mutation) -> Option<DecodeError> {
    match m.kind {
        MutationKind::Insert => match decode_record(m) {
            Err(e) => Some(e),
            Ok(_) => None,
        },
        _ => None,
    }
}

/// Decodes the mutations of one payload, in order; the first failure fails
/// the whole payload.
pub fn events_from_mutations(ms: &Vec<Mutation>) -> (r: Result<Vec<Event>, DecodeError>)
    ensures
        r is Ok <==> forall|i: int| 0 <= i < ms@.len() ==> decode_error(#[trigger] ms@[i]) is None,
        r matches Ok(evs) ==> evs@.len() == ms@.len() && forall|i: int|
            0 <= i < ms@.len() ==> decodes_to(#[trigger] ms@[i], Ok(evs@[i])),
        r matches Err(e) ==> exists|i: int|
            0 <= i < ms@.len() && decode_error(#[trigger] ms@[i]) == Some(e) && forall|j: int|
                0 <= j < i ==> decode_error(#[trigger] ms@[j]) is None,
{
    let mut out: Vec<Event> = Vec::new();
    let mut i: usize = 0;
    while i < ms.len()
        invariant
            i <= ms@.len(),
            out@.len() == i,
            forall|k: int| 0 <= k < i ==> decodes_to(#[trigger] ms@[k], Ok(out@[k])),
            forall|k: int| 0 <= k < i ==> decode_error(#[trigger] ms@[k]) is None,
        decreases ms.len() - i,
    {
        match Event::from_mutation(&ms[i]) {
            Ok(ev) => {
                out.push(ev);
            },
            Err(e) => {
                assert(decode_error(ms@[i as int]) == Some(e));
                return Err(e);
            },
        }
        i = i + 1;
    }
    Ok(out)
}

} // verus!
