use vstd::prelude::*;

use crate::errors::Error;
use crate::record::Values;
use crate::value::same_text;
use crate::segment::{fields_of, fields_view, schema_of, Field, Segment};

verus! {

/// The schema of one index: its name, the columns the first record fixed,
/// and the live segment, if any.
#[derive(Debug)]
pub struct Schema {
    pub name: String,
    pub fields: Vec<Field>,
    pub segment: Option<Segment>,
}

/// A record can found a schema when its index and all its column names are
/// non-empty.
pub open spec fn nameable(index: Seq<char>, r: Seq<crate::record::Entry>) -> bool {
    index.len() > 0 && forall|i: int| 0 <= i < r.len() ==> (#[trigger] r[i]).0.len() > 0
}

impl Schema {
    /// Infers the schema of index `index` from its first record.
    pub fn try_from(index: &str, values: &Values) -> (r: Result<Schema, Error>)
        ensures
            nameable(index@, values@) ==> (r matches Ok(s) && s.name@ == index@ && fields_view(
                s.fields@,
            ) == schema_of(values@) && s.segment is None),
            !nameable(index@, values@) ==> r == Err::<Schema, Error>(Error::EmptyName),
    {
        if index.is_empty() {
            return Err(Error::EmptyName);
        }
        let mut i: usize = 0;
        while i < values.len()
            invariant
                i <= values@.len(),
                forall|j: int| 0 <= j < i ==> (#[trigger] values@[j]).0.len() > 0,
            decreases values@.len() - i,
        {
            if values.key_at(i).as_str().is_empty() {
                return Err(Error::EmptyName);
            }
            i = i + 1;
        }
        Ok(Schema { name: index.to_string(), fields: fields_of(values), segment: None })
    }

    /// The index name.
    pub fn name(&self) -> (r: String)
        ensures
            r@ == self.name@,
    {
        self.name.clone()
    }

    /// The column definitions.
    pub fn fields(&self) -> (r: &Vec<Field>)
        ensures
            r == &self.fields,
    {
        &self.fields
    }
}

/// Schemas are equal when their index names are.
impl PartialEq for Schema {
    fn eq(&self, other: &Schema) -> (r: bool) {
        same_text(self.name.as_str(), other.name.as_str())
    }
}

impl vstd::std_specs::cmp::PartialEqSpecImpl for Schema {
    open spec fn obeys_eq_spec() -> bool {
        true
    }

    open spec fn eq_spec(&self, other: &Schema) -> bool {
        self.name@ == other.name@
    }
}

} // verus!
