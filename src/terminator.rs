use vstd::prelude::*;

use crate::errors::Error;
use crate::segment::{columns_view, fields_view, is_file_name_of, pivot, Closed, Segment};

verus! {

/// Takes expired segments and turns them into what their file needs.
#[derive(Debug)]
pub struct Terminator {}

pub fn new() -> (r: Terminator) {
    Terminator {}
}

impl Terminator {
    /// Drops an empty segment; closes any other one.
    pub fn terminate(&self, segment: Segment) -> (r: Result<Option<Closed>, Error>)
        requires
            segment.wf(),
        ensures
            segment.records() is None || segment.records().unwrap().len() == 0 ==> r == Ok::<
                Option<Closed>,
                Error,
            >(None),
            segment.records() is Some && segment.records().unwrap().len() > 0 ==> (r matches Ok(
                Some(c),
            ) && c.uuid == segment.id() && is_file_name_of(c.file_name@, segment.id())
                && fields_view(c.fields@) == segment.schema() && columns_view(c.columns@) == pivot(
                segment.records().unwrap(),
                segment.schema(),
            )),
    {
        if segment.is_empty() {
            return Ok(None);
        }
        match segment.close() {
            Ok(c) => Ok(Some(c)),
            Err(e) => Err(e),
        }
    }
}

} // verus!
