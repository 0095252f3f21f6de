use vstd::prelude::*;

verus! {

/// A configuration must hold exactly one top-level document.
#[derive(Debug, Clone, Copy, PartialEq, Eq, Structural)]
pub enum ConfigError {
    /// The number of top-level documents found, when it is not one.
    DocumentCount(usize),
}

/// Accepts a configuration of exactly one top-level document.
pub fn check_document_count(n: usize) -> (r: Result<(), ConfigError>)
    ensures
        r is Ok <==> n == 1,
        n != 1 ==> r == Err::<(), ConfigError>(ConfigError::DocumentCount(n)),
{
    if n == 1 {
        Ok(())
    } else {
        Err(ConfigError::DocumentCount(n))
    }
}

} // verus!
