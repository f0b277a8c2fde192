//! Small helpers shared by the request-handling glue around the library.

use vstd::prelude::*;
use vstd::string::StringExecFns;
use crate::error::StreamError;
use crate::error::spec_error_name;

verus! {

/// True when `names` holds a string whose characters are `key`.
pub open spec fn contains_name(names: Seq<String>, key: Seq<char>) -> bool {
    exists|i: int| 0 <= i < names.len() && names[i]@ == key
}

/// True when some element of `header` equals `key`.
fn contains_key(header: &Vec<String>, key: &String) -> (r: bool)
    ensures
        r == contains_name(header@, key@),
{
    let mut i: usize = 0;
    while i < header.len()
        invariant
            0 <= i <= header@.len(),
            forall|k: int| 0 <= k < i ==> header@[k]@ != key@,
        decreases header@.len() - i,
    {
        if header[i] == *key {
            assert(contains_name(header@, key@));
            return true;
        }
        i += 1;
    }
    false
}

/// Whether every required header name in `headers` occurs among the names
/// in `header`.
pub fn headers_exist(header: &Vec<String>, headers: &Vec<String>) -> (r: bool)
    ensures
        r == (forall|j: int|
            0 <= j < headers@.len() ==> #[trigger] contains_name(header@, headers@[j]@)),
{
    let mut j: usize = 0;
    while j < headers.len()
        invariant
            0 <= j <= headers@.len(),
            forall|k: int| 0 <= k < j ==> #[trigger] contains_name(header@, headers@[k]@),
        decreases headers@.len() - j,
    {
        if !contains_key(header, &headers[j]) {
            return false;
        }
        j += 1;
    }
    true
}

/// The log line produced for a failed request handler.
pub open spec fn spec_error_log_line(e: StreamError) -> Seq<char> {
    "request handle error: "@ + spec_error_name(e)
}

/// Renders the log line for an error that a request handler reported.
/// The embedding program forwards it to whatever logger it uses.
pub fn request_handle_error(e: &StreamError) -> (r: String)
    ensures
        r@ == spec_error_log_line(*e),
{
    let mut s = "request handle error: ".to_owned();
    s.append(e.name());
    s
}

} // verus!
