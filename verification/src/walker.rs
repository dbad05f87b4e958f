use vstd::prelude::*;

use crate::checker::{CheckOptions, Violation, check_bytes, spec_check_bytes};

verus! {

/// The result of checking a single file: its path and the violations found.
///
/// The results that [`check_file`] builds always hold at least one violation.
pub struct FileResult {
    /// Path of the checked file, as given or discovered.
    pub path: String,
    /// Violations found in the file.
    pub violations: Vec<Violation>,
}

/// Checks the content of one file: the result names the file and lists its
/// violations, or is `None` when the file has none.
pub fn check_file(path: String, content: &[u8], options: CheckOptions) -> (r: Option<FileResult>)
    requires
        content@.len() < usize::MAX,
    ensures
        spec_check_bytes(content@, options).len() == 0 ==> r is None,
        spec_check_bytes(content@, options).len() > 0 ==> (r matches Some(res) && res.path@
            == path@ && res.violations@ == spec_check_bytes(content@, options)),
{
    let violations = check_bytes(content, options);
    if violations.len() == 0 {
        None
    } else {
        Some(FileResult { path, violations })
    }
}

} // verus!
