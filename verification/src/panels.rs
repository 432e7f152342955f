use vstd::prelude::*;

use crate::http::QueryParam;

verus! {

/// State the query-parameter editor keeps between frames: the draft row
/// not yet added to the open request's table.
#[derive(Debug, Default)]
pub struct ParamsPanel {
    pub new_param: QueryParam,
}

/// State holder of the panel that lists a tab's test outcomes; it reads
/// the tab's test result and keeps nothing of its own.
#[derive(Debug, Default)]
pub struct TestResultPanel {}

/// State holder of the pre-request script editor; the script text lives on
/// the record being edited.
#[derive(Debug, Default)]
pub struct RequestPreScriptPanel {}

} // verus!
