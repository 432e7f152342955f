use vstd::prelude::*;

verus! {

/// One piece of script text together with a label naming the folder or
/// request it came from; the label fixes the execution order contract.
#[derive(Clone, Debug)]
pub struct ScriptScope {
    pub script: String,
    pub scope: String,
}

/// Mathematical image of a [`ScriptScope`].
#[verifier::ext_equal]
pub struct ScriptScopeImage {
    pub script: Seq<char>,
    pub scope: Seq<char>,
}

impl DeepView for ScriptScope {
    type V = ScriptScopeImage;

    open spec fn deep_view(&self) -> ScriptScopeImage {
        ScriptScopeImage { script: self.script.deep_view(), scope: self.scope.deep_view() }
    }
}

} // verus!
