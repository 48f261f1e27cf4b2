//! What a source binding stands for in generated Go.

use vstd::prelude::*;

verus! {

/// Go text substituted for a binding at each use, with the emitter variables
/// it reads.
pub struct InlineExpr {
    pub text: String,
    /// Emitter variables the text references, recorded as uses on
    /// substitution.
    pub refs: Vec<String>,
    pub contains_deferred_evaluation: bool,
}

impl InlineExpr {
    pub fn new(text: String, refs: Vec<String>, contains_deferred_evaluation: bool) -> (r: Self)
        ensures
            r == (InlineExpr { text, refs, contains_deferred_evaluation }),
    {
        InlineExpr { text, refs, contains_deferred_evaluation }
    }

    pub fn as_str(&self) -> (r: &str)
        ensures
            r@ == self.text@,
    {
        self.text.as_str()
    }

    pub fn refs(&self) -> (r: &[String])
        ensures
            r@ == self.refs@,
    {
        self.refs.as_slice()
    }

    pub fn contains_deferred_evaluation(&self) -> (r: bool)
        ensures
            r == self.contains_deferred_evaluation,
    {
        self.contains_deferred_evaluation
    }
}

/// A binding: a Go variable, a Go constant, or text inlined at each use.
pub enum BindingValue {
    GoName(String),
    GoConst(String),
    InlineExpr(InlineExpr),
}

impl BindingValue {
    /// The Go name of a variable or constant binding.
    pub fn as_go_name(&self) -> (r: Option<&str>)
        ensures
            match *self {
                BindingValue::GoName(n) => r matches Some(x) && x@ == n@,
                BindingValue::GoConst(n) => r matches Some(x) && x@ == n@,
                BindingValue::InlineExpr(_) => r is None,
            },
    {
        match self {
            BindingValue::GoName(name) => Some(name.as_str()),
            BindingValue::GoConst(name) => Some(name.as_str()),
            BindingValue::InlineExpr(_) => None,
        }
    }

    pub fn is_go_const(&self) -> (r: bool)
        ensures
            r == (*self is GoConst),
    {
        matches!(self, BindingValue::GoConst(_))
    }
}

} // verus!
