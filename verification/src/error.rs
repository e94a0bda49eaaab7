//! Diagnostics collected by the front end for the host to report.

use vstd::prelude::*;

verus! {

/// One message for the diagnostic sink: the line it concerns and its text.
#[derive(Debug)]
pub struct Diagnostic {
    pub line: usize,
    pub message: String,
}

/// What a diagnostic says, as mathematical values.
pub struct DiagnosticView {
    pub line: nat,
    pub message: Seq<char>,
}

impl View for Diagnostic {
    type V = DiagnosticView;

    open spec fn view(&self) -> DiagnosticView {
        DiagnosticView { line: self.line as nat, message: self.message@ }
    }
}

impl Clone for Diagnostic {
    fn clone(&self) -> (r: Self)
        ensures
            r == *self,
    {
        Diagnostic { line: self.line, message: self.message.clone() }
    }
}

impl Diagnostic {
    pub fn new(line: usize, message: &str) -> (r: Diagnostic)
        ensures
            r@ == (DiagnosticView { line: line as nat, message: message@ }),
    {
        Diagnostic { line, message: String::from_str(message) }
    }

    /// The text a sink prints for this diagnostic.
    pub fn render(&self) -> (r: String)
        ensures
            r@ == self.message@,
    {
        self.message.clone()
    }
}

/// The views of a list of diagnostics, in order.
pub open spec fn diagnostics_view(list: Seq<Diagnostic>) -> Seq<DiagnosticView> {
    Seq::new(list.len(), |i: int| list[i]@)
}

} // verus!
