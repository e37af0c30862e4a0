use vstd::prelude::*;

verus! {

/// One violation found when a fetched catalog object was validated against
/// its schema. Validation itself is a collaborator outside the library; the
/// library renders and classifies what the validator found.
#[derive(Debug)]
pub enum Diagnostic {
    /// A schema violation: the validator's message and the document path it
    /// names.
    Schema { message: String, path: String },
    /// Any other validation failure, rendered as its message.
    Other { message: String },
}

/// What `diagnostic_line` returns, as a sequence of characters.
pub open spec fn spec_diagnostic_line(d: Diagnostic) -> Seq<char> {
    match d {
        Diagnostic::Schema { message, path } => "(jsonschema) "@ + message@ + " @ "@ + path@,
        Diagnostic::Other { message } => "(other) "@ + message@,
    }
}

/// One report line for one diagnostic, naming the offending path when the
/// validator gave one.
pub fn diagnostic_line(d: &Diagnostic) -> (line: String)
    ensures
        line@ == spec_diagnostic_line(*d),
{
    match d {
        Diagnostic::Schema { message, path } => {
            let mut s = String::from_str("(jsonschema) ");
            s.append(message.as_str());
            s.append(" @ ");
            s.append(path.as_str());
            proof {
                assert(s@ =~= spec_diagnostic_line(*d));
            }
            s
        },
        Diagnostic::Other { message } => {
            let mut s = String::from_str("(other) ");
            s.append(message.as_str());
            s
        },
    }
}

/// The whole validation report: one line per diagnostic, in order, none
/// dropped — violations are reported in full, never short-circuited at the
/// first one.
pub fn diagnostic_lines(diagnostics: &Vec<Diagnostic>) -> (lines: Vec<String>)
    ensures
        lines@.len() == diagnostics@.len(),
        forall|i: int|
            0 <= i < diagnostics@.len() ==> #[trigger] lines@[i]@ == spec_diagnostic_line(
                diagnostics@[i],
            ),
{
    let mut lines: Vec<String> = Vec::new();
    let mut i: usize = 0;
    while i < diagnostics.len()
        invariant
            0 <= i <= diagnostics@.len(),
            lines@.len() == i,
            forall|j: int|
                0 <= j < i ==> #[trigger] lines@[j]@ == spec_diagnostic_line(diagnostics@[j]),
        decreases diagnostics@.len() - i,
    {
        let line = diagnostic_line(&diagnostics[i]);
        lines.push(line);
        i = i + 1;
    }
    lines
}

/// A validated object exits 0 exactly when the validator reported nothing.
pub fn validation_exit_code(diagnostics: &Vec<Diagnostic>) -> (code: i32)
    ensures
        code == 0 <==> diagnostics@.len() == 0,
        code == 0 || code == 1,
{
    if diagnostics.len() == 0 {
        0
    } else {
        1
    }
}

} // verus!
