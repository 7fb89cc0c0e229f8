use vstd::prelude::*;

verus! {

/// Why an installation attempt failed; each variant carries the detail.
#[derive(Clone, Debug, PartialEq, Eq)]
pub enum InitError {
    InvalidFilterDirectives(String),
    InstallErrorReporter(String),
    SetGlobalDefault(String),
}

impl InitError {
    /// A one-line description of the failure.
    pub fn message(&self) -> (r: String)
        ensures
            r@ == match self {
                InitError::InvalidFilterDirectives(d) => "invalid filter directives: "@ + d@,
                InitError::InstallErrorReporter(d) => "failed to install error reporter: "@ + d@,
                InitError::SetGlobalDefault(d) => "failed to set global tracing subscriber: "@
                    + d@,
            },
    {
        let (prefix, detail) = match self {
            InitError::InvalidFilterDirectives(d) => ("invalid filter directives: ", d),
            InitError::InstallErrorReporter(d) => ("failed to install error reporter: ", d),
            InitError::SetGlobalDefault(d) => ("failed to set global tracing subscriber: ", d),
        };
        let mut out = prefix.to_owned();
        out.append(detail.as_str());
        out
    }
}

} // verus!
