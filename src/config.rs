use vstd::prelude::*;

verus! {

/// Shape of each rendered log line.
#[derive(Clone, Copy, Debug, PartialEq, Eq, Structural)]
pub enum OutputFormat {
    Plain,
    Json,
}

/// Whether the plain format wraps level names in escape sequences.
#[derive(Clone, Copy, Debug, PartialEq, Eq, Structural)]
pub enum Color {
    Auto,
    Always,
    Never,
}

/// Destination of the rendered lines.
#[derive(Clone, Copy, Debug, PartialEq, Eq, Structural)]
pub enum Stream {
    Stdout,
    Stderr,
}

/// A typed field value, as attached to an event or to every event.
#[derive(Clone, Debug, PartialEq)]
pub enum FieldValue {
    Str(String),
    Bool(bool),
    I64(i64),
    U64(u64),
    /// A finite floating-point number, held as its JSON number text; text
    /// that is not a JSON number is rendered as a string.
    Float(String),
    /// Text produced by an error or debug rendering.
    Text(String),
}

/// Largest verbosity or quiet level; larger requests saturate to it.
pub const MAX_LEVEL_STEP: u8 = 2;

pub open spec fn clamp_step(v: u8) -> u8 {
    if v > MAX_LEVEL_STEP { MAX_LEVEL_STEP } else { v }
}

pub(crate) fn clamp(v: u8) -> (r: u8)
    ensures
        r == clamp_step(v),
{
    if v > MAX_LEVEL_STEP {
        MAX_LEVEL_STEP
    } else {
        v
    }
}


/// A patch over a [`Config`]: each present value replaces the matching
/// field, each absent one leaves it as it was.
#[derive(Clone, Debug, Default)]
pub struct ConfigOverride {
    pub output_format: Option<OutputFormat>,
    pub stream: Option<Stream>,
    pub color: Option<Color>,
    pub verbose: Option<u8>,
    pub quiet: Option<u8>,
    pub filter_directives: Option<String>,
    pub base_fields: Option<Vec<(String, FieldValue)>>,
    pub include_pid: Option<bool>,
    pub include_exe: Option<bool>,
    pub include_version: Option<bool>,
    pub span: Option<bool>,
    pub error_report: Option<bool>,
}

impl ConfigOverride {
    /// Present verbosity and quiet values lie within the saturation bound.
    pub open spec fn wf(&self) -> bool {
        &&& (self.verbose matches Some(v) ==> v <= MAX_LEVEL_STEP)
        &&& (self.quiet matches Some(q) ==> q <= MAX_LEVEL_STEP)
    }

    /// An override that changes nothing.
    pub fn new() -> (r: Self)
        ensures
            r.wf(),
            r.output_format is None,
            r.stream is None,
            r.color is None,
            r.verbose is None,
            r.quiet is None,
            r.filter_directives is None,
            r.base_fields is None,
            r.include_pid is None,
            r.include_exe is None,
            r.include_version is None,
            r.span is None,
            r.error_report is None,
    {
        ConfigOverride {
            output_format: None,
            stream: None,
            color: None,
            verbose: None,
            quiet: None,
            filter_directives: None,
            base_fields: None,
            include_pid: None,
            include_exe: None,
            include_version: None,
            span: None,
            error_report: None,
        }
    }

    pub fn output_format(self, output_format: OutputFormat) -> (r: Self)
        ensures
            r == (ConfigOverride { output_format: Some(output_format), ..self }),
    {
        ConfigOverride { output_format: Some(output_format), ..self }
    }

    pub fn stream(self, stream: Stream) -> (r: Self)
        ensures
            r == (ConfigOverride { stream: Some(stream), ..self }),
    {
        ConfigOverride { stream: Some(stream), ..self }
    }

    pub fn color(self, color: Color) -> (r: Self)
        ensures
            r == (ConfigOverride { color: Some(color), ..self }),
    {
        ConfigOverride { color: Some(color), ..self }
    }

    /// Sets the verbosity, saturating at [`MAX_LEVEL_STEP`].
    pub fn verbose(self, verbose: u8) -> (r: Self)
        ensures
            r == (ConfigOverride { verbose: Some(clamp_step(verbose)), ..self }),
            self.wf() ==> r.wf(),
    {
        ConfigOverride { verbose: Some(clamp(verbose)), ..self }
    }

    /// Sets the quiet level, saturating at [`MAX_LEVEL_STEP`].
    pub fn quiet(self, quiet: u8) -> (r: Self)
        ensures
            r == (ConfigOverride { quiet: Some(clamp_step(quiet)), ..self }),
            self.wf() ==> r.wf(),
    {
        ConfigOverride { quiet: Some(clamp(quiet)), ..self }
    }

    pub fn filter_directives(self, directives: &str) -> (r: Self)
        ensures
            r.filter_directives matches Some(d) && d@ == directives@,
            r == (ConfigOverride { filter_directives: r.filter_directives, ..self }),
    {
        ConfigOverride { filter_directives: Some(directives.to_owned()), ..self }
    }

    pub fn base_fields(self, base_fields: Vec<(String, FieldValue)>) -> (r: Self)
        ensures
            r == (ConfigOverride { base_fields: Some(base_fields), ..self }),
    {
        ConfigOverride { base_fields: Some(base_fields), ..self }
    }

    pub fn include_pid(self, enabled: bool) -> (r: Self)
        ensures
            r == (ConfigOverride { include_pid: Some(enabled), ..self }),
    {
        ConfigOverride { include_pid: Some(enabled), ..self }
    }

    pub fn include_exe(self, enabled: bool) -> (r: Self)
        ensures
            r == (ConfigOverride { include_exe: Some(enabled), ..self }),
    {
        ConfigOverride { include_exe: Some(enabled), ..self }
    }

    pub fn include_version(self, enabled: bool) -> (r: Self)
        ensures
            r == (ConfigOverride { include_version: Some(enabled), ..self }),
    {
        ConfigOverride { include_version: Some(enabled), ..self }
    }

    pub fn span(self, enabled: bool) -> (r: Self)
        ensures
            r == (ConfigOverride { span: Some(enabled), ..self }),
    {
        ConfigOverride { span: Some(enabled), ..self }
    }

    pub fn error_report(self, enabled: bool) -> (r: Self)
        ensures
            r == (ConfigOverride { error_report: Some(enabled), ..self }),
    {
        ConfigOverride { error_report: Some(enabled), ..self }
    }
}

/// Two patches: one for an interactive destination, one for any other.
#[derive(Clone, Debug)]
pub struct Policy {
    pub tty: ConfigOverride,
    pub non_tty: ConfigOverride,
}

impl Policy {
    pub open spec fn wf(&self) -> bool {
        self.tty.wf() && self.non_tty.wf()
    }

    /// Plain, automatically coloured output on a terminal; JSON with process
    /// id and version elsewhere.
    pub fn default_auto() -> (r: Self)
        ensures
            r.wf(),
            r.tty == (ConfigOverride {
                output_format: Some(OutputFormat::Plain),
                color: Some(Color::Auto),
                span: Some(false),
                error_report: Some(true),
                verbose: Some(0u8),
                quiet: Some(0u8),
                include_pid: Some(false),
                include_version: Some(false),
                ..r.tty
            }),
            r.tty.stream is None && r.tty.filter_directives is None,
            r.tty.base_fields is None && r.tty.include_exe is None,
            r.non_tty == (ConfigOverride {
                output_format: Some(OutputFormat::Json),
                color: Some(Color::Never),
                span: Some(false),
                error_report: Some(true),
                verbose: Some(0u8),
                quiet: Some(0u8),
                include_pid: Some(true),
                include_version: Some(true),
                ..r.non_tty
            }),
            r.non_tty.stream is None && r.non_tty.filter_directives is None,
            r.non_tty.base_fields is None && r.non_tty.include_exe is None,
    {
        Policy {
            tty: ConfigOverride::new()
                .output_format(OutputFormat::Plain)
                .color(Color::Auto)
                .span(false)
                .error_report(true)
                .verbose(0)
                .quiet(0)
                .include_pid(false)
                .include_version(false),
            non_tty: ConfigOverride::new()
                .output_format(OutputFormat::Json)
                .color(Color::Never)
                .span(false)
                .error_report(true)
                .verbose(0)
                .quiet(0)
                .include_pid(true)
                .include_version(true),
        }
    }
}


/// Logging settings, with an optional policy that is applied once the
/// destination's interactivity is known.
#[derive(Clone, Debug)]
pub struct Config {
    pub name: String,
    pub policy: Option<Policy>,
    pub output_format: OutputFormat,
    pub stream: Stream,
    pub color: Color,
    pub verbose: u8,
    pub quiet: u8,
    pub filter_directives: Option<String>,
    pub base_fields: Vec<(String, FieldValue)>,
    pub include_pid: bool,
    pub include_exe: bool,
    pub include_version: bool,
    pub span: bool,
    pub error_report: bool,
}

impl Config {
    /// Verbosity and quiet level are within the saturation bound, and so is
    /// every patch of the policy.
    pub open spec fn wf(&self) -> bool {
        &&& self.verbose <= MAX_LEVEL_STEP
        &&& self.quiet <= MAX_LEVEL_STEP
        &&& (self.policy matches Some(p) ==> p.wf())
    }

    /// Plain output to standard error, automatic colour, level `info`, no
    /// fields, error reporting on.
    pub fn new(name: &str) -> (r: Self)
        ensures
            r.wf(),
            r.name@ == name@,
            r.policy is None,
            r.output_format == OutputFormat::Plain,
            r.stream == Stream::Stderr,
            r.color == Color::Auto,
            r.verbose == 0,
            r.quiet == 0,
            r.filter_directives is None,
            r.base_fields@.len() == 0,
            !r.include_pid,
            !r.include_exe,
            !r.include_version,
            !r.span,
            r.error_report,
    {
        Config {
            name: name.to_owned(),
            policy: None,
            output_format: OutputFormat::Plain,
            stream: Stream::Stderr,
            color: Color::Auto,
            verbose: 0,
            quiet: 0,
            filter_directives: None,
            base_fields: Vec::new(),
            include_pid: false,
            include_exe: false,
            include_version: false,
            span: false,
            error_report: true,
        }
    }

    pub fn policy(self, policy: Policy) -> (r: Self)
        ensures
            r == (Config { policy: Some(policy), ..self }),
            self.wf() && policy.wf() ==> r.wf(),
    {
        Config { policy: Some(policy), ..self }
    }

    /// Sets the verbosity, saturating at [`MAX_LEVEL_STEP`].
    pub fn verbose(self, verbose: u8) -> (r: Self)
        ensures
            r == (Config { verbose: clamp_step(verbose), ..self }),
            self.wf() ==> r.wf(),
    {
        Config { verbose: clamp(verbose), ..self }
    }

    /// Sets the quiet level, saturating at [`MAX_LEVEL_STEP`].
    pub fn quiet(self, quiet: u8) -> (r: Self)
        ensures
            r == (Config { quiet: clamp_step(quiet), ..self }),
            self.wf() ==> r.wf(),
    {
        Config { quiet: clamp(quiet), ..self }
    }

    pub fn with_filter_directives(self, directives: &str) -> (r: Self)
        ensures
            r.filter_directives matches Some(d) && d@ == directives@,
            r == (Config { filter_directives: r.filter_directives, ..self }),
    {
        Config { filter_directives: Some(directives.to_owned()), ..self }
    }

    /// Appends a static field, after those already present.
    pub fn with_base_field(self, key: &str, value: FieldValue) -> (r: Self)
        ensures
            r.base_fields@.len() == self.base_fields@.len() + 1,
            r.base_fields@.drop_last() == self.base_fields@,
            r.base_fields@.last().0@ == key@,
            r.base_fields@.last().1 == value,
            r == (Config { base_fields: r.base_fields, ..self }),
    {
        let mut cfg = self;
        cfg.base_fields.push((key.to_owned(), value));
        cfg
    }

    pub fn plain(self) -> (r: Self)
        ensures
            r == (Config { output_format: OutputFormat::Plain, ..self }),
    {
        Config { output_format: OutputFormat::Plain, ..self }
    }

    pub fn json(self) -> (r: Self)
        ensures
            r == (Config { output_format: OutputFormat::Json, ..self }),
    {
        Config { output_format: OutputFormat::Json, ..self }
    }

    pub fn stream(self, stream: Stream) -> (r: Self)
        ensures
            r == (Config { stream: stream, ..self }),
    {
        Config { stream: stream, ..self }
    }

    pub fn color(self, color: Color) -> (r: Self)
        ensures
            r == (Config { color: color, ..self }),
    {
        Config { color: color, ..self }
    }

    pub fn with_pid(self) -> (r: Self)
        ensures
            r == (Config { include_pid: true, ..self }),
    {
        Config { include_pid: true, ..self }
    }

    pub fn with_exe(self) -> (r: Self)
        ensures
            r == (Config { include_exe: true, ..self }),
    {
        Config { include_exe: true, ..self }
    }

    pub fn with_version(self) -> (r: Self)
        ensures
            r == (Config { include_version: true, ..self }),
    {
        Config { include_version: true, ..self }
    }

    pub fn span(self, enabled: bool) -> (r: Self)
        ensures
            r == (Config { span: enabled, ..self }),
    {
        Config { span: enabled, ..self }
    }

    pub fn error_report(self, enabled: bool) -> (r: Self)
        ensures
            r == (Config { error_report: enabled, ..self }),
    {
        Config { error_report: enabled, ..self }
    }
}

} // verus!
