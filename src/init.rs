use vstd::prelude::*;

use crate::config::{Config, FieldValue, OutputFormat, Stream};
use crate::error::InitError;
use crate::fields::{
    build_base_fields, computed_fields, entries_view, has_key, lemma_sorted_keys_distinct,
    lemma_user_field_wins, merged, sorted_by_key, VERSION,
};
use crate::directive::Filter;
use crate::filter::{build_filter, filter_outcome};
use crate::format::{Formatter, JsonFormatter, PlainFormatter};
use crate::resolve::{resolve_color, resolve_config, resolved, spec_use_color, Terminals};

verus! {

/// The process-wide record of whether logging has been installed. It starts
/// unset, is set once by a successful installation, and is never cleared.
pub struct InitGuard {
    installed: bool,
}

impl InitGuard {
    pub closed spec fn installed(&self) -> bool {
        self.installed
    }

    pub fn new() -> (r: Self)
        ensures
            !r.installed(),
    {
        InitGuard { installed: false }
    }
}

/// Whether logging has been installed.
pub fn is_initialized(guard: &InitGuard) -> (r: bool)
    ensures
        r == guard.installed(),
{
    guard.installed
}

/// What an installation attempt does first.
#[derive(Debug)]
pub enum InitStep {
    /// Already installed: report success and do nothing more.
    AlreadyInitialized,
    /// Install, with the configuration resolved against its destination.
    Install(Config),
}

pub open spec fn spec_begin(installed: bool, cfg: Config, t: Terminals) -> InitStep {
    if installed {
        InitStep::AlreadyInitialized
    } else {
        InitStep::Install(resolved(cfg, t))
    }
}

/// Starts an installation attempt: nothing to do once installed, else the
/// resolved configuration to install.
pub fn begin(guard: &InitGuard, cfg: Config, t: Terminals) -> (r: InitStep)
    ensures
        r == spec_begin(guard.installed(), cfg, t),
        cfg.wf() ==> (r matches InitStep::Install(c) ==> c.wf() && c.policy is None),
{
    if guard.installed {
        InitStep::AlreadyInitialized
    } else {
        InitStep::Install(resolve_config(cfg, t))
    }
}

/// What the surroundings supply: the values read from the process and its
/// environment.
#[derive(Clone, Debug)]
pub struct Environment {
    /// The externally supplied filter expression, if one is set.
    pub filter_override: Option<String>,
    /// Whether the colour-suppression signal is present.
    pub no_color: bool,
    pub terminals: Terminals,
    pub pid: u32,
    /// Base name of the running executable, where it can be read.
    pub exe_name: Option<String>,
}

/// A filter, a formatter and a destination, ready to be installed.
pub struct Setup {
    pub filter: Filter,
    pub formatter: Formatter,
    pub stream: Stream,
}

/// Whether `r` is the aggregated base-field list for these sources.
pub open spec fn is_base_fields(
    r: Seq<(String, FieldValue)>,
    include_pid: bool,
    pid: u32,
    include_exe: bool,
    exe_name: Option<String>,
    include_version: bool,
    user: Seq<(String, FieldValue)>,
) -> bool {
    &&& sorted_by_key(entries_view(r))
    &&& exists|version_text: String|
        version_text@ == VERSION@ && merged(entries_view(r)) == merged(
            computed_fields(
                include_pid,
                pid,
                include_exe,
                exe_name,
                include_version,
                version_text,
            ) + entries_view(user),
        )
}

/// The aggregated base fields have distinct keys, and a key that a user
/// field names holds the value of the last user field with that key,
/// whatever was computed for it.
pub proof fn lemma_base_fields_user_wins(
    r: Seq<(String, FieldValue)>,
    include_pid: bool,
    pid: u32,
    include_exe: bool,
    exe_name: Option<String>,
    include_version: bool,
    user: Seq<(String, FieldValue)>,
    k: Seq<char>,
)
    requires
        is_base_fields(r, include_pid, pid, include_exe, exe_name, include_version, user),
        has_key(entries_view(user), k),
    ensures
        forall|i: int, j: int|
            0 <= i < r.len() && 0 <= j < r.len() && i != j ==> #[trigger] r[i].0@ != #[trigger] r[j].0@,
        merged(entries_view(r)).contains_key(k),
        merged(entries_view(r))[k] == merged(entries_view(user))[k],
{
    let vt = choose|vt: String|
        vt@ == VERSION@ && merged(entries_view(r)) == merged(
            computed_fields(include_pid, pid, include_exe, exe_name, include_version, vt)
                + entries_view(user),
        );
    lemma_user_field_wins(
        computed_fields(include_pid, pid, include_exe, exe_name, include_version, vt),
        entries_view(user),
        k,
    );
    assert forall|i: int, j: int|
        0 <= i < r.len() && 0 <= j < r.len() && i != j implies #[trigger] r[i].0@
        != #[trigger] r[j].0@ by {
        lemma_sorted_keys_distinct(entries_view(r), i, j);
    }
}

pub open spec fn opt_string_view(s: Option<String>) -> Option<Seq<char>> {
    match s {
        Some(t) => Some(t@),
        None => None,
    }
}

/// Builds the filter, the base fields and the formatter that `cfg` asks
/// for.
pub fn prepare(cfg: Config, env: Environment) -> (r: Result<Setup, InitError>)
    ensures
        match filter_outcome(opt_string_view(env.filter_override), cfg) {
            Ok(src) => r matches Ok(s) && s.filter.source() == src,
            Err(x) => r matches Err(InitError::InvalidFilterDirectives(y)) && y@ == x,
        },
        r matches Ok(s) ==> {
            &&& s.stream == cfg.stream
            &&& match s.formatter {
                Formatter::Plain(f) => {
                    &&& cfg.output_format == OutputFormat::Plain
                    &&& f.name@ == cfg.name@
                    &&& f.span == cfg.span
                    &&& f.color == spec_use_color(cfg.color, cfg.stream, env.no_color, env.terminals)
                    &&& is_base_fields(
                        f.base_fields@,
                        cfg.include_pid,
                        env.pid,
                        cfg.include_exe,
                        env.exe_name,
                        cfg.include_version,
                        cfg.base_fields@,
                    )
                },
                Formatter::Json(f) => {
                    &&& cfg.output_format == OutputFormat::Json
                    &&& f.name@ == cfg.name@
                    &&& f.span == cfg.span
                    &&& is_base_fields(
                        f.base_fields@,
                        cfg.include_pid,
                        env.pid,
                        cfg.include_exe,
                        env.exe_name,
                        cfg.include_version,
                        cfg.base_fields@,
                    )
                },
            }
        },
{
    let filter = match &env.filter_override {
        Some(e) => build_filter(Some(e.as_str()), &cfg),
        None => build_filter(None, &cfg),
    };
    let filter = match filter {
        Ok(f) => f,
        Err(e) => {
            return Err(e);
        },
    };
    let use_color = resolve_color(&cfg, env.no_color, env.terminals);
    let Config {
        name,
        policy: _,
        output_format,
        stream,
        color: _,
        verbose: _,
        quiet: _,
        filter_directives: _,
        base_fields,
        include_pid,
        include_exe,
        include_version,
        span,
        error_report: _,
    } = cfg;
    let Environment { filter_override: _, no_color: _, terminals: _, pid, exe_name } = env;
    let fields = build_base_fields(
        include_pid,
        pid,
        include_exe,
        exe_name,
        include_version,
        base_fields,
    );
    let formatter = match output_format {
        OutputFormat::Json => Formatter::Json(JsonFormatter { name, base_fields: fields, span }),
        OutputFormat::Plain => Formatter::Plain(
            PlainFormatter { name, color: use_color, base_fields: fields, span },
        ),
    };
    Ok(Setup { filter, formatter, stream })
}

pub open spec fn spec_finish(installed: bool, outcome: Result<(), String>) -> bool {
    installed || outcome is Ok
}

/// Records the outcome of installing the sink: success sets the guard;
/// failure leaves it as it was and is reported with its detail.
pub fn finish(guard: &mut InitGuard, outcome: Result<(), String>) -> (r: Result<(), InitError>)
    ensures
        final(guard).installed() == spec_finish(old(guard).installed(), outcome),
        match outcome {
            Ok(()) => r is Ok,
            Err(d) => r == Err::<(), InitError>(InitError::SetGlobalDefault(d)),
        },
{
    match outcome {
        Ok(()) => {
            guard.installed = true;
            Ok(())
        },
        Err(d) => Err(InitError::SetGlobalDefault(d)),
    }
}

/// Once an attempt has installed logging, every later attempt, whatever its
/// configuration, succeeds without doing anything, and the guard stays set.
pub proof fn lemma_second_attempt_is_noop(
    installed: bool,
    later: Config,
    t: Terminals,
    outcome: Result<(), String>,
)
    requires
        spec_finish(installed, Ok(())),
    ensures
        spec_begin(spec_finish(installed, Ok(())), later, t) is AlreadyInitialized,
        spec_finish(spec_finish(installed, Ok(())), outcome),
{
}

} // verus!
