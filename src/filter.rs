use vstd::prelude::*;

use crate::config::Config;
use crate::directive::{
    check_directives_readable, directive_error_of, directives_accepted, directives_readable, Filter,
};
use crate::error::InitError;

verus! {

/// Severity of an event, most severe first.
#[derive(Clone, Copy, Debug, PartialEq, Eq, Structural)]
pub enum Level {
    Error,
    Warn,
    Info,
    Debug,
    Trace,
}

/// The level that a verbosity and a quiet level select: quiet dominates.
pub open spec fn spec_level_for(verbose: u8, quiet: u8) -> Level {
    if quiet == 0 {
        if verbose == 0 {
            Level::Info
        } else if verbose == 1 {
            Level::Debug
        } else {
            Level::Trace
        }
    } else if quiet == 1 {
        Level::Warn
    } else {
        Level::Error
    }
}

/// Maps a verbosity and a quiet level to the minimum level shown.
pub fn level_for(verbose: u8, quiet: u8) -> (r: Level)
    ensures
        r == spec_level_for(verbose, quiet),
{
    if quiet == 0 {
        if verbose == 0 {
            Level::Info
        } else if verbose == 1 {
            Level::Debug
        } else {
            Level::Trace
        }
    } else if quiet == 1 {
        Level::Warn
    } else {
        Level::Error
    }
}

/// Any quiet level of at least one decides the level whatever the
/// verbosity.
pub proof fn lemma_quiet_dominates(v1: u8, v2: u8, quiet: u8)
    requires
        quiet >= 1,
    ensures
        spec_level_for(v1, quiet) == spec_level_for(v2, quiet),
        spec_level_for(v1, quiet) == (if quiet == 1 { Level::Warn } else { Level::Error }),
{
}

pub open spec fn spec_directive_name(l: Level) -> Seq<char> {
    match l {
        Level::Error => "error"@,
        Level::Warn => "warn"@,
        Level::Info => "info"@,
        Level::Debug => "debug"@,
        Level::Trace => "trace"@,
    }
}

/// The lower-case name of `l`, as a filter directive.
pub fn directive_name(l: Level) -> (r: &'static str)
    ensures
        r@ == spec_directive_name(l),
{
    proof {
        reveal_strlit("error");
        reveal_strlit("warn");
        reveal_strlit("info");
        reveal_strlit("debug");
        reveal_strlit("trace");
    }
    match l {
        Level::Error => "error",
        Level::Warn => "warn",
        Level::Info => "info",
        Level::Debug => "debug",
        Level::Trace => "trace",
    }
}

/// Where the filter comes from, highest precedence first.
pub enum FilterSource {
    /// The externally supplied expression, already parsed; used as it
    /// stands.
    External(Filter),
    /// The configuration's directive string.
    Directives(String),
    /// The level derived from verbosity and quiet level.
    Level(Level),
}

/// Picks the filter source: a usable external filter wins, then the
/// configured directives, then the verbosity table.
pub fn select_filter(external: Option<Filter>, cfg: &Config) -> (r: FilterSource)
    ensures
        external matches Some(f) ==> r == FilterSource::External(f),
        external is None ==> match cfg.filter_directives {
            Some(d) => r matches FilterSource::Directives(rd) && rd@ == d@,
            None => r == FilterSource::Level(spec_level_for(cfg.verbose, cfg.quiet)),
        },
{
    match external {
        Some(f) => FilterSource::External(f),
        None => match &cfg.filter_directives {
            Some(d) => FilterSource::Directives(d.clone()),
            None => FilterSource::Level(level_for(cfg.verbose, cfg.quiet)),
        },
    }
}

/// Detail of the error for directives that the parser cannot read: it
/// would slice them inside a character, so it never accepts them.
pub const UNREADABLE_DIRECTIVES: &'static str =
    "a filter directive that begins with white space is cut inside a character";

/// The filter that the configuration yields: `Ok` with the directive text
/// used, or `Err` with the detail of the invalid-directives error. A set
/// external expression is used as it stands whenever the parser can read
/// it; the configured directives give an error exactly when the parser
/// refuses them.
pub open spec fn filter_outcome(external: Option<Seq<char>>, cfg: Config) -> Result<
    Seq<char>,
    Seq<char>,
> {
    match external {
        Some(e) if directives_readable(e) => Ok(e),
        _ => match cfg.filter_directives {
            Some(d) => if !directives_readable(d@) {
                Err(UNREADABLE_DIRECTIVES@)
            } else if directives_accepted(d@) {
                Ok(d@)
            } else {
                Err(directive_error_of(d@))
            },
            None => Ok(spec_directive_name(spec_level_for(cfg.verbose, cfg.quiet))),
        },
    }
}

pub open spec fn opt_str_view(s: Option<&str>) -> Option<Seq<char>> {
    match s {
        Some(t) => Some(t@),
        None => None,
    }
}

/// Builds the filter: `external` (the environment's expression, if set) is
/// used as it stands, its invalid directives skipped, unless the parser
/// cannot read it; otherwise the configured directives, whose refusal by
/// the parser is an error; otherwise the level from the verbosity table.
pub fn build_filter(external: Option<&str>, cfg: &Config) -> (r: Result<Filter, InitError>)
    ensures
        match filter_outcome(opt_str_view(external), *cfg) {
            Ok(src) => r matches Ok(f) && f.source() == src,
            Err(x) => r matches Err(InitError::InvalidFilterDirectives(y)) && y@ == x,
        },
{
    let usable = match external {
        Some(e) => {
            if check_directives_readable(e) {
                match Filter::parse(e) {
                    Ok(f) => Some(f),
                    Err(_) => Some(Filter::lenient(e)),
                }
            } else {
                None
            }
        },
        None => None,
    };
    match select_filter(usable, cfg) {
        FilterSource::External(f) => Ok(f),
        FilterSource::Directives(d) => {
            if !check_directives_readable(d.as_str()) {
                return Err(InitError::InvalidFilterDirectives(UNREADABLE_DIRECTIVES.to_owned()));
            }
            match Filter::parse(d.as_str()) {
                Ok(f) => Ok(f),
                Err(detail) => Err(InitError::InvalidFilterDirectives(detail)),
            }
        },
        FilterSource::Level(l) => {
            let name = directive_name(l);
            proof {
                reveal_strlit("error");
                reveal_strlit("warn");
                reveal_strlit("info");
                reveal_strlit("debug");
                reveal_strlit("trace");
            }
            Ok(Filter::for_level_name(name))
        },
    }
}

} // verus!
