use vstd::prelude::*;

use crate::config::{clamp, clamp_step, Color, Config, ConfigOverride, Stream};

verus! {

/// Whether each standard stream is attached to an interactive terminal.
#[derive(Clone, Copy, Debug, PartialEq, Eq, Structural)]
pub struct Terminals {
    pub stdout: bool,
    pub stderr: bool,
}

pub open spec fn spec_is_tty(t: Terminals, stream: Stream) -> bool {
    match stream {
        Stream::Stdout => t.stdout,
        Stream::Stderr => t.stderr,
    }
}

/// Whether `stream` is interactive; absence of information counts as not.
pub fn is_tty(t: Terminals, stream: Stream) -> (r: bool)
    ensures
        r == spec_is_tty(t, stream),
{
    match stream {
        Stream::Stdout => t.stdout,
        Stream::Stderr => t.stderr,
    }
}

/// `cfg` with each field that `ov` holds replaced by it; name and policy are
/// kept.
pub open spec fn overridden(cfg: Config, ov: ConfigOverride) -> Config {
    Config {
        name: cfg.name,
        policy: cfg.policy,
        output_format: match ov.output_format { Some(v) => v, None => cfg.output_format },
        stream: match ov.stream { Some(v) => v, None => cfg.stream },
        color: match ov.color { Some(v) => v, None => cfg.color },
        verbose: match ov.verbose { Some(v) => clamp_step(v), None => cfg.verbose },
        quiet: match ov.quiet { Some(v) => clamp_step(v), None => cfg.quiet },
        filter_directives: match ov.filter_directives {
            Some(v) => Some(v),
            None => cfg.filter_directives,
        },
        base_fields: match ov.base_fields { Some(v) => v, None => cfg.base_fields },
        include_pid: match ov.include_pid { Some(v) => v, None => cfg.include_pid },
        include_exe: match ov.include_exe { Some(v) => v, None => cfg.include_exe },
        include_version: match ov.include_version { Some(v) => v, None => cfg.include_version },
        span: match ov.span { Some(v) => v, None => cfg.span },
        error_report: match ov.error_report { Some(v) => v, None => cfg.error_report },
    }
}

fn pick<T: Copy>(o: Option<T>, cur: T) -> (r: T)
    ensures
        r == (match o { Some(v) => v, None => cur }),
{
    match o {
        Some(v) => v,
        None => cur,
    }
}

fn pick_step(o: Option<u8>, cur: u8) -> (r: u8)
    ensures
        r == (match o { Some(v) => clamp_step(v), None => cur }),
{
    match o {
        Some(v) => clamp(v),
        None => cur,
    }
}

fn with_override(cfg: Config, ov: ConfigOverride) -> (r: Config)
    ensures
        r == overridden(cfg, ov),
{
    Config {
        name: cfg.name,
        policy: cfg.policy,
        output_format: pick(ov.output_format, cfg.output_format),
        stream: pick(ov.stream, cfg.stream),
        color: pick(ov.color, cfg.color),
        verbose: pick_step(ov.verbose, cfg.verbose),
        quiet: pick_step(ov.quiet, cfg.quiet),
        filter_directives: match ov.filter_directives {
            Some(v) => Some(v),
            None => cfg.filter_directives,
        },
        base_fields: match ov.base_fields {
            Some(v) => v,
            None => cfg.base_fields,
        },
        include_pid: pick(ov.include_pid, cfg.include_pid),
        include_exe: pick(ov.include_exe, cfg.include_exe),
        include_version: pick(ov.include_version, cfg.include_version),
        span: pick(ov.span, cfg.span),
        error_report: pick(ov.error_report, cfg.error_report),
    }
}

/// Applies every present value of `ov` to `cfg`, field by field.
pub fn apply_override(cfg: &mut Config, ov: ConfigOverride)
    ensures
        *final(cfg) == overridden(*old(cfg), ov),
        old(cfg).wf() ==> final(cfg).wf(),
{
    let mut current = Config::new("");
    core::mem::swap(cfg, &mut current);
    let mut next = with_override(current, ov);
    core::mem::swap(cfg, &mut next);
}

/// The configuration after its policy, if any, has been applied: the patch
/// for an interactive destination when the configured stream is one, else
/// the other. The policy itself is consumed.
pub open spec fn resolved(cfg: Config, t: Terminals) -> Config {
    match cfg.policy {
        None => cfg,
        Some(p) => {
            let ov = if spec_is_tty(t, cfg.stream) { p.tty } else { p.non_tty };
            overridden(Config { policy: None, ..cfg }, ov)
        },
    }
}

/// Resolves the policy of `cfg` against the destination's interactivity.
pub fn resolve_config(cfg: Config, t: Terminals) -> (r: Config)
    ensures
        r == resolved(cfg, t),
        r.policy is None,
        cfg.wf() ==> r.wf(),
{
    let tty = is_tty(t, cfg.stream);
    let mut cfg = cfg;
    let policy = cfg.policy.take();
    match policy {
        None => cfg,
        Some(p) => {
            let ov = if tty { p.tty } else { p.non_tty };
            apply_override(&mut cfg, ov);
            cfg
        },
    }
}

/// Whether the plain format colours its level names.
pub open spec fn spec_use_color(color: Color, stream: Stream, no_color: bool, t: Terminals) -> bool {
    match color {
        Color::Always => true,
        Color::Never => false,
        Color::Auto => !no_color && spec_is_tty(t, stream),
    }
}

/// Decides colouring once: `Always` and `Never` are obeyed; `Auto` colours
/// only an interactive stream, and never when the colour-suppression signal
/// `no_color` is present.
pub fn resolve_color(cfg: &Config, no_color: bool, t: Terminals) -> (r: bool)
    ensures
        r == spec_use_color(cfg.color, cfg.stream, no_color, t),
{
    match cfg.color {
        Color::Always => true,
        Color::Never => false,
        Color::Auto => {
            if no_color {
                false
            } else {
                is_tty(t, cfg.stream)
            }
        },
    }
}

} // verus!
