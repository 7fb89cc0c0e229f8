use traxer::{
    apply_override, is_tty, resolve_color, resolve_config, Color, Config, ConfigOverride,
    FieldValue, OutputFormat, Policy, Stream, Terminals,
};

const NO_TTY: Terminals = Terminals { stdout: false, stderr: false };
const ALL_TTY: Terminals = Terminals { stdout: true, stderr: true };

#[test]
fn resolve_config_uses_tty_override() {
    let cfg = Config::new("x").policy(Policy {
        tty: ConfigOverride::new()
            .output_format(OutputFormat::Plain)
            .color(Color::Always)
            .span(true),
        non_tty: ConfigOverride::new().output_format(OutputFormat::Json),
    });
    let mut cfg2 = cfg.clone();
    cfg2.policy = cfg.policy.clone();

    let mut resolved = cfg2;
    if let Some(policy) = resolved.policy.take() {
        apply_override(&mut resolved, policy.tty);
    }

    assert!(matches!(resolved.output_format, OutputFormat::Plain));
    assert!(matches!(resolved.color, Color::Always));
    assert!(resolved.span);
}

#[test]
fn apply_override_replaces_all_supported_fields() {
    let mut cfg = Config::new("x")
        .plain()
        .stream(Stream::Stderr)
        .color(Color::Auto)
        .verbose(0)
        .quiet(0)
        .span(false)
        .error_report(true);

    let ov = ConfigOverride::new()
        .output_format(OutputFormat::Json)
        .stream(Stream::Stdout)
        .color(Color::Never)
        .verbose(2)
        .quiet(1)
        .filter_directives("a=debug")
        .base_fields(vec![("k".to_string(), FieldValue::Str("v".to_string()))])
        .include_pid(true)
        .include_exe(true)
        .include_version(true)
        .span(true)
        .error_report(false);
    apply_override(&mut cfg, ov);

    assert!(matches!(cfg.output_format, OutputFormat::Json));
    assert!(matches!(cfg.stream, Stream::Stdout));
    assert!(matches!(cfg.color, Color::Never));
    assert_eq!(cfg.verbose, 2);
    assert_eq!(cfg.quiet, 1);
    assert_eq!(cfg.filter_directives.as_deref(), Some("a=debug"));
    assert_eq!(cfg.base_fields.len(), 1);
    assert!(cfg.include_pid);
    assert!(cfg.include_exe);
    assert!(cfg.include_version);
    assert!(cfg.span);
    assert!(!cfg.error_report);
}

#[test]
fn empty_override_leaves_config_untouched() {
    let mut cfg = Config::new("x")
        .json()
        .stream(Stream::Stdout)
        .color(Color::Always)
        .verbose(1)
        .with_filter_directives("a=warn")
        .with_base_field("k", FieldValue::U64(7))
        .with_pid();
    apply_override(&mut cfg, ConfigOverride::new());
    assert_eq!(cfg.name, "x");
    assert!(matches!(cfg.output_format, OutputFormat::Json));
    assert!(matches!(cfg.stream, Stream::Stdout));
    assert!(matches!(cfg.color, Color::Always));
    assert_eq!(cfg.verbose, 1);
    assert_eq!(cfg.filter_directives.as_deref(), Some("a=warn"));
    assert_eq!(cfg.base_fields, vec![("k".to_string(), FieldValue::U64(7))]);
    assert!(cfg.include_pid);
    assert!(cfg.error_report);
}

#[test]
fn non_interactive_policy_yields_never_whatever_the_base_color() {
    for base in [Color::Auto, Color::Always, Color::Never] {
        let cfg = Config::new("x").color(base).policy(Policy {
            tty: ConfigOverride::new().color(Color::Always),
            non_tty: ConfigOverride::new().color(Color::Never),
        });
        let resolved = resolve_config(cfg, NO_TTY);
        assert!(matches!(resolved.color, Color::Never));
        assert!(resolved.policy.is_none());
    }
}

#[test]
fn interactive_stream_selects_tty_patch() {
    let cfg = Config::new("x").stream(Stream::Stdout).policy(Policy::default_auto());
    let resolved = resolve_config(cfg, Terminals { stdout: true, stderr: false });
    assert!(matches!(resolved.output_format, OutputFormat::Plain));
    assert!(!resolved.include_pid);

    let cfg = Config::new("x").stream(Stream::Stdout).policy(Policy::default_auto());
    let resolved = resolve_config(cfg, Terminals { stdout: false, stderr: true });
    assert!(matches!(resolved.output_format, OutputFormat::Json));
    assert!(resolved.include_pid);
    assert!(resolved.include_version);
}

#[test]
fn config_without_policy_is_unchanged_by_resolution() {
    let cfg = Config::new("x").color(Color::Always).verbose(2);
    let resolved = resolve_config(cfg, ALL_TTY);
    assert!(matches!(resolved.color, Color::Always));
    assert_eq!(resolved.verbose, 2);
}

#[test]
fn color_resolution_follows_mode_signal_and_terminal() {
    let always = Config::new("x").color(Color::Always);
    assert!(resolve_color(&always, true, NO_TTY));
    let never = Config::new("x").color(Color::Never);
    assert!(!resolve_color(&never, false, ALL_TTY));
    let auto = Config::new("x").color(Color::Auto);
    assert!(resolve_color(&auto, false, ALL_TTY));
    assert!(!resolve_color(&auto, true, ALL_TTY));
    assert!(!resolve_color(&auto, false, NO_TTY));
    assert!(is_tty(Terminals { stdout: true, stderr: false }, Stream::Stdout));
    assert!(!is_tty(Terminals { stdout: true, stderr: false }, Stream::Stderr));
}
