use cutty::config::{is_blank, validate_font_families, ConfigError, TerminalConfig, WindowConfig};

#[test]
fn validation_rejects_empty_font_stack() {
    let families: Vec<String> = Vec::new();
    let error = validate_font_families(&families).expect_err("empty font stack should fail");
    assert!(error.message().contains("font.families must include at least one family"));
}

#[test]
fn blank_font_family_is_rejected() {
    let families = vec!["JetBrainsMono Nerd Font Mono".to_string(), " \t".to_string()];
    assert_eq!(validate_font_families(&families), Err(ConfigError::EmptyFontFamily));
    assert_eq!(ConfigError::EmptyFontFamily.message(), "font.families cannot contain empty entries");
}

#[test]
fn named_font_families_pass() {
    let families = vec!["JetBrainsMono Nerd Font Mono".to_string(), "Symbols Nerd Font Mono".to_string(), "monospace".to_string()];
    assert_eq!(validate_font_families(&families), Ok(()));
}

#[test]
fn blank_means_only_whitespace() {
    assert!(is_blank(&String::new()));
    assert!(is_blank(&" \n\t ".to_string()));
    assert!(!is_blank(&" a ".to_string()));
}

#[test]
fn window_defaults_and_validation() {
    let window = WindowConfig::default();
    assert_eq!((window.width, window.height), (1180, 760));
    assert_eq!(window.validate(), Ok(()));
    assert_eq!(WindowConfig { width: 0, height: 10 }.validate(), Err(ConfigError::ZeroWindowWidth));
    assert_eq!(WindowConfig { width: 10, height: 0 }.validate(), Err(ConfigError::ZeroWindowHeight));
    assert_eq!(WindowConfig { width: 0, height: 0 }.validate(), Err(ConfigError::ZeroWindowWidth));
}

#[test]
fn terminal_defaults_and_shell_validation() {
    let terminal = TerminalConfig::default();
    assert_eq!(terminal.scrollback, 5000);
    assert_eq!(terminal.shell, None);
    assert_eq!(terminal.validate(), Ok(()));
    let blank_shell = TerminalConfig { scrollback: 10, shell: Some("   ".to_string()) };
    assert_eq!(blank_shell.validate(), Err(ConfigError::EmptyShell));
    assert_eq!(ConfigError::EmptyShell.message(), "terminal.shell cannot be empty");
    let zsh = TerminalConfig { scrollback: 10, shell: Some("/bin/zsh".to_string()) };
    assert_eq!(zsh.validate(), Ok(()));
}
