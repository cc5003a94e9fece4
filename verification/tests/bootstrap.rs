use app_shell::bootstrap::{Bootstrapper, Command, PluginKind};

#[test]
fn plugins_register_in_the_fixed_order() {
    let mut boot = Bootstrapper::new();
    let mut seen = Vec::new();
    while let Some(plugin) = boot.register_next_plugin() {
        seen.push(plugin);
    }
    assert_eq!(
        seen,
        vec![PluginKind::Dialog, PluginKind::Shell, PluginKind::Fs, PluginKind::Opener]
    );
    assert_eq!(boot.registered_plugins(), seen);
}

#[test]
fn a_fresh_shell_is_not_running() {
    let boot = Bootstrapper::new();
    assert!(!boot.has_started());
    assert_eq!(boot.registered_plugins(), Vec::new());
    assert_eq!(boot.command_table(), Vec::new());
}

#[test]
fn command_table_holds_exactly_the_resolver_command() {
    let mut boot = Bootstrapper::new();
    while boot.register_next_plugin().is_some() {}
    boot.install_command_table();
    assert_eq!(boot.command_table(), vec![Command::GetProjectDir]);
}

#[test]
fn run_loop_starts_only_after_full_registration() {
    let mut boot = Bootstrapper::new();
    assert!(!boot.has_started());
    while boot.register_next_plugin().is_some() {}
    assert_eq!(boot.registered_plugins().len(), 4);
    boot.install_command_table();
    assert!(!boot.has_started());
    boot.start_run_loop();
    assert!(boot.has_started());
    assert_eq!(boot.registered_plugins().len(), 4);
    assert_eq!(boot.command_table(), vec![Command::GetProjectDir]);
}
