use filer::config::SyncConfig;
use filer::session::Coordinator;

#[test]
fn a_new_session_drains_the_old_handles_before_registering_its_own() {
    let mut coordinator = Coordinator::new();

    // session 1 comes up: nothing to drain, manifest first, then listeners
    let drained = coordinator.begin_start();
    assert!(drained.is_empty());
    coordinator.manifest_rebuilt();
    coordinator.register_handle(1);
    coordinator.register_handle(2);
    coordinator.activate();
    assert_eq!(coordinator.current_handles(), vec![1, 2]);

    // session 2 starts while session 1's listeners are still registered:
    // both old handles come back for shutdown, exactly once, newest first
    let drained = coordinator.begin_start();
    assert_eq!(drained, vec![2, 1]);
    assert!(coordinator.current_handles().is_empty());
    coordinator.manifest_rebuilt();
    coordinator.register_handle(3);
    coordinator.activate();

    // the registry shows only session 2's handles
    assert_eq!(coordinator.current_handles(), vec![3]);
}

#[test]
fn shutdown_hands_back_every_handle_and_empties_the_registry() {
    let mut coordinator = Coordinator::new();
    coordinator.begin_start();
    coordinator.manifest_rebuilt();
    coordinator.register_handle(10);
    coordinator.register_handle(11);
    coordinator.register_handle(12);
    coordinator.activate();

    let drained = coordinator.begin_shutdown();
    assert_eq!(drained, vec![12, 11, 10]);
    assert!(coordinator.current_handles().is_empty());
    coordinator.finish_shutdown();
    assert!(coordinator.current_handles().is_empty());
}

#[test]
fn config_resolution_fills_the_documented_defaults() {
    let cfg = SyncConfig::resolve(None, None, None, 4);
    assert_eq!(cfg.part_size, 102400);
    assert_eq!(cfg.max_tasks, 8);
    assert!(!cfg.show_duplicates);
}

#[test]
fn config_resolution_keeps_explicit_values() {
    let cfg = SyncConfig::resolve(Some(4096), Some(3), Some(true), 4);
    assert_eq!(cfg.part_size, 4096);
    assert_eq!(cfg.max_tasks, 3);
    assert!(cfg.show_duplicates);
}

#[test]
fn a_zero_option_falls_back_to_the_default() {
    let cfg = SyncConfig::resolve(Some(0), Some(0), None, 2);
    assert_eq!(cfg.part_size, 102400);
    assert_eq!(cfg.max_tasks, 4);
}

#[test]
fn endpoints_default_to_active_on_the_documented_ports() {
    assert_eq!(SyncConfig::resolve_endpoint(None, None, false), (true, 8080));
    assert_eq!(SyncConfig::resolve_endpoint(None, None, true), (true, 8443));
    assert_eq!(
        SyncConfig::resolve_endpoint(Some(false), Some(80), false),
        (false, 80)
    );
}

#[test]
fn download_defaults_overlap_network_wait() {
    let cfg = SyncConfig::download_defaults(6);
    assert_eq!(cfg.max_tasks, 24);
    assert_eq!(cfg.part_size, 102400);
}
