use starry::extension_error::{InstallError, LoadError, RemoveError};
use starry::extension_interface::HookEvent;
use starry::extension_manager::ExtensionManager;
use starry::extension_store::Context;
use starry::say_hello::PluginSayHello;

fn plugin(id: &str, info: &str) -> PluginSayHello {
    PluginSayHello { id: id.to_string(), info: info.to_string() }
}

fn ctx(id: &str) -> Context {
    Context { id: id.to_string() }
}

fn fresh() -> ExtensionManager<PluginSayHello> {
    let (mgr, plan) = ExtensionManager::new(Vec::new());
    assert!(plan.is_empty());
    mgr
}

#[test]
fn install_persists_metadata() {
    let mut mgr = fresh();
    let r = mgr.install_extension(
        true,
        "libdemo.so".to_string(),
        Ok(plugin("abc", "{\"name\":\"demo\"}")),
        &ctx("r1"),
    );
    assert!(r.is_ok());
    assert!(mgr.is_running(&"abc".to_string()));
    let record = mgr.stored(&"abc".to_string()).unwrap().clone();
    assert_eq!(record, "{\"__file_name\":\"libdemo.so\",\"name\":\"demo\"}");
    assert!(record.contains("\"name\":\"demo\""));
    assert!(record.contains("libdemo.so"));
}

#[test]
fn restart_reconstructs_installed_plugins() {
    let mut mgr = fresh();
    mgr.install_extension(
        true,
        "libdemo.so".to_string(),
        Ok(plugin("abc", "{\"name\":\"demo\"}")),
        &ctx("r1"),
    )
    .unwrap();
    let mut dump: Vec<(String, String)> = Vec::new();
    for i in 0..mgr.store_len() {
        dump.push(mgr.store_entry(i).clone());
    }

    let (mut revived, plan) = ExtensionManager::<PluginSayHello>::new(dump);
    assert_eq!(plan.len(), 1);
    assert_eq!(plan[0].0, "abc");
    assert_eq!(plan[0].1, "libdemo.so");
    assert!(!revived.is_running(&"abc".to_string()));
    let replayed = revived.register_replayed(
        Ok(plugin("abc", "{\"name\":\"demo\"}")),
        &Context::default(),
    );
    assert!(replayed.is_some());
    assert!(revived.is_running(&"abc".to_string()));
    assert_eq!(revived.store_len(), 1);
}

#[test]
fn startup_drops_undecodable_entries_and_skips_failed_loads() {
    let dump = vec![
        ("abc".to_string(), "{\"__file_name\":\"a.so\",\"name\":\"demo\"}".to_string()),
        ("bad".to_string(), "not a record".to_string()),
    ];
    let (mut mgr, plan) = ExtensionManager::<PluginSayHello>::new(dump);
    assert_eq!(mgr.store_len(), 1);
    assert_eq!(plan.len(), 1);
    assert_eq!(plan[0].0, "abc");
    assert_eq!(plan[0].1, "a.so");
    let skipped = mgr.register_replayed(Err(LoadError::OsLoadFailure), &Context::default());
    assert!(skipped.is_none());
    assert!(!mgr.is_running(&"abc".to_string()));
    assert_eq!(mgr.store_len(), 1);
}

#[test]
fn install_remove_list_answer_in_order() {
    let mut mgr = fresh();
    mgr.install_extension(
        true,
        "libother.so".to_string(),
        Ok(plugin("keep", "{\"name\":\"keeper\"}")),
        &ctx("c0"),
    )
    .unwrap();
    mgr.install_extension(
        true,
        "liba.so".to_string(),
        Ok(plugin("a", "{\"name\":\"a\"}")),
        &ctx("c1"),
    )
    .unwrap();
    let removed = mgr.remove_extension(&"a".to_string(), &ctx("c2")).unwrap();
    assert_eq!(removed, "liba.so");
    mgr.list_all_extension(&ctx("c3"));

    let sent = mgr.sent();
    assert_eq!(sent.len(), 4);
    assert_eq!(sent[1].id, "c1");
    assert_eq!(sent[1].event, "installed_extension");
    assert_eq!(sent[1].payload, "{\"a\":{\"name\":\"a\"}}");
    assert_eq!(sent[2].id, "c2");
    assert_eq!(sent[2].event, "unloaded_extension");
    assert_eq!(sent[2].payload, "a");
    assert_eq!(sent[3].id, "c3");
    assert_eq!(sent[3].event, "loaded_extension");
    assert!(!sent[3].payload.starts_with("{\"a\":"));
    assert_eq!(
        sent[3].payload,
        "{\"keep\":{\"__file_name\":\"libother.so\",\"name\":\"keeper\"}}"
    );
}

#[test]
fn remove_unknown_then_twice() {
    let mut mgr = fresh();
    let r = mgr.remove_extension(&"unknown-id".to_string(), &ctx("r1"));
    match r {
        Err(RemoveError::NotInstalled(id)) => assert_eq!(id, "unknown-id"),
        _ => panic!("removing an unknown id must report NotInstalled"),
    }
    assert_eq!(mgr.store_len(), 0);
    assert_eq!(mgr.running_count(), 0);
    assert_eq!(mgr.sent().len(), 0);

    mgr.install_extension(
        true,
        "liba.so".to_string(),
        Ok(plugin("a", "{\"name\":\"a\"}")),
        &ctx("r2"),
    )
    .unwrap();
    assert!(mgr.remove_extension(&"a".to_string(), &ctx("r3")).is_ok());
    let again = mgr.remove_extension(&"a".to_string(), &ctx("r4"));
    assert!(matches!(again, Err(RemoveError::NotInstalled(_))));
    assert_eq!(mgr.store_len(), 0);
    assert_eq!(mgr.running_count(), 0);
}

#[test]
fn hot_reload_unloads_old_before_loading_new() {
    let mut mgr = fresh();
    mgr.install_extension(
        true,
        "liba.so".to_string(),
        Ok(plugin("a", "{\"name\":\"a\"}")),
        &ctx("r1"),
    )
    .unwrap();
    let swapped = mgr.try_hot_reload(Ok(plugin("a", "{\"name\":\"a2\"}")), &Context::default());
    assert_eq!(swapped.unwrap(), "a");
    assert!(mgr.is_running(&"a".to_string()));
    assert_eq!(mgr.running_count(), 1);

    let log = mgr.hook_log();
    assert_eq!(log.len(), 3);
    assert!(matches!(&log[0], HookEvent::Loaded { id } if id == "a"));
    assert!(matches!(&log[1], HookEvent::Unloaded { id } if id == "a"));
    assert!(matches!(&log[2], HookEvent::Loaded { id } if id == "a"));
}

#[test]
fn reload_failure_is_non_destructive() {
    let mut mgr = fresh();
    mgr.install_extension(
        true,
        "liba.so".to_string(),
        Ok(plugin("a", "{\"name\":\"a\"}")),
        &ctx("r1"),
    )
    .unwrap();
    let sent_before = mgr.sent().len();
    let hooks_before = mgr.hook_log().len();

    let r = mgr.try_hot_reload(Err(LoadError::SymbolNotFound), &Context::default());
    assert_eq!(r, Err(LoadError::SymbolNotFound));
    assert!(mgr.is_running(&"a".to_string()));
    assert_eq!(mgr.running_count(), 1);
    assert_eq!(mgr.store_len(), 1);
    assert_eq!(mgr.sent().len(), sent_before);
    assert_eq!(mgr.hook_log().len(), hooks_before);
}

#[test]
fn install_error_not_a_file() {
    let mut mgr = fresh();
    let r = mgr.install_extension(
        false,
        "x".to_string(),
        Ok(plugin("a", "{}")),
        &ctx("r1"),
    );
    assert_eq!(r, Err(InstallError::NotAFile));
    assert_eq!(mgr.running_count(), 0);
    assert_eq!(mgr.store_len(), 0);
}

#[test]
fn install_error_load_failed() {
    let mut mgr = fresh();
    let r = mgr.install_extension(true, "x".to_string(), Err(LoadError::OsLoadFailure), &ctx("r1"));
    assert_eq!(r, Err(InstallError::LoadFailed));
    assert_eq!(mgr.running_count(), 0);
}

#[test]
fn install_error_metadata_unparsable() {
    let mut mgr = fresh();
    let r = mgr.install_extension(
        true,
        "x.so".to_string(),
        Ok(plugin("a", "not json at all")),
        &ctx("r1"),
    );
    assert_eq!(r, Err(InstallError::MetadataParseError));
    assert!(!mgr.is_running(&"a".to_string()));
    assert_eq!(mgr.store_len(), 0);
}

#[test]
fn install_error_duplicate_id() {
    let mut mgr = fresh();
    mgr.install_extension(true, "a.so".to_string(), Ok(plugin("a", "{}")), &ctx("r1")).unwrap();
    let r = mgr.install_extension(true, "b.so".to_string(), Ok(plugin("a", "{}")), &ctx("r2"));
    assert_eq!(r, Err(InstallError::AlreadyInstalled));
    assert_eq!(mgr.running_count(), 1);
    assert_eq!(mgr.store_len(), 1);
}

#[test]
fn failed_commands_answer_with_one_error_notification() {
    let mut mgr = fresh();
    let r = mgr.install_command(false, "x".to_string(), Ok(plugin("a", "{}")), &ctx("q1"));
    assert_eq!(r, Err(InstallError::NotAFile));
    {
        let sent = mgr.sent();
        assert_eq!(sent.len(), 1);
        assert_eq!(sent[0].id, "q1");
        assert_eq!(sent[0].event, "error");
        assert_eq!(sent[0].payload, "the source path is not a file");
    }

    let r = mgr.remove_command(&"ghost".to_string(), &ctx("q2"));
    assert!(matches!(r, Err(RemoveError::NotInstalled(_))));
    let sent = mgr.sent();
    assert_eq!(sent.len(), 2);
    assert_eq!(sent[1].id, "q2");
    assert_eq!(sent[1].event, "error");
    assert_eq!(sent[1].payload, "no extension is installed under id ghost");
}

#[test]
fn successful_commands_answer_without_error() {
    let mut mgr = fresh();
    let r = mgr.install_command(
        true,
        "liba.so".to_string(),
        Ok(plugin("a", "{\"name\":\"a\"}")),
        &ctx("q1"),
    );
    assert!(r.is_ok());
    let removed = mgr.remove_command(&"a".to_string(), &ctx("q2"));
    assert_eq!(removed.unwrap(), "liba.so");
    let sent = mgr.sent();
    assert_eq!(sent.len(), 2);
    assert_eq!(sent[0].event, "installed_extension");
    assert_eq!(sent[1].event, "unloaded_extension");
}

#[test]
fn reinstall_after_remove_succeeds() {
    let mut mgr = fresh();
    mgr.install_extension(
        true,
        "liba.so".to_string(),
        Ok(plugin("a", "{\"name\":\"a\"}")),
        &ctx("r1"),
    )
    .unwrap();
    mgr.remove_extension(&"a".to_string(), &ctx("r2")).unwrap();
    let r = mgr.install_extension(
        true,
        "liba.so".to_string(),
        Ok(plugin("a", "{\"name\":\"a\"}")),
        &ctx("r3"),
    );
    assert!(r.is_ok());
    assert!(mgr.is_running(&"a".to_string()));
    assert_eq!(mgr.store_len(), 1);
}

#[test]
fn hot_reload_of_new_id_registers_it() {
    let mut mgr = fresh();
    let r = mgr.try_hot_reload(Ok(plugin("fresh", "{}")), &Context::default());
    assert_eq!(r.unwrap(), "fresh");
    assert!(mgr.is_running(&"fresh".to_string()));
    // reload never touches the persisted store
    assert_eq!(mgr.store_len(), 0);
    let log = mgr.hook_log();
    assert_eq!(log.len(), 1);
    assert!(matches!(&log[0], HookEvent::Loaded { id } if id == "fresh"));
}
