use starry::extension_interface::HookEvent;
use starry::extension_store::{Context, Extensions};
use starry::say_hello::PluginSayHello;

fn plugin(id: &str) -> PluginSayHello {
    PluginSayHello { id: id.to_string(), info: "{\"name\":\"demo\"}".to_string() }
}

fn ctx(id: &str) -> Context {
    Context { id: id.to_string() }
}

#[test]
fn register_announces_install() {
    let mut reg: Extensions<PluginSayHello> = Extensions::new();
    let (id, info) = reg.load_extension(plugin("abc"), &ctx("r1")).ok().unwrap();
    assert_eq!(id, "abc");
    assert_eq!(info, "{\"name\":\"demo\"}");
    assert_eq!(reg.count(), 1);
    assert!(reg.contains(&"abc".to_string()));
    let sent = reg.sent();
    assert_eq!(sent.len(), 1);
    assert_eq!(sent[0].id, "r1");
    assert_eq!(sent[0].event, "installed_extension");
    assert_eq!(sent[0].payload, "{\"abc\":{\"name\":\"demo\"}}");
}

#[test]
fn duplicate_id_is_refused_not_replaced() {
    let mut reg: Extensions<PluginSayHello> = Extensions::new();
    assert!(reg.load_extension(plugin("abc"), &ctx("r1")).is_ok());
    let second = reg.load_extension(plugin("abc"), &ctx("r2"));
    match second {
        Err(returned) => assert_eq!(returned.id, "abc"),
        Ok(_) => panic!("a second instance under the same id must be refused"),
    }
    assert_eq!(reg.count(), 1);
    assert_eq!(reg.sent().len(), 1);
}

#[test]
fn unload_unknown_id_is_a_no_op() {
    let mut reg: Extensions<PluginSayHello> = Extensions::new();
    assert!(reg.unload_extension_by_id(&"ghost".to_string(), &ctx("r1")).is_none());
    assert_eq!(reg.count(), 0);
    assert_eq!(reg.sent().len(), 0);
    assert_eq!(reg.hook_log().len(), 0);
}

#[test]
fn unload_runs_hook_and_announces() {
    let mut reg: Extensions<PluginSayHello> = Extensions::new();
    reg.load_extension(plugin("abc"), &ctx("r1")).ok().unwrap();
    let dropped = reg.unload_extension_by_id(&"abc".to_string(), &ctx("r2")).unwrap();
    assert_eq!(dropped.id, "abc");
    assert_eq!(reg.count(), 0);
    let sent = reg.sent();
    assert_eq!(sent.len(), 2);
    assert_eq!(sent[1].id, "r2");
    assert_eq!(sent[1].event, "unloaded_extension");
    assert_eq!(sent[1].payload, "abc");
    let log = reg.hook_log();
    assert_eq!(log.len(), 2);
    assert!(matches!(&log[0], HookEvent::Loaded { id } if id == "abc"));
    assert!(matches!(&log[1], HookEvent::Unloaded { id } if id == "abc"));
}

#[test]
fn unload_by_probe_resolves_id_from_new_build() {
    let mut reg: Extensions<PluginSayHello> = Extensions::new();
    reg.load_extension(plugin("abc"), &ctx("r1")).ok().unwrap();
    let new_build = plugin("abc");
    let id = reg.unload_extension(&new_build, &ctx("r2"));
    assert_eq!(id, "abc");
    assert_eq!(reg.count(), 0);
}
