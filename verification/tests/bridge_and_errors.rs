use starry::extension_error::{InstallError, LoadError, RemoveError};
use starry::extension_interface::{EmitContent, ListenContent, ListenType};
use starry::extension_manager::{new_manager_event, ManagerEvent};
use starry::listen_bridge::ListenerTable;

#[test]
fn listen_table_tracks_newest_handle() {
    let mut table = ListenerTable::new();
    let name = "file_opened".to_string();
    assert_eq!(table.handle_of(&name), None);
    assert_eq!(table.record(name.clone(), 7), None);
    assert_eq!(table.handle_of(&name), Some(7));
    // re-subscribing tracks the newest handle and surfaces the displaced one
    assert_eq!(table.record(name.clone(), 9), Some(7));
    assert_eq!(table.handle_of(&name), Some(9));
    assert_eq!(table.take(&name), Some(9));
    assert_eq!(table.take(&name), None);
    assert_eq!(table.handle_of(&name), None);
}

#[test]
fn listen_table_keeps_names_independent() {
    let mut table = ListenerTable::new();
    table.record("a".to_string(), 1);
    table.record("b".to_string(), 2);
    assert_eq!(table.take(&"a".to_string()), Some(1));
    assert_eq!(table.handle_of(&"b".to_string()), Some(2));
}

#[test]
fn listen_messages_carry_event_and_kind() {
    let subscribe = ListenContent {
        event: "file_opened".to_string(),
        content_type: ListenType::Listen(3),
    };
    assert_eq!(subscribe.event, "file_opened");
    assert!(matches!(subscribe.content_type, ListenType::Listen(3)));
    let cancel = ListenContent {
        event: "file_opened".to_string(),
        content_type: ListenType::Unlisten,
    };
    assert!(matches!(cancel.content_type, ListenType::Unlisten));
}

#[test]
fn emit_content_carries_context() {
    let m = EmitContent {
        id: "req-1".to_string(),
        event: "installed_extension".to_string(),
        payload: "{}".to_string(),
    };
    assert_eq!(m.id, "req-1");
    assert_eq!(m.event, "installed_extension");
}

#[test]
fn manager_events_wrap_install_and_remove() {
    let install = new_manager_event(true, "e1".to_string(), "/tmp/liba.so");
    match install {
        ManagerEvent::InstallExtension(c) => {
            assert_eq!(c.id, "e1");
            assert_eq!(c.payload, "/tmp/liba.so");
        }
        _ => panic!("true must wrap an install command"),
    }
    let remove = new_manager_event(false, "e2".to_string(), "abc");
    match remove {
        ManagerEvent::RemoveExtension(c) => {
            assert_eq!(c.id, "e2");
            assert_eq!(c.payload, "abc");
        }
        _ => panic!("false must wrap a remove command"),
    }
}

#[test]
fn error_messages_are_specific() {
    assert_eq!(
        LoadError::SymbolNotFound.message(),
        "the library exports no factory symbol"
    );
    assert_eq!(
        LoadError::OsLoadFailure.message(),
        "the file could not be loaded as a library"
    );
    assert_eq!(InstallError::NotAFile.message(), "the source path is not a file");
    assert_eq!(
        InstallError::LoadFailed.message(),
        "the extension library failed to load"
    );
    assert_eq!(
        InstallError::MetadataParseError.message(),
        "the extension metadata is not a JSON object"
    );
    assert_eq!(
        InstallError::AlreadyInstalled.message(),
        "an extension with this id is already running"
    );
    assert_eq!(
        RemoveError::NotInstalled("abc".to_string()).message(),
        "no extension is installed under id abc"
    );
}
