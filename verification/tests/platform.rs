//! The platform registry.

use emela::platform::lookup;
use emela::types::Type;

/// The Socket capability registers all five TCP operations
/// under `socket.*`, each producing the `Socket` capability. `raw_close` is
/// infallible; every other operation is fallible with `SocketError`.
#[test]
fn socket_registry_entries() {
    let socket_error = Some(Type::Enum("SocketError".to_string(), Vec::new()));
    let listener = Type::Enum("Listener".to_string(), Vec::new());
    let connection = Type::Enum("Connection".to_string(), Vec::new());

    let listen = lookup("socket.raw_listen").expect("socket.raw_listen registered");
    assert_eq!(listen.capability, "Socket");
    assert_eq!(listen.params, vec![Type::Int]);
    assert_eq!(listen.ret, listener);
    assert_eq!(listen.throws, socket_error);

    let accept = lookup("socket.raw_accept").expect("socket.raw_accept registered");
    assert_eq!(accept.capability, "Socket");
    assert_eq!(accept.params, vec![listener.clone()]);
    assert_eq!(accept.ret, connection);
    assert_eq!(accept.throws, socket_error);

    let read = lookup("socket.raw_read").expect("socket.raw_read registered");
    assert_eq!(read.capability, "Socket");
    assert_eq!(read.params, vec![connection.clone(), Type::Int]);
    assert_eq!(read.ret, Type::Bytes);
    assert_eq!(read.throws, socket_error);

    let write = lookup("socket.raw_write").expect("socket.raw_write registered");
    assert_eq!(write.capability, "Socket");
    assert_eq!(write.params, vec![connection, Type::Bytes]);
    assert_eq!(write.ret, Type::Unit);
    assert_eq!(write.throws, socket_error);

    // `close` takes an id (Int) and cannot fail.
    let close = lookup("socket.raw_close").expect("socket.raw_close registered");
    assert_eq!(close.capability, "Socket");
    assert_eq!(close.params, vec![Type::Int]);
    assert_eq!(close.ret, Type::Unit);
    assert_eq!(close.throws, None);
}

/// The Random capability registers `raw_int` (no args → `Int`)
/// and `raw_bytes` (`Int` → `Bytes`) under `random.*`, both infallible.
#[test]
fn random_registry_entries() {
    let raw_int = lookup("random.raw_int").expect("random.raw_int registered");
    assert_eq!(raw_int.capability, "Random");
    assert_eq!(raw_int.params, Vec::<Type>::new());
    assert_eq!(raw_int.ret, Type::Int);
    assert_eq!(raw_int.throws, None);

    let raw_bytes = lookup("random.raw_bytes").expect("random.raw_bytes registered");
    assert_eq!(raw_bytes.capability, "Random");
    assert_eq!(raw_bytes.params, vec![Type::Int]);
    assert_eq!(raw_bytes.ret, Type::Bytes);
    assert_eq!(raw_bytes.throws, None);
}
