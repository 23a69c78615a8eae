use rushsocket::websocket::socket_id::{format_socket_id, generate};

#[test]
fn test_socket_id_format() {
    let id = generate();
    let parts: Vec<&str> = id.split('.').collect();
    assert_eq!(parts.len(), 2);
    assert!(parts[0].parse::<u64>().is_ok());
    assert!(parts[1].parse::<u64>().is_ok());
}

#[test]
fn test_socket_id_range() {
    for _ in 0..100 {
        let id = generate();
        let parts: Vec<&str> = id.split('.').collect();
        let a: u64 = parts[0].parse().unwrap();
        let b: u64 = parts[1].parse().unwrap();
        assert!(a < 10_000_000_000);
        assert!(b < 10_000_000_000);
    }
}

#[test]
fn test_socket_id_unique() {
    let id1 = generate();
    let id2 = generate();
    assert_ne!(id1, id2);
}

#[test]
fn format_parts() {
    assert_eq!(format_socket_id(0, 9999999999), "0.9999999999");
    assert_eq!(format_socket_id(123, 456), "123.456");
}
