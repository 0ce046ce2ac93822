use test_rocket_back::routes::{all_options, root, Cors};

#[test]
fn root_greets() {
    assert_eq!(root(), "Hello, Rocket!");
}

#[test]
fn preflight_has_nothing_to_compute() {
    all_options();
}

#[test]
fn cors_policy_is_constant() {
    let cors = Cors;
    assert_eq!(cors.name(), "Cross-Origin-Resource-Sharing Fairing");
    let headers = cors.header_pairs();
    assert_eq!(headers.len(), 4);
    assert_eq!(headers[0], ("Access-Control-Allow-Origin", "http://localhost:5173"));
    assert_eq!(headers[1], ("Access-Control-Allow-Methods", "GET, POST, PUT, DELETE, OPTIONS"));
    assert_eq!(headers[2], ("Access-Control-Allow-Headers", "Content-Type"));
    assert_eq!(headers[3], ("Access-Control-Allow-Credentials", "true"));
}
