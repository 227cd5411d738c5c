use signaller::args::Args;

#[test]
fn test_default_args() {
    let args = Args::parse_from(vec!["program".to_string()]).unwrap();
    assert_eq!(args.address, "0.0.0.0:8080");
}

#[test]
fn test_custom_address() {
    let args = Args::parse_from(vec![
        "program".to_string(),
        "--address".to_string(),
        "127.0.0.1:9000".to_string(),
    ])
    .unwrap();
    assert_eq!(args.address, "127.0.0.1:9000");
}

#[test]
fn test_address_equals_form() {
    let args = Args::parse_from(vec![
        "program".to_string(),
        "--address=10.0.0.1:4444".to_string(),
    ])
    .unwrap();
    assert_eq!(args.address, "10.0.0.1:4444");
}

#[test]
fn test_unknown_argument_is_refused() {
    assert!(Args::parse_from(vec!["program".to_string(), "--bogus".to_string()]).is_none());
}

#[test]
fn test_missing_value_is_refused() {
    assert!(Args::parse_from(vec!["program".to_string(), "--address".to_string()]).is_none());
}
