use rninja::cache::hasher::{compute_action_key, hash_bytes, str_less};

#[test]
fn test_action_key_deterministic() {
    let inputs = vec![("input.txt".to_string(), hash_bytes(b"test content"))];
    let env = vec![("CC".to_string(), "gcc".to_string()), ("CFLAGS".to_string(), "-O2".to_string())];

    let key1 = compute_action_key("gcc -c foo.c", &inputs, &env);
    let key2 = compute_action_key("gcc -c foo.c", &inputs, &env);

    assert_eq!(key1, key2);
}

#[test]
fn test_action_key_differs_by_command() {
    let inputs = vec![("input.txt".to_string(), hash_bytes(b"test"))];
    let env: Vec<(String, String)> = vec![];

    let key1 = compute_action_key("gcc -c foo.c", &inputs, &env);
    let key2 = compute_action_key("gcc -c bar.c", &inputs, &env);

    assert_ne!(key1, key2);
}

#[test]
fn action_key_is_hash_of_sorted_message() {
    let inputs = vec![
        ("b.c".to_string(), "h2".to_string()),
        ("a.c".to_string(), "h1".to_string()),
    ];
    let env = vec![("Z".to_string(), "1".to_string()), ("A".to_string(), "2".to_string())];
    let key = compute_action_key("cc", &inputs, &env);
    let expected = hash_bytes(b"cmd:cc\nin:a.c:h1\nin:b.c:h2\nenv:A=2\nenv:Z=1\n");
    assert_eq!(key, expected);
    assert_eq!(key.len(), 64);
    let swapped = compute_action_key(
        "cc",
        &vec![inputs[1].clone(), inputs[0].clone()],
        &vec![env[1].clone(), env[0].clone()],
    );
    assert_eq!(key, swapped);
}

#[test]
fn str_less_is_code_point_order() {
    assert!(str_less("a", "b"));
    assert!(str_less("ab", "abc"));
    assert!(!str_less("abc", "ab"));
    assert!(!str_less("x", "x"));
    assert!(str_less("Z", "a"));
    assert!(str_less("é", "ü"));
}

#[test]
fn hash_bytes_known_value() {
    assert_eq!(
        hash_bytes(b""),
        "af1349b9f5f9a1a6a0404dea36dcc9499bcb25c9adc112b7cc9a93cae41f3262"
    );
}

#[test]
fn action_key_ignores_listing_order() {
    let a = vec![("b.c".to_string(), "11".to_string()), ("a.c".to_string(), "22".to_string())];
    let b = vec![("a.c".to_string(), "22".to_string()), ("b.c".to_string(), "11".to_string())];
    let e1 = vec![("CC".to_string(), "gcc".to_string()), ("AR".to_string(), "ar".to_string())];
    let e2 = vec![("AR".to_string(), "ar".to_string()), ("CC".to_string(), "gcc".to_string())];
    assert_eq!(compute_action_key("cc x", &a, &e1), compute_action_key("cc x", &b, &e2));
    let c = vec![("a.c".to_string(), "11".to_string()), ("b.c".to_string(), "22".to_string())];
    assert_ne!(compute_action_key("cc x", &a, &e1), compute_action_key("cc x", &c, &e1));
}
