use munchrs::security::{is_binary_content, is_binary_extension, is_secret_file};

#[test]
fn test_is_secret_file() {
    assert!(is_secret_file(".env"));
    assert!(is_secret_file("config/.env.local"));
    assert!(is_secret_file("id_rsa"));
    assert!(is_secret_file("server.pem"));
    assert!(!is_secret_file("main.py"));
    assert!(!is_secret_file("README.md"));
}

#[test]
fn test_is_binary_extension() {
    assert!(is_binary_extension("image.png"));
    assert!(is_binary_extension("binary.exe"));
    assert!(!is_binary_extension("code.py"));
    assert!(!is_binary_extension("data.json"));
}

#[test]
fn test_is_binary_content() {
    assert!(is_binary_content(b"hello\x00world", 8192));
    assert!(!is_binary_content(b"hello world", 8192));
}
