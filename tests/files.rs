use collab_sync::{content_type_for_extension, infer_content_type, sanitize_filename};

#[test]
fn test_infer_content_type() {
    assert_eq!(infer_content_type("image.jpg"), "image/jpeg");
    assert_eq!(infer_content_type("IMAGE.PNG"), "image/png");
    assert_eq!(infer_content_type("document.pdf"), "application/pdf");
    assert_eq!(infer_content_type("unknown.xyz"), "application/octet-stream");
}

#[test]
fn content_type_without_extension() {
    assert_eq!(infer_content_type("README"), "application/octet-stream");
    assert_eq!(infer_content_type(".bashrc"), "application/octet-stream");
    assert_eq!(infer_content_type("dir.d/notes.Md"), "text/markdown");
    assert_eq!(infer_content_type("page.HTM"), "text/html");
}

#[test]
fn content_type_of_lowercase_extensions() {
    assert_eq!(content_type_for_extension("jpeg"), "image/jpeg");
    assert_eq!(content_type_for_extension("wav"), "audio/wav");
    assert_eq!(content_type_for_extension("JPG"), "application/octet-stream");
    assert_eq!(content_type_for_extension(""), "application/octet-stream");
}

// "文件名.png" is not expected to become "______.png": those three letters
// are alphanumeric, so they stay, as `sanitize_replaces_unsafe_characters`
// checks.
#[test]
fn test_sanitize_filename() {
    assert_eq!(sanitize_filename("test image.jpg"), "test_image.jpg");
    assert_eq!(sanitize_filename("file@#$.txt"), "file___.txt");
}

#[test]
fn sanitize_replaces_unsafe_characters() {
    assert_eq!(sanitize_filename("test image.jpg"), "test_image.jpg");
    assert_eq!(sanitize_filename("file@#$.txt"), "file___.txt");
    assert_eq!(sanitize_filename("文件名 1.png"), "文件名_1.png");
}

#[test]
fn sanitize_keeps_safe_ascii() {
    assert_eq!(sanitize_filename("a-b_c.d"), "a-b_c.d");
    assert_eq!(sanitize_filename(""), "");
    assert_eq!(sanitize_filename("a/b\\c"), "a_b_c");
}

use collab_sync::{ai_file_key, generate_ai_file_key, object_url, QiniuClientConfig, UrlError};

#[test]
fn test_generate_ai_file_key() {
    let key = generate_ai_file_key("workspace-123", "user-456", "test image.jpg");

    assert!(key.starts_with("ai-chat/workspace-123/user-456/"));
    assert!(key.ends_with("_test_image.jpg"));
    assert!(key.contains("_"));
}

#[test]
fn ai_file_key_tag_is_eight_hex_digits() {
    let key = generate_ai_file_key("w", "u", "f");
    let rest = key.strip_prefix("ai-chat/w/u/").unwrap();
    let parts: Vec<&str> = rest.split('_').collect();
    assert_eq!(parts.len(), 3);
    assert!(parts[0].chars().all(|c| c.is_ascii_digit()));
    assert_eq!(parts[1].len(), 8);
    assert!(parts[1].chars().all(|c| c.is_ascii_hexdigit() && !c.is_ascii_uppercase()));
    assert_eq!(parts[2], "f");
}

#[test]
fn ai_file_key_layout() {
    assert_eq!(
        ai_file_key("w", "u", 1700000000, "0a1b2c3d", "a b.png"),
        "ai-chat/w/u/1700000000_0a1b2c3d_a_b.png"
    );
    assert_eq!(ai_file_key("w", "u", u64::MAX, "t", ""), "ai-chat/w/u/18446744073709551615_t_");
}

fn config(domain: &str, private_bucket: bool, use_https: bool) -> QiniuClientConfig {
    QiniuClientConfig {
        access_key: "ak".to_string(),
        secret_key: "sk".to_string(),
        bucket: "files".to_string(),
        region: "cn-east-1".to_string(),
        s3_endpoint: "https://s3.example".to_string(),
        domain: domain.to_string(),
        private_bucket,
        url_expire_seconds: 3600,
        use_https,
    }
}

#[test]
fn object_urls() {
    assert_eq!(object_url(&config("cdn.example.com//", false, true), "a/b.png"), Ok("https://cdn.example.com/a/b.png".to_string()));
    assert_eq!(object_url(&config("", false, false), "k"), Ok("http://files.s3-cn-east-1.qiniucs.com/k".to_string()));
    assert_eq!(object_url(&config("x", true, true), "k"), Err(UrlError::PrivateBucket));
}
