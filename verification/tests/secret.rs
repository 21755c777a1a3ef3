use roxide::error::Error;
use roxide::secret::cipher::AesCipher;
use roxide::secret::files::{read_rules, scan_secret_files, secret_file, secret_patterns, ScanFile};
use roxide::secret::format::{decrypt, encrypt, split_chunks, HEAD_LENGTH};
use roxide::secret::password::{check_entered_password, hex_string, password_digest};
use roxide::secret::{BufferArgs, SecretArgs};
use sha2::{Digest, Sha256};

const TEST_ROUNDS: u32 = 600;

fn pseudo_random_text(length: usize) -> String {
    let charset = b"ABCDEFGHIJKLMNOPQRSTUVWXYZabcdefghijklmnopqrstuvwxyz0123456789";
    let mut state: u64 = 0x9e37_79b9_7f4a_7c15;
    let mut result = String::with_capacity(length);
    for _ in 0..length {
        state ^= state << 13;
        state ^= state >> 7;
        state ^= state << 17;
        result.push(charset[(state % charset.len() as u64) as usize] as char);
    }
    result
}

#[test]
fn test_cipher() {
    let password = "some password 123";
    let cipher = AesCipher::new(password, TEST_ROUNDS);
    let mut file = cipher.head();

    let lines = [
        "hello, world!",
        "some longer text to encrypt, 1234567890!@#$%^&*()_+",
        "",
        "short",
    ];
    let plaintext = lines.join("\n");

    let text = cipher.encrypt(plaintext.as_bytes()).unwrap();
    file.extend_from_slice(&text);

    let cipher = AesCipher::read(&file[..HEAD_LENGTH], password, TEST_ROUNDS).unwrap();
    let result = cipher.decrypt(&file[HEAD_LENGTH..]).unwrap();
    let result = String::from_utf8(result).unwrap();

    assert_eq!(plaintext, result);
}

#[test]
fn test_incorrect_password() {
    let cipher = AesCipher::new("correct password", TEST_ROUNDS);
    let mut file = cipher.head();
    let text = cipher.encrypt(b"some secret text").unwrap();
    file.extend_from_slice(&text);

    let cipher = AesCipher::read(&file[..HEAD_LENGTH], "incorrect password", TEST_ROUNDS).unwrap();
    assert_eq!(
        cipher.decrypt(&file[HEAD_LENGTH..]).unwrap_err().message(),
        "decrypt failed, incorrect password or content"
    );
}

#[test]
fn sealing_adds_the_tag_and_changes_the_bytes() {
    let cipher = AesCipher::new("pw", TEST_ROUNDS);
    let sealed = cipher.encrypt(b"plain bytes").unwrap();
    assert_eq!(sealed.len(), b"plain bytes".len() + 16);
    assert_ne!(&sealed[..11], b"plain bytes");
}

#[test]
fn short_head_is_refused() {
    assert!(matches!(AesCipher::read(&[0u8; 31], "pw", TEST_ROUNDS), Err(Error::InvalidSecretHead)));
    assert_eq!(Error::InvalidSecretHead.message(), "invalid encrypted data, head is incorrect");
}

#[test]
fn encrypted_data_decrypts_to_the_plaintext() {
    let content = pseudo_random_text(500000);
    let password = "test_password123";

    let secret = encrypt(password, content.as_bytes(), 4096, TEST_ROUNDS).unwrap();
    let chunks = (content.len() + 4095) / 4096;
    assert_eq!(secret.len(), HEAD_LENGTH + content.len() + chunks * (4 + 16));

    let result = decrypt(password, &secret, TEST_ROUNDS).unwrap();
    assert_eq!(String::from_utf8(result).unwrap(), content);

    let wrong = decrypt("incorrect_password", &secret, TEST_ROUNDS);
    assert!(matches!(wrong, Err(Error::DecryptFailed)));
}

#[test]
fn short_text_round_trip() {
    let password = "test_password123";
    let content = "\n        Test Line\n        Next Line\n        Last Line\n        Goodbye!\n        ";
    let secret = encrypt(password, content.as_bytes(), 4096, TEST_ROUNDS).unwrap();
    let result = decrypt(password, &secret, TEST_ROUNDS).unwrap();
    assert_eq!(String::from_utf8(result).unwrap(), content);
}

#[test]
fn segment_lengths_are_big_endian() {
    let secret = encrypt("pw", b"abcdefghij", 4, TEST_ROUNDS).unwrap();
    let body = &secret[HEAD_LENGTH..];
    assert_eq!(&body[..4], &[0, 0, 0, 20]);
    assert_eq!(&body[24..28], &[0, 0, 0, 20]);
    assert_eq!(&body[48..52], &[0, 0, 0, 18]);
    assert_eq!(body.len(), 24 + 24 + 22);
}

#[test]
fn nothing_to_encrypt() {
    assert!(matches!(encrypt("pw", b"", 4096, TEST_ROUNDS), Err(Error::EmptySecretSource)));
    assert!(matches!(encrypt("pw", b"data", 0, TEST_ROUNDS), Err(Error::EmptySecretSource)));
    assert_eq!(Error::EmptySecretSource.message(), "the source file is empty, no data to handle");
}

#[test]
fn malformed_encrypted_data() {
    let secret = encrypt("pw", b"some data to seal", 8, TEST_ROUNDS).unwrap();
    assert!(matches!(decrypt("pw", &secret[..20], TEST_ROUNDS), Err(Error::InvalidSecretHead)));
    assert!(matches!(decrypt("pw", &secret[..HEAD_LENGTH + 3], TEST_ROUNDS), Err(Error::EmptySecretSource)));
    let cut = &secret[..secret.len() - 5];
    assert!(matches!(decrypt("pw", cut, TEST_ROUNDS), Err(Error::TruncatedSegment)));
    assert_eq!(Error::TruncatedSegment.message(), "failed to fill whole buffer");

    let mut trailing = secret.clone();
    trailing.extend_from_slice(&[1, 2, 3]);
    assert_eq!(decrypt("pw", &trailing, TEST_ROUNDS).unwrap(), b"some data to seal");

    let mut flipped = secret.clone();
    let last = flipped.len() - 1;
    flipped[last] ^= 1;
    assert!(matches!(decrypt("pw", &flipped, TEST_ROUNDS), Err(Error::DecryptFailed)));
}

#[test]
fn chunks_are_cut_at_the_buffer_size() {
    let data: Vec<u8> = (1..=10).collect();
    let chunks = split_chunks(&data, 4);
    assert_eq!(chunks, vec![vec![1, 2, 3, 4], vec![5, 6, 7, 8], vec![9, 10]]);
    assert!(split_chunks(&data, 0).is_empty());
    assert_eq!(split_chunks(&data, 10), vec![data.clone()]);
    assert!(split_chunks(&[], 4).is_empty());
}

#[test]
fn test_get_password() {
    let password = password_digest("test_password");
    let sha256 = format!("{:x}", Sha256::digest("test_password"));
    assert_eq!(password, sha256);
    assert_eq!(password.len(), 64);
}

#[test]
fn hex_of_bytes() {
    assert_eq!(hex_string(&[0x00, 0xab, 0x0f, 0x90]), "00ab0f90");
    assert_eq!(hex_string(&[]), "");
}

#[test]
fn entered_password_is_checked() {
    assert!(check_entered_password("secret", "secret").is_ok());
    let empty = check_entered_password("", "");
    assert!(matches!(empty, Err(Error::EmptyPassword)));
    assert_eq!(empty.unwrap_err().message(), "password cannot be empty");
    let differ = check_entered_password("secret", "secreT");
    assert!(matches!(differ, Err(Error::PasswordMismatch)));
    assert_eq!(differ.unwrap_err().message(), "passwords do not match");
}

#[test]
fn kept_password_unless_updated() {
    let args = SecretArgs { src: None, update_password: false, file: None };
    assert_eq!(args.get_password(Some("abc".to_string())), Some("abc".to_string()));
    assert_eq!(args.get_password(None), None);
    let args = SecretArgs { src: None, update_password: true, file: None };
    assert_eq!(args.get_password(Some("abc".to_string())), None);
}

#[test]
fn base_dir_of_many() {
    let args = SecretArgs { src: Some("repo/dir".to_string()), update_password: false, file: None };
    assert_eq!(args.into_many_base_dir("/home/me".to_string()), "repo/dir");
    let args = SecretArgs { src: None, update_password: false, file: Some(None) };
    assert_eq!(args.into_many_base_dir("/home/me".to_string()), "/home/me");
    let buffer = BufferArgs { size: 4096 };
    assert_eq!(buffer.size, 4096);
}

const IGNORE_CONTENT: &str = r#"
        src/*.rs

        # rox:secrets
        config/*.yaml
        src/*.toml
        apps/test/secret.json
        # rox:end

        tests/secret.txt
        "#;

#[test]
fn marked_patterns_are_read() {
    let patterns = secret_patterns(IGNORE_CONTENT).unwrap();
    assert_eq!(patterns, vec!["config/*.yaml", "src/*.toml", "apps/test/secret.json"]);

    let many = "\n        # rox:secrets\n        test1.txt\n        test2.txt\n        ";
    assert_eq!(secret_patterns(many).unwrap(), vec!["test1.txt", "test2.txt"]);

    let commented = "# rox:secrets\n# a comment\n\n  a.txt  \r\n# rox:end\nb.txt\n# rox:secrets\nc.txt";
    assert_eq!(secret_patterns(commented).unwrap(), vec!["a.txt", "c.txt"]);
}

#[test]
fn no_marked_patterns() {
    let r = secret_patterns("target\n*.log\n");
    assert!(matches!(r, Err(Error::NoSecretPatterns)));
    assert!(matches!(read_rules("repo", "# rox:secrets\n# rox:end\n"), Err(Error::NoSecretPatterns)));
    assert_eq!(Error::NoSecretPatterns.message(), "no secret patterns found in \".gitignore\" file");
}

#[test]
fn invalid_marked_patterns() {
    let r = read_rules("repo", "# rox:secrets\nsrc/{a,b.toml\n");
    assert!(matches!(r, Err(Error::InvalidSecretPatterns)));
}

fn scan_file(base: &str, name: &str) -> ScanFile {
    ScanFile {
        name: name.to_string(),
        source_path: format!("{base}/{name}"),
        secret_path: format!("{base}/{name}.secret"),
    }
}

#[test]
fn test_scan_secret_files() {
    let base_dir = "tests/scan_secret_files";
    let found = [
        ".gitignore",
        "src/main.rs",
        "src/lib.rs",
        "src/config.toml.secret",
        "src/test.toml",
        "config/hello.yaml.secret",
        "config/test.toml",
        "apps/test/secret.json",
        "tests/secret.txt",
    ];
    let paths: Vec<String> = found.iter().map(|p| format!("{base_dir}/{p}")).collect();

    let files = scan_secret_files(base_dir, IGNORE_CONTENT, &paths).unwrap();
    let expected = vec![
        scan_file(base_dir, "apps/test/secret.json"),
        scan_file(base_dir, "config/hello.yaml"),
        scan_file(base_dir, "src/config.toml"),
        scan_file(base_dir, "src/test.toml"),
    ];
    assert_eq!(files, expected);
}

#[test]
fn secret_file_of_each_kind() {
    let rules = read_rules("base", "# rox:secrets\n*.txt\n").unwrap();
    assert_eq!(secret_file("base", &rules, "base/a/b.txt"), Some(scan_file("base", "a/b.txt")));
    assert_eq!(secret_file("base/", &rules, "base/a/b.txt.secret"), Some(scan_file("base", "a/b.txt")));
    assert_eq!(secret_file("base", &rules, "base/a/b.rs"), None);
    assert_eq!(secret_file("base", &rules, "other/b.txt"), None);
    assert_eq!(secret_file("base", &rules, "base/.secret"), None);
}
