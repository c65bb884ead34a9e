use haddock::validation::{validate_proxy, validate_site_name, validate_username};

#[test]
fn valid_usernames() {
    assert!(validate_username("john_doe").is_ok());
    assert!(validate_username("user.name").is_ok());
    assert!(validate_username("user-name").is_ok());
    assert!(validate_username("user123").is_ok());
    assert!(validate_username("user?name").is_ok()); // sherlock wildcard char
}

#[test]
fn invalid_usernames() {
    assert!(validate_username("").is_err());
    assert!(validate_username("   ").is_err());
    assert!(validate_username("user name").is_err()); // space
    assert!(validate_username("user;drop").is_err()); // semicolon
    assert!(validate_username("user&cmd").is_err()); // ampersand
    assert!(validate_username(&"a".repeat(65)).is_err()); // too long
}

#[test]
fn valid_proxies() {
    assert!(validate_proxy("").is_ok()); // empty = no proxy
    assert!(validate_proxy("http://127.0.0.1:8080").is_ok());
    assert!(validate_proxy("https://proxy.example.com").is_ok());
    assert!(validate_proxy("socks5://127.0.0.1:9050").is_ok());
    assert!(validate_proxy("socks4://10.0.0.1:1080").is_ok());
}

#[test]
fn invalid_proxies() {
    assert!(validate_proxy("ftp://server.com").is_err()); // bad scheme
    assert!(validate_proxy("not-a-url").is_err()); // no scheme
    assert!(validate_proxy("http://host;rm -rf").is_err()); // injection
}

#[test]
fn valid_site_names() {
    assert!(validate_site_name("GitHub").is_ok());
    assert!(validate_site_name("Stack Overflow").is_ok());
    assert!(validate_site_name("dev.to").is_ok());
    assert!(validate_site_name("my-site_v2").is_ok());
}

#[test]
fn invalid_site_names() {
    assert!(validate_site_name("").is_err());
    assert!(validate_site_name("site;drop").is_err());
    assert!(validate_site_name("site&cmd").is_err());
}

#[test]
fn username_error_messages() {
    assert_eq!(validate_username(" \t ").unwrap_err(), "Username cannot be empty");
    let long = "b".repeat(65);
    assert_eq!(
        validate_username(&long).unwrap_err(),
        format!("Username '{}' is too long (max 64 characters)", long)
    );
    assert_eq!(
        validate_username("a b").unwrap_err(),
        "Invalid username 'a b': only alphanumeric, dots, underscores, hyphens and ? are allowed"
    );
}

#[test]
fn username_length_counts_bytes() {
    // 64 bytes are accepted, 65 are not; a two-byte letter counts twice.
    assert!(validate_username(&"a".repeat(64)).is_ok());
    let mixed = format!("{}é", "a".repeat(63));
    assert_eq!(mixed.chars().count(), 64);
    assert!(validate_username(&mixed).is_err());
}

#[test]
fn unicode_letters_are_alphanumeric() {
    assert!(validate_username("josé").is_ok());
    assert!(validate_username("用户").is_ok());
    assert!(validate_site_name("Café Münster").is_ok());
}

#[test]
fn unicode_white_space_is_blank() {
    assert_eq!(validate_username("\u{3000}\u{a0}").unwrap_err(), "Username cannot be empty");
}

#[test]
fn proxy_error_messages() {
    assert_eq!(
        validate_proxy("http://a b").unwrap_err(),
        "Invalid proxy URL: contains forbidden characters"
    );
    assert_eq!(
        validate_proxy("ftp://a").unwrap_err(),
        "Invalid proxy URL: must start with http://, https://, socks4:// or socks5://"
    );
    assert!(validate_proxy("http://[::1]:8080").is_ok());
    assert!(validate_proxy("socks5://user@host:1080").is_ok());
}

#[test]
fn site_error_messages() {
    assert_eq!(validate_site_name("").unwrap_err(), "Site name cannot be empty");
    assert_eq!(
        validate_site_name("a|b").unwrap_err(),
        "Invalid site name 'a|b': only alphanumeric, dots, hyphens, underscores and spaces are allowed"
    );
}

#[test]
fn accepted_names_hold_no_shell_specials() {
    for bad in [";", "&", "|", "$", "`", "<", ">", "(", ")", "'", "\"", "\\", "*", "!"] {
        let name = format!("a{}b", bad);
        assert!(validate_username(&name).is_err());
        assert!(validate_site_name(&name).is_err());
        assert!(validate_proxy(&format!("http://{}", name)).is_err());
    }
}
