use instaling_bot::config_manager::{
    get_from_config, get_from_config_static, load_config, set_to_config, string_to_static_str,
    try_load_config, Config,
};

const TEXT: &str = "[account]\nlogin = jan\npasswd = secret\nremember = false\n\n[translator]\nto = en\nfrom = pl\n";

#[test]
fn load_and_read_values() {
    let config = load_config(TEXT.to_string());
    assert_eq!(get_from_config(&config, "account", "login"), "jan");
    assert_eq!(get_from_config(&config, "translator", "from"), "pl");
    assert_eq!(config.get("account", "missing"), None);
    assert!(config.has_value("account", "passwd"));
    assert!(!config.has_value("nothing", "passwd"));
}

#[test]
fn lookups_ignore_case() {
    let config = load_config(TEXT.to_string());
    assert_eq!(config.get("ACCOUNT", "Login"), Some("jan".to_string()));
}

#[test]
fn key_without_value_reads_as_missing() {
    let config = load_config("[s]\nflag\n".to_string());
    assert_eq!(config.get("s", "flag"), None);
}

#[test]
fn syntax_error_is_reported() {
    let r = try_load_config("[broken\nkey = v\n".to_string());
    assert!(r.is_err());
    let r = try_load_config("[s]\n= v\n".to_string());
    assert!(r.is_err());
}

#[test]
fn set_then_get() {
    let mut config = load_config(TEXT.to_string());
    let text = set_to_config(&mut config, "account", "login", Some("ola")).unwrap();
    assert_eq!(get_from_config(&config, "account", "login"), "ola");
    assert_eq!(get_from_config(&config, "account", "passwd"), "secret");
    let reloaded = load_config(text);
    assert_eq!(get_from_config(&reloaded, "account", "login"), "ola");
    assert_eq!(get_from_config(&reloaded, "translator", "to"), "en");
}

#[test]
fn set_creates_section() {
    let mut config = Config::new();
    set_to_config(&mut config, "timing", "sleep_per_letter", Some("5")).unwrap();
    assert_eq!(config.get("timing", "sleep_per_letter"), Some("5".to_string()));
    set_to_config(&mut config, "timing", "sleep_per_letter", None).unwrap();
    assert_eq!(config.get("timing", "sleep_per_letter"), None);
}

#[test]
fn static_values() {
    let config = load_config(TEXT.to_string());
    let to: &'static str = get_from_config_static(&config, "translator", "to");
    assert_eq!(to, "en");
    assert_eq!(string_to_static_str(String::from("kept")), "kept");
}

#[test]
fn saved_text_reads_back() {
    let mut config = load_config(TEXT.to_string());
    let text = set_to_config(&mut config, "dictionary", "dict_file", Some("words.txt")).unwrap();
    let reloaded = load_config(text);
    assert_eq!(get_from_config(&reloaded, "dictionary", "dict_file"), "words.txt");
    assert_eq!(get_from_config(&reloaded, "account", "login"), "jan");
    assert_eq!(get_from_config(&config, "dictionary", "dict_file"), "words.txt");
}

#[test]
fn key_without_value_is_saved_bare() {
    let mut config = load_config(TEXT.to_string());
    let text = set_to_config(&mut config, "account", "login", None).unwrap();
    assert!(text.lines().any(|l| l == "login"));
    let reloaded = load_config(text);
    assert_eq!(reloaded.get("account", "login"), None);
    assert!(!reloaded.has_value("account", "login"));
}

#[test]
fn value_with_comment_sign_is_cut_on_reload() {
    let mut config = load_config(TEXT.to_string());
    set_to_config(&mut config, "account", "passwd", Some("ab#cd")).unwrap();
    assert_eq!(get_from_config(&config, "account", "passwd"), "ab");
    set_to_config(&mut config, "account", "passwd", Some("  spaced  ")).unwrap();
    assert_eq!(get_from_config(&config, "account", "passwd"), "spaced");
}

#[test]
fn default_section_reads_back() {
    let mut config = load_config(TEXT.to_string());
    let text = set_to_config(&mut config, "default", "mode", Some("fast: yes")).unwrap();
    let reloaded = load_config(text);
    assert_eq!(reloaded.get("default", "mode"), Some("fast: yes".to_string()));
    assert_eq!(reloaded.get("translator", "to"), Some("en".to_string()));
}

#[test]
fn unreadable_name_leaves_config_unchanged() {
    let mut config = load_config(TEXT.to_string());
    let r = set_to_config(&mut config, "a;b", "k", Some("v"));
    let u = r.err().unwrap();
    assert!(u.text.contains("[a;b]"));
    assert!(!u.message.is_empty());
    assert!(try_load_config(u.text).is_err());
    assert_eq!(config.get("a;b", "k"), None);
    assert_eq!(get_from_config(&config, "account", "login"), "jan");
}

#[test]
fn unusual_names_read_back() {
    let mut config = load_config(TEXT.to_string());
    let text = set_to_config(&mut config, "Sekcja Ż]=:", "Klucz[x", Some("a\rb = c:d")).unwrap();
    let reloaded = load_config(text);
    for c in [&config, &reloaded] {
        assert_eq!(c.get("sekcja ż]=:", "klucz[x"), Some("a\rb = c:d".to_string()));
        assert_eq!(c.get("SEKCJA Ż]=:", "KLUCZ[X"), Some("a\rb = c:d".to_string()));
        assert_eq!(c.get("translator", "from"), Some("pl".to_string()));
    }
}

#[test]
fn parsed_names_read_back_unchanged() {
    let mut config = load_config("[Weird]Name]\nKey[1] = v=w\n[]\nx\n".to_string());
    assert_eq!(config.get("weird]name", "key[1]"), Some("v=w".to_string()));
    let text = set_to_config(&mut config, "other", "k", Some("1")).unwrap();
    let reloaded = load_config(text);
    assert_eq!(reloaded.get("weird]name", "key[1]"), Some("v=w".to_string()));
    assert_eq!(reloaded.get("", "x"), None);
    assert_eq!(reloaded.get("other", "k"), Some("1".to_string()));
}

#[test]
fn strict_load_reads_the_same_entries() {
    let strict = load_config(TEXT.to_string());
    let checked = try_load_config(TEXT.to_string()).unwrap();
    for key in ["login", "passwd", "remember"] {
        assert_eq!(strict.get("account", key), checked.get("account", key));
    }
    assert_eq!(try_load_config("[s]\n= v\n".to_string()).err().unwrap(), "line 2:0: Key cannot be empty");
}

#[test]
fn value_is_stored_as_its_line_reads_back() {
    let mut config = Config::new();
    set_to_config(&mut config, "s", "k", Some("  a b ; comment")).unwrap();
    assert_eq!(config.get("s", "k"), Some("a b".to_string()));
    set_to_config(&mut config, "s", "k", Some("#all comment")).unwrap();
    assert_eq!(config.get("s", "k"), Some(String::new()));
    set_to_config(&mut config, "s", "k", Some("x=y:z")).unwrap();
    assert_eq!(config.get("s", "k"), Some("x=y:z".to_string()));
}
