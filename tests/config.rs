use cryptolab::config::{Config, Module};

#[test]
fn config_starts_empty() {
    let config = Config::new();
    assert_eq!(config.num, 0);
    assert!(!config.unique);
    assert!(matches!(config.module, Module::LCG(0, 0, 0, 0)));
}

#[test]
fn config_setters_change_one_field() {
    let mut config = Config::new();
    config.set_num(100);
    config.set_unique(true);
    config.set_module(Module::MD5(String::from("abc")));
    assert_eq!(config.num, 100);
    assert!(config.unique);
    match &config.module {
        Module::MD5(text) => assert_eq!(text, "abc"),
        _ => panic!("module was not set"),
    }
    config.set_num(7);
    assert_eq!(config.num, 7);
    assert!(config.unique);
}
