use server_switcher::products::{
    backup_file_name, config_file_name, get_exe_config_path, get_exe_names, is_language_key,
    Product,
};

#[test]
fn exe_names_of_each_product() {
    assert_eq!(get_exe_names("ZennoPosterV7", "7.1", "EN"), Ok(vec!["ProjectMaker", "ZennoPoster"]));
    assert_eq!(get_exe_names("ZennoProjectMaker", "7", "RU"), Ok(vec!["ProjectMaker", "ProjectMakerZD"]));
    assert_eq!(get_exe_names("ZennoDroid", "1", "EN"), Ok(vec!["ProjectMakerZD", "ZennoDroid"]));
    assert_eq!(get_exe_names("ZennoBoxV7", "7", "EN"), Ok(vec!["ZennoBox"]));
    assert_eq!(get_exe_names("ProxyChecker", "2", "EN"), Ok(vec!["ProxyChecker"]));
    assert_eq!(
        get_exe_names("CapMonster2", "2", "EN"),
        Ok(vec!["CapMonster", "CapMonsterMCS", "LicenseHelper"])
    );
}

#[test]
fn unsupported_products() {
    assert_eq!(
        get_exe_names("ZennoPosterV5", "5.9", "RU"),
        Err("Unsupported product: 'ZennoPosterV5 5.9 RU'".to_string())
    );
    assert_eq!(
        get_exe_names("ZennoBox", "1", "EN"),
        Err("Unsupported product: 'ZennoBox 1 EN'".to_string())
    );
}

#[test]
fn product_construction() {
    let p = Product::new(
        "ZennoDroid".to_string(),
        "2.0".to_string(),
        "EN".to_string(),
        "C:\\Apps\\ZD".to_string(),
    )
    .unwrap();
    assert_eq!(p.exe_names, vec!["ProjectMakerZD", "ZennoDroid"]);
    assert_eq!(p.install_path, "C:\\Apps\\ZD");
    assert_eq!(p.title(), "ZennoDroid 2.0 EN");
    let e = Product::new("Other".to_string(), "1".to_string(), "EN".to_string(), String::new());
    assert_eq!(e.unwrap_err(), "Unsupported product: 'Other 1 EN'");
}

#[test]
fn config_paths() {
    assert_eq!(
        get_exe_config_path("C:\\Apps\\ZP", "ZennoPoster.exe.config"),
        "C:\\Apps\\ZP\\Progs\\ZennoPoster.exe.config"
    );
    assert_eq!(
        get_exe_config_path("C:\\Apps\\ZP\\", "a.exe.config"),
        "C:\\Apps\\ZP\\Progs\\a.exe.config"
    );
    assert_eq!(config_file_name("ZennoBox"), "ZennoBox.exe.config");
}

#[test]
fn backup_names() {
    let p = Product::new(
        "ZennoPosterV7".to_string(),
        "7.7".to_string(),
        "RU".to_string(),
        "D:\\zp".to_string(),
    )
    .unwrap();
    assert_eq!(
        backup_file_name("ZennoPoster.exe.config", &p),
        "ZennoPoster.exe.config.ZennoPosterV7 7.7 RU.bak"
    );
}

#[test]
fn language_keys() {
    assert!(is_language_key("EN"));
    assert!(is_language_key("RU"));
    assert!(!is_language_key("en"));
    assert!(!is_language_key("Ru"));
    assert!(!is_language_key("ENG"));
    assert!(!is_language_key("E"));
    assert!(is_language_key("Ё"));
    assert!(!is_language_key("ё"));
    assert!(is_language_key("12"));
}
