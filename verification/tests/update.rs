use checkai::i18n::{choose_locale, extract_locale, locale_from_accept_language, locale_from_query};
use checkai::update::{get_asset_name, newer_version, version, AssetError, VersionError};

#[test]
fn version_is_the_package_version() {
    assert_eq!(version(), "0.1.0");
}

#[test]
fn newer_version_compares_semantic_versions() {
    assert_eq!(newer_version("v0.2.0", "0.1.0"), Ok(Some("0.2.0".to_string())));
    assert_eq!(newer_version("0.1.1", "0.1.0"), Ok(Some("0.1.1".to_string())));
    assert_eq!(newer_version("vv1.0.0", "0.9.9"), Ok(Some("1.0.0".to_string())));
    assert_eq!(newer_version("v0.10.0", "0.9.0"), Ok(Some("0.10.0".to_string())));
    assert_eq!(newer_version("v0.1.0", "0.1.0"), Ok(None));
    assert_eq!(newer_version("v0.0.9", "0.1.0"), Ok(None));
    assert_eq!(newer_version("v1.0.0-rc.1", "1.0.0"), Ok(None));
    assert_eq!(newer_version("v1.0.0", "1.0.0-rc.1"), Ok(Some("1.0.0".to_string())));
    assert_eq!(newer_version("latest", "0.1.0"), Err(VersionError::InvalidLatest));
    assert_eq!(newer_version("v1.0", "0.1.0"), Err(VersionError::InvalidLatest));
    assert_eq!(newer_version("v1.0.0", "one"), Err(VersionError::InvalidCurrent));
    assert_eq!(newer_version("", ""), Err(VersionError::InvalidLatest));
}

#[test]
fn asset_names() {
    assert_eq!(get_asset_name("linux", "x86_64"), Ok("checkai-linux-x86_64".to_string()));
    assert_eq!(get_asset_name("macos", "aarch64"), Ok("checkai-darwin-aarch64".to_string()));
    assert_eq!(get_asset_name("windows", "x86_64"), Ok("checkai-windows-x86_64.exe".to_string()));
    assert_eq!(get_asset_name("freebsd", "x86_64"), Err(AssetError::UnsupportedOs));
    assert_eq!(get_asset_name("freebsd", "mips"), Err(AssetError::UnsupportedOs));
    assert_eq!(get_asset_name("linux", "mips"), Err(AssetError::UnsupportedArch));
}

#[test]
fn locale_of_a_request() {
    assert_eq!(locale_from_query("lang=de"), Some("de".to_string()));
    assert_eq!(locale_from_query("a=1&lang=fr-CA&lang=de"), Some("fr".to_string()));
    assert_eq!(locale_from_query("lang=xx&lang=ja"), Some("ja".to_string()));
    assert_eq!(locale_from_query("lang"), None);
    assert_eq!(locale_from_query("lang="), None);
    assert_eq!(locale_from_query("language=de"), None);
    assert_eq!(locale_from_query("xlang=de"), None);
    assert_eq!(locale_from_query("lang=a=de"), None);
    assert_eq!(locale_from_query(""), None);
    assert_eq!(locale_from_accept_language("fr-CH, fr;q=0.9, en;q=0.8"), Some("fr".to_string()));
    assert_eq!(locale_from_accept_language("it, *;q=0.5,  ru ;q=0.2"), Some("ru".to_string()));
    assert_eq!(locale_from_accept_language("it;q=de"), None);
    assert_eq!(locale_from_accept_language(""), None);
    assert_eq!(extract_locale("lang=es", Some("de")), "es");
    assert_eq!(extract_locale("x=1", Some("de")), "de");
    assert_eq!(extract_locale("x=1", Some("it")), "en");
    assert_eq!(extract_locale("", None), "en");
    assert_eq!(choose_locale(Some("pt_BR.UTF-8"), Some("de")), "pt");
    assert_eq!(choose_locale(Some("xx"), Some("de_DE")), "de");
    assert_eq!(choose_locale(None, Some("zh")), "zh-CN");
    assert_eq!(choose_locale(None, None), "en");
}
