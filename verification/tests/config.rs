use tally::config::{config_dir_in, config_file_in, 
    agent_bearer, config_dir, config_value, identity_value, join_path, operator_bearer, runtime_endpoint, trim_text,
    identity_path, runtime_endpoint_path, cloudflare_account_path,
};

#[test]
fn config_dir_is_under_home() {
    if let Ok(dir) = config_dir() {
        assert!(dir.ends_with(".tally"));
    }
}

#[test]
fn config_file_paths() {
    if let (Ok(dir), Ok(id), Ok(ep), Ok(cf)) = (config_dir(), identity_path(), runtime_endpoint_path(), cloudflare_account_path()) {
        assert_eq!(id, format!("{}/identity", dir));
        assert_eq!(ep, format!("{}/runtime-endpoint", dir));
        assert_eq!(cf, format!("{}/cloudflare-account", dir));
    }
}

#[test]
fn join_path_separators() {
    assert_eq!(join_path("/home/u", ".tally"), "/home/u/.tally");
    assert_eq!(join_path("/home/u/", ".tally"), "/home/u/.tally");
    assert_eq!(join_path("", ".tally"), ".tally");
}

#[test]
fn trim_unicode_space() {
    assert_eq!(trim_text("  https://x.dev \n"), "https://x.dev");
    assert_eq!(trim_text("\u{3000}a b\u{a0}"), "a b");
    assert_eq!(trim_text(" \t\r\n "), "");
    assert_eq!(trim_text("x"), "x");
}

#[test]
fn config_file_values() {
    assert_eq!(config_value("acct-1\n"), Some("acct-1".to_string()));
    assert_eq!(config_value("   \n"), None);
    assert_eq!(identity_value("/h/.tally/identity", " abc \n"), Ok("abc".to_string()));
    assert_eq!(
        identity_value("/h/.tally/identity", "\n"),
        Err("identity file at /h/.tally/identity is empty; run 'tally init' to initialize".to_string())
    );
}

#[test]
fn bearer_helpers() {
    assert_eq!(runtime_endpoint(Ok(Some("https://t.dev".to_string()))), Ok("https://t.dev".to_string()));
    assert_eq!(
        runtime_endpoint(Ok(None)),
        Err("no Tally runtime endpoint configured; run 'tally deploy' to deploy the Worker and persist the endpoint".to_string())
    );
    assert_eq!(runtime_endpoint(Err("disk".to_string())), Err("disk".to_string()));
    assert_eq!(operator_bearer(Ok("SEED".to_string())), Ok("SEED".to_string()));
    assert_eq!(
        operator_bearer(Err("missing".to_string())),
        Err("could not read operator identity; run 'tally init' to initialize".to_string())
    );
    assert_eq!(agent_bearer("AAAA"), "AAAA");
}

#[test]
fn config_files_under_a_given_home() {

    let home = Some("/home/u".to_string());
    assert_eq!(config_file_in(&home, "identity"), Ok("/home/u/.tally/identity".to_string()));
    assert_eq!(config_file_in(&home, "runtime-endpoint"), Ok(format!("{}/runtime-endpoint", config_dir_in(&home).unwrap())));
    assert_eq!(config_file_in(&Some("/".to_string()), "cloudflare-account"), Ok("/.tally/cloudflare-account".to_string()));
    assert_eq!(config_file_in(&None, "identity"), Err("could not determine home directory".to_string()));
}
