use tonos_cli::plugins::{
    entry_error_message, find_link, get_dylib_extension, is_plugin_library, link_names, plugin_config_path, TargetOs,
};
use tonos_cli::{run_query_accounts, NodeLinkClient};

struct Fixed(Result<Vec<String>, String>);

impl NodeLinkClient for Fixed {
    fn query_accounts(&mut self, addresses: Vec<String>) -> Result<Vec<String>, String> {
        match &self.0 {
            Ok(v) => Ok(v.iter().chain(addresses.iter()).cloned().collect()),
            Err(e) => Err(e.clone()),
        }
    }
}

#[test]
fn dylib_extensions() {
    assert_eq!(get_dylib_extension(TargetOs::Linux), "so");
    assert_eq!(get_dylib_extension(TargetOs::FreeBsd), "so");
    assert_eq!(get_dylib_extension(TargetOs::DragonFly), "so");
    assert_eq!(get_dylib_extension(TargetOs::MacOs), "dylib");
    assert_eq!(get_dylib_extension(TargetOs::Windows), "dll");
}

#[test]
fn plugin_libraries_and_their_configs() {
    assert!(is_plugin_library(false, "so", "so"));
    assert!(!is_plugin_library(true, "so", "so"));
    assert!(!is_plugin_library(false, "cfg", "so"));
    assert_eq!(plugin_config_path("plugins/libfront.so", "so"), "plugins/libfront.cfg");
    assert_eq!(plugin_config_path("a.b.dylib", "dylib"), "a.b.cfg");
}

#[test]
fn links_are_found_by_name() {
    let names = vec![None, Some("direct".to_string()), Some("front".to_string()), Some("front".to_string())];
    assert_eq!(find_link(&names, "front"), Some(2));
    assert_eq!(find_link(&names, "direct"), Some(1));
    assert_eq!(find_link(&names, "other"), None);
    assert_eq!(link_names(&names), vec!["direct", "front", "front"]);
}

#[test]
fn query_results_and_failures() {
    let mut ok = Fixed(Ok(vec!["x".to_string()]));
    assert_eq!(
        run_query_accounts(&mut ok, vec!["a".to_string()]),
        Ok(vec!["x".to_string(), "a".to_string()])
    );
    let mut bad: Box<dyn NodeLinkClient> = Box::new(Fixed(Err("down".to_string())));
    assert_eq!(
        run_query_accounts(&mut bad, vec![]),
        Err("Error query accounts: down".to_string())
    );
}

#[test]
fn directory_listing_failures() {
    assert_eq!(entry_error_message("denied"), "Error iterating plugin entries: denied");
}
