use zensally::plugin::{
    first_plugin_source, is_bare_filename, next_plugin_source, plugin_filename, PluginSource,
    TargetOs,
};

#[test]
fn plugin_filename_per_os() {
    assert_eq!(plugin_filename(TargetOs::Windows), "zentract_abi.dll");
    assert_eq!(plugin_filename(TargetOs::MacOs), "libzentract_abi.dylib");
    assert_eq!(plugin_filename(TargetOs::Other), "libzentract_abi.so");
}

#[test]
fn plugin_search_order() {
    let mut order = vec![first_plugin_source()];
    while let Some(next) = next_plugin_source(*order.last().unwrap()) {
        order.push(next);
    }
    assert_eq!(
        order,
        vec![
            PluginSource::EnvVar,
            PluginSource::ExeSibling,
            PluginSource::CwdTarget,
            PluginSource::WorkspaceSibling,
            PluginSource::BareFilename,
        ]
    );
}

#[test]
fn bare_filename_detection() {
    assert!(is_bare_filename("libzentract_abi.so"));
    assert!(is_bare_filename(""));
    assert!(!is_bare_filename("target/release/libzentract_abi.so"));
    assert!(!is_bare_filename("C:\\plugins\\zentract_abi.dll"));
    assert!(!is_bare_filename("/"));
    assert!(is_bare_filename("plügin.so"));
}

#[test]
fn workspace_sibling_is_parent_zentract_build() {
    assert_eq!(zensally::plugin::workspace_sibling_dir(), "../zentract/target/release");
}
