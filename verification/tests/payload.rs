use dsh_desktop::payload::{
    css_needs_patch, css_patch_block, is_css_bundle, patch_payload, prunes_image_package,
    prunes_prebuild, CssAsset,
};

const MARK: &str = "dsh-desktop: 禁用页面级弹性滚动";

#[test]
fn css_patch_block_text() {
    assert_eq!(
        css_patch_block(),
        format!(
            "\n/* {} */\nhtml,body{{height:100%;overflow:hidden;overscroll-behavior:none}}\n",
            MARK
        )
    );
}

#[test]
fn css_selection() {
    assert!(is_css_bundle("index-abc123.css"));
    assert!(!is_css_bundle("index-abc123.js"));
    assert!(!is_css_bundle("main-abc.css"));
    assert!(!is_css_bundle("index-.cs"));
    assert!(css_needs_patch("body{}"));
    assert!(!css_needs_patch(&format!("body{{}}{}", css_patch_block())));
}

#[test]
fn prune_rules() {
    assert!(!prunes_prebuild("darwin-arm64"));
    assert!(prunes_prebuild("linux-x64"));
    assert!(prunes_prebuild("darwin-x64"));
    assert!(prunes_image_package("sharp-linux-x64"));
    assert!(!prunes_image_package("sharp-darwin-arm64"));
    assert!(!prunes_image_package("sharp-libvips-darwin-arm64"));
    assert!(!prunes_image_package("colour"));
}

#[test]
fn plan_for_a_payload() {
    let patched = format!("a{{}}{}", css_patch_block());
    let assets = vec![
        CssAsset { name: "index-1.css".to_string(), content: Some("a{}".to_string()) },
        CssAsset { name: "index-2.css".to_string(), content: Some(patched) },
        CssAsset { name: "index-3.css".to_string(), content: None },
        CssAsset { name: "index-4.js".to_string(), content: Some("x".to_string()) },
        CssAsset { name: "index-5.css".to_string(), content: Some(String::new()) },
    ];
    let prebuilds = vec!["darwin-arm64".to_string(), "linux-x64".to_string(), "win32-x64".to_string()];
    let images = vec![
        "sharp-darwin-arm64".to_string(),
        "sharp-linux-arm".to_string(),
        "colour".to_string(),
        "sharp-win32-x64".to_string(),
    ];
    let plan = patch_payload(&assets, &prebuilds, &images);
    assert_eq!(plan.css_appends, vec!["index-1.css".to_string(), "index-5.css".to_string()]);
    assert_eq!(plan.remove_prebuilds, vec!["linux-x64".to_string(), "win32-x64".to_string()]);
    assert_eq!(plan.remove_images, vec!["sharp-linux-arm".to_string(), "sharp-win32-x64".to_string()]);
}
