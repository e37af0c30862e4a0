use stac_cli::batch::FetchError;
use stac_cli::fetch::{destination_file_name, local_href, relocate_asset};
use stac_cli::model::{require_item, string_is, take_assets, Asset, CatalogValue, Item};
use stac_cli::report::{diagnostic_lines, validation_exit_code, Diagnostic};

fn asset(href: &str) -> Asset {
    Asset {
        href: href.to_string(),
        title: Some("a title".to_string()),
        media_type: Some("image/tiff".to_string()),
        roles: vec!["data".to_string()],
    }
}

#[test]
fn destination_file_name_is_last_segment() {
    let name = destination_file_name("https://example.com/a/b/image.tif").unwrap();
    assert_eq!(name, "image.tif");
}

#[test]
fn destination_file_name_rejects_relative_href() {
    let err = destination_file_name("not a url").err().unwrap();
    assert!(matches!(err, FetchError::InvalidUrl(h) if h == "not a url"));
}

#[test]
fn destination_file_name_rejects_cannot_be_a_base() {
    let err = destination_file_name("data:text/plain,hello").err().unwrap();
    assert!(matches!(err, FetchError::NoFileName(h) if h == "data:text/plain,hello"));
}

#[test]
fn local_href_prefixes_dot_slash() {
    assert_eq!(local_href("image.tif"), "./image.tif");
}

#[test]
fn relocate_asset_rewrites_href_only() {
    let mut a = asset("https://example.com/a/b/image.tif");
    relocate_asset(&mut a, "image.tif");
    assert_eq!(a.href, "./image.tif");
    assert_eq!(a.title.as_deref(), Some("a title"));
    assert_eq!(a.media_type.as_deref(), Some("image/tiff"));
    assert_eq!(a.roles, vec!["data".to_string()]);
}

#[test]
fn require_item_passes_items_through() {
    let item = Item {
        id: "x".to_string(),
        base_href: None,
        assets: Vec::new(),
        links: Vec::new(),
    };
    let got = require_item(CatalogValue::Item(item)).unwrap();
    assert_eq!(got.id, "x");
}

#[test]
fn require_item_names_the_wrong_kind() {
    let err = require_item(CatalogValue::Other("Catalog".to_string())).err().unwrap();
    assert_eq!(err, "STAC value is a Catalog, not an Item");
}

#[test]
fn take_assets_drains_the_mapping() {
    let mut item = Item {
        id: "x".to_string(),
        base_href: None,
        assets: vec![("k".to_string(), asset("https://e/x.tif"))],
        links: Vec::new(),
    };
    let pairs = take_assets(&mut item);
    assert!(item.assets.is_empty());
    assert_eq!(pairs.len(), 1);
    assert_eq!(pairs[0].0, "k");
    assert_eq!(pairs[0].1.href, "https://e/x.tif");
}

#[test]
fn string_is_compares_contents() {
    assert!(string_is(&"self".to_string(), "self"));
    assert!(!string_is(&"self".to_string(), "canonical"));
}

#[test]
fn valid_report_is_empty_and_exits_zero() {
    let diagnostics: Vec<Diagnostic> = Vec::new();
    assert_eq!(validation_exit_code(&diagnostics), 0);
    assert!(diagnostic_lines(&diagnostics).is_empty());
}

#[test]
fn invalid_report_names_the_offending_path() {
    let diagnostics = vec![
        Diagnostic::Schema {
            message: "\"datetime\" is a required property".to_string(),
            path: "/properties".to_string(),
        },
        Diagnostic::Other {
            message: "unknown version".to_string(),
        },
    ];
    assert_eq!(validation_exit_code(&diagnostics), 1);
    let lines = diagnostic_lines(&diagnostics);
    assert_eq!(lines.len(), 2);
    assert_eq!(
        lines[0],
        "(jsonschema) \"datetime\" is a required property @ /properties"
    );
    assert_eq!(lines[1], "(other) unknown version");
}
