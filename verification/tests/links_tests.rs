use stac_cli::links::{item_file_name, set_link, update_links, LinkError};
use stac_cli::model::{Item, Link};

fn link(rel: &str, href: &str) -> Link {
    Link {
        rel: rel.to_string(),
        href: href.to_string(),
    }
}

fn item_with(base: Option<&str>, links: Vec<Link>) -> Item {
    Item {
        id: "it".to_string(),
        base_href: base.map(|s| s.to_string()),
        assets: Vec::new(),
        links,
    }
}

fn rels(item: &Item, rel: &str) -> Vec<String> {
    item.links
        .iter()
        .filter(|l| l.rel == rel)
        .map(|l| l.href.clone())
        .collect()
}

#[test]
fn finalize_rotates_self_and_installs_new_self() {
    let old_self = "https://example.com/catalog/item.json";
    let mut item = item_with(
        Some(old_self),
        vec![link("self", old_self), link("root", "./catalog.json")],
    );
    let result = update_links(&mut item, "downloads/it.json");
    assert!(result.is_ok());
    let selfs = rels(&item, "self");
    assert_eq!(selfs, vec!["downloads/it.json".to_string()]);
    let canonicals = rels(&item, "canonical");
    assert_eq!(canonicals, vec![old_self.to_string()]);
    // the new self link stands last
    let last = item.links.last().unwrap();
    assert_eq!(last.rel, "self");
    assert_eq!(last.href, "downloads/it.json");
    // the relative root link was absolutized against the URL base
    let roots = rels(&item, "root");
    assert_eq!(roots, vec!["https://example.com/catalog/catalog.json".to_string()]);
}

#[test]
fn finalize_without_prior_self_adds_no_canonical() {
    let mut item = item_with(None, vec![link("root", "https://example.com/catalog.json")]);
    let result = update_links(&mut item, "out/it.json");
    assert!(result.is_ok());
    assert_eq!(rels(&item, "self"), vec!["out/it.json".to_string()]);
    assert!(rels(&item, "canonical").is_empty());
    assert_eq!(
        rels(&item, "root"),
        vec!["https://example.com/catalog.json".to_string()]
    );
}

#[test]
fn finalize_replaces_prior_canonical_when_rotating() {
    let old_self = "https://example.com/a/item.json";
    let mut item = item_with(
        Some(old_self),
        vec![
            link("canonical", "https://example.com/older/item.json"),
            link("self", old_self),
        ],
    );
    assert!(update_links(&mut item, "d/it.json").is_ok());
    assert_eq!(rels(&item, "canonical"), vec![old_self.to_string()]);
    assert_eq!(rels(&item, "self"), vec!["d/it.json".to_string()]);
}

#[test]
fn finalize_fails_without_base_for_relative_link() {
    let mut item = item_with(None, vec![link("root", "./catalog.json")]);
    let result = update_links(&mut item, "out/it.json");
    let err = result.err().unwrap();
    let LinkError::LinkResolution(href) = err;
    assert_eq!(href, "./catalog.json");
}

#[test]
fn finalize_joins_against_path_base() {
    let mut item = item_with(
        Some("/data/catalog/item.json"),
        vec![link("parent", "parent.json")],
    );
    assert!(update_links(&mut item, "o/it.json").is_ok());
    assert_eq!(
        rels(&item, "parent"),
        vec!["/data/catalog/parent.json".to_string()]
    );
}

#[test]
fn finalize_normalizes_dot_segments_against_path_base() {
    let mut item = item_with(
        Some("/a/b/item.json"),
        vec![link("sibling", "../thumb/t.png"), link("here", "./x.json")],
    );
    assert!(update_links(&mut item, "o/it.json").is_ok());
    assert_eq!(rels(&item, "sibling"), vec!["/a/thumb/t.png".to_string()]);
    assert_eq!(rels(&item, "here"), vec!["/a/b/x.json".to_string()]);
}

#[test]
fn finalize_roots_relative_join_without_directory_base() {
    let mut item = item_with(Some("item.json"), vec![link("next", "x.json")]);
    assert!(update_links(&mut item, "o/it.json").is_ok());
    assert_eq!(rels(&item, "next"), vec!["/x.json".to_string()]);
}

#[test]
fn finalize_keeps_absolute_links_as_written() {
    let mut item = item_with(
        None,
        vec![link("parent", "/already/rooted.json"), link("via", "s3://bucket/item.json")],
    );
    assert!(update_links(&mut item, "o/it.json").is_ok());
    assert_eq!(rels(&item, "parent"), vec!["/already/rooted.json".to_string()]);
    assert_eq!(rels(&item, "via"), vec!["s3://bucket/item.json".to_string()]);
}

#[test]
fn link_resolution_message() {
    let err = LinkError::LinkResolution("./x.json".to_string());
    assert_eq!(err.message(), "cannot resolve link: ./x.json");
}

#[test]
fn set_link_replaces_same_relation() {
    let mut links = vec![
        link("child", "a.json"),
        link("root", "r.json"),
        link("child", "b.json"),
    ];
    set_link(&mut links, link("child", "c.json"));
    let children: Vec<&str> = links
        .iter()
        .filter(|l| l.rel == "child")
        .map(|l| l.href.as_str())
        .collect();
    assert_eq!(children, vec!["c.json"]);
    assert_eq!(links.len(), 2);
    assert_eq!(links.last().unwrap().href, "c.json");
}

#[test]
fn item_file_name_appends_json() {
    assert_eq!(item_file_name("my-item"), "my-item.json");
}
