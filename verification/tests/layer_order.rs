use depscop::config::{Config, LayerEntry, LayerMap, StringOrVec};
use depscop::patterns::determine_layer;

fn map(entries: &[(&str, &str)]) -> LayerMap<String> {
    LayerMap {
        entries: entries
            .iter()
            .map(|(layer, value)| LayerEntry { layer: layer.to_string(), value: value.to_string() })
            .collect(),
    }
}

fn pairs(map: &LayerMap<String>) -> Vec<(&str, &str)> {
    map.entries.iter().map(|e| (e.layer.as_str(), e.value.as_str())).collect()
}

fn names(map: &LayerMap<StringOrVec>) -> Vec<&str> {
    map.entries.iter().map(|e| e.layer.as_str()).collect()
}

fn layers(names: &[&str]) -> Vec<String> {
    names.iter().map(|n| n.to_string()).collect()
}

fn patterns(entries: &[(&str, &str)]) -> LayerMap<StringOrVec> {
    LayerMap {
        entries: entries
            .iter()
            .map(|(layer, pattern)| LayerEntry {
                layer: layer.to_string(),
                value: StringOrVec::String(pattern.to_string()),
            })
            .collect(),
    }
}

#[test]
fn order_by_follows_the_list_of_layers() {
    let ordered = map(&[("usecase", "u"), ("core", "c"), ("io", "i")])
        .order_by(&layers(&["core", "io", "usecase"]));
    assert_eq!(pairs(&ordered), vec![("core", "c"), ("io", "i"), ("usecase", "u")]);
}

#[test]
fn order_by_puts_unlisted_layers_last_in_their_order() {
    let ordered = map(&[("z", "1"), ("io", "2"), ("a", "3"), ("core", "4")])
        .order_by(&layers(&["core", "io"]));
    assert_eq!(pairs(&ordered), vec![("core", "4"), ("io", "2"), ("z", "1"), ("a", "3")]);
}

#[test]
fn order_by_skips_layers_without_entries() {
    let ordered = map(&[("io", "2"), ("core", "4")]).order_by(&layers(&["usecase", "core", "ui"]));
    assert_eq!(pairs(&ordered), vec![("core", "4"), ("io", "2")]);
}

#[test]
fn order_by_with_nothing_to_order() {
    assert!(map(&[]).order_by(&layers(&["core"])).entries.is_empty());
    let same = map(&[("io", "2"), ("core", "4")]).order_by(&layers(&[]));
    assert_eq!(pairs(&same), vec![("io", "2"), ("core", "4")]);
}

#[test]
fn order_by_keeps_every_entry_of_a_repeated_layer() {
    let ordered = map(&[("io", "first"), ("core", "c"), ("io", "second")])
        .order_by(&layers(&["core", "io"]));
    assert_eq!(pairs(&ordered), vec![("core", "c"), ("io", "first"), ("io", "second")]);
    assert_eq!(ordered.get("io"), Some(&"first".to_string()));
    let twice = map(&[("io", "first"), ("core", "c"), ("io", "second")])
        .order_by(&layers(&["io", "io", "core"]));
    assert_eq!(pairs(&twice), vec![("io", "first"), ("io", "second"), ("core", "c")]);
}

#[test]
fn order_by_changes_no_lookup() {
    let before = map(&[("z", "1"), ("io", "2"), ("a", "3"), ("core", "4"), ("io", "5")]);
    let after = before.clone().order_by(&layers(&["core", "io", "z"]));
    for layer in ["z", "io", "a", "core", "none"] {
        assert_eq!(after.get(layer), before.get(layer));
    }
    assert_eq!(after.len(), before.len());
}

#[test]
fn ordered_layers_decide_overlapping_patterns() {
    let unordered = patterns(&[("a", "Foo"), ("b", "Foo")]);
    assert_eq!(determine_layer("Foo", &unordered, true, "regex"), "a");
    let ordered = unordered.order_by(&layers(&["b", "a"]));
    assert_eq!(determine_layer("Foo", &ordered, true, "regex"), "b");
}

#[test]
fn order_by_layers_orders_the_pattern_maps() {
    let mut config = Config::default();
    config.global.layers = layers(&["usecase", "io", "core"]);
    let ordered = config.order_by_layers();
    assert_eq!(ordered.global.layers, vec!["usecase", "io", "core"]);
    let csharp = ordered.csharp.expect("C# settings");
    assert_eq!(names(&csharp.projects), vec!["usecase", "io", "core"]);
    assert_eq!(names(&csharp.namespaces), vec!["usecase", "io", "core"]);
    assert_eq!(csharp.pattern, "regex");
    assert!(csharp.case_sensitive);
    assert_eq!(csharp.exclude.folders, vec!["bin", "obj"]);
    let javascript = ordered.javascript.expect("JavaScript settings");
    assert_eq!(names(&javascript.folders), vec!["usecase", "io", "core"]);
    assert_eq!(javascript.exclude.folders, vec!["node_modules"]);
    assert_eq!(ordered.global.colors.get("io"), Some(&"#A7D7FD".to_string()));
    assert!(ordered.global.toggles.show_valid_dependencies);
}

#[test]
fn order_by_layers_keeps_missing_settings_missing() {
    let ordered = Config::for_languages("javascript").order_by_layers();
    assert!(ordered.csharp.is_none());
    assert!(ordered.javascript.is_some());
}
