use depscop::config::{
    Colors, Config, Csharp, Exclude, Global, Javascript, LayerMap, Rules, StringOrVec, Toggles,
};

fn pattern_of(map: &LayerMap<StringOrVec>, layer: &str) -> String {
    match map.get(layer) {
        Some(StringOrVec::String(p)) => p.clone(),
        _ => panic!("no single pattern for {}", layer),
    }
}

#[test]
fn default_config_has_three_layers() {
    let config = Config::default();
    assert_eq!(config.global.layers, vec!["core", "io", "usecase"]);
}

#[test]
fn default_config_colors() {
    let config = Config::default();
    assert_eq!(config.get_color("core"), Some(&"#FBFDB8".to_string()));
    assert_eq!(config.get_color("io"), Some(&"#A7D7FD".to_string()));
    assert_eq!(config.get_color("usecase"), Some(&"#FEA29C".to_string()));
    assert_eq!(config.get_color("unknown"), None);
    assert_eq!(config.global.colors.len(), 3);
}

#[test]
fn color_or_gray_defaults_to_gray() {
    let config = Config::default();
    assert_eq!(config.color_or_gray("io"), "#A7D7FD");
    assert_eq!(config.color_or_gray("unknown"), "gray");
    assert_eq!(config.color_or_gray(""), "gray");
}

#[test]
fn default_config_rules() {
    let config = Config::default();
    let rules = &config.global.rules;
    assert_eq!(rules.get("core"), Some(&vec!["core".to_string()]));
    assert_eq!(
        rules.get("io"),
        Some(&vec!["core".to_string(), "io".to_string(), "usecase".to_string()])
    );
    assert_eq!(rules.get("usecase"), Some(&vec!["core".to_string(), "usecase".to_string()]));
    assert_eq!(rules.get("unknown"), None);
    assert!(!rules.contains_key("unknown"));
}

#[test]
fn default_config_toggles_are_on() {
    let toggles = Config::default().global.toggles;
    assert!(toggles.show_valid_dependencies);
    assert!(toggles.show_invalid_dependencies);
    assert!(toggles.show_recognized_nodes);
    assert!(toggles.show_unrecognized_nodes);
}

#[test]
fn default_config_csharp_settings() {
    let config = Config::default();
    let csharp = config.csharp.expect("C# settings");
    assert_eq!(csharp.pattern, "regex");
    assert!(csharp.case_sensitive);
    assert_eq!(csharp.exclude.folders, vec!["bin", "obj"]);
    assert!(csharp.exclude.projects.is_empty());
    assert!(csharp.exclude.namespaces.is_empty());
    assert!(csharp.exclude.files.is_empty());
    assert_eq!(pattern_of(&csharp.projects, "core"), r".*\.Entities.*\.csproj$");
    assert_eq!(pattern_of(&csharp.projects, "io"), r".*\.IO.*\.csproj$");
    assert_eq!(pattern_of(&csharp.projects, "usecase"), r".*\.UseCases.*\.csproj$");
    assert_eq!(pattern_of(&csharp.namespaces, "core"), r".*\.Entities(\..*)?$");
    assert_eq!(pattern_of(&csharp.namespaces, "io"), r".*\.IO(\..*)?$");
    assert_eq!(pattern_of(&csharp.namespaces, "usecase"), r".*\.UseCases(\..*)?$");
    assert_eq!(csharp.projects.len(), 3);
    assert_eq!(csharp.namespaces.len(), 3);
}

#[test]
fn default_config_javascript_settings() {
    let config = Config::default();
    let javascript = config.javascript.expect("JavaScript settings");
    assert_eq!(javascript.pattern, "wildcard");
    assert!(!javascript.case_sensitive);
    assert_eq!(javascript.exclude.folders, vec!["node_modules"]);
    assert!(javascript.exclude.projects.is_empty());
    assert!(javascript.exclude.namespaces.is_empty());
    assert!(javascript.exclude.files.is_empty());
    assert_eq!(pattern_of(&javascript.folders, "core"), "*Entities*");
    assert_eq!(pattern_of(&javascript.folders, "io"), "*IO*");
    assert_eq!(pattern_of(&javascript.folders, "usecase"), "*UseCase*");
}

#[test]
fn for_languages_keeps_the_listed_languages() {
    let both = Config::for_languages("csharp,javascript");
    assert!(both.csharp.is_some());
    assert!(both.javascript.is_some());
    let csharp = Config::for_languages("csharp");
    assert!(csharp.csharp.is_some());
    assert!(csharp.javascript.is_none());
    let javascript = Config::for_languages("javascript");
    assert!(javascript.csharp.is_none());
    assert!(javascript.javascript.is_some());
    assert_eq!(javascript.global.layers, vec!["core", "io", "usecase"]);
}

#[test]
fn for_languages_wants_exact_names() {
    let none = Config::for_languages("");
    assert!(none.csharp.is_none());
    assert!(none.javascript.is_none());
    let spaced = Config::for_languages("csharp, javascript");
    assert!(spaced.csharp.is_some());
    assert!(spaced.javascript.is_none());
    let other = Config::for_languages("CSharp,java,script");
    assert!(other.csharp.is_none());
    assert!(other.javascript.is_none());
}

#[test]
fn layer_map_keeps_insertion_order() {
    let mut map: LayerMap<String> = LayerMap::new();
    assert_eq!(map.len(), 0);
    map.insert("io".to_string(), "blue".to_string());
    map.insert("core".to_string(), "yellow".to_string());
    map.insert("usecase".to_string(), "red".to_string());
    let order: Vec<&str> = map.entries.iter().map(|e| e.layer.as_str()).collect();
    assert_eq!(order, vec!["io", "core", "usecase"]);
    assert_eq!(map.position("core"), Some(1));
    assert_eq!(map.position("none"), None);
}

#[test]
fn layer_map_insert_replaces_the_value_of_a_known_layer() {
    let mut map: LayerMap<String> = LayerMap::new();
    map.insert("io".to_string(), "blue".to_string());
    map.insert("core".to_string(), "yellow".to_string());
    map.insert("io".to_string(), "green".to_string());
    assert_eq!(map.len(), 2);
    assert_eq!(map.get("io"), Some(&"green".to_string()));
    assert_eq!(map.get("core"), Some(&"yellow".to_string()));
    assert_eq!(map.position("io"), Some(0));
}

#[test]
fn layer_map_lookup_of_missing_layer() {
    let map: LayerMap<Vec<String>> = LayerMap::default();
    assert_eq!(map.get("core"), None);
    assert!(!map.contains_key("core"));
    assert_eq!(map.len(), 0);
}

#[test]
fn derived_defaults_are_empty() {
    assert_eq!(Colors::default().colors.len(), 0);
    assert_eq!(Rules::default().rules.len(), 0);
    let toggles = Toggles::default();
    assert!(!toggles.show_valid_dependencies);
    assert!(!toggles.show_invalid_dependencies);
    assert!(!toggles.show_recognized_nodes);
    assert!(!toggles.show_unrecognized_nodes);
    let exclude = Exclude::default();
    assert!(exclude.folders.is_empty() && exclude.files.is_empty());
    assert!(exclude.projects.is_empty() && exclude.namespaces.is_empty());
    let global = Global::default();
    assert!(global.layers.is_empty());
    assert_eq!(global.colors.len(), 0);
    assert_eq!(global.rules.len(), 0);
    assert_eq!(global.toggles, toggles);
    let csharp = Csharp::default();
    assert_eq!(csharp.pattern, "");
    assert!(!csharp.case_sensitive);
    assert_eq!(csharp.projects.len(), 0);
    assert_eq!(csharp.namespaces.len(), 0);
    let javascript = Javascript::default();
    assert_eq!(javascript.pattern, "");
    assert!(!javascript.case_sensitive);
    assert_eq!(javascript.folders.len(), 0);
}
