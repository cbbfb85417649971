use depscop::text::{
    chars_of, contains_str, has_extension, normalize_separators, split, split_lines, str_eq,
    RemoveBom,
};

#[test]
fn str_eq_compares_characters() {
    assert!(str_eq("core", "core"));
    assert!(str_eq("", ""));
    assert!(!str_eq("core", "Core"));
    assert!(!str_eq("core", "cor"));
    assert!(!str_eq("cor", "core"));
    assert!(str_eq("días", "días"));
    assert!(!str_eq("días", "dias"));
}

#[test]
fn remove_bom_strips_a_leading_mark() {
    let with = String::from("\u{feff}namespace A;");
    assert_eq!(with.remove_bom(), "namespace A;");
}

#[test]
fn remove_bom_keeps_text_without_mark() {
    let without = String::from("namespace A;");
    assert_eq!(without.remove_bom(), "namespace A;");
    assert_eq!(String::new().remove_bom(), "");
}

#[test]
fn remove_bom_strips_every_leading_mark() {
    let twice = String::from("\u{feff}\u{feff}x");
    assert_eq!(twice.remove_bom(), "x");
    assert_eq!(String::from("\u{feff}").remove_bom(), "");
}

#[test]
fn remove_bom_keeps_marks_inside_the_text() {
    let inner = String::from("a\u{feff}b");
    assert_eq!(inner.remove_bom(), "a\u{feff}b");
    let both = String::from("\u{feff}a\u{feff}");
    assert_eq!(both.remove_bom(), "a\u{feff}");
}

#[test]
fn remove_bom_is_idempotent() {
    let text = String::from("\u{feff}\u{feff}using A.B;\n");
    let once = text.remove_bom();
    assert_eq!(once.remove_bom(), once);
}

#[test]
fn split_lines_splits_at_line_feeds() {
    assert_eq!(split_lines("a\nb\nc"), vec!["a", "b", "c"]);
}

#[test]
fn split_lines_drops_carriage_returns_before_line_feeds() {
    assert_eq!(split_lines("a\r\nb\r\n"), vec!["a", "b"]);
    assert_eq!(split_lines("a\r\r\nb"), vec!["a\r", "b"]);
}

#[test]
fn split_lines_keeps_a_final_carriage_return() {
    assert_eq!(split_lines("foo\nbar\n\r\nbaz\r"), vec!["foo", "bar", "", "baz\r"]);
}

#[test]
fn split_lines_of_empty_text_is_empty() {
    assert_eq!(split_lines(""), Vec::<String>::new());
}

#[test]
fn split_lines_ignores_the_final_line_feed() {
    assert_eq!(split_lines("a\n"), vec!["a"]);
    assert_eq!(split_lines("\n"), vec![""]);
    assert_eq!(split_lines("\n\n"), vec!["", ""]);
}

#[test]
fn split_lines_agrees_with_the_standard_library() {
    let texts = [
        "",
        "\n",
        "\r",
        "\r\n",
        "a",
        "a\n",
        "a\r\nb",
        "a\n\nb\n",
        "x\r\r\n\ry\r",
        "usíng Ünï.Cødé;\r\nnamespace Ñ;\n",
    ];
    for text in texts {
        let expected: Vec<String> = text.lines().map(|l| l.to_string()).collect();
        assert_eq!(split_lines(text), expected);
    }
}

#[test]
fn split_gives_every_item_of_a_list() {
    assert_eq!(split("csharp,javascript", ','), vec!["csharp", "javascript"]);
    assert_eq!(split("csharp", ','), vec!["csharp"]);
    assert_eq!(split("", ','), vec![""]);
    assert_eq!(split("a,,b,", ','), vec!["a", "", "b", ""]);
    assert_eq!(split(",", ','), vec!["", ""]);
}

#[test]
fn normalize_separators_replaces_backslashes() {
    assert_eq!(normalize_separators("..\\Foo\\Foo.Entities.csproj"), "../Foo/Foo.Entities.csproj");
    assert_eq!(normalize_separators("../Foo/Foo.csproj"), "../Foo/Foo.csproj");
    assert_eq!(normalize_separators("a\\b/c\\\\d"), "a/b/c//d");
    assert_eq!(normalize_separators(""), "");
}

#[test]
fn has_extension_wants_a_dot_and_a_stem() {
    assert!(has_extension("Foo.csproj", "csproj"));
    assert!(has_extension("Foo.Entities.csproj", "csproj"));
    assert!(has_extension("..csproj", "csproj"));
    assert!(!has_extension(".csproj", "csproj"));
    assert!(!has_extension("csproj", "csproj"));
    assert!(!has_extension("Foo.csproj.user", "csproj"));
    assert!(!has_extension("Foocsproj", "csproj"));
    assert!(!has_extension("Foo.CSPROJ", "csproj"));
    assert!(has_extension("A.cs", "cs"));
    assert!(!has_extension("A.css", "cs"));
    assert!(!has_extension("", "cs"));
}

#[test]
fn chars_of_lists_the_characters() {
    assert_eq!(chars_of("aé\u{feff}"), vec!['a', 'é', '\u{feff}']);
    assert_eq!(chars_of(""), Vec::<char>::new());
}

#[test]
fn contains_str_finds_whole_items_only() {
    let list = vec!["core".to_string(), "io".to_string()];
    assert!(contains_str(&list, "core"));
    assert!(contains_str(&list, "io"));
    assert!(!contains_str(&list, "cor"));
    assert!(!contains_str(&list, "usecase"));
    assert!(!contains_str(&Vec::new(), "core"));
}
