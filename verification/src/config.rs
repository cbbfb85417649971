//! The configuration that drives an analysis: layers, their colors, the rule
//! matrix, and per-ecosystem patterns and exclusions.

use vstd::prelude::*;
use crate::seqs::{first_where, lemma_first_where, lemma_first_where_at};
use crate::text::{contains_str, spec_split, split, str_eq};

verus! {

/// One entry of a `LayerMap`: a layer's name and what is configured for it.
#[derive(Debug, Clone)]
pub struct LayerEntry<V> {
    pub layer: String,
    pub value: V,
}

/// A map keyed by layer name that keeps its entries in insertion order, so
/// that walking it gives the same order on every run.
#[derive(Debug, Clone)]
pub struct LayerMap<V> {
    pub entries: Vec<LayerEntry<V>>,
}

/// The test that an entry is for `layer`.
pub open spec fn is_for<V>(layer: Seq<char>) -> spec_fn(LayerEntry<V>) -> bool {
    |e: LayerEntry<V>| e.layer@ == layer
}

/// Index of the first entry for `layer`, if there is one.
pub open spec fn first_index<V>(entries: Seq<LayerEntry<V>>, layer: Seq<char>) -> Option<int> {
    first_where(entries, is_for(layer))
}

impl<V> LayerMap<V> {
    /// No layer has two entries.
    pub open spec fn wf(&self) -> bool {
        forall|i: int, j: int|
            0 <= i < j < self.entries@.len() ==> self.entries@[i].layer@ != self.entries@[j].layer@
    }

    /// Whether the map has an entry for `layer`.
    pub open spec fn has(&self, layer: Seq<char>) -> bool {
        first_index(self.entries@, layer) is Some
    }

    /// What is configured for `layer`: the value of its first entry.
    pub open spec fn spec_get(&self, layer: Seq<char>) -> Option<V> {
        match first_index(self.entries@, layer) {
            Some(i) => Some(self.entries@[i].value),
            None => None,
        }
    }

    /// A map without entries.
    pub fn new() -> (r: Self)
        ensures
            r.entries@.len() == 0,
            r.wf(),
    {
        LayerMap { entries: Vec::new() }
    }

    /// Number of entries.
    pub fn len(&self) -> (r: usize)
        ensures
            r == self.entries@.len(),
    {
        self.entries.len()
    }

    /// Position of the entry for `layer`.
    pub fn position(&self, layer: &str) -> (r: Option<usize>)
        ensures
            match r {
                Some(i) => i < self.entries@.len() && first_index(self.entries@, layer@) == Some(
                    i as int,
                ),
                None => first_index(self.entries@, layer@) is None,
            },
    {
        let mut i: usize = 0;
        while i < self.entries.len()
            invariant
                i <= self.entries@.len(),
                forall|j: int| 0 <= j < i ==> self.entries@[j].layer@ != layer@,
            decreases self.entries@.len() - i,
        {
            if str_eq(self.entries[i].layer.as_str(), layer) {
                proof {
                    lemma_first_where_at(self.entries@, is_for(layer@), i as int);
                }
                return Some(i);
            }
            i += 1;
        }
        proof {
            lemma_first_where(self.entries@, is_for(layer@));
        }
        None
    }

    /// Whether the map has an entry for `layer`.
    pub fn contains_key(&self, layer: &str) -> (r: bool)
        ensures
            r == self.has(layer@),
    {
        self.position(layer).is_some()
    }

    /// What is configured for `layer`.
    pub fn get(&self, layer: &str) -> (r: Option<&V>)
        ensures
            match r {
                Some(v) => self.spec_get(layer@) == Some(*v),
                None => self.spec_get(layer@) is None,
            },
    {
        match self.position(layer) {
            Some(i) => Some(&self.entries[i].value),
            None => None,
        }
    }

    /// Sets what is configured for `layer`: replaces the value of its entry,
    /// or adds an entry at the end where it had none.
    pub fn insert(&mut self, layer: String, value: V)
        ensures
            match first_index(old(self).entries@, layer@) {
                Some(i) => final(self).entries@ == old(self).entries@.update(
                    i,
                    (LayerEntry { layer, value }),
                ),
                None => final(self).entries@ == old(self).entries@.push(
                    (LayerEntry { layer, value }),
                ),
            },
            final(self).spec_get(layer@) == Some(value),
            old(self).wf() ==> final(self).wf(),
    {
        let found = self.position(layer.as_str());
        proof {
            lemma_first_where(self.entries@, is_for(layer@));
        }
        match found {
            Some(i) => {
                self.entries.set(i, LayerEntry { layer, value });
                proof {
                    lemma_first_where_at(self.entries@, is_for(layer@), i as int);
                }
            },
            None => {
                self.entries.push(LayerEntry { layer, value });
                proof {
                    lemma_first_where_at(self.entries@, is_for(layer@), self.entries@.len() - 1);
                }
            },
        }
    }
}

/// The entries of a map as pairs of a layer's name and its value's view.
pub open spec fn entry_views<V: DeepView>(entries: Seq<LayerEntry<V>>) -> Seq<(Seq<char>, V::V)> {
    Seq::new(entries.len(), |i: int| (entries[i].layer@, entries[i].value.deep_view()))
}

impl<V: DeepView> DeepView for LayerMap<V> {
    type V = Seq<(Seq<char>, V::V)>;

    open spec fn deep_view(&self) -> Seq<(Seq<char>, V::V)> {
        entry_views(self.entries@)
    }
}

/// The test that a pair starts with `key`.
pub open spec fn has_key<T>(key: Seq<char>) -> spec_fn((Seq<char>, T)) -> bool {
    |e: (Seq<char>, T)| e.0 == key
}

/// What a list of pairs holds for `key`: the second half of the first pair
/// that starts with it.
pub open spec fn lookup<T>(pairs: Seq<(Seq<char>, T)>, key: Seq<char>) -> Option<T> {
    match first_where(pairs, has_key(key)) {
        Some(i) => Some(pairs[i].1),
        None => None,
    }
}

/// Looking a layer up in a map's view gives the view of what the map holds.
pub proof fn lemma_lookup_view<V: DeepView>(entries: Seq<LayerEntry<V>>, key: Seq<char>)
    ensures
        lookup(entry_views(entries), key) == match first_index(entries, key) {
            Some(i) => Some(entries[i].value.deep_view()),
            None => None,
        },
{
    let pairs = entry_views(entries);
    let by_entry = is_for::<V>(key);
    let by_pair = has_key::<V::V>(key);
    lemma_first_where(entries, by_entry);
    match first_where(entries, by_entry) {
        Some(i) => {
            assert forall|j: int| 0 <= j < i implies !by_pair(#[trigger] pairs[j]) by {}
            lemma_first_where_at(pairs, by_pair, i);
        },
        None => {
            lemma_first_where(pairs, by_pair);
            assert forall|j: int| 0 <= j < pairs.len() implies !by_pair(#[trigger] pairs[j]) by {}
        },
    }
}

impl<V> Default for LayerMap<V> {
    fn default() -> (r: Self)
        ensures
            r.entries@.len() == 0,
    {
        LayerMap { entries: Vec::new() }
    }
}

/// Colors by layer, for display.
#[derive(Debug, Clone)]
pub struct Colors {
    pub colors: LayerMap<String>,
}

/// The rule matrix: for each layer, the layers it may depend on.
#[derive(Debug, Clone)]
pub struct Rules {
    pub rules: LayerMap<Vec<String>>,
}

/// Which nodes and dependencies a rendering shows.
#[derive(Debug, Clone, Copy, PartialEq, Eq, Structural)]
pub struct Toggles {
    pub show_valid_dependencies: bool,
    pub show_invalid_dependencies: bool,
    pub show_recognized_nodes: bool,
    pub show_unrecognized_nodes: bool,
}

/// Settings shared by every ecosystem.
#[derive(Debug, Clone)]
pub struct Global {
    pub layers: Vec<String>,
    pub colors: LayerMap<String>,
    pub rules: LayerMap<Vec<String>>,
    pub toggles: Toggles,
}

/// Patterns of what an analysis leaves out.
#[derive(Debug, Clone)]
pub struct Exclude {
    pub folders: Vec<String>,
    pub projects: Vec<String>,
    pub namespaces: Vec<String>,
    pub files: Vec<String>,
}

/// One pattern, or several of which any may match.
#[derive(Debug, Clone)]
pub enum StringOrVec {
    String(String),
    Vec(Vec<String>),
}

/// Settings for C# code bases.
#[derive(Debug, Clone)]
pub struct Csharp {
    pub pattern: String,
    pub case_sensitive: bool,
    pub exclude: Exclude,
    pub projects: LayerMap<StringOrVec>,
    pub namespaces: LayerMap<StringOrVec>,
}

/// Settings for JavaScript code bases.
#[derive(Debug, Clone)]
pub struct Javascript {
    pub pattern: String,
    pub case_sensitive: bool,
    pub exclude: Exclude,
    pub folders: LayerMap<StringOrVec>,
}

/// The whole configuration of a run.
#[derive(Debug, Clone)]
pub struct Config {
    pub global: Global,
    pub csharp: Option<Csharp>,
    pub javascript: Option<Javascript>,
}

/// What a `StringOrVec` holds.
pub enum PatternSet {
    One(Seq<char>),
    Many(Seq<Seq<char>>),
}

impl PatternSet {
    /// The patterns, in order.
    pub open spec fn patterns(self) -> Seq<Seq<char>> {
        match self {
            PatternSet::One(p) => seq![p],
            PatternSet::Many(ps) => ps,
        }
    }
}

impl DeepView for StringOrVec {
    type V = PatternSet;

    open spec fn deep_view(&self) -> PatternSet {
        match self {
            StringOrVec::String(p) => PatternSet::One(p@),
            StringOrVec::Vec(ps) => PatternSet::Many(ps.deep_view()),
        }
    }
}

/// What an `Exclude` holds.
pub struct ExcludeView {
    pub folders: Seq<Seq<char>>,
    pub projects: Seq<Seq<char>>,
    pub namespaces: Seq<Seq<char>>,
    pub files: Seq<Seq<char>>,
}

impl DeepView for Exclude {
    type V = ExcludeView;

    open spec fn deep_view(&self) -> ExcludeView {
        ExcludeView {
            folders: self.folders.deep_view(),
            projects: self.projects.deep_view(),
            namespaces: self.namespaces.deep_view(),
            files: self.files.deep_view(),
        }
    }
}

/// What a `Global` holds.
pub struct GlobalView {
    pub layers: Seq<Seq<char>>,
    pub colors: Seq<(Seq<char>, Seq<char>)>,
    pub rules: Seq<(Seq<char>, Seq<Seq<char>>)>,
    pub toggles: Toggles,
}

impl DeepView for Global {
    type V = GlobalView;

    open spec fn deep_view(&self) -> GlobalView {
        GlobalView {
            layers: self.layers.deep_view(),
            colors: self.colors.deep_view(),
            rules: self.rules.deep_view(),
            toggles: self.toggles,
        }
    }
}

/// What a `Csharp` holds.
pub struct CsharpView {
    pub pattern: Seq<char>,
    pub case_sensitive: bool,
    pub exclude: ExcludeView,
    pub projects: Seq<(Seq<char>, PatternSet)>,
    pub namespaces: Seq<(Seq<char>, PatternSet)>,
}

impl DeepView for Csharp {
    type V = CsharpView;

    open spec fn deep_view(&self) -> CsharpView {
        CsharpView {
            pattern: self.pattern@,
            case_sensitive: self.case_sensitive,
            exclude: self.exclude.deep_view(),
            projects: self.projects.deep_view(),
            namespaces: self.namespaces.deep_view(),
        }
    }
}

/// What a `Javascript` holds.
pub struct JavascriptView {
    pub pattern: Seq<char>,
    pub case_sensitive: bool,
    pub exclude: ExcludeView,
    pub folders: Seq<(Seq<char>, PatternSet)>,
}

impl DeepView for Javascript {
    type V = JavascriptView;

    open spec fn deep_view(&self) -> JavascriptView {
        JavascriptView {
            pattern: self.pattern@,
            case_sensitive: self.case_sensitive,
            exclude: self.exclude.deep_view(),
            folders: self.folders.deep_view(),
        }
    }
}

/// What a `Config` holds.
pub struct ConfigView {
    pub global: GlobalView,
    pub csharp: Option<CsharpView>,
    pub javascript: Option<JavascriptView>,
}

impl DeepView for Config {
    type V = ConfigView;

    open spec fn deep_view(&self) -> ConfigView {
        ConfigView {
            global: self.global.deep_view(),
            csharp: self.csharp.deep_view(),
            javascript: self.javascript.deep_view(),
        }
    }
}

/// The color of a layer: the one configured for it, or gray.
pub open spec fn color_for(layer: Seq<char>, colors: Seq<(Seq<char>, Seq<char>)>) -> Seq<char> {
    match lookup(colors, layer) {
        Some(c) => c,
        None => "gray"@,
    }
}

impl Config {
    /// The color in which a layer is shown: the one configured for it, or
    /// gray where none is.
    pub fn color_or_gray(&self, layer: &str) -> (r: String)
        ensures
            r@ == color_for(layer@, self.deep_view().global.colors),
    {
        match self.get_color(layer) {
            Some(c) => c.clone(),
            None => "gray".to_owned(),
        }
    }

    /// The color configured for a layer.
    pub fn get_color(&self, layer: &str) -> (r: Option<&String>)
        ensures
            r.deep_view() == lookup(self.deep_view().global.colors, layer@),
    {
        proof {
            lemma_lookup_view(self.global.colors.entries@, layer@);
        }
        self.global.colors.get(layer)
    }
}

/// The configuration that is used where none is given: three layers (`core`,
/// `io`, `usecase`), their colors and rules, every toggle on, regular
/// expressions for C# and wildcards for JavaScript.
pub open spec fn default_config() -> ConfigView {
    ConfigView {
        global: GlobalView {
            layers: seq!["core"@, "io"@, "usecase"@],
            colors: seq![("core"@, "#FBFDB8"@), ("io"@, "#A7D7FD"@), ("usecase"@, "#FEA29C"@)],
            rules: seq![
                ("core"@, seq!["core"@]),
                ("io"@, seq!["core"@, "io"@, "usecase"@]),
                ("usecase"@, seq!["core"@, "usecase"@]),
            ],
            toggles: Toggles {
                show_valid_dependencies: true,
                show_invalid_dependencies: true,
                show_recognized_nodes: true,
                show_unrecognized_nodes: true,
            },
        },
        csharp: Some(
            CsharpView {
                pattern: "regex"@,
                case_sensitive: true,
                exclude: ExcludeView {
                    folders: seq!["bin"@, "obj"@],
                    projects: seq![],
                    namespaces: seq![],
                    files: seq![],
                },
                projects: seq![
                    ("core"@, PatternSet::One(".*\\.Entities.*\\.csproj$"@)),
                    ("io"@, PatternSet::One(".*\\.IO.*\\.csproj$"@)),
                    ("usecase"@, PatternSet::One(".*\\.UseCases.*\\.csproj$"@)),
                ],
                namespaces: seq![
                    ("core"@, PatternSet::One(".*\\.Entities(\\..*)?$"@)),
                    ("io"@, PatternSet::One(".*\\.IO(\\..*)?$"@)),
                    ("usecase"@, PatternSet::One(".*\\.UseCases(\\..*)?$"@)),
                ],
            },
        ),
        javascript: Some(
            JavascriptView {
                pattern: "wildcard"@,
                case_sensitive: false,
                exclude: ExcludeView {
                    folders: seq!["node_modules"@],
                    projects: seq![],
                    namespaces: seq![],
                    files: seq![],
                },
                folders: seq![
                    ("core"@, PatternSet::One("*Entities*"@)),
                    ("io"@, PatternSet::One("*IO*"@)),
                    ("usecase"@, PatternSet::One("*UseCase*"@)),
                ],
            },
        ),
    }
}

/// A list of one, two or three strings.
fn strings(a: &str, b: Option<&str>, c: Option<&str>) -> (r: Vec<String>)
    ensures
        r.deep_view() == seq![a@] + (match b {
            Some(s) => seq![s@],
            None => seq![],
        }) + (match c {
            Some(s) => seq![s@],
            None => seq![],
        }),
{
    let mut v: Vec<String> = Vec::new();
    v.push(a.to_owned());
    if let Some(s) = b {
        v.push(s.to_owned());
    }
    if let Some(s) = c {
        v.push(s.to_owned());
    }
    assert(v.deep_view() =~= seq![a@] + (match b {
        Some(s) => seq![s@],
        None => seq![],
    }) + (match c {
        Some(s) => seq![s@],
        None => seq![],
    }));
    v
}

/// A map with one entry for each of the layers `core`, `io` and `usecase`.
fn three_layers<V: DeepView>(core: V, io: V, usecase: V) -> (r: LayerMap<V>)
    ensures
        r.deep_view() == seq![
            ("core"@, core.deep_view()),
            ("io"@, io.deep_view()),
            ("usecase"@, usecase.deep_view()),
        ],
        r.wf(),
{
    proof {
        reveal_strlit("core");
        reveal_strlit("io");
        reveal_strlit("usecase");
    }
    let mut entries: Vec<LayerEntry<V>> = Vec::new();
    entries.push(LayerEntry { layer: "core".to_owned(), value: core });
    entries.push(LayerEntry { layer: "io".to_owned(), value: io });
    entries.push(LayerEntry { layer: "usecase".to_owned(), value: usecase });
    let r = LayerMap { entries };
    assert(r.deep_view() =~= seq![
        ("core"@, core.deep_view()),
        ("io"@, io.deep_view()),
        ("usecase"@, usecase.deep_view()),
    ]);
    assert(r.wf()) by {
        assert(r.entries@[1].layer@.len() == 2);
        assert(r.entries@[2].layer@.len() == 7);
    }
    r
}

/// A single pattern.
fn one(pattern: &str) -> (r: StringOrVec)
    ensures
        r.deep_view() == PatternSet::One(pattern@),
{
    StringOrVec::String(pattern.to_owned())
}

/// The default configuration for the listed languages: the settings of an
/// ecosystem are there only where the comma-separated list names it.
pub open spec fn default_config_for(languages: Seq<char>) -> ConfigView {
    let listed = spec_split(languages, ',');
    ConfigView {
        global: default_config().global,
        csharp: if listed.contains("csharp"@) {
            default_config().csharp
        } else {
            None
        },
        javascript: if listed.contains("javascript"@) {
            default_config().javascript
        } else {
            None
        },
    }
}

impl Config {
    /// The default configuration for the languages of a comma-separated
    /// list (`csharp`, `javascript`): what a generated configuration file
    /// holds.
    pub fn for_languages(languages: &str) -> (r: Config)
        ensures
            r.deep_view() == default_config_for(languages@),
            r.wf(),
    {
        let listed = split(languages, ',');
        let mut config = Config::default();
        if !contains_str(&listed, "csharp") {
            config.csharp = None;
        }
        if !contains_str(&listed, "javascript") {
            config.javascript = None;
        }
        config
    }
}

impl Default for Colors {
    fn default() -> (r: Colors)
        ensures
            r.colors.entries@.len() == 0,
    {
        Colors { colors: LayerMap::new() }
    }
}

impl Default for Rules {
    fn default() -> (r: Rules)
        ensures
            r.rules.entries@.len() == 0,
    {
        Rules { rules: LayerMap::new() }
    }
}

impl Default for Toggles {
    fn default() -> (r: Toggles)
        ensures
            r == (Toggles {
                show_valid_dependencies: false,
                show_invalid_dependencies: false,
                show_recognized_nodes: false,
                show_unrecognized_nodes: false,
            }),
    {
        Toggles {
            show_valid_dependencies: false,
            show_invalid_dependencies: false,
            show_recognized_nodes: false,
            show_unrecognized_nodes: false,
        }
    }
}

impl Default for Exclude {
    fn default() -> (r: Exclude)
        ensures
            r.folders@.len() == 0,
            r.projects@.len() == 0,
            r.namespaces@.len() == 0,
            r.files@.len() == 0,
    {
        Exclude {
            folders: Vec::new(),
            projects: Vec::new(),
            namespaces: Vec::new(),
            files: Vec::new(),
        }
    }
}

impl Default for Global {
    fn default() -> (r: Global)
        ensures
            r.layers@.len() == 0,
            r.colors.entries@.len() == 0,
            r.rules.entries@.len() == 0,
            r.toggles == (Toggles {
                show_valid_dependencies: false,
                show_invalid_dependencies: false,
                show_recognized_nodes: false,
                show_unrecognized_nodes: false,
            }),
    {
        Global {
            layers: Vec::new(),
            colors: LayerMap::new(),
            rules: LayerMap::new(),
            toggles: Toggles::default(),
        }
    }
}

impl Default for Csharp {
    fn default() -> (r: Csharp)
        ensures
            r.pattern@.len() == 0,
            !r.case_sensitive,
            r.exclude.folders@.len() == 0,
            r.exclude.projects@.len() == 0,
            r.exclude.namespaces@.len() == 0,
            r.exclude.files@.len() == 0,
            r.projects.entries@.len() == 0,
            r.namespaces.entries@.len() == 0,
    {
        Csharp {
            pattern: String::new(),
            case_sensitive: false,
            exclude: Exclude::default(),
            projects: LayerMap::new(),
            namespaces: LayerMap::new(),
        }
    }
}

impl Default for Javascript {
    fn default() -> (r: Javascript)
        ensures
            r.pattern@.len() == 0,
            !r.case_sensitive,
            r.exclude.folders@.len() == 0,
            r.exclude.projects@.len() == 0,
            r.exclude.namespaces@.len() == 0,
            r.exclude.files@.len() == 0,
            r.folders.entries@.len() == 0,
    {
        Javascript {
            pattern: String::new(),
            case_sensitive: false,
            exclude: Exclude::default(),
            folders: LayerMap::new(),
        }
    }
}

impl Config {
    /// No map of the configuration has two entries for one layer.
    pub open spec fn wf(&self) -> bool {
        &&& self.global.colors.wf()
        &&& self.global.rules.wf()
        &&& self.csharp matches Some(cs) ==> cs.projects.wf() && cs.namespaces.wf()
        &&& self.javascript matches Some(js) ==> js.folders.wf()
    }
}

impl Default for Config {
    fn default() -> (r: Config)
        ensures
            r.deep_view() == default_config(),
            r.wf(),
    {
        let colors = three_layers(
            "#FBFDB8".to_owned(),
            "#A7D7FD".to_owned(),
            "#FEA29C".to_owned(),
        );
        let for_core = strings("core", None, None);
        let for_io = strings("core", Some("io"), Some("usecase"));
        let for_usecase = strings("core", Some("usecase"), None);
        assert(for_usecase.deep_view() =~= seq!["core"@, "usecase"@]);
        let rules = three_layers(for_core, for_io, for_usecase);
        let global = Global {
            layers: strings("core", Some("io"), Some("usecase")),
            colors,
            rules,
            toggles: Toggles {
                show_valid_dependencies: true,
                show_invalid_dependencies: true,
                show_recognized_nodes: true,
                show_unrecognized_nodes: true,
            },
        };
        let csharp = Csharp {
            pattern: "regex".to_owned(),
            case_sensitive: true,
            exclude: Exclude {
                folders: strings("bin", Some("obj"), None),
                projects: Vec::new(),
                namespaces: Vec::new(),
                files: Vec::new(),
            },
            projects: three_layers(
                one(".*\\.Entities.*\\.csproj$"),
                one(".*\\.IO.*\\.csproj$"),
                one(".*\\.UseCases.*\\.csproj$"),
            ),
            namespaces: three_layers(
                one(".*\\.Entities(\\..*)?$"),
                one(".*\\.IO(\\..*)?$"),
                one(".*\\.UseCases(\\..*)?$"),
            ),
        };
        let javascript = Javascript {
            pattern: "wildcard".to_owned(),
            case_sensitive: false,
            exclude: Exclude {
                folders: strings("node_modules", None, None),
                projects: Vec::new(),
                namespaces: Vec::new(),
                files: Vec::new(),
            },
            folders: three_layers(one("*Entities*"), one("*IO*"), one("*UseCase*")),
        };
        let r = Config { global, csharp: Some(csharp), javascript: Some(javascript) };
        proof {
            let d = default_config();
            let v = r.deep_view();
            assert(v.global.layers =~= d.global.layers);
            assert(v.csharp->0.exclude.folders =~= d.csharp->0.exclude.folders);
            assert(v.javascript->0.exclude.files =~= d.javascript->0.exclude.files);
        }
        r
    }
}

} // verus!
