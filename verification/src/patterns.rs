//! Matching names against configured patterns: the pattern matcher, the layer
//! classifier and the exclusion filter.

use vstd::prelude::*;
use crate::config::{Exclude, ExcludeView, LayerMap, PatternSet, StringOrVec};
use crate::seqs::{first_where, lemma_first_where, lemma_first_where_alike, lemma_first_where_at};
use crate::text::str_eq;

verus! {

/// Whether `regex::Regex::new` accepts the pattern.
pub uninterp spec fn regex_compiles(pattern: Seq<char>) -> bool;

/// Whether `regex::Regex::is_match` finds the compiled pattern somewhere in the text.
pub uninterp spec fn regex_is_match(pattern: Seq<char>, text: Seq<char>) -> bool;

/// Whether `glob::Pattern::new` accepts the pattern.
pub uninterp spec fn glob_compiles(pattern: Seq<char>) -> bool;

/// Whether `glob::Pattern::matches` says that the compiled pattern covers the whole text.
pub uninterp spec fn glob_matches(pattern: Seq<char>, text: Seq<char>) -> bool;

/// What `str::to_lowercase` makes of a text.
pub uninterp spec fn lowercased(text: Seq<char>) -> Seq<char>;

/// Compiles the pattern with `regex::Regex::new` and searches the text with
/// `regex::Regex::is_match`. Nothing is claimed about which patterns compile
/// or what they match, only that both depend on the arguments alone: the
/// result is `None` where the pattern does not compile, else whether it matches.
#[verifier::external_body]
pub(crate) fn regex_match(pattern: &str, text: &str) -> (r: Option<bool>)
    ensures
        r == if regex_compiles(pattern@) {
            Some(regex_is_match(pattern@, text@))
        } else {
            None
        },
{
    match regex::Regex::new(pattern) {
        Ok(re) => Some(re.is_match(text)),
        Err(_) => None,
    }
}

/// Compiles the pattern with `glob::Pattern::new` and tests the text with
/// `glob::Pattern::matches`, for the platform the library is built for.
/// Nothing is claimed about which patterns compile or what they match, only
/// that both depend on the arguments alone: the result is `None` where the
/// pattern does not compile, else whether it matches.
#[verifier::external_body]
pub(crate) fn glob_match(pattern: &str, text: &str) -> (r: Option<bool>)
    ensures
        r == if glob_compiles(pattern@) {
            Some(glob_matches(pattern@, text@))
        } else {
            None
        },
{
    match glob::Pattern::new(pattern) {
        Ok(p) => Some(p.matches(text)),
        Err(_) => None,
    }
}

/// What `regex::Captures::get(1)` holds after `regex::Regex::captures` of the
/// compiled pattern on the text: the part of the text that the first capture
/// group of the leftmost match covers, if the pattern matches and the group
/// took part in the match.
pub uninterp spec fn regex_first_group(pattern: Seq<char>, text: Seq<char>) -> Option<Seq<char>>;

/// What the first capture group of a pattern covers in a text: nothing where
/// the pattern does not compile.
pub open spec fn spec_capture(pattern: Seq<char>, text: Seq<char>) -> Option<Seq<char>> {
    if regex_compiles(pattern) {
        regex_first_group(pattern, text)
    } else {
        None
    }
}

/// Compiles the pattern once with `regex::Regex::new` and, for each text in
/// turn, takes with `regex::Regex::captures` and `regex::Captures::get(1)`
/// what the first capture group covers. Nothing is claimed about what a
/// pattern captures, only that it depends on the pattern and the text alone.
#[verifier::external_body]
pub(crate) fn regex_captures(pattern: &str, texts: &Vec<String>) -> (r: Vec<Option<String>>)
    ensures
        r@.len() == texts@.len(),
        forall|i: int|
            0 <= i < texts@.len() ==> (#[trigger] r@[i]).deep_view() == if regex_compiles(
                pattern@,
            ) {
                regex_first_group(pattern@, texts@[i]@)
            } else {
                None
            },
{
    let compiled = regex::Regex::new(pattern);
    let mut found: Vec<Option<String>> = Vec::new();
    for text in texts {
        let captures = match &compiled {
            Ok(re) => re.captures(text),
            Err(_) => None,
        };
        let group = match &captures {
            Some(all) => all.get(1),
            None => None,
        };
        found.push(group.map(|part| part.as_str().to_string()));
    }
    found
}

/// Lower-cases a text with `str::to_lowercase` of the standard library.
#[verifier::external_body]
pub(crate) fn lowercase(text: &str) -> (r: String)
    ensures
        r@ == lowercased(text@),
{
    text.to_lowercase()
}

/// What matching a pattern of the given kind against a text comes to: `None`
/// where the kind is neither `regex` nor `wildcard` or the pattern does not
/// compile.
pub open spec fn spec_outcome(candidate: Seq<char>, pattern: Seq<char>, kind: Seq<char>) -> Option<
    bool,
> {
    if kind == "regex"@ {
        if regex_compiles(pattern) {
            Some(regex_is_match(pattern, candidate))
        } else {
            None
        }
    } else if kind == "wildcard"@ {
        if glob_compiles(pattern) {
            Some(glob_matches(pattern, candidate))
        } else {
            None
        }
    } else {
        None
    }
}

/// A pattern matches only where matching came to a definite yes: a pattern
/// that does not compile matches nothing.
pub open spec fn spec_accepts(outcome: Option<bool>) -> bool {
    outcome == Some(true)
}

/// Whether the candidate matches the pattern. Without case sensitivity both
/// are lower-cased first.
pub open spec fn spec_matches(
    candidate: Seq<char>,
    pattern: Seq<char>,
    kind: Seq<char>,
    case_sensitive: bool,
) -> bool {
    if case_sensitive {
        spec_accepts(spec_outcome(candidate, pattern, kind))
    } else {
        spec_accepts(spec_outcome(lowercased(candidate), lowercased(pattern), kind))
    }
}

/// Whether the candidate matches any of the patterns.
pub open spec fn any_matches(
    candidate: Seq<char>,
    patterns: Seq<Seq<char>>,
    kind: Seq<char>,
    case_sensitive: bool,
) -> bool {
    exists|i: int|
        0 <= i < patterns.len() && spec_matches(candidate, #[trigger] patterns[i], kind, case_sensitive)
}

/// Runs the matcher of the given kind, as it stands, on a candidate.
fn match_outcome(candidate: &str, pattern: &str, pattern_type: &str) -> (r: Option<bool>)
    ensures
        r == spec_outcome(candidate@, pattern@, pattern_type@),
{
    if str_eq(pattern_type, "regex") {
        regex_match(pattern, candidate)
    } else if str_eq(pattern_type, "wildcard") {
        glob_match(pattern, candidate)
    } else {
        None
    }
}

/// Turns the outcome of a match into a decision: only a definite yes counts.
pub fn accepts(outcome: Option<bool>) -> (r: bool)
    ensures
        r == spec_accepts(outcome),
{
    match outcome {
        Some(hit) => hit,
        None => false,
    }
}

/// Whether a candidate matches a pattern of the given kind (`regex` or
/// `wildcard`). A pattern that does not compile, or a kind that is not
/// known, matches nothing.
pub fn matches(candidate: &str, pattern: &str, pattern_type: &str, case_sensitive: bool) -> (r:
    bool)
    ensures
        r == spec_matches(candidate@, pattern@, pattern_type@, case_sensitive),
{
    if case_sensitive {
        accepts(match_outcome(candidate, pattern, pattern_type))
    } else {
        let c = lowercase(candidate);
        let p = lowercase(pattern);
        accepts(match_outcome(c.as_str(), p.as_str(), pattern_type))
    }
}

/// Whether an item matches any pattern of a list.
pub fn matches_pattern(item: &str, patterns: &Vec<String>, pattern_type: &str, case_sensitive: bool) -> (r:
    bool)
    ensures
        r == any_matches(item@, patterns.deep_view(), pattern_type@, case_sensitive),
{
    let mut i: usize = 0;
    while i < patterns.len()
        invariant
            i <= patterns@.len(),
            forall|j: int|
                0 <= j < i ==> !spec_matches(
                    item@,
                    #[trigger] patterns.deep_view()[j],
                    pattern_type@,
                    case_sensitive,
                ),
        decreases patterns@.len() - i,
    {
        if matches(item, patterns[i].as_str(), pattern_type, case_sensitive) {
            assert(patterns.deep_view()[i as int] == patterns@[i as int]@);
            return true;
        }
        i += 1;
    }
    false
}

/// Whether a path matches a folder pattern or a file pattern of the exclusions.
pub open spec fn spec_exclude_path(
    path: Seq<char>,
    exclude: ExcludeView,
    kind: Seq<char>,
    case_sensitive: bool,
) -> bool {
    any_matches(path, exclude.folders, kind, case_sensitive) || any_matches(
        path,
        exclude.files,
        kind,
        case_sensitive,
    )
}

/// Whether a discovered path is left out: it matches a folder pattern or a
/// file pattern.
pub fn exclude_files_and_folders(
    path: &str,
    exclude: &Exclude,
    pattern_type: &str,
    case_sensitive: bool,
) -> (r: bool)
    ensures
        r == spec_exclude_path(path@, exclude.deep_view(), pattern_type@, case_sensitive),
{
    matches_pattern(path, &exclude.folders, pattern_type, case_sensitive) || matches_pattern(
        path,
        &exclude.files,
        pattern_type,
        case_sensitive,
    )
}

/// Whether a namespace is left out.
pub fn exclude_namespaces(
    namespace: &str,
    exclude: &Exclude,
    pattern_type: &str,
    case_sensitive: bool,
) -> (r: bool)
    ensures
        r == any_matches(namespace@, exclude.deep_view().namespaces, pattern_type@, case_sensitive),
{
    matches_pattern(namespace, &exclude.namespaces, pattern_type, case_sensitive)
}

/// Whether a project is left out by its name.
pub fn exclude_projects(
    project_name: &str,
    exclude: &Exclude,
    pattern_type: &str,
    case_sensitive: bool,
) -> (r: bool)
    ensures
        r == any_matches(project_name@, exclude.deep_view().projects, pattern_type@, case_sensitive),
{
    matches_pattern(project_name, &exclude.projects, pattern_type, case_sensitive)
}

/// The test that the name matches one of the patterns of a layer's entry.
pub open spec fn hits(name: Seq<char>, case_sensitive: bool, kind: Seq<char>) -> spec_fn(
    (Seq<char>, PatternSet),
) -> bool {
    |e: (Seq<char>, PatternSet)| any_matches(name, e.1.patterns(), kind, case_sensitive)
}

/// Index of the first layer, in the map's order, one of whose patterns the
/// name matches.
pub open spec fn spec_first_match(
    name: Seq<char>,
    layers: Seq<(Seq<char>, PatternSet)>,
    case_sensitive: bool,
    kind: Seq<char>,
) -> Option<int> {
    first_where(layers, hits(name, case_sensitive, kind))
}

/// The layer at the given position, or `unknown` where there is none.
pub open spec fn spec_layer_at(layers: Seq<(Seq<char>, PatternSet)>, hit: Option<int>) -> Seq<char> {
    match hit {
        Some(i) => if 0 <= i < layers.len() {
            layers[i].0
        } else {
            "unknown"@
        },
        None => "unknown"@,
    }
}

/// The layer of a name: that of the first entry with a matching pattern, or
/// `unknown`.
pub open spec fn spec_determine_layer(
    name: Seq<char>,
    layers: Seq<(Seq<char>, PatternSet)>,
    case_sensitive: bool,
    kind: Seq<char>,
) -> Seq<char> {
    spec_layer_at(layers, spec_first_match(name, layers, case_sensitive, kind))
}

/// Whether the name matches one of the patterns configured for a layer.
fn layer_matches(name: &str, patterns: &StringOrVec, pattern_type: &str, case_sensitive: bool) -> (r:
    bool)
    ensures
        r == any_matches(name@, patterns.deep_view().patterns(), pattern_type@, case_sensitive),
{
    match patterns {
        StringOrVec::String(p) => {
            let hit = matches(name, p.as_str(), pattern_type, case_sensitive);
            assert(seq![p@][0] == p@);
            hit
        },
        StringOrVec::Vec(ps) => matches_pattern(name, ps, pattern_type, case_sensitive),
    }
}

/// Position of the first layer, in the map's order, one of whose patterns
/// the name matches.
pub fn first_match(
    name: &str,
    layer_configs: &LayerMap<StringOrVec>,
    case_sensitive: bool,
    pattern_type: &str,
) -> (r: Option<usize>)
    ensures
        match r {
            Some(i) => i < layer_configs.entries@.len() && spec_first_match(
                name@,
                layer_configs.deep_view(),
                case_sensitive,
                pattern_type@,
            ) == Some(i as int),
            None => spec_first_match(name@, layer_configs.deep_view(), case_sensitive, pattern_type@)
                is None,
        },
{
    let ghost layers = layer_configs.deep_view();
    let ghost hit = hits(name@, case_sensitive, pattern_type@);
    let mut i: usize = 0;
    while i < layer_configs.entries.len()
        invariant
            i <= layer_configs.entries@.len(),
            layers == layer_configs.deep_view(),
            hit == hits(name@, case_sensitive, pattern_type@),
            forall|j: int| 0 <= j < i ==> !hit(#[trigger] layers[j]),
        decreases layer_configs.entries@.len() - i,
    {
        if layer_matches(name, &layer_configs.entries[i].value, pattern_type, case_sensitive) {
            proof {
                lemma_first_where_at(layers, hit, i as int);
            }
            return Some(i);
        }
        i += 1;
    }
    proof {
        lemma_first_where(layers, hit);
    }
    None
}

/// The name of the layer at the given position of the map, or `unknown`
/// where no position is given.
pub fn layer_at(layer_configs: &LayerMap<StringOrVec>, hit: Option<usize>) -> (r: String)
    ensures
        r@ == spec_layer_at(
            layer_configs.deep_view(),
            match hit {
                Some(i) => Some(i as int),
                None => None,
            },
        ),
{
    match hit {
        Some(i) => {
            if i < layer_configs.entries.len() {
                layer_configs.entries[i].layer.clone()
            } else {
                "unknown".to_owned()
            }
        },
        None => "unknown".to_owned(),
    }
}

/// Classifies a name: the first layer, in the map's order, one of whose
/// patterns the name matches, or `unknown` where none does.
pub fn determine_layer(
    name: &str,
    layer_configs: &LayerMap<StringOrVec>,
    case_sensitive: bool,
    pattern_type: &str,
) -> (r: String)
    ensures
        r@ == spec_determine_layer(name@, layer_configs.deep_view(), case_sensitive, pattern_type@),
{
    let hit = first_match(name, layer_configs, case_sensitive, pattern_type);
    layer_at(layer_configs, hit)
}

/// For the same name, patterns, case flag and kind the classifier names the
/// same layer, and without case sensitivity a match is the case-sensitive
/// match of the lower-cased candidate against the lower-cased pattern.
pub proof fn lemma_case_insensitive_lowers_both(
    candidate: Seq<char>,
    pattern: Seq<char>,
    kind: Seq<char>,
)
    ensures
        spec_matches(candidate, pattern, kind, false) == spec_matches(
            lowercased(candidate),
            lowercased(pattern),
            kind,
            true,
        ),
{
}

/// Whether two texts are the same but for the case of their letters: the
/// same once both are lower-cased.
pub fn same_without_case(a: &str, b: &str) -> (r: bool)
    ensures
        r == (lowercased(a@) == lowercased(b@)),
{
    let x = lowercase(a);
    let y = lowercase(b);
    str_eq(x.as_str(), y.as_str())
}

/// Without case sensitivity the letter case of a name does not affect its
/// layer: two names that lower-casing makes equal are classified alike.
pub proof fn lemma_case_of_name_is_ignored(
    a: Seq<char>,
    b: Seq<char>,
    layers: Seq<(Seq<char>, PatternSet)>,
    kind: Seq<char>,
)
    requires
        lowercased(a) == lowercased(b),
    ensures
        spec_determine_layer(a, layers, false, kind) == spec_determine_layer(b, layers, false, kind),
{
    let for_a = hits(a, false, kind);
    let for_b = hits(b, false, kind);
    assert forall|i: int| 0 <= i < layers.len() implies for_a(#[trigger] layers[i]) == for_b(
        layers[i],
    ) by {
        let patterns = layers[i].1.patterns();
        if any_matches(a, patterns, kind, false) {
            let j = choose|j: int|
                0 <= j < patterns.len() && spec_matches(a, #[trigger] patterns[j], kind, false);
            assert(spec_matches(b, patterns[j], kind, false));
        }
        if any_matches(b, patterns, kind, false) {
            let j = choose|j: int|
                0 <= j < patterns.len() && spec_matches(b, #[trigger] patterns[j], kind, false);
            assert(spec_matches(a, patterns[j], kind, false));
        }
    }
    lemma_first_where_alike(layers, for_a, for_b);
}

/// Without case sensitivity a name is classified as its lower-cased form
/// is, wherever lower-casing that form again changes nothing.
pub proof fn lemma_lowered_name_is_classified_alike(
    name: Seq<char>,
    layers: Seq<(Seq<char>, PatternSet)>,
    kind: Seq<char>,
)
    requires
        lowercased(lowercased(name)) == lowercased(name),
    ensures
        spec_determine_layer(name, layers, false, kind) == spec_determine_layer(
            lowercased(name),
            layers,
            false,
            kind,
        ),
{
    lemma_case_of_name_is_ignored(name, lowercased(name), layers, kind);
}

/// A name that matches no configured pattern is classified as `unknown`.
pub proof fn lemma_unmatched_is_unknown(
    name: Seq<char>,
    layers: Seq<(Seq<char>, PatternSet)>,
    case_sensitive: bool,
    kind: Seq<char>,
)
    requires
        forall|j: int|
            0 <= j < layers.len() ==> !any_matches(
                name,
                (#[trigger] layers[j]).1.patterns(),
                kind,
                case_sensitive,
            ),
    ensures
        spec_determine_layer(name, layers, case_sensitive, kind) == "unknown"@,
{
    lemma_first_where(layers, hits(name, case_sensitive, kind));
}

/// The classifier names a configured layer whose patterns the name matches,
/// or `unknown`.
pub proof fn lemma_layer_is_configured_or_unknown(
    name: Seq<char>,
    layers: Seq<(Seq<char>, PatternSet)>,
    case_sensitive: bool,
    kind: Seq<char>,
)
    ensures
        spec_determine_layer(name, layers, case_sensitive, kind) == "unknown"@ || exists|i: int|
            0 <= i < layers.len() && (#[trigger] layers[i]).0 == spec_determine_layer(
                name,
                layers,
                case_sensitive,
                kind,
            ) && any_matches(name, layers[i].1.patterns(), kind, case_sensitive),
{
    lemma_first_where(layers, hits(name, case_sensitive, kind));
}

} // verus!
