//! Ordering the maps of a configuration by the list of layers, so that the
//! order in which layers are tried does not depend on how a map was read.

use vstd::prelude::*;
use vstd::seq_lib::{lemma_multiset_commutative, to_multiset_remove};
use crate::config::{first_index, is_for, Config, Csharp, Javascript, LayerEntry, LayerMap};
use crate::seqs::{first_where, lemma_first_where, lemma_first_where_at};

verus! {

/// The entries in the order of a list of layers: for each layer of the list
/// in turn its first entry that is still left, then the entries that are
/// left over, in the order they had.
pub open spec fn spec_order<V>(entries: Seq<LayerEntry<V>>, layers: Seq<Seq<char>>) -> Seq<
    LayerEntry<V>,
>
    decreases layers.len(),
{
    if layers.len() == 0 {
        entries
    } else {
        match first_index(entries, layers[0]) {
            Some(i) => seq![entries[i]] + spec_order(entries.remove(i), layers.drop_first()),
            None => spec_order(entries, layers.drop_first()),
        }
    }
}

/// Taking out an entry for another layer does not change which entry is
/// the first for a layer.
proof fn lemma_first_after_remove<V>(entries: Seq<LayerEntry<V>>, i: int, key: Seq<char>)
    requires
        0 <= i < entries.len(),
        entries[i].layer@ != key,
    ensures
        match (first_index(entries.remove(i), key), first_index(entries, key)) {
            (Some(a), Some(b)) => 0 <= a < entries.len() - 1 && 0 <= b < entries.len()
                && entries.remove(i)[a] == entries[b],
            (None, None) => true,
            _ => false,
        },
{
    let rest = entries.remove(i);
    let p = is_for::<V>(key);
    lemma_first_where(entries, p);
    lemma_first_where(rest, p);
    match first_where(entries, p) {
        Some(b) => {
            let a = if b < i {
                b
            } else {
                b - 1
            };
            assert forall|j: int| 0 <= j < a implies !p(#[trigger] rest[j]) by {}
            lemma_first_where_at(rest, p, a);
        },
        None => {
            assert forall|j: int| 0 <= j < rest.len() implies !p(#[trigger] rest[j]) by {}
        },
    }
}

/// Putting an entry for another layer in front does not change which entry
/// is the first for a layer.
proof fn lemma_first_after_prepend<V>(head: LayerEntry<V>, tail: Seq<LayerEntry<V>>, key: Seq<char>)
    requires
        head.layer@ != key,
    ensures
        first_index(seq![head] + tail, key) == match first_index(tail, key) {
            Some(a) => Some(a + 1),
            None => None,
        },
{
    assert((seq![head] + tail).drop_first() =~= tail);
}

/// Ordering a map changes nothing of what it holds for a layer: the first
/// entry for a layer is the same entry before and after.
pub proof fn lemma_order_keeps_lookup<V>(
    entries: Seq<LayerEntry<V>>,
    layers: Seq<Seq<char>>,
    key: Seq<char>,
)
    ensures
        match (first_index(spec_order(entries, layers), key), first_index(entries, key)) {
            (Some(a), Some(b)) => 0 <= a < spec_order(entries, layers).len() && 0 <= b
                < entries.len() && spec_order(entries, layers)[a] == entries[b],
            (None, None) => true,
            _ => false,
        },
    decreases layers.len(),
{
    lemma_first_where(entries, is_for::<V>(key));
    if layers.len() > 0 {
        let rest_layers = layers.drop_first();
        match first_index(entries, layers[0]) {
            Some(i) => {
                lemma_first_where(entries, is_for::<V>(layers[0]));
                let rest = entries.remove(i);
                let tail = spec_order(rest, rest_layers);
                let ordered = seq![entries[i]] + tail;
                if layers[0] == key {
                    lemma_first_where_at(ordered, is_for::<V>(key), 0);
                } else {
                    lemma_order_keeps_lookup(rest, rest_layers, key);
                    lemma_first_after_remove(entries, i, key);
                    lemma_first_after_prepend(entries[i], tail, key);
                    match first_index(tail, key) {
                        Some(a) => {
                            assert(ordered[a + 1] == tail[a]);
                        },
                        None => {},
                    }
                }
            },
            None => {
                lemma_order_keeps_lookup(entries, rest_layers, key);
            },
        }
    }
}

/// In an ordered map the layers stand as the list names them: of two
/// layers of the list that both have entries, the one that the list names
/// first has its first entry first.
pub proof fn lemma_order_follows_layers<V>(
    entries: Seq<LayerEntry<V>>,
    layers: Seq<Seq<char>>,
    a: int,
    b: int,
)
    requires
        layers.no_duplicates(),
        0 <= a < b < layers.len(),
        first_index(entries, layers[a]) is Some,
        first_index(entries, layers[b]) is Some,
    ensures
        first_index(spec_order(entries, layers), layers[a]) is Some,
        first_index(spec_order(entries, layers), layers[b]) is Some,
        first_index(spec_order(entries, layers), layers[a])->0 < first_index(
            spec_order(entries, layers),
            layers[b],
        )->0,
    decreases layers.len(),
{
    let rest_layers = layers.drop_first();
    let ordered = spec_order(entries, layers);
    lemma_order_keeps_lookup(entries, layers, layers[a]);
    lemma_order_keeps_lookup(entries, layers, layers[b]);
    match first_index(entries, layers[0]) {
        Some(i) => {
            lemma_first_where(entries, is_for::<V>(layers[0]));
            let rest = entries.remove(i);
            let tail = spec_order(rest, rest_layers);
            lemma_first_after_prepend(entries[i], tail, layers[b]);
            if a == 0 {
                lemma_first_where_at(ordered, is_for::<V>(layers[a]), 0);
                lemma_first_where(tail, is_for::<V>(layers[b]));
            } else {
                lemma_first_after_remove(entries, i, layers[a]);
                lemma_first_after_remove(entries, i, layers[b]);
                lemma_order_follows_layers(rest, rest_layers, a - 1, b - 1);
                lemma_first_after_prepend(entries[i], tail, layers[a]);
            }
        },
        None => {
            lemma_order_follows_layers(entries, rest_layers, a - 1, b - 1);
        },
    }
}

/// Ordering a map neither adds nor drops an entry.
pub proof fn lemma_order_is_permutation<V>(entries: Seq<LayerEntry<V>>, layers: Seq<Seq<char>>)
    ensures
        spec_order(entries, layers).to_multiset() == entries.to_multiset(),
        spec_order(entries, layers).len() == entries.len(),
    decreases layers.len(),
{
    broadcast use vstd::multiset::group_multiset_axioms;

    if layers.len() > 0 {
        let rest_layers = layers.drop_first();
        match first_index(entries, layers[0]) {
            Some(i) => {
                lemma_first_where(entries, is_for::<V>(layers[0]));
                let rest = entries.remove(i);
                let tail = spec_order(rest, rest_layers);
                let none = Seq::<LayerEntry<V>>::empty();
                lemma_order_is_permutation(rest, rest_layers);
                to_multiset_remove(entries, i);
                lemma_multiset_commutative(seq![entries[i]], tail);
                entries.to_multiset_ensures();
                none.to_multiset_ensures();
            },
            None => {
                lemma_order_is_permutation(entries, rest_layers);
            },
        }
    }
}

impl<V> LayerMap<V> {
    /// Puts the entries in the order of a list of layers: for each layer of
    /// the list in turn its first entry that is still left, then the
    /// entries that are left over, in the order they had.
    pub fn order_by(self, layers: &Vec<String>) -> (r: LayerMap<V>)
        ensures
            r.entries@ == spec_order(self.entries@, layers.deep_view()),
    {
        let ghost all = layers.deep_view();
        let ghost start = self.entries@;
        let mut rest = self;
        let mut picked: Vec<LayerEntry<V>> = Vec::new();
        let mut j: usize = 0;
        proof {
            assert(all.skip(0) =~= all);
        }
        while j < layers.len()
            invariant
                j <= layers@.len(),
                all == layers.deep_view(),
                spec_order(start, all) == picked@ + spec_order(rest.entries@, all.skip(j as int)),
            decreases layers@.len() - j,
        {
            let ghost left = rest.entries@;
            proof {
                assert(all.skip(j as int).drop_first() =~= all.skip(j as int + 1));
            }
            match rest.position(layers[j].as_str()) {
                Some(i) => {
                    let entry = rest.entries.remove(i);
                    picked.push(entry);
                    proof {
                        assert(spec_order(left, all.skip(j as int)) == seq![left[i as int]]
                            + spec_order(left.remove(i as int), all.skip(j as int + 1)));
                    }
                },
                None => {},
            }
            j += 1;
        }
        picked.append(&mut rest.entries);
        LayerMap { entries: picked }
    }
}

impl Config {
    /// Puts the pattern maps of every ecosystem in the order of the list of
    /// layers, so that where the patterns of two layers match a name, the
    /// layer that the list names first wins.
    pub fn order_by_layers(self) -> (r: Config)
        ensures
            r.global == self.global,
            match (r.csharp, self.csharp) {
                (Some(a), Some(b)) => a.pattern == b.pattern && a.case_sensitive
                    == b.case_sensitive && a.exclude == b.exclude && a.projects.entries@
                    == spec_order(b.projects.entries@, self.global.layers.deep_view())
                    && a.namespaces.entries@ == spec_order(
                    b.namespaces.entries@,
                    self.global.layers.deep_view(),
                ),
                (None, None) => true,
                _ => false,
            },
            match (r.javascript, self.javascript) {
                (Some(a), Some(b)) => a.pattern == b.pattern && a.case_sensitive
                    == b.case_sensitive && a.exclude == b.exclude && a.folders.entries@
                    == spec_order(b.folders.entries@, self.global.layers.deep_view()),
                (None, None) => true,
                _ => false,
            },
    {
        let Config { global, csharp, javascript } = self;
        let csharp = match csharp {
            Some(settings) => Some(
                Csharp {
                    pattern: settings.pattern,
                    case_sensitive: settings.case_sensitive,
                    exclude: settings.exclude,
                    projects: settings.projects.order_by(&global.layers),
                    namespaces: settings.namespaces.order_by(&global.layers),
                },
            ),
            None => None,
        };
        let javascript = match javascript {
            Some(settings) => Some(
                Javascript {
                    pattern: settings.pattern,
                    case_sensitive: settings.case_sensitive,
                    exclude: settings.exclude,
                    folders: settings.folders.order_by(&global.layers),
                },
            ),
            None => None,
        };
        Config { global, csharp, javascript }
    }
}

} // verus!
