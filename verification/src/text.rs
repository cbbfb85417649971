//! Text helpers shared by the analyzers: equality, byte-order marks, lines.

use vstd::prelude::*;
use vstd::utf8::*;

verus! {

/// The byte-order mark that some editors put at the start of a file.
pub const BOM: char = '\u{feff}';

/// Whether two string slices hold the same characters.
pub fn str_eq(a: &str, b: &str) -> (r: bool)
    ensures
        r == (a@ == b@),
{
    let x = a.as_bytes();
    let y = b.as_bytes();
    proof {
        encode_utf8_decode_utf8(a@);
        encode_utf8_decode_utf8(b@);
    }
    if x.len() != y.len() {
        return false;
    }
    let mut i: usize = 0;
    while i < x.len()
        invariant
            i <= x.len(),
            x.len() == y.len(),
            x@ == encode_utf8(a@),
            y@ == encode_utf8(b@),
            forall|j: int| 0 <= j < i ==> x@[j] == y@[j],
        decreases x.len() - i,
    {
        if x[i] != y[i] {
            return false;
        }
        i += 1;
    }
    assert(x@ =~= y@);
    true
}

/// Whether a list of strings holds the given one.
pub fn contains_str(list: &Vec<String>, item: &str) -> (r: bool)
    ensures
        r == list.deep_view().contains(item@),
{
    let mut i: usize = 0;
    while i < list.len()
        invariant
            i <= list@.len(),
            forall|j: int| 0 <= j < i ==> list.deep_view()[j] != item@,
        decreases list@.len() - i,
    {
        if str_eq(list[i].as_str(), item) {
            assert(list.deep_view()[i as int] == item@);
            return true;
        }
        i += 1;
    }
    false
}

/// Builds a string from its characters, through `String::from_iter` of the
/// standard library: the string holds exactly the given characters, in order.
#[verifier::external_body]
pub(crate) fn string_of(chars: &Vec<char>) -> (r: String)
    ensures
        r@ == chars@,
{
    chars.iter().collect()
}

/// The text without its leading byte-order marks.
pub open spec fn strip_bom(s: Seq<char>) -> Seq<char>
    decreases s.len(),
{
    if s.len() > 0 && s[0] == BOM {
        strip_bom(s.drop_first())
    } else {
        s
    }
}

/// `strip_bom` drops exactly the longest prefix made of byte-order marks.
pub proof fn lemma_strip_bom_skips(s: Seq<char>, k: int)
    requires
        0 <= k <= s.len(),
        forall|j: int| 0 <= j < k ==> s[j] == BOM,
        k < s.len() ==> s[k] != BOM,
    ensures
        strip_bom(s) == s.skip(k),
    decreases k,
{
    if k > 0 {
        let t = s.drop_first();
        assert forall|j: int| 0 <= j < k - 1 implies t[j] == BOM by {}
        lemma_strip_bom_skips(t, k - 1);
    }
}

/// A byte-order mark in front of a text changes nothing of what is left
/// once the marks are stripped, and stripping twice is stripping once.
pub proof fn lemma_strip_bom_absorbs(s: Seq<char>)
    ensures
        strip_bom(seq![BOM] + s) == strip_bom(s),
        strip_bom(strip_bom(s)) == strip_bom(s),
        strip_bom(s).len() > 0 ==> strip_bom(s)[0] != BOM,
    decreases s.len(),
{
    assert((seq![BOM] + s).drop_first() =~= s);
    if s.len() > 0 && s[0] == BOM {
        lemma_strip_bom_absorbs(s.drop_first());
    }
}

/// Text that can shed a leading byte-order mark.
pub trait RemoveBom: Sized {
    /// The characters that the value holds.
    spec fn text(&self) -> Seq<char>;

    /// A copy of the text without any byte-order mark at its start.
    fn remove_bom(&self) -> (r: Self)
        ensures
            r.text() == strip_bom(self.text()),
    ;
}

impl RemoveBom for String {
    open spec fn text(&self) -> Seq<char> {
        self@
    }

    fn remove_bom(&self) -> (r: String) {
        let mut rest: Vec<char> = Vec::new();
        let mut leading: bool = true;
        let ghost mut k: int = 0;
        for c in it: self.as_str().chars()
            invariant
                it.seq() == self@,
                0 <= k <= it.index(),
                leading ==> k == it.index(),
                forall|j: int| 0 <= j < k ==> self@[j] == BOM,
                !leading ==> k < self@.len() && self@[k] != BOM,
                rest@ == self@.subrange(k, it.index() as int),
        {
            if leading && c == BOM {
                proof {
                    k = k + 1;
                }
            } else {
                leading = false;
                rest.push(c);
            }
        }
        proof {
            lemma_strip_bom_skips(self@, k);
        }
        string_of(&rest)
    }
}

/// The number of characters of `s` before the first `stop`, or all of them
/// where it has none.
pub open spec fn first_stop(s: Seq<char>, stop: char) -> int
    decreases s.len(),
{
    if s.len() == 0 || s[0] == stop {
        0
    } else {
        1 + first_stop(s.drop_first(), stop)
    }
}

/// Where the first `stop` of a text stands.
pub proof fn lemma_first_stop(s: Seq<char>, stop: char, k: int)
    requires
        0 <= k <= s.len(),
        forall|j: int| 0 <= j < k ==> s[j] != stop,
        k < s.len() ==> s[k] == stop,
    ensures
        first_stop(s, stop) == k,
    decreases k,
{
    if k > 0 {
        let t = s.drop_first();
        assert forall|j: int| 0 <= j < k - 1 implies t[j] != stop by {}
        lemma_first_stop(t, stop, k - 1);
    }
}

/// The items of a list that is written with a separator between them. An
/// empty text is a list of one empty item.
pub open spec fn spec_split(s: Seq<char>, sep: char) -> Seq<Seq<char>>
    decreases s.len(),
{
    let k = first_stop(s, sep);
    if 0 <= k < s.len() {
        seq![s.take(k)] + spec_split(s.skip(k + 1), sep)
    } else {
        seq![s]
    }
}

/// The character sequences that a list of character vectors holds.
spec fn items_of(v: Seq<Vec<char>>) -> Seq<Seq<char>> {
    Seq::new(v.len(), |i: int| v[i]@)
}

/// Splits a text at a separator into the characters of its items.
fn split_chars(text: &str, sep: char) -> (r: Vec<Vec<char>>)
    ensures
        items_of(r@) == spec_split(text@, sep),
        r@.len() > 0,
{
    let mut items: Vec<Vec<char>> = Vec::new();
    let mut cur: Vec<char> = Vec::new();
    let ghost mut start: int = 0;
    proof {
        assert(text@.skip(0) =~= text@);
    }
    for c in it: text.chars()
        invariant
            it.seq() == text@,
            0 <= start <= it.index(),
            cur@ == text@.subrange(start, it.index() as int),
            forall|j: int| 0 <= j < cur@.len() ==> cur@[j] != sep,
            spec_split(text@, sep) == items_of(items@) + spec_split(text@.skip(start), sep),
    {
        if c == sep {
            let ghost rest = text@.skip(start);
            let ghost k = it.index() as int - start;
            let ghost before = items_of(items@);
            let ghost item = cur@;
            proof {
                assert forall|j: int| 0 <= j < k implies rest[j] != sep by {}
                lemma_first_stop(rest, sep, k);
                assert(rest.take(k) =~= cur@);
                assert(rest.skip(k + 1) =~= text@.skip(it.index() as int + 1));
            }
            items.push(cur);
            proof {
                assert(before + (seq![item] + spec_split(rest.skip(k + 1), sep)) =~= (before
                    + seq![item]) + spec_split(rest.skip(k + 1), sep));
                start = it.index() as int + 1;
            }
            cur = Vec::new();
        } else {
            cur.push(c);
        }
    }
    let ghost rest = text@.skip(start);
    proof {
        lemma_first_stop(rest, sep, rest.len() as int);
    }
    items.push(cur);
    items
}

/// Splits a list that is written with a separator between its items.
pub fn split(text: &str, sep: char) -> (r: Vec<String>)
    ensures
        r.deep_view() == spec_split(text@, sep),
{
    let items = split_chars(text, sep);
    let mut out: Vec<String> = Vec::new();
    let mut i: usize = 0;
    while i < items.len()
        invariant
            i <= items@.len(),
            out@.len() == i,
            forall|j: int| 0 <= j < i ==> (#[trigger] out@[j])@ == items@[j]@,
        decreases items@.len() - i,
    {
        out.push(string_of(&items[i]));
        i += 1;
    }
    out
}

/// A line without the carriage return that may end it.
pub open spec fn strip_cr(line: Seq<char>) -> Seq<char> {
    if line.len() > 0 && line.last() == '\r' {
        line.drop_last()
    } else {
        line
    }
}

/// The lines of a text: what stands between its line feeds. A line that a
/// line feed ends loses the carriage return before the line feed, if there
/// is one. What follows the last line feed is a line only if it is not
/// empty, and is kept as it is.
pub open spec fn spec_lines(s: Seq<char>) -> Seq<Seq<char>> {
    let items = spec_split(s, '\n');
    let ended = Seq::new((items.len() - 1) as nat, |i: int| strip_cr(items[i]));
    if items.last().len() > 0 {
        ended.push(items.last())
    } else {
        ended
    }
}

/// Splits a text into its lines.
pub fn split_lines(text: &str) -> (r: Vec<String>)
    ensures
        r.deep_view() == spec_lines(text@),
{
    let mut items = split_chars(text, '\n');
    let ghost all = items_of(items@);
    let last = items.pop().unwrap();
    let mut lines: Vec<String> = Vec::new();
    let mut i: usize = 0;
    while i < items.len()
        invariant
            i <= items@.len(),
            items@.len() == all.len() - 1,
            forall|j: int| 0 <= j < items@.len() ==> (#[trigger] items@[j])@ == all[j],
            lines@.len() == i,
            forall|j: int| 0 <= j < i ==> (#[trigger] lines@[j])@ == strip_cr(all[j]),
        decreases items@.len() - i,
    {
        let item = &items[i];
        let n = item.len();
        let line = if n > 0 && item[n - 1] == '\r' {
            let mut cut = item.clone();
            cut.pop();
            string_of(&cut)
        } else {
            string_of(item)
        };
        lines.push(line);
        i += 1;
    }
    if last.len() > 0 {
        lines.push(string_of(&last));
    }
    lines
}

/// The text with every backslash replaced by a slash.
pub open spec fn spec_normalize_separators(s: Seq<char>) -> Seq<char> {
    Seq::new(
        s.len(),
        |i: int|
            if s[i] == '\\' {
                '/'
            } else {
                s[i]
            },
    )
}

/// Writes a path with slashes only, whichever separator it was written with.
pub fn normalize_separators(path: &str) -> (r: String)
    ensures
        r@ == spec_normalize_separators(path@),
{
    let mut out: Vec<char> = Vec::new();
    for c in it: path.chars()
        invariant
            it.seq() == path@,
            out@ == spec_normalize_separators(path@.take(it.index() as int)),
    {
        if c == '\\' {
            out.push('/');
        } else {
            out.push(c);
        }
    }
    string_of(&out)
}

/// Whether a file name ends with a dot and the given extension, after at
/// least one other character.
pub open spec fn spec_has_extension(name: Seq<char>, ext: Seq<char>) -> bool {
    &&& name.len() > ext.len() + 1
    &&& name[name.len() - ext.len() - 1] == '.'
    &&& name.skip(name.len() - ext.len()) == ext
}

/// The characters of a string, in order.
pub fn chars_of(s: &str) -> (r: Vec<char>)
    ensures
        r@ == s@,
{
    let mut out: Vec<char> = Vec::new();
    for c in it: s.chars()
        invariant
            out@ == it.seq().take(it.index() as int),
            it.seq() == s@,
    {
        out.push(c);
    }
    out
}

/// Whether a file name has the given extension.
pub fn has_extension(name: &str, ext: &str) -> (r: bool)
    ensures
        r == spec_has_extension(name@, ext@),
{
    let n = chars_of(name);
    let e = chars_of(ext);
    if n.len() <= e.len() || n.len() - e.len() < 2 {
        return false;
    }
    let start = n.len() - e.len();
    if n[start - 1] != '.' {
        return false;
    }
    let mut i: usize = 0;
    while i < e.len()
        invariant
            i <= e@.len(),
            start + e@.len() == n@.len(),
            n@.len() <= usize::MAX,
            n@ == name@,
            e@ == ext@,
            forall|j: int| 0 <= j < i ==> n@[start + j] == e@[j],
        decreases e@.len() - i,
    {
        if n[start + i] != e[i] {
            return false;
        }
        i += 1;
    }
    assert(n@.skip(start as int) =~= e@);
    true
}

} // verus!
