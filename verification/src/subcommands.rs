//! The extension list kept in the settings file: finding, adding and
//! removing entries, and naming an extension after its source.

use vstd::prelude::*;
use crate::paths::{file_stem, path_file_stem};
use crate::text::{ends_with_chars, from_chars, has_suffix, str_eq, sub_chars, to_chars};

verus! {

/// An installed extension.
#[derive(Debug, Clone)]
pub struct ExtensionEntry {
    pub name: String,
    pub source: String,
    pub enabled: bool,
}

/// The extension part of the settings file.
#[derive(Debug, Clone)]
pub struct Settings {
    pub extensions: Vec<ExtensionEntry>,
}

/// An entry matches `key` when its name or its source is `key`, or its
/// source ends with `/key` or `\key`.
pub open spec fn entry_matches(e: ExtensionEntry, key: Seq<char>) -> bool {
    e.name@ == key || e.source@ == key || has_suffix(e.source@, seq!['/'] + key)
        || has_suffix(e.source@, seq!['\\'] + key)
}

/// `i` is the first entry of `es` that matches `key`.
pub open spec fn first_match(es: Seq<ExtensionEntry>, key: Seq<char>, i: int) -> bool {
    0 <= i < es.len() && entry_matches(es[i], key) && forall|j: int|
        0 <= j < i ==> !entry_matches(#[trigger] es[j], key)
}

fn ends_with_sep_key(s: &str, sep: char, key: &str) -> (r: bool)
    ensures
        r == has_suffix(s@, seq![sep] + key@),
{
    let cs = to_chars(s);
    let ks = to_chars(key);
    let mut pat: Vec<char> = Vec::new();
    pat.push(sep);
    let mut i: usize = 0;
    while i < ks.len()
        invariant
            i <= ks@.len(),
            pat@ == seq![sep] + ks@.take(i as int),
        decreases ks.len() - i,
    {
        pat.push(ks[i]);
        assert(pat@ =~= seq![sep] + ks@.take(i + 1));
        i = i + 1;
    }
    assert(ks@.take(ks@.len() as int) =~= ks@);
    ends_with_chars(cs.as_slice(), pat.as_slice())
}

fn entry_matches_exec(e: &ExtensionEntry, key: &str) -> (r: bool)
    ensures
        r == entry_matches(*e, key@),
{
    str_eq(e.name.as_str(), key) || str_eq(e.source.as_str(), key) || ends_with_sep_key(
        e.source.as_str(),
        '/',
        key,
    ) || ends_with_sep_key(e.source.as_str(), '\\', key)
}

impl Settings {
    /// No extension.
    pub fn new() -> (s: Self)
        ensures
            s.extensions@.len() == 0,
    {
        Settings { extensions: Vec::new() }
    }

    /// The first extension whose name or source is `name_or_source`, or
    /// whose source ends with it as a last path segment.
    pub fn find_index(&self, name_or_source: &str) -> (r: Option<usize>)
        ensures
            match r {
                Some(i) => first_match(self.extensions@, name_or_source@, i as int),
                None => forall|i: int|
                    0 <= i < self.extensions@.len() ==> !entry_matches(
                        #[trigger] self.extensions@[i],
                        name_or_source@,
                    ),
            },
    {
        let mut i: usize = 0;
        while i < self.extensions.len()
            invariant
                i <= self.extensions@.len(),
                forall|j: int| 0 <= j < i ==> !entry_matches(#[trigger] self.extensions@[j], name_or_source@),
            decreases self.extensions.len() - i,
        {
            if entry_matches_exec(&self.extensions[i], name_or_source) {
                return Some(i);
            }
            i = i + 1;
        }
        None
    }

    /// Adds an enabled extension from `source`, recorded under
    /// `canonical_source` and named after `source`, unless an extension
    /// already matches `source`; tells whether it was added.
    pub fn add_extension(&mut self, source: &str, canonical_source: &str) -> (added: bool)
        ensures
            added == forall|i: int|
                0 <= i < old(self).extensions@.len() ==> !entry_matches(
                    #[trigger] old(self).extensions@[i],
                    source@,
                ),
            !added ==> final(self).extensions@ == old(self).extensions@,
            added ==> final(self).extensions@.len() == old(self).extensions@.len() + 1,
            added ==> final(self).extensions@.drop_last() == old(self).extensions@,
            added ==> final(self).extensions@.last().name@ == extension_name(source@),
            added ==> final(self).extensions@.last().source@ == canonical_source@,
            added ==> final(self).extensions@.last().enabled,
    {
        match self.find_index(source) {
            Some(_) => false,
            None => {
                let e = ExtensionEntry {
                    name: derive_extension_name(source),
                    source: canonical_source.to_owned(),
                    enabled: true,
                };
                self.extensions.push(e);
                assert(self.extensions@.drop_last() =~= old(self).extensions@);
                true
            },
        }
    }

    /// Removes the first extension that matches `source` and returns it.
    pub fn remove_extension(&mut self, source: &str) -> (r: Option<ExtensionEntry>)
        ensures
            match r {
                Some(e) => exists|i: int|
                    first_match(old(self).extensions@, source@, i) && e == old(self).extensions@[i]
                        && final(self).extensions@ == old(self).extensions@.remove(i),
                None => final(self).extensions@ == old(self).extensions@ && forall|i: int|
                    0 <= i < old(self).extensions@.len() ==> !entry_matches(
                        #[trigger] old(self).extensions@[i],
                        source@,
                    ),
            },
    {
        match self.find_index(source) {
            Some(i) => {
                let e = self.extensions.remove(i);
                Some(e)
            },
            None => None,
        }
    }
}

/// `s` without trailing occurrences of `suffix` (`str::trim_end_matches`).
pub open spec fn trim_end_str(s: Seq<char>, suffix: Seq<char>) -> Seq<char>
    decreases s.len(),
{
    if suffix.len() > 0 && has_suffix(s, suffix) {
        trim_end_str(s.take(s.len() - suffix.len()), suffix)
    } else {
        s
    }
}

/// The name for an extension whose source has the given file stem: the
/// stem (or `unknown` without one) without trailing `.rs` and then `.js`;
/// `unnamed-extension` when that is empty or `.`.
pub open spec fn name_from_stem(stem: Option<Seq<char>>) -> Seq<char> {
    let f = match stem {
        Some(s) => s,
        None => "unknown"@,
    };
    let n = trim_end_str(trim_end_str(f, ".rs"@), ".js"@);
    if n.len() == 0 || n == "."@ {
        "unnamed-extension"@
    } else {
        n
    }
}

/// The name derived from an extension's source path or URL.
pub open spec fn extension_name(source: Seq<char>) -> Seq<char> {
    name_from_stem(path_file_stem(source))
}

fn trim_end_suffix(s: Vec<char>, suffix: &str) -> (r: Vec<char>)
    ensures
        r@ == trim_end_str(s@, suffix@),
{
    let p = to_chars(suffix);
    let mut cur = s;
    if p.len() == 0 {
        return cur;
    }
    loop
        invariant
            p@ == suffix@,
            p@.len() > 0,
            trim_end_str(cur@, p@) == trim_end_str(s@, p@),
        decreases cur@.len(),
    {
        if !ends_with_chars(cur.as_slice(), p.as_slice()) {
            return cur;
        }
        let keep = cur.len() - p.len();
        cur = sub_chars(cur.as_slice(), 0, keep);
        assert(cur@ =~= cur@);
    }
}

/// The name for an extension whose source has the file stem `stem`.
pub fn extension_name_from_stem(stem: Option<&str>) -> (r: String)
    ensures
        r@ == name_from_stem(match stem {
            Some(s) => Some(s@),
            None => None,
        }),
{
    let f = match stem {
        Some(s) => to_chars(s),
        None => to_chars("unknown"),
    };
    let n1 = trim_end_suffix(f, ".rs");
    let n2 = trim_end_suffix(n1, ".js");
    let n = from_chars(n2.as_slice());
    if n2.len() == 0 || str_eq(n.as_str(), ".") {
        "unnamed-extension".to_owned()
    } else {
        n
    }
}

/// Names an extension after its source path or URL.
pub fn derive_extension_name(source: &str) -> (r: String)
    ensures
        r@ == extension_name(source@),
{
    let stem = file_stem(source);
    match &stem {
        Some(s) => extension_name_from_stem(Some(s.as_str())),
        None => extension_name_from_stem(None),
    }
}

} // verus!
