//! Translated texts.

use crate::registry::texts;
use crate::text::{self, lines_spec, split_once_spec, trim_spec};
use vstd::hash_map::StringHashMap;
use vstd::prelude::*;

verus! {

/// The texts of a language by their keys.
pub struct TranslationLanguageData {
    pub translations: StringHashMap<String>,
}

/// The translations that the lines of a file give, up to line `n`. A later line replaces an earlier
/// one with the same key.
pub open spec fn translations_of(lines: Seq<Seq<char>>, n: int) -> Map<Seq<char>, Seq<char>>
    decreases n,
{
    if n <= 0 {
        Map::empty()
    } else {
        let (key, value) = split_once_spec(lines[n - 1], '=')->0;
        translations_of(lines, n - 1).insert(trim_spec(key), trim_spec(value))
    }
}

/// Whether every line of a file gives a translation.
pub open spec fn is_translation_file(input: Seq<char>) -> bool {
    forall|i: int|
        0 <= i < lines_spec(input).len() ==> split_once_spec(
            #[trigger] lines_spec(input)[i],
            '=',
        ) is Some
}

impl TranslationLanguageData {
    /// Reads the translations of a file: on each line a key, an equals sign and a text.
    pub fn parse(input: &str) -> (r: TranslationLanguageData)
        requires
            is_translation_file(input@),
        ensures
            texts(r.translations@) == translations_of(
                lines_spec(input@),
                lines_spec(input@).len() as int,
            ),
    {
        let lines = text::lines(input);
        let ghost all = lines_spec(input@);
        let mut translations: StringHashMap<String> = StringHashMap::new();
        let mut i: usize = 0;
        assert(texts(translations@) =~= Map::empty());
        while i < lines.len()
            invariant
                i <= lines@.len(),
                all == lines_spec(input@),
                text::views(lines@) == all,
                is_translation_file(input@),
                texts(translations@) == translations_of(all, i as int),
            decreases lines@.len() - i,
        {
            assert(all[i as int] == lines@[i as int]@);
            let (key, value) = text::split_once(lines[i], '=').unwrap();
            let ghost before = translations@;
            translations.insert(text::trim(key).to_owned(), text::trim(value).to_owned());
            assert(texts(translations@) =~= texts(before).insert(trim_spec(key@), trim_spec(value@)));
            i += 1;
        }
        TranslationLanguageData { translations }
    }

    /// The text for a key: the key itself, where there is none.
    pub fn translate<'a>(&'a self, key: &'a str) -> (r: &'a str)
        ensures
            r@ == if self.translations@.contains_key(key@) {
                self.translations@[key@]@
            } else {
                key@
            },
    {
        match self.translations.get(key) {
            Some(text) => text.as_str(),
            None => key,
        }
    }
}

/// A key has the text of the last line that names it: what stands behind the first equals sign of the
/// line, without the white space around it.
pub proof fn law_last_translation_counts(lines: Seq<Seq<char>>, n: int, line: int, key: Seq<char>, value: Seq<char>)
    requires
        0 <= line < n <= lines.len(),
        lines[line] == key + seq!['='] + value,
        forall|i: int| 0 <= i < key.len() ==> #[trigger] key[i] != '=',
        forall|later: int|
            line < later < n ==> trim_spec((split_once_spec(#[trigger] lines[later], '=')->0).0)
                != trim_spec(key),
    ensures
        translations_of(lines, n).contains_key(trim_spec(key)),
        translations_of(lines, n)[trim_spec(key)] == trim_spec(value),
    decreases n,
{
    if line == n - 1 {
        crate::text::law_split_once(key, '=', value);
    } else {
        law_last_translation_counts(lines, n - 1, line, key, value);
        assert(trim_spec((split_once_spec(lines[n - 1], '=')->0).0) != trim_spec(key));
    }
}

} // verus!
