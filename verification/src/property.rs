//! Named numbers that a screen shows and that styles depend on.

use crate::block::contains_name;
use crate::scripts::names;
use crate::text;
use crate::ui_style::PropertyComparator;
use vstd::hash_map::StringHashMap;
use vstd::prelude::*;

verus! {

/// Properties by name.
#[verifier::reject_recursive_types(V)]
pub struct PropertyMap<V> {
    values: StringHashMap<V>,
}

impl<V> View for PropertyMap<V> {
    type V = Map<Seq<char>, V>;

    closed spec fn view(&self) -> Map<Seq<char>, V> {
        self.values@
    }
}

impl<V> PropertyMap<V> {
    /// No properties.
    pub fn new() -> (r: PropertyMap<V>)
        ensures
            r@ == Map::<Seq<char>, V>::empty(),
    {
        PropertyMap { values: StringHashMap::new() }
    }

    /// Gives a property a value.
    pub fn insert(&mut self, property: String, value: V)
        ensures
            final(self)@ == old(self)@.insert(property@, value),
    {
        self.values.insert(property, value);
    }

    /// The value of a property.
    pub fn get(&self, property: &str) -> (r: Option<&V>)
        ensures
            match r {
                Some(value) => self@.contains_key(property@) && *value == self@[property@],
                None => !self@.contains_key(property@),
            },
    {
        self.values.get(property)
    }
}

impl PropertyComparator {
    /// Whether a property compares to a value as it should.
    pub open spec fn holds_spec(self, property: int, value: int) -> bool {
        match self {
            PropertyComparator::Less => property < value,
            PropertyComparator::Equal => property == value,
            PropertyComparator::Greater => property > value,
        }
    }

    /// Whether a property compares to a value as it should; both are given by numbers that are
    /// ordered as the values are.
    pub fn satisfies(self, property: i64, value: i64) -> (r: bool)
        ensures
            r == self.holds_spec(property as int, value as int),
    {
        match self {
            PropertyComparator::Less => property < value,
            PropertyComparator::Equal => property == value,
            PropertyComparator::Greater => property > value,
        }
    }
}

/// Exactly one of the comparisons holds of two values.
pub proof fn law_one_comparison_holds(property: int, value: int)
    ensures
        PropertyComparator::Less.holds_spec(property, value) ==> !PropertyComparator::Equal.holds_spec(
            property,
            value,
        ) && !PropertyComparator::Greater.holds_spec(property, value),
        PropertyComparator::Equal.holds_spec(property, value)
            ==> !PropertyComparator::Greater.holds_spec(property, value),
        PropertyComparator::Less.holds_spec(property, value) || PropertyComparator::Equal.holds_spec(
            property,
            value,
        ) || PropertyComparator::Greater.holds_spec(property, value),
{
}

/// The property that is being read after the first `n` characters, if one is. A `{` begins one; a
/// `}` ends it, if `ends` is set.
pub open spec fn open_property(text: Seq<char>, n: int, ends: bool) -> Option<Seq<char>>
    decreases n,
{
    if n <= 0 {
        None
    } else {
        let c = text[n - 1];
        if c == '{' {
            Some(Seq::empty())
        } else {
            match open_property(text, n - 1, ends) {
                None => None,
                Some(property) => if c == '}' {
                    if ends {
                        None
                    } else {
                        Some(property)
                    }
                } else {
                    Some(property.push(c))
                },
            }
        }
    }
}

/// Whether every `}` of a text ends a property.
pub open spec fn is_closed(text: Seq<char>, ends: bool) -> bool {
    forall|i: int| 0 <= i < text.len() && #[trigger] text[i] == '}' ==> open_property(text, i, ends) is Some
}

/// Whether the values of properties can be filled into a text.
pub fn can_patch(text: &str) -> (r: bool)
    ensures
        r == is_closed(text@, false),
{
    let chars = text::chars(text);
    let mut is_open = false;
    let mut i: usize = 0;
    while i < chars.len()
        invariant
            i <= chars@.len(),
            chars@ == text@,
            is_open == (open_property(text@, i as int, false) is Some),
            forall|j: int|
                0 <= j < i && #[trigger] text@[j] == '}' ==> open_property(text@, j, false) is Some,
        decreases chars@.len() - i,
    {
        let c = chars[i];
        if c == '}' && !is_open {
            assert(text@[i as int] == '}');
            return false;
        }
        if c == '{' {
            is_open = true;
        }
        i += 1;
    }
    true
}

/// The properties that end within the first `n` characters, each once.
pub open spec fn properties_in(text: Seq<char>, before: Seq<Seq<char>>, n: int) -> Seq<Seq<char>>
    decreases n,
{
    if n <= 0 {
        before
    } else {
        let list = properties_in(text, before, n - 1);
        if text[n - 1] == '}' && !list.contains(open_property(text, n - 1, true)->0) {
            list.push(open_property(text, n - 1, true)->0)
        } else {
            list
        }
    }
}

/// Adds the properties that a text shows to a list, unless they are in it.
pub fn extract_patched_properties_from_text(text: &str, properties: &mut Vec<String>)
    requires
        is_closed(text@, true),
    ensures
        names(final(properties)@) == properties_in(
            text@,
            names(old(properties)@),
            text@.len() as int,
        ),
{
    let chars = text::chars(text);
    let mut current: Option<Vec<char>> = None;
    let mut i: usize = 0;
    while i < chars.len()
        invariant
            i <= chars@.len(),
            chars@ == text@,
            is_closed(text@, true),
            match current {
                Some(property) => open_property(text@, i as int, true) == Some(property@),
                None => open_property(text@, i as int, true) is None,
            },
            names(properties@) == properties_in(text@, names(old(properties)@), i as int),
        decreases chars@.len() - i,
    {
        let c = chars[i];
        if c == '{' {
            current = Some(Vec::new());
        } else if c == '}' {
            assert(text@[i as int] == '}');
            if let Some(property) = &current {
                let property = text::from_chars(property);
                if !contains_name(properties, property.as_str()) {
                    let ghost before = names(properties@);
                    properties.push(property);
                    assert(names(properties@) =~= before.push(property@));
                }
            }
            current = None;
        } else {
            match current {
                Some(property) => {
                    let mut property = property;
                    property.push(c);
                    current = Some(property);
                },
                None => {
                    current = None;
                },
            }
        }
        i += 1;
    }
}

/// What is shown for a property.
pub open spec fn shown(properties: Map<Seq<char>, Seq<char>>, property: Seq<char>) -> Seq<char> {
    if properties.contains_key(property) {
        properties[property]
    } else {
        seq!['0']
    }
}

/// The text that the first `n` characters come to: what stands before the first `{`, and the value
/// of the property at each `}`.
pub open spec fn patched(
    text: Seq<char>,
    properties: Map<Seq<char>, Seq<char>>,
    n: int,
) -> Seq<char>
    decreases n,
{
    if n <= 0 {
        Seq::empty()
    } else {
        let before = patched(text, properties, n - 1);
        let c = text[n - 1];
        if c == '{' {
            before
        } else {
            match open_property(text, n - 1, false) {
                None => before.push(c),
                Some(property) => if c == '}' {
                    before + shown(properties, property)
                } else {
                    before
                },
            }
        }
    }
}

/// The texts of properties.
pub open spec fn text_views(properties: Map<Seq<char>, String>) -> Map<Seq<char>, Seq<char>> {
    properties.map_values(|value: String| value@)
}

impl PropertyMap<String> {
    /// A text with the values of its properties filled in. The properties are given as texts; one
    /// that is not there is shown as `0`.
    pub fn patch_text(&self, text: &str) -> (r: String)
        requires
            is_closed(text@, false),
        ensures
            r@ == patched(text@, text_views(self@), text@.len() as int),
    {
        let chars = text::chars(text);
        let mut output: Vec<char> = Vec::new();
        let mut current: Option<Vec<char>> = None;
        let mut i: usize = 0;
        while i < chars.len()
            invariant
                i <= chars@.len(),
                chars@ == text@,
                is_closed(text@, false),
                match current {
                    Some(property) => open_property(text@, i as int, false) == Some(property@),
                    None => open_property(text@, i as int, false) is None,
                },
                output@ == patched(text@, text_views(self@), i as int),
            decreases chars@.len() - i,
        {
            let c = chars[i];
            if c == '{' {
                current = Some(Vec::new());
            } else if c == '}' {
                assert(text@[i as int] == '}');
                if let Some(property) = &current {
                    let name = text::from_chars(property);
                    let mut value = match self.get(name.as_str()) {
                        Some(value) => text::chars(value.as_str()),
                        None => {
                            let mut zero: Vec<char> = Vec::new();
                            zero.push('0');
                            assert(zero@ =~= seq!['0']);
                            zero
                        },
                    };
                    output.append(&mut value);
                }
            } else {
                match current {
                    Some(property) => {
                        let mut property = property;
                        property.push(c);
                        current = Some(property);
                    },
                    None => {
                        output.push(c);
                        current = None;
                    },
                }
            }
            i += 1;
        }
        text::from_chars(&output)
    }
}

/// A text without braces is shown as it is.
pub proof fn law_plain_text_is_kept(text: Seq<char>, properties: Map<Seq<char>, Seq<char>>, n: int)
    requires
        0 <= n <= text.len(),
        forall|i: int| 0 <= i < text.len() ==> #[trigger] text[i] != '{' && text[i] != '}',
    ensures
        patched(text, properties, n) == text.take(n),
        open_property(text, n, false) is None,
    decreases n,
{
    if n > 0 {
        law_plain_text_is_kept(text, properties, n - 1);
        assert(text.take(n) =~= text.take(n - 1).push(text[n - 1]));
    } else {
        assert(text.take(0) =~= Seq::<char>::empty());
    }
}

/// A property compares to a value as their difference says.
pub proof fn law_comparisons(property: int, value: int)
    ensures
        PropertyComparator::Less.holds_spec(property, value) <==> value - property > 0,
        PropertyComparator::Equal.holds_spec(property, value) <==> value - property == 0,
        PropertyComparator::Greater.holds_spec(property, value) <==> property - value > 0,
{
}

proof fn lemma_patched_prefix(
    a: Seq<char>,
    b: Seq<char>,
    properties: Map<Seq<char>, Seq<char>>,
    n: int,
    ends: bool,
)
    requires
        0 <= n <= a.len() <= b.len(),
        a == b.take(a.len() as int),
    ensures
        patched(a, properties, n) == patched(b, properties, n),
        open_property(a, n, ends) == open_property(b, n, ends),
        open_property(a, n, false) == open_property(b, n, false),
    decreases n,
{
    if n > 0 {
        assert(a[n - 1] == b[n - 1]);
        lemma_patched_prefix(a, b, properties, n - 1, ends);
    }
}

proof fn lemma_open_name(text: Seq<char>, start: int, n: int, ends: bool)
    requires
        0 <= start < n <= text.len(),
        text[start] == '{',
        forall|i: int| start < i < n ==> #[trigger] text[i] != '{' && text[i] != '}',
    ensures
        open_property(text, n, ends) == Some(text.subrange(start + 1, n)),
    decreases n,
{
    if n == start + 1 {
        assert(text.subrange(start + 1, n) =~= Seq::<char>::empty());
    } else {
        assert(text[n - 1] != '{' && text[n - 1] != '}');
        lemma_open_name(text, start, n - 1, ends);
        assert(text.subrange(start + 1, n) =~= text.subrange(start + 1, n - 1).push(text[n - 1]));
    }
}

proof fn lemma_name_is_hidden(
    text: Seq<char>,
    properties: Map<Seq<char>, Seq<char>>,
    start: int,
    n: int,
)
    requires
        0 <= start < n <= text.len(),
        text[start] == '{',
        forall|i: int| start < i < n ==> #[trigger] text[i] != '{' && text[i] != '}',
    ensures
        patched(text, properties, n) == patched(text, properties, start),
    decreases n,
{
    if n > start + 1 {
        assert(text[n - 1] != '{' && text[n - 1] != '}');
        lemma_name_is_hidden(text, properties, start, n - 1);
        lemma_open_name(text, start, n - 1, false);
    }
}

/// A text with a property at its end is shown with the value of the property in its place, and with `0`
/// where the property has none. The property is the name that stands between the braces, and it is one
/// of those that the text shows.
pub proof fn law_property_is_filled(
    before: Seq<char>,
    name: Seq<char>,
    properties: Map<Seq<char>, Seq<char>>,
    list: Seq<Seq<char>>,
)
    requires
        forall|i: int| 0 <= i < before.len() ==> #[trigger] before[i] != '{' && before[i] != '}',
        forall|i: int| 0 <= i < name.len() ==> #[trigger] name[i] != '{' && name[i] != '}',
    ensures
        ({
            let text = before + seq!['{'] + name + seq!['}'];
            let n = text.len() as int;
            &&& properties.contains_key(name) ==> patched(text, properties, n) == before
                + properties[name]
            &&& !properties.contains_key(name) ==> patched(text, properties, n) == before.push('0')
            &&& properties_in(text, list, n).contains(name)
            &&& is_closed(text, true)
            &&& is_closed(text, false)
        }),
{
    let text = before + seq!['{'] + name + seq!['}'];
    let n = text.len() as int;
    let start = before.len() as int;
    assert(text[start] == '{' && text[n - 1] == '}');
    assert forall|i: int| start < i < n - 1 implies #[trigger] text[i] != '{' && text[i] != '}' by {
        assert(text[i] == name[i - start - 1]);
    }
    assert(text.subrange(start + 1, n - 1) =~= name);
    lemma_open_name(text, start, n - 1, false);
    lemma_open_name(text, start, n - 1, true);
    lemma_name_is_hidden(text, properties, start, n - 1);
    assert(before =~= text.take(start));
    lemma_patched_prefix(before, text, properties, start, true);
    law_plain_text_is_kept(before, properties, start);
    assert(before.take(start) =~= before);
    assert(patched(text, properties, n) == before + shown(properties, name));
    assert(before + seq!['0'] =~= before.push('0'));
    let shown_list = properties_in(text, list, n - 1);
    let all = properties_in(text, list, n);
    if !shown_list.contains(name) {
        assert(all[all.len() - 1] == name);
    }
    assert forall|ends: bool, i: int|
        0 <= i < text.len() && #[trigger] text[i] == '}' implies #[trigger] open_property(
        text,
        i,
        ends,
    ) is Some by {
        if i < start {
            assert(text[i] == before[i]);
        }
        assert(i == n - 1);
        lemma_open_name(text, start, n - 1, ends);
    }
    assert(is_closed(text, true)) by {
        assert forall|i: int| 0 <= i < text.len() && #[trigger] text[i] == '}' implies open_property(
            text,
            i,
            true,
        ) is Some by {}
    }
    assert(is_closed(text, false)) by {
        assert forall|i: int| 0 <= i < text.len() && #[trigger] text[i] == '}' implies open_property(
            text,
            i,
            false,
        ) is Some by {}
    }
}

/// The properties of a text are added to a list: what was in it stays in its place, and no name comes in
/// twice.
pub proof fn law_properties_are_added(text: Seq<char>, before: Seq<Seq<char>>, n: int)
    requires
        before.no_duplicates(),
    ensures
        properties_in(text, before, n).no_duplicates(),
        before.len() <= properties_in(text, before, n).len(),
        forall|i: int|
            0 <= i < before.len() ==> #[trigger] properties_in(text, before, n)[i] == before[i],
    decreases n,
{
    if n > 0 {
        law_properties_are_added(text, before, n - 1);
    }
}

} // verus!
