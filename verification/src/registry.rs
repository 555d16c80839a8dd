//! Keys of the game's content, and how content is registered under its names.

use crate::scripts::names;
use crate::text::{self, lines_spec, split_spec};
use std::marker::PhantomData;
use vstd::hash_map::StringHashMap;
use vstd::prelude::*;

verus! {

/// The number of an entry in the registry of `T`.
pub struct Key<T> {
    index: u32,
    marker: PhantomData<T>,
}

impl<T> Key<T> {
    /// The entry's place in its registry.
    pub closed spec fn index(self) -> int {
        self.index as int
    }

    /// Entries are numbered by 32 bits.
    pub proof fn lemma_index_fits(self)
        ensures
            0 <= self.index() < 0x1_0000_0000,
    {
    }

    /// The key of the entry at `index`.
    pub closed spec fn of_index(index: u32) -> Key<T> {
        Key { index, marker: PhantomData }
    }

    /// The key of the entry at `index`.
    pub fn from_index(index: u32) -> (r: Key<T>)
        ensures
            r.index() == index,
            r == Key::<T>::of_index(index),
    {
        Key { index, marker: PhantomData }
    }

    /// The entry's place in its registry.
    pub fn numeric_id(self) -> (r: usize)
        ensures
            r == self.index(),
    {
        self.index as usize
    }

    /// The entry's place in its registry, in the bits that keys have.
    pub fn index_number(self) -> (r: u32)
        ensures
            r == self.index(),
            Key::<T>::of_index(r) == self,
    {
        proof {
            law_key_index(self, Key::<T>::of_index(self.index));
        }
        self.index
    }

    /// Whether two keys belong to the same entry.
    pub fn same(self, other: Key<T>) -> (r: bool)
        ensures
            r == (self == other),
            r == (self.index() == other.index()),
    {
        proof {
            law_key_index(self, other);
        }
        self.index == other.index
    }
}

impl<T> Clone for Key<T> {
    fn clone(&self) -> (r: Key<T>)
        ensures
            r == *self,
    {
        Key { index: self.index, marker: self.marker }
    }
}

impl<T> Copy for Key<T> {

}

/// The key of a place is at that place.
pub proof fn law_key_of_index<T>(index: u32)
    ensures
        Key::<T>::of_index(index).index() == index,
{
}

/// A key is fixed by its entry's place.
pub proof fn law_key_index<T>(a: Key<T>, b: Key<T>)
    ensures
        a.index() == b.index() <==> a == b,
{
}

/// One key, a registered group of keys, or none.
pub enum KeyGroup<T> {
    Single(Key<T>),
    Group(usize),
    Empty,
}

impl<T> Clone for KeyGroup<T> {
    fn clone(&self) -> (r: KeyGroup<T>)
        ensures
            r == *self,
    {
        match self {
            KeyGroup::Single(key) => KeyGroup::Single(*key),
            KeyGroup::Group(group) => KeyGroup::Group(*group),
            KeyGroup::Empty => KeyGroup::Empty,
        }
    }
}

impl<T> Copy for KeyGroup<T> {

}

impl<T> Default for KeyGroup<T> {
    fn default() -> (r: KeyGroup<T>)
        ensures
            r is Empty,
    {
        KeyGroup::Empty
    }
}

/// The views of the texts of a map.
pub open spec fn texts(m: Map<Seq<char>, String>) -> Map<Seq<char>, Seq<char>> {
    m.map_values(|text: String| text@)
}

/// Whether a line of a group names another group.
pub open spec fn is_group_line(line: Seq<char>) -> bool {
    line.len() > 0 && line[0] == '#'
}

/// Whether the group `id` and all the groups that it names, down to depth `n`, exist, and no chain
/// of names is longer than `n`.
pub open spec fn group_is_closed(groups: Map<Seq<char>, Seq<char>>, id: Seq<char>, n: nat) -> bool
    decreases n,
{
    &&& n > 0
    &&& groups.contains_key(id)
    &&& forall|j: int|
        0 <= j < lines_spec(groups[id]).len() && is_group_line(#[trigger] lines_spec(groups[id])[j])
            ==> group_is_closed(
            groups,
            lines_spec(groups[id])[j].drop_first(),
            (n - 1) as nat,
        )
}

/// No group has been read.
pub fn no_group_texts() -> (r: StringHashMap<String>)
    ensures
        r@ == Map::<Seq<char>, String>::empty(),
{
    StringHashMap::new()
}

/// The text of a group, where none has been read the empty one.
pub open spec fn group_text(groups: Map<Seq<char>, Seq<char>>, id: Seq<char>) -> Seq<char> {
    if groups.contains_key(id) {
        groups[id]
    } else {
        Seq::empty()
    }
}

/// Reads a file of a group: its text follows, on a new line, what was read of the group before.
pub fn add_group_text(groups: &mut StringHashMap<String>, id: &str, text: &str)
    ensures
        texts(final(groups)@) == texts(old(groups)@).insert(
            id@,
            group_text(texts(old(groups)@), id@) + seq!['\n'] + text@,
        ),
{
    let mut list: Vec<char> = match groups.get(id) {
        Some(before) => text::chars(before.as_str()),
        None => Vec::new(),
    };
    assert(list@ =~= group_text(texts(groups@), id@));
    list.push('\n');
    let mut more = text::chars(text);
    list.append(&mut more);
    assert(list@ =~= group_text(texts(groups@), id@) + seq!['\n'] + text@);
    groups.insert(id.to_owned(), text::from_chars(&list));
    assert(texts(groups@) =~= texts(old(groups)@).insert(id@, list@));
}

/// Whether a group and all the groups that it names have been read, and no chain of names is longer
/// than `n`.
pub fn is_group_closed(groups: &StringHashMap<String>, id: &str, n: usize) -> (r: bool)
    ensures
        r == group_is_closed(texts(groups@), id@, n as nat),
    decreases n,
{
    if n == 0 {
        return false;
    }
    let ghost all = texts(groups@);
    match groups.get(id) {
        None => false,
        Some(content) => {
            let lines = text::lines(content.as_str());
            let ghost list = lines_spec(all[id@]);
            assert(text::views(lines@) == list);
            let mut i: usize = 0;
            while i < lines.len()
                invariant
                    i <= lines@.len(),
                    n > 0,
                    all == texts(groups@),
                    all.contains_key(id@),
                    list == lines_spec(all[id@]),
                    text::views(lines@) == list,
                    forall|j: int|
                        0 <= j < i && is_group_line(#[trigger] list[j]) ==> group_is_closed(
                            all,
                            list[j].drop_first(),
                            (n - 1) as nat,
                        ),
                decreases lines@.len() - i,
            {
                let line = lines[i];
                assert(list[i as int] == line@);
                if !line.is_empty() && line.get_char(0) == '#' {
                    let inner = line.substring_char(1, line.unicode_len());
                    assert(inner@ =~= list[i as int].drop_first());
                    if !is_group_closed(groups, inner, n - 1) {
                        assert(is_group_line(list[i as int]));
                        return false;
                    }
                }
                i += 1;
            }
            true
        },
    }
}

/// Whether the entry at `k` belongs to the group `id`, looked at down to depth `n`: a line names it,
/// or names a group that it belongs to.
pub open spec fn group_brings(
    names: Seq<Seq<char>>,
    groups: Map<Seq<char>, Seq<char>>,
    id: Seq<char>,
    n: nat,
    k: int,
) -> bool
    decreases n,
{
    exists|j: int|
        0 <= j < lines_spec(groups[id]).len() && {
            let line = #[trigger] lines_spec(groups[id])[j];
            if line.len() == 0 {
                false
            } else if is_group_line(line) {
                n > 0 && group_brings(names, groups, line.drop_first(), (n - 1) as nat, k)
            } else {
                names.contains(line) && names.index_of(line) == k
            }
        }
}

/// Whether a line of a group brings in the entry at `k`.
pub open spec fn line_brings(
    names: Seq<Seq<char>>,
    groups: Map<Seq<char>, Seq<char>>,
    line: Seq<char>,
    n: nat,
    k: int,
) -> bool {
    if line.len() == 0 {
        false
    } else if is_group_line(line) {
        n > 0 && group_brings(names, groups, line.drop_first(), (n - 1) as nat, k)
    } else {
        names.contains(line) && names.index_of(line) == k
    }
}

/// Whether the group `id`, looked at down to depth `n`, names an entry that is not there, itself or
/// through another group.
pub open spec fn group_misses(
    names: Seq<Seq<char>>,
    groups: Map<Seq<char>, Seq<char>>,
    id: Seq<char>,
    n: nat,
) -> bool
    decreases n,
{
    exists|j: int|
        0 <= j < lines_spec(groups[id]).len() && {
            let line = #[trigger] lines_spec(groups[id])[j];
            if line.len() == 0 {
                false
            } else if is_group_line(line) {
                n > 0 && group_misses(names, groups, line.drop_first(), (n - 1) as nat)
            } else {
                !names.contains(line)
            }
        }
}

/// Whether a line of a group names an entry that is not there.
pub open spec fn line_misses(
    names: Seq<Seq<char>>,
    groups: Map<Seq<char>, Seq<char>>,
    line: Seq<char>,
    n: nat,
) -> bool {
    if line.len() == 0 {
        false
    } else if is_group_line(line) {
        n > 0 && group_misses(names, groups, line.drop_first(), (n - 1) as nat)
    } else {
        !names.contains(line)
    }
}

proof fn lemma_by_lines(
    names: Seq<Seq<char>>,
    groups: Map<Seq<char>, Seq<char>>,
    id: Seq<char>,
    n: nat,
    k: int,
)
    ensures
        group_brings(names, groups, id, n, k) == exists|j: int|
            0 <= j < lines_spec(groups[id]).len() && line_brings(
                names,
                groups,
                #[trigger] lines_spec(groups[id])[j],
                n,
                k,
            ),
        group_misses(names, groups, id, n) == exists|j: int|
            0 <= j < lines_spec(groups[id]).len() && line_misses(
                names,
                groups,
                #[trigger] lines_spec(groups[id])[j],
                n,
            ),
{
}

/// How deep the groups that `id` names are nested.
pub open spec fn group_depth(groups: Map<Seq<char>, Seq<char>>, id: Seq<char>) -> nat {
    choose|n: nat| group_is_closed(groups, id, n)
}

/// The entries of the group `id`.
pub open spec fn group_members(
    names: Seq<Seq<char>>,
    groups: Map<Seq<char>, Seq<char>>,
    id: Seq<char>,
) -> Set<int> {
    Set::new(|k: int| group_brings(names, groups, id, group_depth(groups, id), k))
}

/// What belongs to a group does not depend on the depth that it is looked at, as long as that is
/// deep enough.
pub proof fn law_group_depth(
    names: Seq<Seq<char>>,
    groups: Map<Seq<char>, Seq<char>>,
    id: Seq<char>,
    n: nat,
    m: nat,
    k: int,
)
    requires
        group_is_closed(groups, id, n),
        group_is_closed(groups, id, m),
    ensures
        group_brings(names, groups, id, n, k) == group_brings(names, groups, id, m, k),
        group_misses(names, groups, id, n) == group_misses(names, groups, id, m),
    decreases n,
{
    let lines = lines_spec(groups[id]);
    assert forall|j: int| 0 <= j < lines.len() implies ({
        let line = #[trigger] lines[j];
        &&& line_brings(names, groups, line, n, k) == line_brings(names, groups, line, m, k)
        &&& line_misses(names, groups, line, n) == line_misses(names, groups, line, m)
    }) by {
        if is_group_line(lines[j]) {
            law_group_depth(
                names,
                groups,
                lines[j].drop_first(),
                (n - 1) as nat,
                (m - 1) as nat,
                k,
            );
        }
    }
    lemma_by_lines(names, groups, id, n, k);
    lemma_by_lines(names, groups, id, m, k);
}

/// The places of a list of keys.
pub open spec fn key_set<T>(keys: Seq<Key<T>>) -> Set<int> {
    Set::new(|k: int| exists|i: int| 0 <= i < keys.len() && (#[trigger] keys[i]).index() == k)
}

/// Whether no key stands twice in a list.
pub open spec fn distinct_keys<T>(keys: Seq<Key<T>>) -> bool {
    forall|i: int, j: int|
        0 <= i < j < keys.len() ==> (#[trigger] keys[i]).index() != (#[trigger] keys[j]).index()
}

/// The entries of one kind as they are found: their names, where they are read from, and the groups
/// that they belong to.
#[verifier::reject_recursive_types(T)]
pub struct LoadRegistry<T> {
    id_map: StringHashMap<Key<T>>,
    data_list: Vec<String>,
    id_list: Vec<String>,
    group_id_map: StringHashMap<KeyGroup<T>>,
    groups: Vec<Vec<Key<T>>>,
}

impl<T> LoadRegistry<T> {
    /// The names of the entries, in the order of their keys.
    pub closed spec fn ids(self) -> Seq<Seq<char>> {
        names(self.id_list@)
    }

    /// Where the entries are read from, in the order of their keys.
    pub closed spec fn paths(self) -> Seq<Seq<char>> {
        names(self.data_list@)
    }

    /// The groups by their names.
    pub closed spec fn group_ids(self) -> Map<Seq<char>, KeyGroup<T>> {
        self.group_id_map@
    }

    /// The entries of the groups.
    pub closed spec fn group_lists(self) -> Seq<Seq<Key<T>>> {
        self.groups@.map_values(|group: Vec<Key<T>>| group@)
    }

    /// Whether names and keys agree, and every named group exists.
    pub closed spec fn wf(self) -> bool {
        let ids = self.ids();
        &&& self.data_list@.len() == self.id_list@.len()
        &&& self.id_list@.len() <= u32::MAX
        &&& ids.no_duplicates()
        &&& forall|id: Seq<char>| #[trigger] self.id_map@.contains_key(id) <==> ids.contains(id)
        &&& forall|i: int|
            0 <= i < ids.len() ==> self.id_map@.contains_key(#[trigger] ids[i])
                && self.id_map@[ids[i]].index() == i
        &&& forall|id: Seq<char>| #[trigger]
            self.group_id_map@.contains_key(id) ==> (self.group_id_map@[id] matches KeyGroup::Group(
                group,
            ) ==> group < self.groups@.len())
        &&& forall|group: int|
            0 <= group < self.groups@.len() ==> distinct_keys((#[trigger] self.groups@[group])@)
    }

    /// No name is given twice.
    pub proof fn law_ids_unique(&self)
        requires
            self.wf(),
        ensures
            self.ids().no_duplicates(),
    {
    }

    /// The key of an entry.
    pub fn id(&self, id: &str) -> (r: Option<Key<T>>)
        requires
            self.wf(),
        ensures
            r is Some <==> self.ids().contains(id@),
            r matches Some(key) ==> 0 <= key.index() < self.ids().len() && self.ids()[key.index()]
                == id@,
    {
        match self.id_map.get(id) {
            Some(key) => {
                proof {
                    let i = self.ids().index_of(id@);
                    assert(self.ids()[i] == id@);
                }
                Some(*key)
            },
            None => None,
        }
    }

    /// The name of an entry.
    pub fn text_id(&self, key: Key<T>) -> (r: &str)
        requires
            key.index() < self.ids().len(),
        ensures
            r@ == self.ids()[key.index()],
    {
        self.id_list[key.numeric_id()].as_str()
    }

    /// Where an entry is read from.
    pub fn path(&self, key: Key<T>) -> (r: &str)
        requires
            self.wf(),
            key.index() < self.ids().len(),
        ensures
            r@ == self.paths()[key.index()],
    {
        self.data_list[key.numeric_id()].as_str()
    }

    /// The keys of all entries, in order.
    pub fn entries(&self) -> (r: Vec<Key<T>>)
        requires
            self.wf(),
        ensures
            r@.len() == self.ids().len(),
            forall|i: int| 0 <= i < r@.len() ==> (#[trigger] r@[i]).index() == i,
    {
        let mut r: Vec<Key<T>> = Vec::new();
        let mut i: usize = 0;
        while i < self.data_list.len()
            invariant
                self.wf(),
                i <= self.data_list@.len() <= u32::MAX,
                r@.len() == i,
                forall|j: int| 0 <= j < i ==> (#[trigger] r@[j]).index() == j,
            decreases self.data_list@.len() - i,
        {
            r.push(Key::from_index(i as u32));
            i += 1;
        }
        r
    }

    /// Registers an entry under a name that is not taken.
    pub fn register(&mut self, id: String, data: String) -> (r: Key<T>)
        requires
            old(self).wf(),
            !old(self).ids().contains(id@),
            old(self).ids().len() < u32::MAX,
        ensures
            final(self).wf(),
            r.index() == old(self).ids().len(),
            final(self).ids() == old(self).ids().push(id@),
            final(self).paths() == old(self).paths().push(data@),
            final(self).group_ids() == old(self).group_ids(),
            final(self).group_lists() == old(self).group_lists(),
    {
        let ghost start = *self;
        let key = Key::from_index(self.id_list.len() as u32);
        self.id_list.push(id.clone());
        self.data_list.push(data);
        self.id_map.insert(id, key);
        proof {
            let ids = start.ids();
            let grown = self.ids();
            assert(grown =~= ids.push(id@));
            assert(self.paths() =~= start.paths().push(data@));
            assert forall|n: Seq<char>| #[trigger] self.id_map@.contains_key(n)
                <==> grown.contains(n) by {
                if n == id@ {
                    assert(grown[ids.len() as int] == n);
                } else if ids.contains(n) {
                    assert(grown[ids.index_of(n)] == n);
                } else if grown.contains(n) {
                    let i = choose|i: int| 0 <= i < grown.len() && grown[i] == n;
                    assert(ids[i] == n);
                }
            }
        }
        key
    }

    /// Registers a group of entries.
    pub fn register_group(&mut self, id: String, group: Vec<Key<T>>) -> (r: KeyGroup<T>)
        requires
            old(self).wf(),
            distinct_keys(group@),
        ensures
            final(self).wf(),
            r == KeyGroup::<T>::Group(old(self).group_lists().len() as usize),
            final(self).group_lists() == old(self).group_lists().push(group@),
            final(self).group_ids() == old(self).group_ids().insert(id@, r),
            final(self).ids() == old(self).ids(),
            final(self).paths() == old(self).paths(),
    {
        let ghost start = *self;
        self.groups.push(group);
        let key_group = KeyGroup::Group(self.groups.len() - 1);
        self.group_id_map.insert(id, key_group);
        proof {
            assert(self.group_lists() =~= start.group_lists().push(group@));
            assert(start.group_lists().len() == start.groups@.len());
        }
        key_group
    }

    /// Adds what the lines of a group name to `entries`.
    fn collect_group(
        &self,
        groups: &StringHashMap<String>,
        id: &str,
        entries: &mut Vec<Key<T>>,
        encountered_error: &mut bool,
        Ghost(n): Ghost<nat>,
    )
        requires
            self.wf(),
            group_is_closed(texts(groups@), id@, n),
            distinct_keys(old(entries)@),
        ensures
            distinct_keys(final(entries)@),
            forall|k: int| #[trigger]
                key_set(final(entries)@).contains(k) <==> key_set(old(entries)@).contains(k)
                    || group_brings(self.ids(), texts(groups@), id@, n, k),
            *final(encountered_error) == (*old(encountered_error) || group_misses(
                self.ids(),
                texts(groups@),
                id@,
                n,
            )),
        decreases n,
    {
        let ghost all = texts(groups@);
        let ghost ids = self.ids();
        let content = groups.get(id).unwrap();
        let lines = text::lines(content.as_str());
        let ghost list = lines_spec(all[id@]);
        assert(text::views(lines@) == list);
        let mut i: usize = 0;
        while i < lines.len()
            invariant
                i <= lines@.len(),
                self.wf(),
                ids == self.ids(),
                all == texts(groups@),
                group_is_closed(all, id@, n),
                list == lines_spec(all[id@]),
                text::views(lines@) == list,
                distinct_keys(entries@),
                forall|k: int| #[trigger]
                    key_set(entries@).contains(k) <==> key_set(old(entries)@).contains(k) || exists|
                        j: int,
                    |
                        0 <= j < i && line_brings(ids, all, #[trigger] list[j], n, k),
                *encountered_error == (*old(encountered_error) || exists|j: int|
                    0 <= j < i && line_misses(ids, all, #[trigger] list[j], n)),
            decreases lines@.len() - i,
        {
            let line = lines[i];
            assert(list[i as int] == line@);
            let ghost before = entries@;
            let ghost before_error = *encountered_error;
            if line.is_empty() {
            } else if line.get_char(0) == '#' {
                let inner = line.substring_char(1, line.unicode_len());
                assert(inner@ =~= list[i as int].drop_first());
                self.collect_group(
                    groups,
                    inner,
                    entries,
                    encountered_error,
                    Ghost((n - 1) as nat),
                );
            } else {
                match self.id(line) {
                    Some(key) => {
                        insert_key(entries, key);
                        proof {
                            assert(ids.index_of(line@) == key.index());
                        }
                    },
                    None => {
                        *encountered_error = true;
                    },
                }
            }
            proof {
                let at = i as int;
                assert(list[at] == line@);
                assert forall|k: int| #[trigger] key_set(entries@).contains(k) <==> key_set(
                    old(entries)@,
                ).contains(k) || exists|j: int|
                    0 <= j < at + 1 && line_brings(ids, all, #[trigger] list[j], n, k) by {
                    assert(key_set(entries@).contains(k) <==> key_set(before).contains(k)
                        || line_brings(ids, all, list[at], n, k));
                    if key_set(before).contains(k) && !key_set(old(entries)@).contains(k) {
                        let j = choose|j: int|
                            0 <= j < at && line_brings(ids, all, #[trigger] list[j], n, k);
                        assert(0 <= j < at + 1 && line_brings(ids, all, list[j], n, k));
                    }
                }
                assert(*encountered_error == (before_error || line_misses(ids, all, list[at], n)));
                if before_error && !*old(encountered_error) {
                    let j = choose|j: int|
                        0 <= j < at && line_misses(ids, all, #[trigger] list[j], n);
                    assert(0 <= j < at + 1 && line_misses(ids, all, list[j], n));
                }
            }
            i += 1;
        }
        proof {
            assert forall|k: int| #[trigger] key_set(entries@).contains(k) <==> key_set(
                old(entries)@,
            ).contains(k) || group_brings(ids, all, id@, n, k) by {
                lemma_by_lines(ids, all, id@, n, k);
            }
            lemma_by_lines(ids, all, id@, n, 0);
        }
    }

    /// Reads a group: registers what its lines name, themselves or through other groups. Returns
    /// the group, and whether a line named an entry that is not there.
    pub fn load_group(&mut self, groups: &StringHashMap<String>, id: &str) -> (r: (
        KeyGroup<T>,
        bool,
    ))
        requires
            old(self).wf(),
            exists|n: nat| group_is_closed(texts(groups@), id@, n),
        ensures
            final(self).wf(),
            final(self).ids() == old(self).ids(),
            final(self).paths() == old(self).paths(),
            final(self).group_ids() == old(self).group_ids().insert(id@, r.0),
            r.0 == KeyGroup::<T>::Group(old(self).group_lists().len() as usize),
            final(self).group_lists().drop_last() == old(self).group_lists(),
            distinct_keys(final(self).group_lists().last()),
            key_set(final(self).group_lists().last()) == group_members(
                old(self).ids(),
                texts(groups@),
                id@,
            ),
            r.1 == group_misses(
                old(self).ids(),
                texts(groups@),
                id@,
                group_depth(texts(groups@), id@),
            ),
    {
        let mut entries: Vec<Key<T>> = Vec::new();
        let mut encountered_error = false;
        let ghost n = group_depth(texts(groups@), id@);
        let ghost start = *self;
        assert(forall|k: int| !key_set(entries@).contains(k));
        self.collect_group(groups, id, &mut entries, &mut encountered_error, Ghost(n));
        assert(key_set(entries@) =~= group_members(self.ids(), texts(groups@), id@));
        let group = self.register_group(id.to_owned(), entries);
        assert(self.group_lists().drop_last() =~= start.group_lists());
        (group, encountered_error)
    }
}

/// Adds a key to a list, unless it is there.
fn insert_key<T>(keys: &mut Vec<Key<T>>, key: Key<T>)
    requires
        distinct_keys(old(keys)@),
    ensures
        distinct_keys(final(keys)@),
        forall|k: int| #[trigger]
            key_set(final(keys)@).contains(k) <==> key_set(old(keys)@).contains(k) || k
                == key.index(),
{
    let ghost before = keys@;
    if !contains_key(keys, key) {
        keys.push(key);
        proof {
            assert forall|k: int| #[trigger] key_set(keys@).contains(k) <==> key_set(
                before,
            ).contains(k) || k == key.index() by {
                if key_set(before).contains(k) {
                    let i = choose|i: int|
                        0 <= i < before.len() && (#[trigger] before[i]).index() == k;
                    assert(keys@[i].index() == k);
                }
                if k == key.index() {
                    assert(keys@[before.len() as int].index() == k);
                }
                if key_set(keys@).contains(k) {
                    let i = choose|i: int| 0 <= i < keys@.len() && (#[trigger] keys@[i]).index() == k;
                    if i < before.len() {
                        assert(before[i].index() == k);
                    }
                }
            }
        }
    }
}

/// Whether a list holds a key.
fn contains_key<T>(keys: &Vec<Key<T>>, key: Key<T>) -> (r: bool)
    ensures
        r == key_set(keys@).contains(key.index()),
{
    let mut i: usize = 0;
    while i < keys.len()
        invariant
            i <= keys@.len(),
            forall|j: int| 0 <= j < i ==> (#[trigger] keys@[j]).index() != key.index(),
        decreases keys@.len() - i,
    {
        if keys[i].same(key) {
            assert(keys@[i as int].index() == key.index());
            return true;
        }
        i += 1;
    }
    false
}

impl<T> Default for LoadRegistry<T> {
    fn default() -> (r: LoadRegistry<T>)
        ensures
            r.wf(),
            r.ids() == Seq::<Seq<char>>::empty(),
            r.paths() == Seq::<Seq<char>>::empty(),
            r.group_ids() == Map::<Seq<char>, KeyGroup<T>>::empty(),
            r.group_lists() == Seq::<Seq<Key<T>>>::empty(),
    {
        let r: LoadRegistry<T> = LoadRegistry {
            id_map: StringHashMap::new(),
            data_list: Vec::new(),
            id_list: Vec::new(),
            group_id_map: StringHashMap::new(),
            groups: Vec::new(),
        };
        assert(r.ids() =~= Seq::<Seq<char>>::empty());
        assert(r.paths() =~= Seq::<Seq<char>>::empty());
        assert(r.group_lists() =~= Seq::<Seq<Key<T>>>::empty());
        r
    }
}

impl<T> KeyGroup<T> {
    /// The entries of the group.
    pub open spec fn members(self, registry: LoadRegistry<T>) -> Set<int> {
        match self {
            KeyGroup::Single(key) => Set::empty().insert(key.index()),
            KeyGroup::Group(group) => key_set(registry.group_lists()[group as int]),
            KeyGroup::Empty => Set::empty(),
        }
    }

    /// Whether a group that is meant belongs to the registry.
    pub open spec fn belongs_to(self, registry: LoadRegistry<T>) -> bool {
        self matches KeyGroup::Group(group) ==> group < registry.group_lists().len()
    }

    /// The group that a text names: an entry, a group behind a `#`, or nothing.
    pub open spec fn named(registry: LoadRegistry<T>, id: Seq<char>) -> Option<KeyGroup<T>> {
        if id.len() == 0 {
            Some(KeyGroup::Empty)
        } else if is_group_line(id) {
            if registry.group_ids().contains_key(id.drop_first()) {
                Some(registry.group_ids()[id.drop_first()])
            } else {
                None
            }
        } else if registry.ids().contains(id) {
            Some(KeyGroup::Single(Key::of_index(registry.ids().index_of(id) as u32)))
        } else {
            None
        }
    }

    /// The group that a text names: an entry, a group behind a `#`, or nothing.
    pub fn parse(registry: &LoadRegistry<T>, id: &str) -> (r: Option<KeyGroup<T>>)
        requires
            registry.wf(),
        ensures
            r == Self::named(*registry, id@),
            id@.len() == 0 ==> r == Some(KeyGroup::<T>::Empty),
            is_group_line(id@) ==> r == (if registry.group_ids().contains_key(id@.drop_first()) {
                Some(registry.group_ids()[id@.drop_first()])
            } else {
                None
            }),
            id@.len() > 0 && !is_group_line(id@) ==> {
                &&& r is Some <==> registry.ids().contains(id@)
                &&& r matches Some(group) ==> {
                    &&& group is Single
                    &&& registry.ids()[group->Single_0.index()] == id@
                    &&& 0 <= group->Single_0.index() < registry.ids().len()
                }
            },
            r matches Some(group) ==> group.belongs_to(*registry),
    {
        if id.is_empty() {
            return Some(KeyGroup::Empty);
        }
        if id.get_char(0) == '#' {
            let name = id.substring_char(1, id.unicode_len());
            assert(name@ =~= id@.drop_first());
            match registry.group_id_map.get(name) {
                Some(group) => Some(*group),
                None => None,
            }
        } else {
            match registry.id(id) {
                Some(key) => {
                    proof {
                        let i = registry.ids().index_of(id@);
                        assert(registry.ids()[i] == id@);
                        assert(i == key.index());
                        law_key_index(key, Key::<T>::of_index(i as u32));
                    }
                    Some(KeyGroup::Single(key))
                },
                None => None,
            }
        }
    }

    /// Whether the group is the same as another one.
    pub fn same(self, other: KeyGroup<T>) -> (r: bool)
        ensures
            r == match (self, other) {
                (KeyGroup::Single(a), KeyGroup::Single(b)) => a.index() == b.index(),
                (KeyGroup::Group(a), KeyGroup::Group(b)) => a == b,
                (KeyGroup::Empty, KeyGroup::Empty) => true,
                _ => false,
            },
    {
        match (self, other) {
            (KeyGroup::Single(a), KeyGroup::Single(b)) => a.same(b),
            (KeyGroup::Group(a), KeyGroup::Group(b)) => a == b,
            (KeyGroup::Empty, KeyGroup::Empty) => true,
            _ => false,
        }
    }

    /// Whether an entry belongs to the group.
    pub fn contains(self, registry: &LoadRegistry<T>, key: Key<T>) -> (r: bool)
        requires
            self.belongs_to(*registry),
        ensures
            r == self.members(*registry).contains(key.index()),
    {
        match self {
            KeyGroup::Single(v) => v.same(key),
            KeyGroup::Group(group) => contains_key(&registry.groups[group], key),
            KeyGroup::Empty => false,
        }
    }

    /// The entries of the group, in order.
    pub open spec fn variants(self, registry: LoadRegistry<T>) -> Seq<Key<T>> {
        match self {
            KeyGroup::Single(key) => seq![key],
            KeyGroup::Group(group) => registry.group_lists()[group as int],
            KeyGroup::Empty => Seq::empty(),
        }
    }

    /// The number of entries.
    pub fn variant_count(self, registry: &LoadRegistry<T>) -> (r: usize)
        requires
            self.belongs_to(*registry),
        ensures
            r == self.variants(*registry).len(),
    {
        match self {
            KeyGroup::Single(_) => 1,
            KeyGroup::Group(group) => registry.groups[group].len(),
            KeyGroup::Empty => 0,
        }
    }

    /// The entry at a place, counted round and round.
    pub fn variant(self, registry: &LoadRegistry<T>, index: usize) -> (r: Key<T>)
        requires
            self.belongs_to(*registry),
            self.variants(*registry).len() > 0,
        ensures
            r == self.variants(*registry)[index as int % self.variants(*registry).len() as int],
    {
        match self {
            KeyGroup::Single(key) => key,
            KeyGroup::Group(group) => {
                let keys = &registry.groups[group];
                keys[index % keys.len()]
            },
            KeyGroup::Empty => Key::from_index(0),
        }
    }

    /// The entries of the group, each once.
    pub fn list(&self, registry: &LoadRegistry<T>) -> (r: Vec<Key<T>>)
        requires
            registry.wf(),
            self.belongs_to(*registry),
        ensures
            r@ == self.variants(*registry),
            key_set(r@) == self.members(*registry),
            distinct_keys(r@),
    {
        match self {
            KeyGroup::Single(key) => {
                let mut r: Vec<Key<T>> = Vec::new();
                r.push(*key);
                assert(r@[0].index() == key.index());
                assert(key_set(r@) =~= self.members(*registry));
                r
            },
            KeyGroup::Group(group) => {
                let keys = &registry.groups[*group];
                let mut r: Vec<Key<T>> = Vec::new();
                let mut i: usize = 0;
                while i < keys.len()
                    invariant
                        i <= keys@.len(),
                        r@ == keys@.take(i as int),
                    decreases keys@.len() - i,
                {
                    r.push(keys[i]);
                    assert(r@ =~= keys@.take(i + 1));
                    i += 1;
                }
                assert(r@ =~= keys@);
                assert(distinct_keys(registry.groups@[*group as int]@));
                r
            },
            KeyGroup::Empty => {
                let r: Vec<Key<T>> = Vec::new();
                assert(key_set(r@) =~= self.members(*registry));
                r
            },
        }
    }
}

/// A kind of plant.
pub struct PlantData {
    pub stages: Vec<Key<TextureData>>,
    pub blades: u32,
    pub allowed_soil: KeyGroup<BlockData>,
}

pub type PlantKey = Key<PlantData>;

/// A texture and the masks that belong to it.
pub struct TextureData {}

/// A kind of block.
pub struct BlockData {}

/// A kind of item.
pub struct ItemData {}

/// A kind of entity.
pub struct EntityData {}

/// A list of items that can be found.
pub struct LootTableData {}

/// A model of an object.
pub struct ModelData {}

/// Something that can be researched.
pub struct ResearchData {}

/// A way to make items of others.
pub struct RecipeData {}

pub type TextureKey = Key<TextureData>;

pub type ItemKey = Key<ItemData>;

pub type EntityKey = Key<EntityData>;

pub type ModelKey = Key<ModelData>;

pub type ResearchKey = Key<ResearchData>;

pub type UIScreenKey = Key<crate::ui_element::UIScreen>;

pub type RecipeKey = Key<RecipeData>;

/// Data of an entry's own, or the key of an entry that has it.
pub enum OwnOrKey<T> {
    Own(T),
    Key(Key<T>),
}

impl<T> OwnOrKey<T> {
    /// The data; `entries` holds that of the keys.
    pub fn data<'a>(&'a self, entries: &'a Vec<T>) -> (r: &'a T)
        requires
            self matches OwnOrKey::Key(key) ==> key.index() < entries@.len(),
        ensures
            *r == match *self {
                OwnOrKey::Own(data) => data,
                OwnOrKey::Key(key) => entries@[key.index()],
            },
    {
        match self {
            OwnOrKey::Own(data) => data,
            OwnOrKey::Key(key) => &entries[key.numeric_id()],
        }
    }
}

/// A model with the textures that it is shown in.
pub struct ModelInstance {
    pub model: Key<ModelData>,
    pub textures: Vec<Key<TextureData>>,
}

/// Why a text names no model instance.
#[derive(Debug)]
pub enum ModelInstanceError {
    ModelNotFound(String),
    TextureNotFound(String),
}

/// The first of the pieces from `i` on that is not among `ids`.
pub open spec fn first_missing(pieces: Seq<Seq<char>>, ids: Seq<Seq<char>>, i: int) -> Option<
    Seq<char>,
>
    decreases pieces.len() - i,
{
    if i >= pieces.len() {
        None
    } else if ids.contains(pieces[i]) {
        first_missing(pieces, ids, i + 1)
    } else {
        Some(pieces[i])
    }
}

impl ModelInstance {
    /// Reads a model instance: the names of the model and of its textures, with semicolons between
    /// them.
    pub fn parse(
        text: &str,
        models: &LoadRegistry<ModelData>,
        textures: &LoadRegistry<TextureData>,
    ) -> (r: Result<ModelInstance, ModelInstanceError>)
        requires
            models.wf(),
            textures.wf(),
        ensures
            ({
                let pieces = split_spec(text@, ';');
                match r {
                    Ok(instance) => {
                        &&& 0 <= instance.model.index() < models.ids().len()
                        &&& models.ids()[instance.model.index()] == pieces[0]
                        &&& instance.textures@.len() == pieces.len() - 1
                        &&& forall|i: int|
                            0 <= i < instance.textures@.len() ==> {
                                let index = (#[trigger] instance.textures@[i]).index();
                                0 <= index < textures.ids().len() && textures.ids()[index]
                                    == pieces[i + 1]
                            }
                    },
                    Err(ModelInstanceError::ModelNotFound(name)) => name@ == pieces[0]
                        && !models.ids().contains(pieces[0]),
                    Err(ModelInstanceError::TextureNotFound(name)) => models.ids().contains(
                        pieces[0],
                    ) && first_missing(pieces, textures.ids(), 1) == Some(name@),
                }
            }),
            r is Ok <==> models.ids().contains(split_spec(text@, ';')[0]) && first_missing(
                split_spec(text@, ';'),
                textures.ids(),
                1,
            ) is None,
    {
        let pieces = text::split(text, ';');
        let ghost all = split_spec(text@, ';');
        assert(text::views(pieces@) == all);
        assert(all[0] == pieces@[0]@);
        let model = match models.id(pieces[0]) {
            Some(model) => model,
            None => {
                return Err(ModelInstanceError::ModelNotFound(pieces[0].to_owned()));
            },
        };
        let mut keys: Vec<Key<TextureData>> = Vec::new();
        let mut i: usize = 1;
        while i < pieces.len()
            invariant
                1 <= i <= pieces@.len(),
                textures.wf(),
                models.ids().contains(all[0]),
                all == split_spec(text@, ';'),
                text::views(pieces@) == all,
                keys@.len() == i - 1,
                first_missing(all, textures.ids(), 1) == first_missing(
                    all,
                    textures.ids(),
                    i as int,
                ),
                forall|j: int|
                    0 <= j < keys@.len() ==> {
                        let index = (#[trigger] keys@[j]).index();
                        0 <= index < textures.ids().len() && textures.ids()[index] == all[j + 1]
                    },
            decreases pieces@.len() - i,
        {
            assert(all[i as int] == pieces@[i as int]@);
            match textures.id(pieces[i]) {
                Some(key) => keys.push(key),
                None => {
                    return Err(ModelInstanceError::TextureNotFound(pieces[i].to_owned()));
                },
            }
            i += 1;
        }
        Ok(ModelInstance { model, textures: keys })
    }
}

/// A path as the name of the entry that is read from it: with points between its parts.
pub open spec fn dotted(path: Seq<char>) -> Seq<char> {
    Seq::new(
        path.len(),
        |i: int|
            if path[i] == '/' || path[i] == '\\' {
                '.'
            } else {
                path[i]
            },
    )
}

/// The name of the entry that is read from a path, which is given without its last extension.
pub fn content_id(path: &str) -> (r: String)
    ensures
        r@ == dotted(path@),
{
    let chars = text::chars(path);
    let mut result: Vec<char> = Vec::new();
    let mut i: usize = 0;
    while i < chars.len()
        invariant
            i <= chars@.len(),
            chars@ == path@,
            result@ == dotted(path@).take(i as int),
        decreases chars@.len() - i,
    {
        let c = chars[i];
        if c == '/' || c == '\\' {
            result.push('.');
        } else {
            result.push(c);
        }
        assert(result@ =~= dotted(path@).take(i + 1));
        i += 1;
    }
    assert(result@ =~= dotted(path@));
    text::from_chars(&result)
}

/// Whether a file holds a group: the last part of its name starts with a `#`.
pub fn is_group_id(id: &str) -> (r: bool)
    ensures
        r == is_group_line(split_spec(id@, '.').last()),
{
    let parts = text::split(id, '.');
    assert(text::views(parts@).len() > 0);
    let last = parts[parts.len() - 1];
    assert(text::views(parts@).last() == last@);
    !last.is_empty() && last.get_char(0) == '#'
}

/// `s` without its `#`s.
pub open spec fn without_marks(s: Seq<char>) -> Seq<char> {
    s.filter(|c: char| c != '#')
}

/// The name of the group that a file holds.
pub fn group_id(id: &str) -> (r: String)
    ensures
        r@ == without_marks(id@),
{
    let chars = text::chars(id);
    let mut result: Vec<char> = Vec::new();
    let mut i: usize = 0;
    while i < chars.len()
        invariant
            i <= chars@.len(),
            chars@ == id@,
            result@ == without_marks(id@.take(i as int)),
        decreases chars@.len() - i,
    {
        proof {
            reveal(Seq::filter);
            assert(id@.take(i + 1).drop_last() =~= id@.take(i as int));
        }
        if chars[i] != '#' {
            result.push(chars[i]);
        }
        i += 1;
    }
    assert(id@.take(id@.len() as int) =~= id@);
    text::from_chars(&result)
}

/// Whether files with this extension hold no content.
pub fn skips_extension(extension: &str) -> (r: bool)
    ensures
        r == (extension@ == "py"@ || extension@ == "png~"@),
{
    text::equals(extension, "py") || text::equals(extension, "png~")
}

/// Nothing names no entries, a text behind a hash names the group, and every other text names the
/// entry of that name.
pub proof fn law_named_groups<T>(registry: LoadRegistry<T>, group: Seq<char>, i: int)
    requires
        registry.wf(),
        0 <= i < registry.ids().len(),
    ensures
        KeyGroup::named(registry, Seq::empty()) == Some(KeyGroup::<T>::Empty),
        registry.group_ids().contains_key(group) ==> KeyGroup::named(registry, seq!['#'] + group)
            == Some(registry.group_ids()[group]),
        !registry.group_ids().contains_key(group) ==> KeyGroup::named(registry, seq!['#'] + group)
            is None,
        registry.ids()[i].len() > 0 && registry.ids()[i][0] != '#' ==> (KeyGroup::named(
            registry,
            registry.ids()[i],
        ) matches Some(KeyGroup::Single(key)) && key.index() == i),
{
    let marked = seq!['#'] + group;
    assert(marked[0] == '#');
    assert(marked.drop_first() =~= group);
    registry.law_ids_unique();
    let id = registry.ids()[i];
    assert(registry.ids().contains(id));
    assert(registry.ids().index_of(id) == i);
    law_key_of_index::<T>(i as u32);
}

/// The entries of a group are those that it lists, and a single entry is its own group.
pub proof fn law_group_entries<T>(group: KeyGroup<T>, registry: LoadRegistry<T>, k: int)
    ensures
        group.members(registry).contains(k) <==> exists|i: int|
            0 <= i < group.variants(registry).len() && (#[trigger] group.variants(registry)[i]).index()
                == k,
        group matches KeyGroup::Single(key) ==> group.variants(registry).len() == 1
            && group.variants(registry)[0] == key,
        group is Empty ==> group.variants(registry).len() == 0,
{
    if let KeyGroup::Single(key) = group {
        assert(group.variants(registry)[0].index() == key.index());
    }
}

/// A group holds the entries that a line of it names, and those of the groups that a line behind a
/// hash names.
pub proof fn law_group_lines(
    names: Seq<Seq<char>>,
    groups: Map<Seq<char>, Seq<char>>,
    id: Seq<char>,
    n: nat,
    j: int,
    k: int,
)
    requires
        0 <= j < lines_spec(groups[id]).len(),
        names.no_duplicates(),
        0 <= k < names.len(),
    ensures
        lines_spec(groups[id])[j] == names[k] && names[k].len() > 0 && names[k][0] != '#'
            ==> group_brings(names, groups, id, n, k),
        lines_spec(groups[id])[j].len() > 0 && lines_spec(groups[id])[j][0] == '#' && group_brings(
            names,
            groups,
            lines_spec(groups[id])[j].drop_first(),
            n,
            k,
        ) ==> group_brings(names, groups, id, n + 1, k),
        lines_spec(groups[id])[j].len() > 0 && lines_spec(groups[id])[j][0] != '#' && !names.contains(
            lines_spec(groups[id])[j],
        ) ==> group_misses(names, groups, id, n),
{
    let line = lines_spec(groups[id])[j];
    if line == names[k] {
        assert(names.contains(line));
        assert(names.index_of(line) == k);
    }
}

/// The name of an entry is its path with dots for the marks between directories.
pub proof fn law_dotted(path: Seq<char>, i: int)
    requires
        0 <= i < path.len(),
    ensures
        dotted(path).len() == path.len(),
        dotted(path)[i] != '/',
        dotted(path)[i] != '\\',
        path[i] == '/' || path[i] == '\\' ==> dotted(path)[i] == '.',
        path[i] != '/' && path[i] != '\\' ==> dotted(path)[i] == path[i],
{
}

/// A name without marks keeps its other letters in order.
pub proof fn law_without_marks(name: Seq<char>, c: char)
    ensures
        without_marks(Seq::empty()) == Seq::<char>::empty(),
        c == '#' ==> without_marks(name.push(c)) == without_marks(name),
        c != '#' ==> without_marks(name.push(c)) == without_marks(name).push(c),
{
    reveal(Seq::filter);
    assert(name.push(c).drop_last() =~= name);
}

/// The first missing name is missing, and all before it are there; where none is, all are there.
pub proof fn law_first_missing(
    pieces: Seq<Seq<char>>,
    ids: Seq<Seq<char>>,
    i: int,
    missing: Seq<char>,
)
    requires
        0 <= i <= pieces.len(),
    ensures
        first_missing(pieces, ids, i) == Some(missing) ==> exists|j: int|
            is_first_missing(pieces, ids, i, j, missing),
        first_missing(pieces, ids, i) is None ==> forall|j: int|
            i <= j < pieces.len() ==> ids.contains(#[trigger] pieces[j]),
    decreases pieces.len() - i,
{
    if i < pieces.len() {
        let next = i + 1;
        law_first_missing(pieces, ids, next, missing);
        if !ids.contains(pieces[i]) {
            assert(is_first_missing(pieces, ids, i, i, pieces[i]));
        } else if first_missing(pieces, ids, next) == Some(missing) {
            let j = choose|j: int| is_first_missing(pieces, ids, next, j, missing);
            assert(is_first_missing(pieces, ids, next, j, missing));
            assert(is_first_missing(pieces, ids, i, j, missing));
        }
    }
}

/// Whether the piece at `j` is missing and no piece from `i` on before it.
pub open spec fn is_first_missing(
    pieces: Seq<Seq<char>>,
    ids: Seq<Seq<char>>,
    i: int,
    j: int,
    missing: Seq<char>,
) -> bool {
    &&& i <= j < pieces.len()
    &&& pieces[j] == missing
    &&& !ids.contains(missing)
    &&& forall|k: int| i <= k < j ==> ids.contains(#[trigger] pieces[k])
}

} // verus!
