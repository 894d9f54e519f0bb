//! The files of an archive, by their paths.
use vstd::prelude::*;

use crate::entry;
use crate::entry::{parse_multiple_files_entry, FileEntryView, ThorFileEntry};
use crate::error;
use crate::error::{ErrorKind, ParseError, ParseErrorView, ParseResult, ParseResultView};

verus! {

/// The views of the given entries.
pub open spec fn entry_views(entries: Seq<ThorFileEntry>) -> Seq<FileEntryView> {
    entries.map_values(|e: ThorFileEntry| e@)
}

/// The given entries by their paths. Of several entries with one path the last one counts.
pub open spec fn entry_map(entries: Seq<FileEntryView>) -> Map<Seq<char>, FileEntryView>
    decreases entries.len(),
{
    if entries.len() == 0 {
        Map::empty()
    } else {
        entry_map(entries.drop_last()).insert(entries.last().relative_path, entries.last())
    }
}

/// Whether no two of the given entries have the same path.
pub open spec fn distinct_paths(entries: Seq<FileEntryView>) -> bool {
    forall|i: int, j: int|
        0 <= i < j < entries.len() ==> #[trigger] entries[i].relative_path
            != #[trigger] entries[j].relative_path
}

/// Whether the given entries are those of a map, each of them once.
pub open spec fn lists_entries(
    entries: Seq<FileEntryView>,
    map: Map<Seq<char>, FileEntryView>,
) -> bool {
    &&& distinct_paths(entries)
    &&& forall|i: int|
        0 <= i < entries.len() ==> #[trigger] map.contains_pair(
            entries[i].relative_path,
            entries[i],
        )
    &&& forall|path: Seq<char>| #[trigger]
        map.contains_key(path) ==> exists|i: int|
            0 <= i < entries.len() && #[trigger] entries[i].relative_path == path
}

/// Entries with distinct paths are those of their map.
pub proof fn lemma_entry_map_lists(entries: Seq<FileEntryView>)
    requires
        distinct_paths(entries),
    ensures
        lists_entries(entries, entry_map(entries)),
    decreases entries.len(),
{
    if entries.len() > 0 {
        let init = entries.drop_last();
        let map = entry_map(entries);
        assert(distinct_paths(init)) by {
            assert forall|i: int, j: int| 0 <= i < j < init.len() implies #[trigger] init[i].relative_path
                != #[trigger] init[j].relative_path by {
                assert(entries[i].relative_path != entries[j].relative_path);
            }
        }
        lemma_entry_map_lists(init);
        assert forall|i: int| 0 <= i < entries.len() implies #[trigger] map.contains_pair(
            entries[i].relative_path,
            entries[i],
        ) by {
            if i < init.len() {
                assert(init[i] == entries[i]);
                assert(entry_map(init).contains_pair(init[i].relative_path, init[i]));
                assert(entries[i].relative_path != entries[init.len() as int].relative_path);
            }
        }
        assert forall|path: Seq<char>| #[trigger] map.contains_key(path) implies exists|i: int|
            0 <= i < entries.len() && #[trigger] entries[i].relative_path == path by {
            if path == entries.last().relative_path {
                assert(entries[entries.len() - 1].relative_path == path);
            } else {
                assert(entry_map(init).contains_key(path));
                let i = choose|i: int|
                    0 <= i < init.len() && #[trigger] init[i].relative_path == path;
                assert(entries[i].relative_path == path);
            }
        }
    }
}

/// A map is determined by a list of its entries.
pub proof fn lemma_listed_map_unique(
    entries: Seq<FileEntryView>,
    a: Map<Seq<char>, FileEntryView>,
    b: Map<Seq<char>, FileEntryView>,
)
    requires
        lists_entries(entries, a),
        lists_entries(entries, b),
    ensures
        a == b,
{
    assert forall|path: Seq<char>|
        #![trigger a.dom().contains(path)]
        #![trigger b.dom().contains(path)]
        a.dom().contains(path) == b.dom().contains(path) && (a.dom().contains(path) ==> a[path]
            == b[path]) by {
        if a.contains_key(path) {
            let i = choose|i: int|
                0 <= i < entries.len() && #[trigger] entries[i].relative_path == path;
            assert(a.contains_pair(entries[i].relative_path, entries[i]));
            assert(b.contains_pair(entries[i].relative_path, entries[i]));
        }
        if b.contains_key(path) {
            let i = choose|i: int|
                0 <= i < entries.len() && #[trigger] entries[i].relative_path == path;
            assert(a.contains_pair(entries[i].relative_path, entries[i]));
        }
    }
    assert(a =~= b);
}

/// The files of an archive, by their paths.
#[derive(Debug)]
pub struct FileEntries {
    files: Vec<ThorFileEntry>,
}

impl View for FileEntries {
    type V = Map<Seq<char>, FileEntryView>;

    closed spec fn view(&self) -> Map<Seq<char>, FileEntryView> {
        entry_map(entry_views(self.files@))
    }
}

impl FileEntries {
    /// No path occurs twice.
    #[verifier::type_invariant]
    closed spec fn paths_are_distinct(self) -> bool {
        distinct_paths(entry_views(self.files@))
    }

    /// No files.
    pub fn new() -> (res: FileEntries)
        ensures
            res@ == Map::<Seq<char>, FileEntryView>::empty(),
    {
        FileEntries { files: Vec::new() }
    }

    /// The position of the entry of a path.
    fn position(&self, path: &String) -> (res: Option<usize>)
        ensures
            match res {
                Some(i) => i < self.files@.len() && self.files@[i as int]@.relative_path == path@,
                None => !self@.contains_key(path@),
            },
    {
        proof {
            use_type_invariant(self);
            lemma_entry_map_lists(entry_views(self.files@));
        }
        for i in 0..self.files.len()
            invariant
                forall|j: int| 0 <= j < i ==> self.files@[j]@.relative_path != path@,
        {
            if self.files[i].relative_path == *path {
                return Some(i);
            }
        }
        proof {
            let views = entry_views(self.files@);
            assert forall|j: int| 0 <= j < views.len() implies #[trigger] views[j].relative_path
                != path@ by {
                assert(views[j] == self.files@[j]@);
            }
        }
        None
    }

    /// The entry of a path.
    pub fn get(&self, path: &str) -> (res: Option<&ThorFileEntry>)
        ensures
            match res {
                Some(entry) => self@.contains_pair(path@, entry@),
                None => !self@.contains_key(path@),
            },
    {
        proof {
            use_type_invariant(self);
            lemma_entry_map_lists(entry_views(self.files@));
        }
        let path = path.to_string();
        match self.position(&path) {
            Some(i) => {
                proof {
                    let views = entry_views(self.files@);
                    assert(self@.contains_pair(views[i as int].relative_path, views[i as int]));
                }
                Some(&self.files[i])
            },
            None => None,
        }
    }

    /// Puts an entry under its path, in place of the one that is there.
    pub fn insert(self, entry: ThorFileEntry) -> (res: FileEntries)
        ensures
            res@ == self@.insert(entry@.relative_path, entry@),
    {
        proof {
            use_type_invariant(&self);
        }
        let position = self.position(&entry.relative_path);
        let FileEntries { mut files } = self;
        let ghost before = entry_views(files@);
        let ghost map = entry_map(before);
        proof {
            lemma_entry_map_lists(before);
        }
        match position {
            Some(i) => {
                proof {
                    let after = before.update(i as int, entry@);
                    assert(entry_views(files@.update(i as int, entry)) =~= after);
                    lemma_replace_entry(before, i as int, entry@);
                }
                files.set(i, entry);
            },
            None => {
                proof {
                    let after = before.push(entry@);
                    assert(entry_views(files@.push(entry)) =~= after);
                    assert(after.drop_last() =~= before);
                    assert forall|j: int, k: int| 0 <= j < k < after.len() implies #[trigger] after[j].relative_path
                        != #[trigger] after[k].relative_path by {
                        if k < before.len() {
                            assert(before[j].relative_path != before[k].relative_path);
                        } else {
                            assert(map.contains_pair(before[j].relative_path, before[j]));
                        }
                    }
                }
                files.push(entry);
            },
        }
        FileEntries { files }
    }

    /// All the entries.
    pub fn values(&self) -> (res: &[ThorFileEntry])
        ensures
            lists_entries(entry_views(res@), self@),
    {
        proof {
            use_type_invariant(self);
            lemma_entry_map_lists(entry_views(self.files@));
        }
        self.files.as_slice()
    }
}

proof fn lemma_replace_entry(entries: Seq<FileEntryView>, i: int, entry: FileEntryView)
    requires
        distinct_paths(entries),
        0 <= i < entries.len(),
        entries[i].relative_path == entry.relative_path,
    ensures
        distinct_paths(entries.update(i, entry)),
        entry_map(entries.update(i, entry)) == entry_map(entries).insert(
            entry.relative_path,
            entry,
        ),
{
    let after = entries.update(i, entry);
    let map = entry_map(entries).insert(entry.relative_path, entry);
    lemma_entry_map_lists(entries);
    assert forall|j: int, k: int| 0 <= j < k < after.len() implies #[trigger] after[j].relative_path
        != #[trigger] after[k].relative_path by {
        assert(entries[j].relative_path != entries[k].relative_path);
    }
    lemma_entry_map_lists(after);
    assert(lists_entries(after, map)) by {
        assert forall|j: int| 0 <= j < after.len() implies #[trigger] map.contains_pair(
            after[j].relative_path,
            after[j],
        ) by {
            if j != i {
                assert(entry_map(entries).contains_pair(entries[j].relative_path, entries[j]));
                assert(after[j].relative_path != after[i].relative_path);
            }
        }
        assert forall|path: Seq<char>| #[trigger] map.contains_key(path) implies exists|j: int|
            0 <= j < after.len() && #[trigger] after[j].relative_path == path by {
            if path == entry.relative_path {
                assert(after[i].relative_path == path);
            } else {
                assert(entry_map(entries).contains_key(path));
                let j = choose|j: int|
                    0 <= j < entries.len() && #[trigger] entries[j].relative_path == path;
                assert(after[j].relative_path == path);
            }
        }
    }
    lemma_listed_map_unique(after, entry_map(after), map);
}

impl PartialEq for FileEntries {
    fn eq(&self, other: &Self) -> (res: bool) {
        let res = self.is_part_of(other) && other.is_part_of(self);
        proof {
            if res {
                assert(self@.dom() =~= other@.dom());
                assert(self@ =~= other@);
            }
        }
        res
    }
}

impl vstd::std_specs::cmp::PartialEqSpecImpl for FileEntries {
    open spec fn obeys_eq_spec() -> bool {
        true
    }

    open spec fn eq_spec(&self, other: &Self) -> bool {
        self@ == other@
    }
}

impl Eq for FileEntries {

}

impl FileEntries {
    /// Whether every entry is also one of `other`'s.
    fn is_part_of(&self, other: &FileEntries) -> (res: bool)
        ensures
            res == self@.submap_of(other@),
    {
        let files = self.values();
        let ghost views = entry_views(files@);
        for i in 0..files.len()
            invariant
                views == entry_views(files@),
                lists_entries(views, self@),
                forall|j: int| 0 <= j < i ==> #[trigger] other@.contains_pair(
                    views[j].relative_path,
                    views[j],
                ),
        {
            assert(views[i as int] == files@[i as int]@);
            assert(self@.contains_pair(views[i as int].relative_path, views[i as int]));
            match other.get(files[i].relative_path.as_str()) {
                Some(entry) => {
                    if *entry != files[i] {
                        return false;
                    }
                },
                None => return false,
            }
        }
        proof {
            assert forall|path: Seq<char>| #[trigger] self@.dom().contains(path) implies other@.dom().contains(path)
                && self@[path] == other@[path] by {
                assert(self@.contains_key(path));
                let j = choose|j: int|
                    0 <= j < views.len() && #[trigger] views[j].relative_path == path;
                assert(self@.contains_pair(views[j].relative_path, views[j]));
                assert(other@.contains_pair(views[j].relative_path, views[j]));
            }
        }
        true
    }
}

/// The entries at the start of a table: as many as can be read, with what follows them. A table
/// that ends inside a path cannot be read at all.
pub open spec fn leading_entries(input: Seq<u8>) -> ParseResultView<Seq<FileEntryView>>
    decreases input.len(),
{
    match entry::multiple_files_entry(input) {
        Ok((rest, first)) => match leading_entries(rest) {
            Ok((rest, more)) => Ok((rest, seq![first] + more)),
            Err(error) => Err(error),
        },
        Err(ParseErrorView::Error(..)) => Ok((input, seq![])),
        Err(error) => Err(error),
    }
}

/// The table of an archive of several files: its entries by their paths. There must be at least
/// one, and of several with one path the last one counts.
pub open spec fn multiple_files_entries(input: Seq<u8>) -> ParseResultView<
    Map<Seq<char>, FileEntryView>,
> {
    match leading_entries(input) {
        Ok((rest, entries)) => if entries.len() == 0 {
            Err(ParseErrorView::Error(input, ErrorKind::Many1))
        } else {
            Ok((rest, entry_map(entries)))
        },
        Err(error) => Err(error),
    }
}

/// Parses the table of an archive of several files.
pub fn parse_multiple_files_entries<'a>(input: &'a [u8]) -> (res: ParseResult<'a, FileEntries>)
    ensures
        error::parsed(res) == multiple_files_entries(input@),
{
    let mut rest = input;
    let mut entries = FileEntries::new();
    let ghost mut read: Seq<FileEntryView> = seq![];
    let mut none_yet = true;
    loop
        invariant
            none_yet == (read.len() == 0),
            none_yet ==> rest@ == input@,
            entries@ == entry_map(read),
            match leading_entries(rest@) {
                Ok((end, more)) => leading_entries(input@) == Ok::<
                    (Seq<u8>, Seq<FileEntryView>),
                    ParseErrorView,
                >((end, read + more)),
                Err(error) => leading_entries(input@) == Err::<
                    (Seq<u8>, Seq<FileEntryView>),
                    ParseErrorView,
                >(error),
            },
        decreases rest@.len(),
    {
        match parse_multiple_files_entry(rest) {
            Ok((next, entry)) => {
                proof {
                    let first = entry@;
                    assert(read.push(first).drop_last() =~= read);
                    match leading_entries(next@) {
                        Ok((_, more)) => {
                            assert(read + (seq![first] + more) =~= read.push(first) + more);
                        },
                        Err(_) => {},
                    }
                    read = read.push(first);
                }
                entries = entries.insert(entry);
                rest = next;
                none_yet = false;
            },
            Err(ParseError::Error(..)) => {
                assert(read + seq![] =~= read);
                if none_yet {
                    return Err(ParseError::Error(input, ErrorKind::Many1));
                }
                return Ok((rest, entries));
            },
            Err(error) => return Err(error),
        }
    }
}

} // verus!
