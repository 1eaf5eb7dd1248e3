//! Documents of nested tables, as the TOML format stores records: one
//! level of tables for each part of a record's location.

use vstd::prelude::*;
use vstd::string::*;

use crate::error::LogError;
use crate::text::texts;

verus! {

/// A value in a table.
pub enum TomlValue {
    /// A string.
    Text(String),
    /// A table below this one.
    Table(TomlTable),
    /// Any other value, kept as the text that stands for it in the file.
    Other(String),
}

/// One entry of a table.
pub struct TomlEntry {
    pub key: String,
    pub value: TomlValue,
}

/// A table: its entries in their order. The first entry with a key is the
/// one that counts for that key.
pub struct TomlTable {
    pub entries: Vec<TomlEntry>,
}

/// A value as plain data.
pub enum Node {
    Text(Seq<char>),
    Table(Seq<(Seq<char>, Node)>),
    Other(Seq<char>),
}

impl TomlValue {
    /// The value as plain data.
    pub open spec fn model(&self) -> Node
        decreases self,
    {
        match self {
            TomlValue::Text(text) => Node::Text(text@),
            TomlValue::Table(table) => Node::Table(table.model()),
            TomlValue::Other(text) => Node::Other(text@),
        }
    }
}

impl TomlTable {
    /// The entries of the table as plain data: pairs of key and value.
    pub open spec fn model(&self) -> Seq<(Seq<char>, Node)>
        decreases self,
    {
        Seq::new(
            self.entries@.len(),
            |i: int|
                if 0 <= i < self.entries@.len() {
                    (self.entries@[i].key@, self.entries@[i].value.model())
                } else {
                    (Seq::empty(), Node::Other(Seq::empty()))
                },
        )
    }
}

/// The place of the first entry with the key `key`; the number of entries
/// where there is none.
pub open spec fn entry_place(entries: Seq<(Seq<char>, Node)>, key: Seq<char>) -> int
    decreases entries.len(),
{
    if entries.len() == 0 {
        0
    } else if entries[0].0 == key {
        0
    } else {
        1 + entry_place(entries.drop_first(), key)
    }
}

/// The value that stands under `key`, if any.
pub open spec fn value_at(entries: Seq<(Seq<char>, Node)>, key: Seq<char>) -> Option<Node> {
    let place = entry_place(entries, key);
    if place < entries.len() {
        Some(entries[place].1)
    } else {
        None
    }
}

/// The entries after `value` was put under `key`: in the place of the
/// value that stood there, or behind the others.
pub open spec fn with_value(entries: Seq<(Seq<char>, Node)>, key: Seq<char>, value: Node) -> Seq<
    (Seq<char>, Node),
> {
    let place = entry_place(entries, key);
    if place < entries.len() {
        entries.update(place, (key, value))
    } else {
        entries.push((key, value))
    }
}

/// The table that stands under `key`, as far as a record can go through
/// it: the table itself, an empty table where nothing stands under the
/// key, and nothing where a value stands there that is no table.
pub open spec fn table_under(entries: Seq<(Seq<char>, Node)>, key: Seq<char>) -> Option<
    Seq<(Seq<char>, Node)>,
> {
    match value_at(entries, key) {
        Some(Node::Table(table)) => Some(table),
        Some(_) => None,
        None => Some(Seq::empty()),
    }
}

/// The table after the record `name = content` was stored at the end of
/// `path`: each part of the path names a table in the table before it, which
/// is made, empty, where it is missing. Nothing where a part of the path
/// names a value that is no table.
pub open spec fn with_record(
    entries: Seq<(Seq<char>, Node)>,
    path: Seq<Seq<char>>,
    name: Seq<char>,
    content: Seq<char>,
) -> Option<Seq<(Seq<char>, Node)>>
    decreases path.len(),
{
    if path.len() == 0 {
        Some(with_value(entries, name, Node::Text(content)))
    } else {
        match table_under(entries, path[0]) {
            Some(below) => match with_record(below, path.drop_first(), name, content) {
                Some(stored) => Some(with_value(entries, path[0], Node::Table(stored))),
                None => None,
            },
            None => None,
        }
    }
}

/// The entries of the table at the end of `path`; none where there is no
/// such table.
pub open spec fn entries_at(entries: Seq<(Seq<char>, Node)>, path: Seq<Seq<char>>) -> Seq<
    (Seq<char>, Node),
>
    decreases path.len(),
{
    if path.len() == 0 {
        entries
    } else {
        match value_at(entries, path[0]) {
            Some(Node::Table(table)) => entries_at(table, path.drop_first()),
            _ => Seq::empty(),
        }
    }
}

/// The place of a key is a place, or the number of entries; no entry
/// before it has the key, and the entry at it has.
pub proof fn lemma_entry_place(entries: Seq<(Seq<char>, Node)>, key: Seq<char>)
    ensures
        0 <= entry_place(entries, key) <= entries.len(),
        forall|i: int| 0 <= i < entry_place(entries, key) ==> (#[trigger] entries[i]).0 != key,
        entry_place(entries, key) < entries.len() ==> entries[entry_place(entries, key)].0 == key,
    decreases entries.len(),
{
    if entries.len() > 0 && entries[0].0 != key {
        let rest = entries.drop_first();
        lemma_entry_place(rest, key);
        assert forall|i: int| 0 <= i < entry_place(entries, key) implies (#[trigger] entries[i]).0
            != key by {
            if i > 0 {
                assert(entries[i] == rest[i - 1]);
            }
        }
    }
}

/// The first place at which the key stands is its place.
pub proof fn lemma_entry_place_is(entries: Seq<(Seq<char>, Node)>, key: Seq<char>, place: int)
    requires
        0 <= place <= entries.len(),
        forall|i: int| 0 <= i < place ==> (#[trigger] entries[i]).0 != key,
        place < entries.len() ==> entries[place].0 == key,
    ensures
        entry_place(entries, key) == place,
    decreases entries.len(),
{
    if entries.len() > 0 {
        if place == 0 {
        } else {
            let rest = entries.drop_first();
            assert(entries[0].0 != key);
            assert forall|i: int| 0 <= i < place - 1 implies (#[trigger] rest[i]).0 != key by {
                assert(rest[i] == entries[i + 1]);
            }
            lemma_entry_place_is(rest, key, place - 1);
        }
    }
}

/// After a value was put under a key, it is the value found there.
pub proof fn lemma_with_value_same(entries: Seq<(Seq<char>, Node)>, key: Seq<char>, value: Node)
    ensures
        value_at(with_value(entries, key, value), key) == Some(value),
{
    lemma_entry_place(entries, key);
    lemma_entry_place_is(with_value(entries, key, value), key, entry_place(entries, key));
}

/// Putting a value under a key changes nothing under any other key.
pub proof fn lemma_with_value_other(
    entries: Seq<(Seq<char>, Node)>,
    key: Seq<char>,
    value: Node,
    other: Seq<char>,
)
    requires
        other != key,
    ensures
        value_at(with_value(entries, key, value), other) == value_at(entries, other),
{
    lemma_entry_place(entries, key);
    lemma_entry_place(entries, other);
    let after = with_value(entries, key, value);
    let place = entry_place(entries, other);
    if place < entries.len() {
        lemma_entry_place_is(after, other, place);
    } else {
        lemma_entry_place_is(after, other, after.len() as int);
    }
}

/// Below an empty table there are only empty tables.
pub proof fn lemma_nothing_below_nothing(path: Seq<Seq<char>>)
    ensures
        entries_at(Seq::empty(), path) == Seq::<(Seq<char>, Node)>::empty(),
{
}

/// A stored record is found: the table at the end of its path holds the
/// content, as a string, under the record's name.
pub proof fn lemma_record_is_stored(
    entries: Seq<(Seq<char>, Node)>,
    path: Seq<Seq<char>>,
    name: Seq<char>,
    content: Seq<char>,
)
    requires
        with_record(entries, path, name, content) is Some,
    ensures
        value_at(entries_at(with_record(entries, path, name, content)->0, path), name) == Some(
            Node::Text(content),
        ),
    decreases path.len(),
{
    if path.len() == 0 {
        lemma_with_value_same(entries, name, Node::Text(content));
    } else {
        let below = table_under(entries, path[0])->0;
        let stored = with_record(below, path.drop_first(), name, content)->0;
        lemma_record_is_stored(below, path.drop_first(), name, content);
        lemma_with_value_same(entries, path[0], Node::Table(stored));
    }
}

/// Storing a record touches nothing else. In the table at the end of the
/// path every key but the record's name keeps what stood under it; in each
/// table on the way there, the document's root among them, every key but
/// the next part of the path keeps what stood under it.
pub proof fn lemma_record_leaves_the_rest(
    entries: Seq<(Seq<char>, Node)>,
    path: Seq<Seq<char>>,
    name: Seq<char>,
    content: Seq<char>,
    depth: int,
    key: Seq<char>,
)
    requires
        with_record(entries, path, name, content) is Some,
        0 <= depth <= path.len(),
        key != (if depth < path.len() {
            path[depth]
        } else {
            name
        }),
    ensures
        value_at(
            entries_at(with_record(entries, path, name, content)->0, path.take(depth)),
            key,
        ) == value_at(entries_at(entries, path.take(depth)), key),
    decreases path.len(),
{
    let after = with_record(entries, path, name, content)->0;
    if path.len() == 0 {
        lemma_with_value_other(entries, name, Node::Text(content), key);
    } else {
        let below = table_under(entries, path[0])->0;
        let rest = path.drop_first();
        let stored = with_record(below, rest, name, content)->0;
        if depth == 0 {
            lemma_with_value_other(entries, path[0], Node::Table(stored), key);
        } else {
            let way = path.take(depth);
            assert(way[0] == path[0]);
            assert(way.drop_first() =~= rest.take(depth - 1));
            lemma_with_value_same(entries, path[0], Node::Table(stored));
            lemma_record_leaves_the_rest(below, rest, name, content, depth - 1, key);
            assert(entries_at(after, way) == entries_at(stored, rest.take(depth - 1)));
            if value_at(entries, path[0]) is None {
                lemma_nothing_below_nothing(rest.take(depth - 1));
            }
            assert(entries_at(entries, way) == entries_at(below, rest.take(depth - 1)));
        }
    }
}

/// An empty table takes every record.
pub proof fn lemma_empty_table_takes_record(
    path: Seq<Seq<char>>,
    name: Seq<char>,
    content: Seq<char>,
)
    ensures
        with_record(Seq::empty(), path, name, content) is Some,
    decreases path.len(),
{
    if path.len() > 0 {
        lemma_empty_table_takes_record(path.drop_first(), name, content);
    }
}

impl TomlTable {
    /// A table without entries.
    pub fn new() -> (table: TomlTable)
        ensures
            table.model() == Seq::<(Seq<char>, Node)>::empty(),
    {
        let table = TomlTable { entries: Vec::new() };
        assert(table.model() =~= Seq::<(Seq<char>, Node)>::empty());
        table
    }

    /// The place of the first entry with the key `key`; the number of
    /// entries where there is none.
    pub fn place_of(&self, key: &String) -> (place: usize)
        ensures
            place == entry_place(self.model(), key@),
            place <= self.entries@.len(),
    {
        let n = self.entries.len();
        let mut i: usize = 0;
        while i < n
            invariant
                n == self.entries@.len(),
                i <= n,
                forall|j: int| 0 <= j < i ==> (#[trigger] self.model()[j]).0 != key@,
            decreases n - i,
        {
            if self.entries[i].key == *key {
                proof {
                    lemma_entry_place_is(self.model(), key@, i as int);
                }
                return i;
            }
            i = i + 1;
        }
        proof {
            lemma_entry_place_is(self.model(), key@, n as int);
        }
        n
    }

    /// Stores the record `name = content` in the table at the end of
    /// `path`, making the tables that are missing on the way. Where a part of
    /// the path names a value that is no table, the record is rejected and
    /// the document stays as it is.
    pub fn store(&mut self, path: &Vec<String>, name: String, content: String) -> (result: Result<
        (),
        LogError,
    >)
        ensures
            match with_record(old(self).model(), texts(path@), name@, content@) {
                Some(stored) => result is Ok && final(self).model() == stored,
                None => result == Err::<(), LogError>(LogError::Serialization) && final(
                    self
                ).model() == old(self).model(),
            },
    {
        assert(texts(path@).skip(0) =~= texts(path@));
        self.store_below(path, 0, name, content)
    }

    /// Stores the record `name = content` in the table at the end of the
    /// path that the parts of `path` from `depth` on name, making the tables
    /// that are missing. Where a part of the path names a value that is no
    /// table, the record is rejected and the table stays as it is.
    fn store_below(
        &mut self,
        path: &Vec<String>,
        depth: usize,
        name: String,
        content: String,
    ) -> (result: Result<(), LogError>)
        requires
            depth <= path@.len(),
        ensures
            match with_record(
                old(self).model(),
                texts(path@).skip(depth as int),
                name@,
                content@,
            ) {
                Some(stored) => result is Ok && final(self).model() == stored,
                None => result == Err::<(), LogError>(LogError::Serialization) && final(
                    self
                ).model() == old(self).model(),
            },
        decreases path@.len() - depth,
    {
        let ghost rest = texts(path@).skip(depth as int);
        let ghost before = self.model();
        if depth == path.len() {
            let place = self.place_of(&name);
            let entry = TomlEntry { key: name, value: TomlValue::Text(content) };
            if place < self.entries.len() {
                self.entries.set(place, entry);
            } else {
                self.entries.push(entry);
            }
            proof {
                assert(rest.len() == 0);
                assert(self.model() =~= with_value(before, name@, Node::Text(content@)));
            }
            Ok(())
        } else {
            let part = &path[depth];
            proof {
                assert(rest.len() > 0);
                assert(rest[0] == part@);
                assert(rest.drop_first() =~= texts(path@).skip(depth as int + 1));
            }
            let place = self.place_of(part);
            if place < self.entries.len() {
                let ghost entries = self.entries@;
                let ghost mut below_after = Seq::<(Seq<char>, Node)>::empty();
                proof {
                    lemma_entry_place(before, part@);
                    assert(before[place as int] == (
                        entries[place as int].key@,
                        entries[place as int].value.model(),
                    ));
                }
                let result = match &mut self.entries[place].value {
                    TomlValue::Table(below) => {
                        let result = below.store_below(path, depth + 1, name, content);
                        proof {
                            below_after = below.model();
                        }
                        result
                    },
                    _ => Err(LogError::Serialization),
                };
                proof {
                    assert(self.entries@.len() == entries.len());
                    assert(self.entries@[place as int].key == entries[place as int].key);
                    assert forall|j: int| 0 <= j < entries.len() && j != place implies #[trigger] self.entries@[j]
                        == entries[j] by {}
                    if entries[place as int].value is Table {
                        assert(self.entries@[place as int].value.model() == Node::Table(
                            below_after,
                        ));
                        assert(self.model() =~= before.update(
                            place as int,
                            (part@, Node::Table(below_after)),
                        ));
                    } else {
                        assert(self.entries@[place as int] == entries[place as int]);
                        assert(self.model() =~= before);
                    }
                }
                result
            } else {
                let mut below = TomlTable::new();
                proof {
                    lemma_empty_table_takes_record(rest.drop_first(), name@, content@);
                }
                let result = below.store_below(path, depth + 1, name, content);
                self.entries.push(TomlEntry { key: part.clone(), value: TomlValue::Table(below) });
                proof {
                    assert(self.model() =~= before.push((part@, Node::Table(below.model()))));
                }
                result
            }
        }
    }
}

/// Adds a record to a document that was read from a file, and gives the
/// new document. `None` stands for a file whose text holds no document.
/// The record is rejected for such a file, and where a part of its path
/// names a value that is no table.
pub fn toml_append(
    document: Option<TomlTable>,
    path: &Vec<String>,
    name: String,
    content: String,
) -> (result: Result<TomlTable, LogError>)
    ensures
        match document {
            Some(read) => match with_record(read.model(), texts(path@), name@, content@) {
                Some(stored) => result is Ok && result->Ok_0.model() == stored,
                None => result is Err && result->Err_0 == LogError::Serialization,
            },
            None => result is Err && result->Err_0 == LogError::Serialization,
        },
{
    match document {
        Some(read) => {
            let mut table = read;
            match table.store(path, name, content) {
                Ok(()) => Ok(table),
                Err(error) => Err(error),
            }
        },
        None => Err(LogError::Serialization),
    }
}

} // verus!
