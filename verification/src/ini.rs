//! Records in INI documents: tables of `key = value` lines.
//!
//! The document itself is kept by the `pretty_ini` crate. What the crate
//! does to it is stated here over the document's tables; the decision where
//! a record goes is verified against those statements.

use vstd::prelude::*;
use vstd::string::*;

use crate::error::LogError;
use crate::log::Log;
use crate::text::texts;

verus! {

/// The document type of `pretty_ini`. Nothing of its inside is visible
/// here; what it holds is spoken of through `ini_tables`.
#[verifier::external_type_specification]
#[verifier::external_body]
pub struct ExIni(pretty_ini::ini::Ini);

/// One line of a table: its key, its value and, for a line that is neither
/// a table title nor a `key = value` pair, the line as it was read.
pub type IniLine = (Seq<char>, Seq<char>, Option<Seq<char>>);

/// One table: its name and its lines.
pub type IniTable = (Seq<char>, Seq<IniLine>);

/// The tables of a document, in their order.
pub uninterp spec fn ini_tables(ini: pretty_ini::ini::Ini) -> Seq<IniTable>;

/// The marks with which a document is written: the one that opens a table
/// title, the one that closes it, and the one between a key and its value.
pub uninterp spec fn ini_marks(ini: pretty_ini::ini::Ini) -> (char, char, char);

/// The marks of a document that was made or read here: `[`, `]` and `=`.
pub open spec fn default_marks() -> (char, char, char) {
    ('[', ']', '=')
}

/// What `pretty_ini` reads from the given lines: the tables, or nothing
/// where it rejects the lines.
pub uninterp spec fn ini_loaded(lines: Seq<Seq<char>>) -> Option<
    Seq<IniTable>,
>;

/// The place of the first table named `name`; the number of tables where
/// there is none.
pub open spec fn table_place(
    tables: Seq<IniTable>,
    name: Seq<char>,
) -> int
    decreases tables.len(),
{
    if tables.len() == 0 {
        0
    } else if tables[0].0 == name {
        0
    } else {
        1 + table_place(tables.drop_first(), name)
    }
}

/// Whether a table named `name` exists.
pub open spec fn has_table(
    tables: Seq<IniTable>,
    name: Seq<char>,
) -> bool {
    table_place(tables, name) < tables.len()
}

/// The tables after the line `key = value` was added at the end of the
/// first table named `name`; unchanged where there is no such table.
pub open spec fn with_line(
    tables: Seq<IniTable>,
    name: Seq<char>,
    key: Seq<char>,
    value: Seq<char>,
) -> Seq<IniTable> {
    let place = table_place(tables, name);
    if place < tables.len() {
        tables.update(place, (tables[place].0, tables[place].1.push((key, value, None))))
    } else {
        tables
    }
}

/// The tables after a record was stored: the table named `name` is made,
/// empty and last, if it does not exist yet, and the line goes to the end
/// of the first table of that name.
pub open spec fn with_record(
    tables: Seq<IniTable>,
    name: Seq<char>,
    key: Seq<char>,
    value: Seq<char>,
) -> Seq<IniTable> {
    if has_table(tables, name) {
        with_line(tables, name, key, value)
    } else {
        with_line(tables.push((name, Seq::empty())), name, key, value)
    }
}

/// The place of a name is a place, or the number of tables; no table
/// before it has the name, and the table at it has.
pub proof fn lemma_table_place(
    tables: Seq<IniTable>,
    name: Seq<char>,
)
    ensures
        0 <= table_place(tables, name) <= tables.len(),
        forall|i: int| 0 <= i < table_place(tables, name) ==> (#[trigger] tables[i]).0 != name,
        has_table(tables, name) ==> tables[table_place(tables, name)].0 == name,
    decreases tables.len(),
{
    if tables.len() > 0 && tables[0].0 != name {
        let rest = tables.drop_first();
        lemma_table_place(rest, name);
        assert forall|i: int| 0 <= i < table_place(tables, name) implies (#[trigger] tables[i]).0
            != name by {
            if i > 0 {
                assert(tables[i] == rest[i - 1]);
            }
        }
    }
}

/// The first place at which the name stands is its place.
pub proof fn lemma_table_place_is(
    tables: Seq<IniTable>,
    name: Seq<char>,
    place: int,
)
    requires
        0 <= place <= tables.len(),
        forall|i: int| 0 <= i < place ==> (#[trigger] tables[i]).0 != name,
        place < tables.len() ==> tables[place].0 == name,
    ensures
        table_place(tables, name) == place,
    decreases tables.len(),
{
    if tables.len() > 0 && place > 0 {
        let rest = tables.drop_first();
        assert(tables[0].0 != name);
        assert forall|i: int| 0 <= i < place - 1 implies (#[trigger] rest[i]).0 != name by {
            assert(rest[i] == tables[i + 1]);
        }
        lemma_table_place_is(rest, name, place - 1);
    }
}

/// A stored record is the last line of the first table of its class, behind
/// the lines that the table had; every other table is as it was, and a table
/// is added only where none had the name.
pub proof fn lemma_record_is_last_line(
    tables: Seq<IniTable>,
    name: Seq<char>,
    key: Seq<char>,
    value: Seq<char>,
)
    ensures
        ({
            let after = with_record(tables, name, key, value);
            let place = table_place(tables, name);
            &&& table_place(after, name) == place
            &&& after.len() == if has_table(tables, name) {
                tables.len()
            } else {
                tables.len() + 1
            }
            &&& after[place].0 == name
            &&& after[place].1 == (if has_table(tables, name) {
                tables[place].1
            } else {
                Seq::empty()
            }).push((key, value, None))
            &&& forall|i: int| 0 <= i < tables.len() && i != place ==> after[i] == tables[i]
        }),
{
    let place = table_place(tables, name);
    lemma_table_place(tables, name);
    if has_table(tables, name) {
        lemma_table_place_is(with_record(tables, name, key, value), name, place);
    } else {
        let grown = tables.push((name, Seq::empty()));
        lemma_table_place_is(grown, name, place);
        lemma_table_place_is(with_record(tables, name, key, value), name, place);
    }
}

/// The text of one line: the line as it was read, or the key, a space, the
/// mark `define`, a space and the value.
pub open spec fn line_text(line: IniLine, define: char) -> Seq<char> {
    match line.2 {
        Some(raw) => raw,
        None => line.0 + seq![' ', define, ' '] + line.1,
    }
}

/// The lines of one table: its title between the opening and the closing
/// mark, unless it is the table `root`; its lines; an empty line.
pub open spec fn table_text(table: IniTable, marks: (char, char, char)) -> Seq<Seq<char>> {
    let title = if table.0 == "root"@ {
        Seq::<Seq<char>>::empty()
    } else {
        seq![seq![marks.0] + table.0 + seq![marks.1]]
    };
    title + Seq::new(table.1.len(), |i: int| line_text(table.1[i], marks.2)) + seq![
        Seq::<char>::empty(),
    ]
}

/// The lines of a document: those of its tables, one table after the other.
pub open spec fn document_text(tables: Seq<IniTable>, marks: (char, char, char)) -> Seq<
    Seq<char>,
>
    decreases tables.len(),
{
    if tables.len() == 0 {
        Seq::empty()
    } else {
        document_text(tables.drop_last(), marks) + table_text(tables.last(), marks)
    }
}

/// Reads a document from its lines.
///
/// Trusted: the body hands the lines to `IniFile::set_buffer` and calls
/// `Ini::load` on a document made by `Ini::default`, which then parses the
/// buffer and touches no file. The contract gives the outcome its name,
/// `ini_loaded` of the lines, with the tables of the document on success,
/// and says that the document has the marks of the default parser
/// configuration, with which `Ini::default` makes it.
#[verifier::external_body]
fn ini_load(lines: Vec<String>) -> (loaded: Option<pretty_ini::ini::Ini>)
    ensures
        match loaded {
            Some(ini) => ini_loaded(texts(lines@)) == Some(ini_tables(ini)) && ini_marks(ini)
                == default_marks(),
            None => ini_loaded(texts(lines@)) is None,
        },
{
    let mut file = pretty_ini::ini_file::IniFile::default();
    file.set_buffer(lines);
    let mut ini = pretty_ini::ini::Ini::default();
    match ini.load(&mut file) {
        Ok(()) => Some(ini),
        Err(_) => None,
    }
}

/// Whether the document has a table named `name`.
///
/// Trusted: the body calls `Ini::table_exists_from_str`, which looks for
/// the name among the names of all tables.
#[verifier::external_body]
fn ini_has_table(ini: &pretty_ini::ini::Ini, name: &str) -> (found: bool)
    ensures
        found == has_table(ini_tables(*ini), name@),
{
    ini.table_exists_from_str(name)
}

/// Adds an empty table named `name` behind the others.
///
/// Trusted: the body calls `Ini::create_table`, which pushes a table with
/// that name and no lines, whether or not one of that name exists, and
/// leaves the parser configuration alone.
#[verifier::external_body]
fn ini_create_table(ini: &mut pretty_ini::ini::Ini, name: &str)
    ensures
        ini_tables(*final(ini)) == ini_tables(*old(ini)).push((name@, Seq::empty())),
        ini_marks(*final(ini)) == ini_marks(*old(ini)),
{
    ini.create_table(name);
}

/// Adds the line `key = value` at the end of the first table named `table`.
///
/// Trusted: the body calls `Ini::get_table_ref_mut`, which gives the first
/// table of that name or an error, and on that table `Table::add_variable`,
/// which pushes the variable behind the table's lines. Without such a table
/// the document stays as it is. Neither call touches the parser
/// configuration.
#[verifier::external_body]
fn ini_add_variable(ini: &mut pretty_ini::ini::Ini, table: &str, key: String, value: String)
    ensures
        ini_tables(*final(ini)) == with_line(ini_tables(*old(ini)), table@, key@, value@),
        ini_marks(*final(ini)) == ini_marks(*old(ini)),
{
    if let Ok(found) = ini.get_table_ref_mut(table) {
        found.add_variable(pretty_ini::variable::Variable { key, value, unknow_element: None });
    }
}

/// Writes the document out as lines.
///
/// Trusted: the body calls `Ini::make_ini_file_buffer`, which strings
/// together what `Table::as_vec_string` gives for each table under the
/// document's own parser configuration: the title between the
/// configuration's opening and closing mark unless the table is named
/// `root`, each line as it was read or as key, space, the configuration's
/// mark between key and value, space, value, and an empty line.
#[verifier::external_body]
fn ini_render(ini: pretty_ini::ini::Ini) -> (lines: Vec<String>)
    ensures
        texts(lines@) == document_text(ini_tables(ini), ini_marks(ini)),
{
    let mut ini = ini;
    ini.make_ini_file_buffer()
}

/// Stores a record in a document that was read already: makes the table of
/// the record's class if it is missing, then adds the record at its end.
pub fn ini_store(ini: &mut pretty_ini::ini::Ini, record: &Log)
    ensures
        ini_tables(*final(ini)) == with_record(
            ini_tables(*old(ini)),
            record.class@,
            record.name@,
            record.content@,
        ),
        ini_marks(*final(ini)) == ini_marks(*old(ini)),
{
    if !ini_has_table(ini, record.class.as_str()) {
        ini_create_table(ini, record.class.as_str());
    }
    ini_add_variable(ini, record.class.as_str(), record.name.clone(), record.content.clone());
}

/// Adds a record to the document that the lines `lines` hold, and gives the
/// lines of the new document, written with the marks `[`, `]` and `=`. The
/// lines are rejected where they hold no document.
pub fn ini_append(lines: Vec<String>, record: &Log) -> (result: Result<Vec<String>, LogError>)
    ensures
        match ini_loaded(texts(lines@)) {
            Some(tables) => result is Ok && texts(result->Ok_0@) == document_text(
                with_record(tables, record.class@, record.name@, record.content@),
                default_marks(),
            ),
            None => result == Err::<Vec<String>, LogError>(LogError::Serialization),
        },
{
    match ini_load(lines) {
        Some(ini) => {
            let mut ini = ini;
            ini_store(&mut ini, record);
            Ok(ini_render(ini))
        },
        None => Err(LogError::Serialization),
    }
}

} // verus!
