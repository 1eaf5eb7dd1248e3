//! The registry of settings and the preparation of records.
//!
//! A call to log gives a plan: what to show, print, send and write. The
//! plan is a plain value; carrying it out is left to the caller.

use std::fmt::Debug;
use vstd::prelude::*;
use vstd::string::*;

use crate::clock::{local_now, stamp_string, stamp_text, Timestamp};
use crate::error::LogError;
use crate::log::Log;
use crate::text::{copied_texts, free_of, owned_texts, slice_texts, texts};
use crate::thread::{launch_task, TaskQueue};

verus! {

/// The formats in which records are stored.
#[derive(Clone, Copy, Debug, PartialEq, Eq, Structural)]
pub enum FileFormat {
    /// One line per record, fields closed by semicolons.
    CSV,
    /// Tables of `key = value` lines; a record goes to the table named by
    /// the first part of its location.
    INI,
    /// Nested tables, one level for each part of the location.
    TOML,
    /// A placeholder: nothing is written.
    SYSLOG,
}

/// The settings that every log call reads.
pub struct Registry {
    pub format: FileFormat,
    /// Whether records are echoed on the console.
    pub console_echo: bool,
    /// The word in a location that calls for an alert.
    pub alert_trigger: Option<String>,
    /// The address of the collector; empty while there is none.
    pub collector_url: String,
    /// The file of the calls that name no file.
    pub default_file: String,
}

/// The settings as plain values.
pub struct RegistryView {
    pub format: FileFormat,
    pub console_echo: bool,
    pub alert_trigger: Option<Seq<char>>,
    pub collector_url: Seq<char>,
    pub default_file: Seq<char>,
}

impl View for Registry {
    type V = RegistryView;

    open spec fn view(&self) -> RegistryView {
        RegistryView {
            format: self.format,
            console_echo: self.console_echo,
            alert_trigger: match self.alert_trigger {
                Some(word) => Some(word@),
                None => None,
            },
            collector_url: self.collector_url@,
            default_file: self.default_file@,
        }
    }
}

impl Registry {
    /// The settings at the start: flat lines, no echo, no alert, no
    /// collector, no default file.
    pub fn new() -> (registry: Registry)
        ensures
            registry@ == (RegistryView {
                format: FileFormat::CSV,
                console_echo: false,
                alert_trigger: None,
                collector_url: Seq::empty(),
                default_file: Seq::empty(),
            }),
    {
        Registry {
            format: FileFormat::CSV,
            console_echo: false,
            alert_trigger: None,
            collector_url: String::new(),
            default_file: String::new(),
        }
    }
}

/// Sets the word in a location that calls for an alert, or switches the
/// alerts off.
pub fn set_message_box_trigger(registry: &mut Registry, trigger: Option<String>)
    ensures
        final(registry)@ == (RegistryView {
            alert_trigger: match trigger {
                Some(word) => Some(word@),
                None => None,
            },
            ..old(registry)@
        }),
{
    registry.alert_trigger = trigger;
}

/// Switches the echo on the console on or off.
pub fn set_allow_console_log(registry: &mut Registry, allowed: bool)
    ensures
        final(registry)@ == (RegistryView { console_echo: allowed, ..old(registry)@ }),
{
    registry.console_echo = allowed;
}

/// Sets the address of the collector; the empty address switches it off.
pub fn set_log_server(registry: &mut Registry, url: String)
    ensures
        final(registry)@ == (RegistryView { collector_url: url@, ..old(registry)@ }),
{
    registry.collector_url = url;
}

/// Sets the file of the calls that name no file.
pub fn set_or_create_global_log_file(registry: &mut Registry, file: &str)
    ensures
        final(registry)@ == (RegistryView { default_file: file@, ..old(registry)@ }),
{
    registry.default_file = file.to_owned();
}

/// Sets the format of all records written from now on.
pub fn set_file_format(registry: &mut Registry, file_format: FileFormat)
    ensures
        final(registry)@ == (RegistryView { format: file_format, ..old(registry)@ }),
{
    registry.format = file_format;
}

/// The format of the records.
pub fn get_file_format(registry: &Registry) -> (file_format: FileFormat)
    ensures
        file_format == registry.format,
{
    registry.format
}

/// The settings after an attempt to reach the collector: a failed attempt
/// clears the address, so that no further attempt is made.
pub open spec fn after_transport(registry: RegistryView, delivered: bool) -> RegistryView {
    if delivered {
        registry
    } else {
        RegistryView { collector_url: Seq::empty(), ..registry }
    }
}

/// Takes note of how the attempt to reach the collector ended.
pub fn report_transport(registry: &mut Registry, delivered: bool)
    ensures
        final(registry)@ == after_transport(old(registry)@, delivered),
{
    if !delivered {
        registry.collector_url = String::new();
    }
}

/// A record that waits to be written: the target file, the location and
/// the content, all owned.
pub struct LogTask {
    pub file: String,
    pub location: Vec<String>,
    pub content: String,
}

/// A waiting record as plain values.
pub struct TaskView {
    pub file: Seq<char>,
    pub location: Seq<Seq<char>>,
    pub content: Seq<char>,
}

impl View for LogTask {
    type V = TaskView;

    open spec fn view(&self) -> TaskView {
        TaskView { file: self.file@, location: texts(self.location@), content: self.content@ }
    }
}

impl LogTask {
    /// A task with copies of the given texts.
    pub fn new(file: &str, location: &Vec<&str>, content: &str) -> (task: LogTask)
        ensures
            task@ == (TaskView {
                file: file@,
                location: slice_texts(location@),
                content: content@,
            }),
    {
        LogTask { file: file.to_owned(), location: owned_texts(location), content: content.to_owned() }
    }
}

/// An alert to show: a title and a body.
pub struct Alert {
    pub title: String,
    pub body: String,
}

/// What has to happen to the target file.
pub enum WriteOp {
    /// The text is appended to the file.
    Append(String),
    /// The file is read as an INI document, the record is added to the
    /// table of its class, and the document is written back.
    IniEntry(Log),
    /// The file is read as a TOML document, the record is added to the
    /// table at `path`, and the document is written back.
    TomlEntry { path: Vec<String>, name: String, content: String },
    /// The file is left alone.
    Nothing,
}

/// What follows once the target file is known to be named.
pub struct Actions {
    /// The line to print on the console.
    pub console: Option<String>,
    /// The address to request from the collector.
    pub request: Option<String>,
    pub write: WriteOp,
}

/// All that one record asks for.
pub struct Plan {
    pub alert: Option<Alert>,
    pub outcome: Result<Actions, LogError>,
}

/// A write as plain values.
pub enum WriteView {
    Append(Seq<char>),
    IniEntry { class: Seq<char>, name: Seq<char>, content: Seq<char> },
    TomlEntry { path: Seq<Seq<char>>, name: Seq<char>, content: Seq<char> },
    Nothing,
}

/// The actions as plain values.
pub struct ActionsView {
    pub console: Option<Seq<char>>,
    pub request: Option<Seq<char>>,
    pub write: WriteView,
}

/// A plan as plain values. An alert is its title and its body.
pub struct PlanView {
    pub alert: Option<(Seq<char>, Seq<char>)>,
    pub outcome: Result<ActionsView, LogError>,
}

/// The text of an optional string.
pub open spec fn optional_text(text: Option<String>) -> Option<Seq<char>> {
    match text {
        Some(text) => Some(text@),
        None => None,
    }
}

impl View for WriteOp {
    type V = WriteView;

    open spec fn view(&self) -> WriteView {
        match *self {
            WriteOp::Append(text) => WriteView::Append(text@),
            WriteOp::IniEntry(record) => WriteView::IniEntry {
                class: record.class@,
                name: record.name@,
                content: record.content@,
            },
            WriteOp::TomlEntry { path, name, content } => WriteView::TomlEntry {
                path: texts(path@),
                name: name@,
                content: content@,
            },
            WriteOp::Nothing => WriteView::Nothing,
        }
    }
}

impl View for Actions {
    type V = ActionsView;

    open spec fn view(&self) -> ActionsView {
        ActionsView {
            console: optional_text(self.console),
            request: optional_text(self.request),
            write: self.write@,
        }
    }
}

impl View for Plan {
    type V = PlanView;

    open spec fn view(&self) -> PlanView {
        PlanView {
            alert: match self.alert {
                Some(alert) => Some((alert.title@, alert.body@)),
                None => None,
            },
            outcome: match self.outcome {
                Ok(actions) => Ok(actions@),
                Err(error) => Err(error),
            },
        }
    }
}

/// The key of a record made at the time `now`: the stamp of the time,
/// behind the class and an underscore where a class is given.
pub open spec fn key_text(class: Option<Seq<char>>, now: Timestamp) -> Seq<char> {
    match class {
        Some(class) => class + "_"@ + stamp_text(now, "_"@),
        None => stamp_text(now, "_"@),
    }
}

/// The given fields, each closed by a semicolon.
pub open spec fn closed_fields(fields: Seq<Seq<char>>) -> Seq<char>
    decreases fields.len(),
{
    if fields.len() == 0 {
        Seq::empty()
    } else {
        closed_fields(fields.drop_last()) + fields.last() + ";"@
    }
}

/// The fields of a flat line: the time, the parts of the location, the
/// content.
pub open spec fn csv_fields(stamp: Seq<char>, location: Seq<Seq<char>>, content: Seq<char>) -> Seq<
    Seq<char>,
> {
    (seq![stamp] + location).push(content)
}

/// The flat line of a record, with its line end.
pub open spec fn csv_text(stamp: Seq<char>, location: Seq<Seq<char>>, content: Seq<char>) -> Seq<
    char,
> {
    closed_fields(csv_fields(stamp, location, content)) + "\n"@
}

/// The parts into which the character `mark` splits a text. A text with
/// `n` marks has `n + 1` parts, empty ones among them.
pub open spec fn split_on(text: Seq<char>, mark: char) -> Seq<Seq<char>>
    decreases text.len(),
{
    if text.len() == 0 {
        seq![Seq::<char>::empty()]
    } else {
        let parts = split_on(text.drop_last(), mark);
        if text.last() == mark {
            parts.push(Seq::empty())
        } else {
            parts.drop_last().push(parts.last().push(text.last()))
        }
    }
}

/// A split has at least one part.
pub proof fn lemma_split_has_parts(text: Seq<char>, mark: char)
    ensures
        split_on(text, mark).len() >= 1,
    decreases text.len(),
{
    if text.len() > 0 {
        lemma_split_has_parts(text.drop_last(), mark);
    }
}

/// A text without the mark, put behind another text, lengthens that text's
/// last part.
pub proof fn lemma_split_plain_ending(text: Seq<char>, ending: Seq<char>, mark: char)
    requires
        free_of(ending, mark),
    ensures
        split_on(text + ending, mark) == split_on(text, mark).drop_last().push(
            split_on(text, mark).last() + ending,
        ),
    decreases ending.len(),
{
    let parts = split_on(text, mark);
    lemma_split_has_parts(text, mark);
    if ending.len() == 0 {
        assert(text + ending =~= text);
        assert(parts.last() + ending =~= parts.last());
        assert(parts.drop_last().push(parts.last()) =~= parts);
    } else {
        let shorter = ending.drop_last();
        assert((text + ending).drop_last() =~= text + shorter);
        assert((text + ending).last() == ending.last());
        assert(ending[ending.len() - 1] != mark);
        assert(free_of(shorter, mark));
        lemma_split_plain_ending(text, shorter, mark);
        let before = split_on(text + shorter, mark);
        assert(before.drop_last() =~= parts.drop_last());
        assert(before.last().push(ending.last()) =~= parts.last() + ending);
    }
}

/// Splitting closed fields on the semicolon gives the fields back, and one
/// empty part behind the last semicolon, provided that no field holds a
/// semicolon itself.
pub proof fn lemma_closed_fields_split(fields: Seq<Seq<char>>)
    requires
        forall|i: int| 0 <= i < fields.len() ==> free_of(#[trigger] fields[i], ';'),
    ensures
        split_on(closed_fields(fields), ';') == fields.push(Seq::empty()),
    decreases fields.len(),
{
    reveal_strlit(";");
    if fields.len() == 0 {
        assert(split_on(closed_fields(fields), ';') =~= fields.push(Seq::empty()));
    } else {
        let front = fields.drop_last();
        let last = fields.last();
        assert forall|i: int| 0 <= i < front.len() implies free_of(#[trigger] front[i], ';') by {
            assert(front[i] == fields[i]);
        }
        lemma_closed_fields_split(front);
        lemma_split_plain_ending(closed_fields(front), last, ';');
        let whole = closed_fields(front) + last + ";"@;
        assert(whole.last() == ';');
        assert(whole.drop_last() =~= closed_fields(front) + last);
        let parts = split_on(closed_fields(front), ';');
        assert(parts.drop_last() =~= front);
        assert(parts.last() + last =~= last);
        assert(front.push(last) =~= fields);
    }
}

/// A flat line reads back as it was written: without its line end, split
/// on the semicolon, it gives the time, the parts of the location, the
/// content and one empty part, provided that none of them holds a semicolon.
pub proof fn lemma_csv_line_reads_back(
    stamp: Seq<char>,
    location: Seq<Seq<char>>,
    content: Seq<char>,
)
    requires
        free_of(stamp, ';'),
        forall|i: int| 0 <= i < location.len() ==> free_of(#[trigger] location[i], ';'),
        free_of(content, ';'),
    ensures
        split_on(closed_fields(csv_fields(stamp, location, content)), ';') == csv_fields(
            stamp,
            location,
            content,
        ).push(Seq::empty()),
{
    let fields = csv_fields(stamp, location, content);
    assert forall|i: int| 0 <= i < fields.len() implies free_of(#[trigger] fields[i], ';') by {
        if i == 0 {
        } else if i <= location.len() {
            assert(fields[i] == location[i - 1]);
        } else {
        }
    }
    lemma_closed_fields_split(fields);
}

/// Closed fields hold a character other than the semicolon only where one
/// of the fields holds it.
pub proof fn lemma_closed_fields_stay_free(fields: Seq<Seq<char>>, mark: char)
    requires
        mark != ';',
        forall|i: int| 0 <= i < fields.len() ==> free_of(#[trigger] fields[i], mark),
    ensures
        free_of(closed_fields(fields), mark),
    decreases fields.len(),
{
    reveal_strlit(";");
    if fields.len() > 0 {
        let front = fields.drop_last();
        assert forall|i: int| 0 <= i < front.len() implies free_of(#[trigger] front[i], mark) by {
            assert(front[i] == fields[i]);
        }
        lemma_closed_fields_stay_free(front, mark);
        assert(free_of(fields[fields.len() - 1], mark));
    }
}

/// The first part of a location; `otherwise` for an empty location.
pub open spec fn first_part(location: Seq<Seq<char>>, otherwise: Seq<char>) -> Seq<char> {
    if location.len() > 0 {
        location[0]
    } else {
        otherwise
    }
}

/// The address requested from the collector at `url`.
pub open spec fn request_address(url: Seq<char>, location: Seq<Seq<char>>, content: Seq<char>) -> Seq<
    char,
> {
    url + "/log/full-logger/"@ + first_part(location, "debug"@) + "/"@ + content
}

/// The line printed on the console.
pub open spec fn console_text(key: Seq<char>, content: Seq<char>) -> Seq<char> {
    "["@ + key + "] "@ + content
}

/// What is done to the file for a record under the format `format`.
pub open spec fn planned_write(format: FileFormat, now: Timestamp, task: TaskView) -> WriteView {
    match format {
        FileFormat::CSV => WriteView::Append(csv_text(now.text@, task.location, task.content)),
        FileFormat::INI => WriteView::IniEntry {
            class: first_part(task.location, "root"@),
            name: key_text(None, now),
            content: task.content,
        },
        FileFormat::TOML => WriteView::TomlEntry {
            path: task.location,
            name: key_text(None, now),
            content: task.content,
        },
        FileFormat::SYSLOG => WriteView::Nothing,
    }
}

/// All that the record `task`, made at the time `now`, asks for under the
/// settings `registry`.
///
/// An alert is due where the trigger is one of the parts of the location,
/// whether or not the file is named. A record without a file name is
/// rejected; otherwise it is echoed if the echo is on, sent if a collector
/// is set, and written in the active format.
pub open spec fn planned(registry: RegistryView, now: Timestamp, task: TaskView) -> PlanView {
    PlanView {
        alert: match registry.alert_trigger {
            Some(word) => if task.location.contains(word) {
                Some((key_text(None, now), task.content))
            } else {
                None
            },
            None => None,
        },
        outcome: if task.file.len() == 0 {
            Err(LogError::EmptyTarget)
        } else {
            Ok(
                ActionsView {
                    console: if registry.console_echo {
                        Some(console_text(key_text(None, now), task.content))
                    } else {
                        None
                    },
                    request: if registry.collector_url.len() > 0 {
                        Some(request_address(registry.collector_url, task.location, task.content))
                    } else {
                        None
                    },
                    write: planned_write(registry.format, now, task),
                },
            )
        },
    }
}

/// The key of a record made at the time `now`.
pub fn record_key(class: Option<&str>, now: &Timestamp) -> (key: String)
    ensures
        key@ == key_text(
            match class {
                Some(class) => Some(class@),
                None => None,
            },
            *now,
        ),
{
    let stamp = stamp_string(now, "_");
    match class {
        Some(class) => {
            let mut key = class.to_owned();
            key.append("_");
            key.append(stamp.as_str());
            key
        },
        None => stamp,
    }
}

/// The flat line of a record, with its line end.
pub fn csv_line(stamp: &str, location: &Vec<String>, content: &str) -> (line: String)
    ensures
        line@ == csv_text(stamp@, texts(location@), content@),
{
    let ghost fields = csv_fields(stamp@, texts(location@), content@);
    let mut line = stamp.to_owned();
    line.append(";");
    let n = location.len();
    let mut i: usize = 0;
    proof {
        assert(fields.take(1).drop_last() =~= Seq::<Seq<char>>::empty());
        assert(closed_fields(fields.take(1).drop_last()) =~= Seq::<char>::empty());
        assert(line@ =~= closed_fields(fields.take(1)));
    }
    while i < n
        invariant
            n == location@.len(),
            i <= n,
            fields == csv_fields(stamp@, texts(location@), content@),
            line@ == closed_fields(fields.take(i + 1)),
        decreases n - i,
    {
        line.append(location[i].as_str());
        line.append(";");
        proof {
            assert(fields.take(i + 2).drop_last() =~= fields.take(i + 1));
            assert(fields.take(i + 2).last() == location@[i as int]@);
        }
        i = i + 1;
    }
    line.append(content);
    line.append(";");
    proof {
        assert(fields.drop_last() =~= fields.take(n + 1));
        assert(fields.last() == content@);
    }
    line.append("\n");
    line
}

/// The address requested from the collector at `url`.
pub fn request_text(url: &str, location: &Vec<String>, content: &str) -> (address: String)
    ensures
        address@ == request_address(url@, texts(location@), content@),
{
    let mut address = url.to_owned();
    address.append("/log/full-logger/");
    if location.len() > 0 {
        address.append(location[0].as_str());
    } else {
        address.append("debug");
    }
    address.append("/");
    address.append(content);
    address
}

/// The line printed on the console.
pub fn console_line(key: &str, content: &str) -> (line: String)
    ensures
        line@ == console_text(key@, content@),
{
    let mut line = String::from_str("[");
    line.append(key);
    line.append("] ");
    line.append(content);
    line
}

/// Whether `word` is one of the parts of the location.
pub fn mentions(location: &Vec<String>, word: &String) -> (found: bool)
    ensures
        found == texts(location@).contains(word@),
{
    let n = location.len();
    let mut i: usize = 0;
    while i < n
        invariant
            n == location@.len(),
            i <= n,
            forall|j: int| 0 <= j < i ==> texts(location@)[j] != word@,
        decreases n - i,
    {
        if location[i] == *word {
            assert(texts(location@)[i as int] == word@);
            return true;
        }
        i = i + 1;
    }
    false
}

/// Under the flat format a record reads back as it was logged. The text to
/// append is one line and its line end; the line, split on the semicolon,
/// gives the clock's text, the parts of the location in their order, the
/// content and one empty part, provided that neither a part of the location
/// nor the content holds a semicolon or a line end.
pub proof fn lemma_flat_record_reads_back(registry: RegistryView, now: Timestamp, task: TaskView)
    requires
        registry.format == FileFormat::CSV,
        task.file.len() > 0,
        now.is_clock_reading(),
        forall|i: int| 0 <= i < task.location.len() ==> free_of(#[trigger] task.location[i], ';'),
        forall|i: int| 0 <= i < task.location.len() ==> free_of(#[trigger] task.location[i], '\n'),
        free_of(task.content, ';'),
        free_of(task.content, '\n'),
    ensures
        ({
            let fields = csv_fields(now.text@, task.location, task.content);
            let line = closed_fields(fields);
            &&& planned(registry, now, task).outcome is Ok
            &&& planned(registry, now, task).outcome->Ok_0.write == WriteView::Append(
                line + "\n"@,
            )
            &&& free_of(line, '\n')
            &&& split_on(line, ';') == fields.push(Seq::empty())
            &&& split_on(line, ';').len() == task.location.len() + 3
        }),
{
    let fields = csv_fields(now.text@, task.location, task.content);
    assert forall|i: int| 0 <= i < fields.len() implies free_of(#[trigger] fields[i], '\n') by {
        if 0 < i <= task.location.len() {
            assert(fields[i] == task.location[i - 1]);
        }
    }
    lemma_closed_fields_stay_free(fields, '\n');
    lemma_csv_line_reads_back(now.text@, task.location, task.content);
}

/// Prepares the record `task`, made at the time `now`.
pub fn prepare_record(registry: &Registry, now: &Timestamp, task: &LogTask) -> (plan: Plan)
    ensures
        plan@ == planned(registry@, *now, task@),
{
    let key = record_key(None, now);
    let alert = match &registry.alert_trigger {
        Some(word) => {
            if mentions(&task.location, word) {
                Some(Alert { title: key.clone(), body: task.content.clone() })
            } else {
                None
            }
        },
        None => None,
    };
    if task.file.as_str().is_empty() {
        return Plan { alert, outcome: Err(LogError::EmptyTarget) };
    }
    let console = if registry.console_echo {
        Some(console_line(key.as_str(), task.content.as_str()))
    } else {
        None
    };
    let request = if !registry.collector_url.as_str().is_empty() {
        Some(request_text(registry.collector_url.as_str(), &task.location, task.content.as_str()))
    } else {
        None
    };
    let write = match registry.format {
        FileFormat::CSV => WriteOp::Append(
            csv_line(now.text.as_str(), &task.location, task.content.as_str()),
        ),
        FileFormat::INI => {
            let class = if task.location.len() > 0 {
                task.location[0].clone()
            } else {
                String::from_str("root")
            };
            WriteOp::IniEntry(Log::new(class, task.content.clone(), key))
        },
        FileFormat::TOML => WriteOp::TomlEntry {
            path: copied_texts(&task.location),
            name: key,
            content: task.content.clone(),
        },
        FileFormat::SYSLOG => WriteOp::Nothing,
    };
    Plan { alert, outcome: Ok(Actions { console, request, write }) }
}

/// Prepares the record `task` at the present time.
pub fn log_internal(registry: &Registry, task: &LogTask) -> (plan: Plan)
    ensures
        exists|now: Timestamp| now.is_clock_reading() && #[trigger] planned(registry@, now, task@) == plan@,
{
    let now = local_now();
    prepare_record(registry, &now, task)
}

/// What became of a record that was handed in.
pub enum Dispatch {
    /// The record waits in the queue for the worker.
    Queued,
    /// No worker runs: the record was prepared at once, and this is its
    /// plan.
    Ran(Plan),
}

/// What handing in the record `task` does: with a worker running the
/// record joins the end of the queue; without one the queue stays as it is
/// and the record is prepared at once.
pub open spec fn handed_in(
    registry: RegistryView,
    before: TaskQueue<LogTask>,
    after: TaskQueue<LogTask>,
    task: TaskView,
    dispatch: Dispatch,
) -> bool {
    &&& after.running == before.running
    &&& after.idle_cooldown == before.idle_cooldown
    &&& after.working_cooldown == before.working_cooldown
    &&& after.was_working == before.was_working
    &&& before.running ==> {
        &&& dispatch is Queued
        &&& after.pending@.len() == before.pending@.len() + 1
        &&& after.pending@.drop_last() == before.pending@
        &&& after.pending@.last()@ == task
    }
    &&& !before.running ==> {
        &&& after.pending@ == before.pending@
        &&& dispatch is Ran
        &&& exists|now: Timestamp|
            now.is_clock_reading() && #[trigger] planned(registry, now, task) == dispatch->Ran_0@
    }
}

/// Hands a record in.
pub fn hand_in(registry: &Registry, queue: &mut TaskQueue<LogTask>, task: LogTask) -> (dispatch:
    Dispatch)
    ensures
        handed_in(registry@, *old(queue), *final(queue), task@, dispatch),
{
    match launch_task(queue, task) {
        Some(task) => Dispatch::Ran(log_internal(registry, &task)),
        None => {
            assert(queue.pending@.drop_last() =~= old(queue).pending@);
            Dispatch::Queued
        },
    }
}

/// Logs `content` under `location` to the file `file`.
pub fn log(
    registry: &Registry,
    queue: &mut TaskQueue<LogTask>,
    file: &str,
    location: Vec<&str>,
    content: &str,
) -> (dispatch: Dispatch)
    ensures
        handed_in(
            registry@,
            *old(queue),
            *final(queue),
            TaskView { file: file@, location: slice_texts(location@), content: content@ },
            dispatch,
        ),
{
    hand_in(registry, queue, LogTask::new(file, &location, content))
}

/// Logs `content` under `location` to the default file.
pub fn simple_log(
    registry: &Registry,
    queue: &mut TaskQueue<LogTask>,
    location: Vec<&str>,
    content: &str,
) -> (dispatch: Dispatch)
    ensures
        handed_in(
            registry@,
            *old(queue),
            *final(queue),
            TaskView {
                file: registry.default_file@,
                location: slice_texts(location@),
                content: content@,
            },
            dispatch,
        ),
{
    log(registry, queue, registry.default_file.as_str(), location, content)
}

/// The content logged for a result: `RESULT_OK_` or `RESULT_ERR_`, then the
/// text of the value.
pub open spec fn result_text(ok: bool, value: Seq<char>) -> Seq<char> {
    if ok {
        "RESULT_OK_"@ + value
    } else {
        "RESULT_ERR_"@ + value
    }
}

/// The content logged for an option: `Some(`, the text of the value and
/// `)`, or `None`.
pub open spec fn option_text(value: Option<Seq<char>>) -> Seq<char> {
    match value {
        Some(value) => "Some("@ + value + ")"@,
        None => "None"@,
    }
}

/// The content logged for a result whose value has the text `value`.
pub fn result_content(ok: bool, value: &str) -> (content: String)
    ensures
        content@ == result_text(ok, value@),
{
    let mut content = if ok {
        String::from_str("RESULT_OK_")
    } else {
        String::from_str("RESULT_ERR_")
    };
    content.append(value);
    content
}

/// The content logged for an option whose value, if any, has the text
/// `value`.
pub fn option_content(value: Option<&str>) -> (content: String)
    ensures
        content@ == option_text(
            match value {
                Some(value) => Some(value@),
                None => None,
            },
        ),
{
    match value {
        Some(value) => {
            let mut content = String::from_str("Some(");
            content.append(value);
            content.append(")");
            content
        },
        None => String::from_str("None"),
    }
}

/// The text that a value gives of itself for debugging.
///
/// Trusted: the body formats the value with `{:?}`, which calls the
/// value's own `Debug` implementation. Nothing is claimed of the text.
#[verifier::external_body]
fn debug_text<T: Debug>(value: &T) -> (text: String) {
    format!("{:?}", value)
}

/// Logs a result to the file `file` and hands the result back unchanged.
/// The content is `RESULT_OK_` or `RESULT_ERR_`, then the debug text of the
/// value.
pub fn log_result<O: Debug, E: Debug>(
    registry: &Registry,
    queue: &mut TaskQueue<LogTask>,
    file: &str,
    location: Vec<&str>,
    content: Result<O, E>,
) -> (out: (Result<O, E>, Dispatch))
    ensures
        out.0 == content,
        exists|value: Seq<char>|
            handed_in(
                registry@,
                *old(queue),
                *final(queue),
                TaskView {
                    file: file@,
                    location: slice_texts(location@),
                    content: #[trigger] result_text(content is Ok, value),
                },
                out.1,
            ),
{
    let value = match &content {
        Ok(value) => debug_text(value),
        Err(error) => debug_text(error),
    };
    let message = result_content(content.is_ok(), value.as_str());
    let dispatch = log(registry, queue, file, location, message.as_str());
    assert(message@ == result_text(content is Ok, value@));
    (content, dispatch)
}

/// Logs a result to the default file and hands the result back unchanged.
pub fn simple_log_result<O: Debug, E: Debug>(
    registry: &Registry,
    queue: &mut TaskQueue<LogTask>,
    location: Vec<&str>,
    content: Result<O, E>,
) -> (out: (Result<O, E>, Dispatch))
    ensures
        out.0 == content,
        exists|value: Seq<char>|
            handed_in(
                registry@,
                *old(queue),
                *final(queue),
                TaskView {
                    file: registry.default_file@,
                    location: slice_texts(location@),
                    content: #[trigger] result_text(content is Ok, value),
                },
                out.1,
            ),
{
    log_result(registry, queue, registry.default_file.as_str(), location, content)
}

/// Logs an option to the file `file` and hands the option back unchanged.
/// The content is `Some(`, the debug text of the value and `)`, or `None`.
pub fn log_option<O: Debug>(
    registry: &Registry,
    queue: &mut TaskQueue<LogTask>,
    file: &str,
    location: Vec<&str>,
    content: Option<O>,
) -> (out: (Option<O>, Dispatch))
    ensures
        out.0 == content,
        exists|value: Option<Seq<char>>|
            (value is Some <==> content is Some) && handed_in(
                registry@,
                *old(queue),
                *final(queue),
                TaskView {
                    file: file@,
                    location: slice_texts(location@),
                    content: #[trigger] option_text(value),
                },
                out.1,
            ),
{
    let message = match &content {
        Some(value) => {
            let text = debug_text(value);
            let message = option_content(Some(text.as_str()));
            assert(message@ == option_text(Some(text@)));
            message
        },
        None => {
            let message = option_content(None);
            assert(message@ == option_text(None));
            message
        },
    };
    let dispatch = log(registry, queue, file, location, message.as_str());
    (content, dispatch)
}

/// Logs an option to the default file and hands the option back unchanged.
pub fn simple_log_option<O: Debug>(
    registry: &Registry,
    queue: &mut TaskQueue<LogTask>,
    location: Vec<&str>,
    content: Option<O>,
) -> (out: (Option<O>, Dispatch))
    ensures
        out.0 == content,
        exists|value: Option<Seq<char>>|
            (value is Some <==> content is Some) && handed_in(
                registry@,
                *old(queue),
                *final(queue),
                TaskView {
                    file: registry.default_file@,
                    location: slice_texts(location@),
                    content: #[trigger] option_text(value),
                },
                out.1,
            ),
{
    log_option(registry, queue, registry.default_file.as_str(), location, content)
}

/// Once an attempt to reach the collector has failed, no record asks for
/// the collector again, and it stays so whatever becomes of later attempts.
pub proof fn lemma_collector_stays_off(
    registry: RegistryView,
    later: bool,
    now: Timestamp,
    task: TaskView,
)
    ensures
        after_transport(registry, false).collector_url.len() == 0,
        after_transport(after_transport(registry, false), later) == after_transport(
            registry,
            false,
        ),
        planned(after_transport(registry, false), now, task).outcome is Ok ==> planned(
            after_transport(registry, false),
            now,
            task,
        ).outcome->Ok_0.request is None,
{
}

} // verus!
