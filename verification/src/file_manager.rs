//! Size-based rotation: a snapshot of the log files of one directory and
//! their sizes, from which either a file with room left is chosen or a new,
//! uniquely named one is asked for.

use vstd::prelude::*;
use vstd::string::*;

use crate::clock::{local_now, stamp_head, stamp_string, stamp_text, Timestamp};
use crate::decimal::{decimal_int, lemma_number_ending_unique, lemma_strike_ending};
use crate::path_order::{
    compare_paths, lemma_bytes_before_transitive, lemma_path_before_strict, path_before, path_key,
    PathOrder,
};

verus! {

/// A size ceiling in bytes, kibibytes or mebibytes.
pub enum FileSize {
    O(u64),
    Ko(u64),
    Mo(u64),
}

impl FileSize {
    /// The ceiling in bytes.
    pub open spec fn byte_count(self) -> int {
        match self {
            FileSize::O(size) => size as int,
            FileSize::Ko(size) => size * 1024,
            FileSize::Mo(size) => size * 1048576,
        }
    }

    /// The ceiling in bytes, if it fits in 64 bits.
    pub fn to_bytes(&self) -> (bytes: Option<u64>)
        ensures
            self.byte_count() <= u64::MAX ==> bytes == Some(self.byte_count() as u64),
            self.byte_count() > u64::MAX ==> bytes is None,
    {
        match self {
            FileSize::O(size) => Some(*size),
            FileSize::Ko(size) => {
                if *size <= u64::MAX / 1024 {
                    Some(*size * 1024)
                } else {
                    None
                }
            },
            FileSize::Mo(size) => {
                if *size <= u64::MAX / 1048576 {
                    Some(*size * 1048576)
                } else {
                    None
                }
            },
        }
    }
}

/// One file of the snapshot: its path and the size it had when it was seen.
pub struct KnownFile {
    pub path: String,
    pub size: u64,
}

/// What a selection hands back: a known file with room left, or the name of
/// a file that does not exist yet and has to be created empty.
pub enum Target {
    Existing(String),
    Fresh(String),
}

impl Target {
    /// The path of the file to write to.
    pub open spec fn path_view(self) -> Seq<char> {
        match self {
            Target::Existing(path) => path@,
            Target::Fresh(path) => path@,
        }
    }

    /// Whether the file has to be created before it is written to.
    pub fn is_fresh(&self) -> (fresh: bool)
        ensures
            fresh == (*self is Fresh),
    {
        match self {
            Target::Existing(_) => false,
            Target::Fresh(_) => true,
        }
    }

    /// The path of the file to write to.
    pub fn into_path(self) -> (path: String)
        ensures
            path@ == self.path_view(),
    {
        match self {
            Target::Existing(path) => path,
            Target::Fresh(path) => path,
        }
    }
}

/// Whether the files stand in strictly ascending order of their paths.
pub open spec fn ascending(files: Seq<KnownFile>) -> bool {
    forall|i: int, j: int|
        0 <= i < j < files.len() ==> path_before(#[trigger] files[i].path@, #[trigger] files[j].path@)
}

/// Whether one of the files has the path `path`.
pub open spec fn holds_path(files: Seq<KnownFile>, path: Seq<char>) -> bool {
    exists|i: int| 0 <= i < files.len() && #[trigger] files[i].path@ == path
}

/// The place of the file with the path `path`.
pub open spec fn place_of(files: Seq<KnownFile>, path: Seq<char>) -> int {
    choose|i: int| 0 <= i < files.len() && #[trigger] files[i].path@ == path
}

/// The snapshot as a mapping from path to recorded size.
pub open spec fn snapshot(files: Seq<KnownFile>) -> Map<Seq<char>, u64> {
    Map::new(
        |path: Seq<char>| holds_path(files, path),
        |path: Seq<char>| files[place_of(files, path)].size,
    )
}

/// In an ascending list each path stands once, so the snapshot maps it to
/// the size recorded beside it.
pub proof fn lemma_snapshot_entry(files: Seq<KnownFile>, i: int)
    requires
        ascending(files),
        0 <= i < files.len(),
    ensures
        holds_path(files, files[i].path@),
        place_of(files, files[i].path@) == i,
        snapshot(files).dom().contains(files[i].path@),
        snapshot(files)[files[i].path@] == files[i].size,
{
    let path = files[i].path@;
    assert(holds_path(files, path));
    let c = place_of(files, path);
    if c < i {
        lemma_path_before_strict(files[c].path@, files[i].path@);
    } else if i < c {
        lemma_path_before_strict(files[i].path@, files[c].path@);
    }
}

/// At most one path is the first fit of a manager.
pub proof fn lemma_first_fit_unique(manager: FileManager, a: Seq<char>, b: Seq<char>)
    requires
        manager.is_first_fit(a),
        manager.is_first_fit(b),
    ensures
        a == b,
{
    if a != b {
        lemma_path_before_strict(a, b);
    }
}

/// A known file that was seen below the ceiling is used again: whenever the
/// selection is made, and however often, it gives the same existing file.
pub proof fn lemma_known_file_is_reused(
    manager: FileManager,
    first: Timestamp,
    second: Timestamp,
    a: Target,
    b: Target,
)
    requires
        manager.has_room(),
        manager.selects(first, a),
        manager.selects(second, b),
    ensures
        a is Existing,
        b is Existing,
        a.path_view() == b.path_view(),
        manager.has_room_in(a.path_view()),
{
    lemma_first_fit_unique(manager, a.path_view(), b.path_view());
}

/// Fresh names made by one manager at two times are equal only if the
/// times have the same count of milliseconds.
pub proof fn lemma_fresh_names_differ(manager: FileManager, first: Timestamp, second: Timestamp)
    requires
        first.millis != second.millis,
    ensures
        manager.fresh_name(first) != manager.fresh_name(second),
{
    let base = manager.dir@ + "/"@ + part_text(manager.prefix);
    let joint = "-"@;
    if manager.fresh_name(first) == manager.fresh_name(second) {
        lemma_strike_ending(
            base + stamp_text(first, joint) + part_text(manager.suffix) + "."@,
            base + stamp_text(second, joint) + part_text(manager.suffix) + "."@,
            manager.file_extension@,
        );
        lemma_strike_ending(
            base + stamp_text(first, joint) + part_text(manager.suffix),
            base + stamp_text(second, joint) + part_text(manager.suffix),
            "."@,
        );
        lemma_strike_ending(
            base + stamp_text(first, joint),
            base + stamp_text(second, joint),
            part_text(manager.suffix),
        );
        reveal_strlit("_ML");
        let front_a = base + stamp_head(first, joint) + seq!['_', 'M'];
        let front_b = base + stamp_head(second, joint) + seq!['_', 'M'];
        assert("_ML"@ =~= seq!['_', 'M'] + seq!['L']);
        assert(base + stamp_text(first, joint) =~= front_a + seq!['L'] + decimal_int(
            first.millis as int,
        ));
        assert(base + stamp_text(second, joint) =~= front_b + seq!['L'] + decimal_int(
            second.millis as int,
        ));
        lemma_number_ending_unique(front_a, first.millis as int, front_b, second.millis as int);
    }
}

/// With a ceiling of zero no file has room, so every selection asks for a
/// fresh file, and selections made at times that differ in their count of
/// milliseconds ask for different files.
pub proof fn lemma_zero_ceiling_gives_distinct_files(
    manager: FileManager,
    first: Timestamp,
    second: Timestamp,
    a: Target,
    b: Target,
)
    requires
        manager.max_size == 0,
        first.millis != second.millis,
        manager.selects(first, a),
        manager.selects(second, b),
    ensures
        a is Fresh,
        b is Fresh,
        a.path_view() != b.path_view(),
{
    lemma_fresh_names_differ(manager, first, second);
}

/// A manager of the log files of one directory.
pub struct FileManager {
    pub dir: String,
    /// The files seen in the directory, in ascending order of their paths.
    pub files: Vec<KnownFile>,
    pub max_size: u64,
    pub prefix: Option<String>,
    pub suffix: Option<String>,
    pub file_extension: String,
}

/// The text of an optional name part: empty where there is none.
pub open spec fn part_text(part: Option<String>) -> Seq<char> {
    match part {
        Some(text) => text@,
        None => Seq::<char>::empty(),
    }
}

impl FileManager {
    /// The snapshot is in ascending order of paths, so no path stands twice.
    pub open spec fn wf(&self) -> bool {
        ascending(self.files@)
    }

    /// The recorded size of each known path.
    pub open spec fn known(&self) -> Map<Seq<char>, u64> {
        snapshot(self.files@)
    }

    /// Whether `path` is known and was seen below the ceiling.
    pub open spec fn has_room_in(&self, path: Seq<char>) -> bool {
        self.known().dom().contains(path) && self.known()[path] < self.max_size
    }

    /// Whether any known file was seen below the ceiling.
    pub open spec fn has_room(&self) -> bool {
        exists|path: Seq<char>| self.has_room_in(path)
    }

    /// Whether `path` is the first, in path order, of the known files that
    /// were seen below the ceiling.
    pub open spec fn is_first_fit(&self, path: Seq<char>) -> bool {
        &&& self.has_room_in(path)
        &&& forall|other: Seq<char>|
            self.has_room_in(other) && other != path ==> path_before(path, other)
    }

    /// The name of a file made at the time `now`:
    /// `{dir}/{prefix}Y{year}_M{month}_D{day}-H{hour}_M{minute}_S{second}_ML{millis}{suffix}.{extension}`.
    pub open spec fn fresh_name(&self, now: Timestamp) -> Seq<char> {
        self.dir@ + "/"@ + part_text(self.prefix) + stamp_text(now, "-"@) + part_text(self.suffix)
            + "."@ + self.file_extension@
    }

    /// What a selection at the time `now` gives: the first known file with
    /// room left, or else a fresh name.
    pub open spec fn selects(&self, now: Timestamp, target: Target) -> bool {
        match target {
            Target::Existing(path) => self.is_first_fit(path@),
            Target::Fresh(path) => !self.has_room() && path@ == self.fresh_name(now),
        }
    }

    /// Whether everything but the snapshot equals that of `other`.
    pub open spec fn same_settings(&self, other: FileManager) -> bool {
        &&& self.dir == other.dir
        &&& self.max_size == other.max_size
        &&& self.prefix == other.prefix
        &&& self.suffix == other.suffix
        &&& self.file_extension == other.file_extension
    }

    /// A manager for the directory `dir` with an empty snapshot, no prefix,
    /// no suffix and the extension `log`.
    pub fn new(dir: String, max_size: FileSize) -> (manager: FileManager)
        requires
            max_size.byte_count() <= u64::MAX,
        ensures
            manager.wf(),
            manager.dir == dir,
            manager.files@.len() == 0,
            manager.known() == Map::<Seq<char>, u64>::empty(),
            manager.max_size == max_size.byte_count(),
            manager.prefix is None,
            manager.suffix is None,
            manager.file_extension@ == "log"@,
    {
        let manager = FileManager {
            dir,
            files: Vec::new(),
            max_size: max_size.to_bytes().unwrap(),
            prefix: None,
            suffix: None,
            file_extension: String::from_str("log"),
        };
        assert(manager.known() =~= Map::<Seq<char>, u64>::empty());
        manager
    }

    /// The place where `path` stands in the snapshot, or where it belongs.
    fn place_for(&self, path: &str) -> (place: (usize, bool))
        requires
            self.wf(),
        ensures
            place.0 <= self.files@.len(),
            forall|j: int| 0 <= j < place.0 ==> path_before(#[trigger] self.files@[j].path@, path@),
            place.1 ==> place.0 < self.files@.len() && self.files@[place.0 as int].path@ == path@,
            !place.1 ==> forall|j: int|
                place.0 <= j < self.files@.len() ==> path_before(
                    path@,
                    #[trigger] self.files@[j].path@,
                ),
    {
        let n = self.files.len();
        let mut i: usize = 0;
        while i < n
            invariant
                self.wf(),
                n == self.files@.len(),
                i <= n,
                forall|j: int| 0 <= j < i ==> path_before(#[trigger] self.files@[j].path@, path@),
            decreases n - i,
        {
            match compare_paths(self.files[i].path.as_str(), path) {
                PathOrder::Before => {
                    i = i + 1;
                },
                PathOrder::Same => {
                    return (i, true);
                },
                PathOrder::After => {
                    proof {
                        assert forall|j: int| i <= j < self.files@.len() implies path_before(
                            path@,
                            #[trigger] self.files@[j].path@,
                        ) by {
                            if i < j {
                                lemma_bytes_before_transitive(
                                    path_key(path@),
                                    path_key(self.files@[i as int].path@),
                                    path_key(self.files@[j].path@),
                                );
                            }
                        }
                    }
                    return (i, false);
                },
            }
        }
        (i, false)
    }

    /// Records that the file `path` was seen with `size` bytes. A path that
    /// was recorded before keeps one entry, with the new size.
    pub fn record_file(&mut self, path: String, size: u64)
        requires
            old(self).wf(),
        ensures
            final(self).wf(),
            final(self).known() == old(self).known().insert(path@, size),
            final(self).same_settings(*old(self)),
    {
        let place = self.place_for(path.as_str());
        let i = place.0;
        let ghost before = self.files@;
        let ghost key = path@;
        if place.1 {
            self.files.set(i, KnownFile { path, size });
            proof {
                let after = self.files@;
                assert forall|a: int, b: int| 0 <= a < b < after.len() implies path_before(
                    #[trigger] after[a].path@,
                    #[trigger] after[b].path@,
                ) by {
                    assert(after[a].path@ == before[a].path@);
                    assert(after[b].path@ == before[b].path@);
                }
                assert forall|q: Seq<char>| holds_path(after, q) <==> (q == key || holds_path(
                    before,
                    q,
                )) by {
                    if holds_path(after, q) {
                        let c = place_of(after, q);
                        assert(before[c].path@ == q);
                    }
                    if holds_path(before, q) {
                        let c = place_of(before, q);
                        assert(after[c].path@ == q);
                    }
                    if q == key {
                        assert(after[i as int].path@ == q);
                    }
                }
                assert forall|q: Seq<char>| holds_path(after, q) implies #[trigger] snapshot(
                    after,
                )[q] == snapshot(before).insert(key, size)[q] by {
                    let c = place_of(after, q);
                    lemma_snapshot_entry(after, c);
                    lemma_snapshot_entry(before, c);
                    lemma_snapshot_entry(before, i as int);
                    if c != i {
                        assert(after[c] == before[c]);
                    }
                }
                assert(snapshot(after) =~= snapshot(before).insert(key, size));
            }
        } else {
            self.files.insert(i, KnownFile { path, size });
            proof {
                let after = self.files@;
                assert forall|a: int, b: int| 0 <= a < b < after.len() implies path_before(
                    #[trigger] after[a].path@,
                    #[trigger] after[b].path@,
                ) by {
                    if b < i {
                        assert(after[a] == before[a] && after[b] == before[b]);
                    } else if b == i {
                        assert(after[a] == before[a]);
                    } else if a < i {
                        assert(after[a] == before[a] && after[b] == before[b - 1]);
                    } else if a == i {
                        assert(after[b] == before[b - 1]);
                    } else {
                        assert(after[a] == before[a - 1] && after[b] == before[b - 1]);
                    }
                }
                assert(!holds_path(before, key)) by {
                    if holds_path(before, key) {
                        let c = place_of(before, key);
                        if c < i {
                            lemma_path_before_strict(before[c].path@, key);
                        } else {
                            lemma_path_before_strict(key, before[c].path@);
                        }
                    }
                }
                assert forall|q: Seq<char>| holds_path(after, q) <==> (q == key || holds_path(
                    before,
                    q,
                )) by {
                    if holds_path(after, q) {
                        let c = place_of(after, q);
                        if c < i {
                            assert(before[c].path@ == q);
                        } else if c > i {
                            assert(before[c - 1].path@ == q);
                        }
                    }
                    if holds_path(before, q) {
                        let c = place_of(before, q);
                        if c < i {
                            assert(after[c].path@ == q);
                        } else {
                            assert(after[c + 1].path@ == q);
                        }
                    }
                    if q == key {
                        assert(after[i as int].path@ == q);
                    }
                }
                assert forall|q: Seq<char>| holds_path(after, q) implies #[trigger] snapshot(
                    after,
                )[q] == snapshot(before).insert(key, size)[q] by {
                    let c = place_of(after, q);
                    lemma_snapshot_entry(after, c);
                    if c < i {
                        lemma_snapshot_entry(before, c);
                    } else if c > i {
                        lemma_snapshot_entry(before, c - 1);
                    }
                }
                assert(snapshot(after) =~= snapshot(before).insert(key, size));
            }
        }
    }

    /// The first known file, in path order, that was seen below the ceiling.
    pub fn reusable_file(&self) -> (found: Option<String>)
        requires
            self.wf(),
        ensures
            match found {
                Some(path) => self.is_first_fit(path@),
                None => !self.has_room(),
            },
    {
        let n = self.files.len();
        let mut i: usize = 0;
        while i < n
            invariant
                self.wf(),
                n == self.files@.len(),
                i <= n,
                forall|j: int| 0 <= j < i ==> (#[trigger] self.files@[j]).size >= self.max_size,
            decreases n - i,
        {
            if self.files[i].size < self.max_size {
                let path = self.files[i].path.clone();
                proof {
                    lemma_snapshot_entry(self.files@, i as int);
                    assert forall|other: Seq<char>|
                        self.has_room_in(other) && other != path@ implies path_before(
                        path@,
                        other,
                    ) by {
                        let c = place_of(self.files@, other);
                        lemma_snapshot_entry(self.files@, c);
                    }
                }
                return Some(path);
            }
            i = i + 1;
        }
        proof {
            assert forall|path: Seq<char>| !self.has_room_in(path) by {
                if self.known().dom().contains(path) {
                    let c = place_of(self.files@, path);
                    lemma_snapshot_entry(self.files@, c);
                }
            }
        }
        None
    }

    /// The name of a file made at the time `now`.
    pub fn fresh_file_name(&self, now: &Timestamp) -> (name: String)
        ensures
            name@ == self.fresh_name(*now),
    {
        let mut name = self.dir.clone();
        name.append("/");
        match &self.prefix {
            Some(prefix) => name.append(prefix.as_str()),
            None => {},
        }
        let stamp = stamp_string(now, "-");
        name.append(stamp.as_str());
        match &self.suffix {
            Some(suffix) => name.append(suffix.as_str()),
            None => {},
        }
        name.append(".");
        name.append(self.file_extension.as_str());
        proof {
            assert(name@ =~= self.fresh_name(*now));
        }
        name
    }

    /// The file to write to at the time `now`: the first known file with
    /// room left; where there is none, a fresh name.
    pub fn select_target(&self, now: &Timestamp) -> (target: Target)
        requires
            self.wf(),
        ensures
            self.selects(*now, target),
    {
        match self.reusable_file() {
            Some(path) => Target::Existing(path),
            None => Target::Fresh(self.fresh_file_name(now)),
        }
    }

    /// The file to write to now. Reads the local clock; the time matters
    /// only where no known file has room left.
    pub fn get_file_path(&self) -> (target: Target)
        requires
            self.wf(),
        ensures
            exists|now: Timestamp| now.is_clock_reading() && self.selects(now, target),
    {
        let now = local_now();
        self.select_target(&now)
    }

    /// Sets the prefix of fresh file names.
    pub fn set_file_prefix(&mut self, prefix: String)
        ensures
            final(self).prefix == Some(prefix),
            final(self).dir == old(self).dir,
            final(self).files == old(self).files,
            final(self).max_size == old(self).max_size,
            final(self).suffix == old(self).suffix,
            final(self).file_extension == old(self).file_extension,
    {
        self.prefix = Some(prefix);
    }

    /// Sets the prefix of fresh file names.
    pub fn set_file_prefix_str(&mut self, prefix: &str)
        ensures
            final(self).prefix is Some,
            part_text(final(self).prefix) == prefix@,
            final(self).dir == old(self).dir,
            final(self).files == old(self).files,
            final(self).max_size == old(self).max_size,
            final(self).suffix == old(self).suffix,
            final(self).file_extension == old(self).file_extension,
    {
        self.set_file_prefix(prefix.to_owned());
    }

    /// Sets the suffix of fresh file names.
    pub fn set_file_suffix(&mut self, suffix: String)
        ensures
            final(self).suffix == Some(suffix),
            final(self).dir == old(self).dir,
            final(self).files == old(self).files,
            final(self).max_size == old(self).max_size,
            final(self).prefix == old(self).prefix,
            final(self).file_extension == old(self).file_extension,
    {
        self.suffix = Some(suffix);
    }

    /// Sets the suffix of fresh file names.
    pub fn set_file_suffix_str(&mut self, suffix: &str)
        ensures
            final(self).suffix is Some,
            part_text(final(self).suffix) == suffix@,
            final(self).dir == old(self).dir,
            final(self).files == old(self).files,
            final(self).max_size == old(self).max_size,
            final(self).prefix == old(self).prefix,
            final(self).file_extension == old(self).file_extension,
    {
        self.set_file_suffix(suffix.to_owned());
    }

    /// Sets the extension of fresh file names.
    pub fn set_file_extension(&mut self, ext: String)
        ensures
            final(self).file_extension == ext,
            final(self).dir == old(self).dir,
            final(self).files == old(self).files,
            final(self).max_size == old(self).max_size,
            final(self).prefix == old(self).prefix,
            final(self).suffix == old(self).suffix,
    {
        self.file_extension = ext;
    }

    /// Sets the extension of fresh file names.
    pub fn set_file_extension_str(&mut self, ext: &str)
        ensures
            final(self).file_extension@ == ext@,
            final(self).dir == old(self).dir,
            final(self).files == old(self).files,
            final(self).max_size == old(self).max_size,
            final(self).prefix == old(self).prefix,
            final(self).suffix == old(self).suffix,
    {
        self.set_file_extension(ext.to_owned());
    }
}

} // verus!
