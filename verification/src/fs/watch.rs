//! Filesystem watching: the kinds of changes a watch is interested in, and the
//! masks that are handed to `inotify_add_watch(2)`.

use vstd::prelude::*;
use vstd::hash_map::HashMapWithView;
use vstd::slice::slice_subrange;

verus! {

broadcast use vstd::std_specs::hash::group_hash_axioms;

/// `IN_ACCESS`: file was accessed.
pub const IN_ACCESS: u32 = 0x0000_0001;
/// `IN_MODIFY`: file was modified.
pub const IN_MODIFY: u32 = 0x0000_0002;
/// `IN_ATTRIB`: metadata changed.
pub const IN_ATTRIB: u32 = 0x0000_0004;
/// `IN_CLOSE_WRITE`: file opened for writing was closed.
pub const IN_CLOSE_WRITE: u32 = 0x0000_0008;
/// `IN_CLOSE_NOWRITE`: file not opened for writing was closed.
pub const IN_CLOSE_NOWRITE: u32 = 0x0000_0010;
/// `IN_OPEN`: file was opened.
pub const IN_OPEN: u32 = 0x0000_0020;
/// `IN_MOVED_FROM`: file was moved out of a watched directory.
pub const IN_MOVED_FROM: u32 = 0x0000_0040;
/// `IN_MOVED_TO`: file was moved into a watched directory.
pub const IN_MOVED_TO: u32 = 0x0000_0080;
/// `IN_CREATE`: file was created in a watched directory.
pub const IN_CREATE: u32 = 0x0000_0100;
/// `IN_DELETE`: file was deleted from a watched directory.
pub const IN_DELETE: u32 = 0x0000_0200;
/// `IN_DELETE_SELF`: the watched file or directory itself was deleted.
pub const IN_DELETE_SELF: u32 = 0x0000_0400;
/// `IN_MOVE_SELF`: the watched file or directory itself was moved.
pub const IN_MOVE_SELF: u32 = 0x0000_0800;
/// `IN_CLOSE`: both closing events.
pub const IN_CLOSE: u32 = 0x0000_0018;
/// `IN_MOVE`: both moving events.
pub const IN_MOVE: u32 = 0x0000_00c0;
/// `IN_ALL_EVENTS`: every event above.
pub const IN_ALL_EVENTS: u32 = 0x0000_0fff;
/// `IN_ONLYDIR`: only watch the path if it is a directory.
pub const IN_ONLYDIR: u32 = 0x0100_0000;
/// `IN_DONT_FOLLOW`: don't follow a symbolic link.
pub const IN_DONT_FOLLOW: u32 = 0x0200_0000;
/// `IN_EXCL_UNLINK`: no events for files moved out of a watched directory.
pub const IN_EXCL_UNLINK: u32 = 0x0400_0000;
/// `IN_MASK_ADD`: combine the watched events with those of an existing watch.
pub const IN_MASK_ADD: u32 = 0x2000_0000;

/// What kind of filesystem changes we're interested in monitering.
#[derive(Copy, Clone, Debug, PartialEq, Eq, Structural)]
pub struct Interest(u32);

impl Interest {
    /// The events of interest, as the mask bits of `inotify(7)`.
    pub closed spec fn spec_mask(self) -> u32 {
        self.0
    }

    /// Watch everything.
    #[allow(non_snake_case)]
    pub fn ALL() -> (interest: Interest)
        ensures
            interest.spec_mask() == IN_ALL_EVENTS,
    {
        Interest(IN_ALL_EVENTS)
    }

    /// File was accessed, e.g. read.
    #[allow(non_snake_case)]
    pub fn ACCESS() -> (interest: Interest)
        ensures
            interest.spec_mask() == IN_ACCESS,
    {
        Interest(IN_ACCESS)
    }

    /// File was modified, e.g. written.
    #[allow(non_snake_case)]
    pub fn MODIFY() -> (interest: Interest)
        ensures
            interest.spec_mask() == IN_MODIFY,
    {
        Interest(IN_MODIFY)
    }

    /// Metadata or attribute changed, e.g. permissions where changed.
    #[allow(non_snake_case)]
    pub fn METADATA() -> (interest: Interest)
        ensures
            interest.spec_mask() == IN_ATTRIB,
    {
        Interest(IN_ATTRIB)
    }

    /// File opened for writing was closed.
    #[allow(non_snake_case)]
    pub fn CLOSE_WRITE() -> (interest: Interest)
        ensures
            interest.spec_mask() == IN_CLOSE_WRITE,
    {
        Interest(IN_CLOSE_WRITE)
    }

    /// File or directory not opened for writing was closed.
    #[allow(non_snake_case)]
    pub fn CLOSE_NOWRITE() -> (interest: Interest)
        ensures
            interest.spec_mask() == IN_CLOSE_NOWRITE,
    {
        Interest(IN_CLOSE_NOWRITE)
    }

    /// Combination of [`Interest::CLOSE_WRITE`] and
    /// [`Interest::CLOSE_NOWRITE`] to get all closing events.
    #[allow(non_snake_case)]
    pub fn CLOSE() -> (interest: Interest)
        ensures
            interest.spec_mask() == IN_CLOSE,
    {
        Interest(IN_CLOSE)
    }

    /// File or directory was opened.
    #[allow(non_snake_case)]
    pub fn OPEN() -> (interest: Interest)
        ensures
            interest.spec_mask() == IN_OPEN,
    {
        Interest(IN_OPEN)
    }

    /// A file was moved out of the watched directory was renamed.
    #[allow(non_snake_case)]
    pub fn MOVE_FROM() -> (interest: Interest)
        ensures
            interest.spec_mask() == IN_MOVED_FROM,
    {
        Interest(IN_MOVED_FROM)
    }

    /// A file was moved into the watched directory.
    #[allow(non_snake_case)]
    pub fn MOVE_INTO() -> (interest: Interest)
        ensures
            interest.spec_mask() == IN_MOVED_TO,
    {
        Interest(IN_MOVED_TO)
    }

    /// Combination of [`Interest::MOVE_FROM`] and [`Interest::MOVE_INTO`].
    #[allow(non_snake_case)]
    pub fn MOVE() -> (interest: Interest)
        ensures
            interest.spec_mask() == IN_MOVE,
    {
        Interest(IN_MOVE)
    }

    /// File or directory was created in a watched directory.
    #[allow(non_snake_case)]
    pub fn CREATE() -> (interest: Interest)
        ensures
            interest.spec_mask() == IN_CREATE,
    {
        Interest(IN_CREATE)
    }

    /// File or directory was deleted from a watched directory.
    #[allow(non_snake_case)]
    pub fn DELETE() -> (interest: Interest)
        ensures
            interest.spec_mask() == IN_DELETE,
    {
        Interest(IN_DELETE)
    }

    /// File or directory itself was deleted. This event also occurs if an
    /// object is moved to another filesystem.
    #[allow(non_snake_case)]
    pub fn DELETE_SELF() -> (interest: Interest)
        ensures
            interest.spec_mask() == IN_DELETE_SELF,
    {
        Interest(IN_DELETE_SELF)
    }

    /// File or directory itself was moved.
    #[allow(non_snake_case)]
    pub fn MOVE_SELF() -> (interest: Interest)
        ensures
            interest.spec_mask() == IN_MOVE_SELF,
    {
        Interest(IN_MOVE_SELF)
    }

    /// Add `other` interest to this interest.
    pub fn add(self, other: Interest) -> (interest: Interest)
        ensures
            interest.spec_mask() == self.spec_mask() | other.spec_mask(),
    {
        Interest(self.0 | other.0)
    }

    /// The events of interest, as the mask bits of `inotify(7)`.
    pub fn mask(self) -> (mask: u32)
        ensures
            mask == self.spec_mask(),
    {
        self.0
    }
}

/// Adding interests is commutative, associative and idempotent: the order in
/// which interests are added, and adding one twice, make no difference.
pub proof fn lemma_add_laws(a: Interest, b: Interest, c: Interest)
    ensures
        a.spec_mask() | b.spec_mask() == b.spec_mask() | a.spec_mask(),
        (a.spec_mask() | b.spec_mask()) | c.spec_mask() == a.spec_mask() | (b.spec_mask() | c.spec_mask()),
        a.spec_mask() | a.spec_mask() == a.spec_mask(),
{
    let (x, y, z) = (a.spec_mask(), b.spec_mask(), c.spec_mask());
    assert(x | y == y | x) by (bit_vector);
    assert((x | y) | z == x | (y | z)) by (bit_vector);
    assert(x | x == x) by (bit_vector);
}

/// The combined interests are what their documentation says: `CLOSE` is
/// `CLOSE_WRITE` and `CLOSE_NOWRITE`, `MOVE` is `MOVE_FROM` and `MOVE_INTO`,
/// and `ALL` holds every single interest.
pub proof fn lemma_combined_interests()
    ensures
        IN_CLOSE == IN_CLOSE_WRITE | IN_CLOSE_NOWRITE,
        IN_MOVE == IN_MOVED_FROM | IN_MOVED_TO,
        IN_ALL_EVENTS == IN_ACCESS | IN_MODIFY | IN_ATTRIB | IN_CLOSE_WRITE | IN_CLOSE_NOWRITE | IN_OPEN
            | IN_MOVED_FROM | IN_MOVED_TO | IN_CREATE | IN_DELETE | IN_DELETE_SELF | IN_MOVE_SELF,
{
    assert(0x0000_0018u32 == 0x0000_0008u32 | 0x0000_0010u32) by (bit_vector);
    assert(0x0000_00c0u32 == 0x0000_0040u32 | 0x0000_0080u32) by (bit_vector);
    assert(0x0000_0fffu32 == 0x0000_0001u32 | 0x0000_0002u32 | 0x0000_0004u32 | 0x0000_0008u32
        | 0x0000_0010u32 | 0x0000_0020u32 | 0x0000_0040u32 | 0x0000_0080u32 | 0x0000_0100u32
        | 0x0000_0200u32 | 0x0000_0400u32 | 0x0000_0800u32) by (bit_vector);
}

/// How to recursively watch a directory.
#[derive(Copy, Clone, Debug, PartialEq, Eq, Structural)]
pub enum Recursive {
    /// Don't watch recursively: only get events for the files and directories
    /// directly in the watched directory.
    No,
    /// Watch recursively: walk the entire directory tree to create watches for
    /// each sub-directory.
    All,
}

/// The flags every watch is added with: don't follow symbolic links, no events
/// for files moved out of a watched directory, and combine the watched events
/// with those of an existing watch of the same path.
pub open spec fn watch_flags() -> u32 {
    IN_DONT_FOLLOW | IN_EXCL_UNLINK | IN_MASK_ADD
}

/// The mask handed to `inotify_add_watch(2)` to watch a file for `interest`.
pub fn file_mask(interest: Interest) -> (mask: u32)
    ensures
        mask == interest.spec_mask() | watch_flags(),
{
    interest.mask() | (IN_DONT_FOLLOW | IN_EXCL_UNLINK | IN_MASK_ADD)
}

/// The mask handed to `inotify_add_watch(2)` to watch a directory for
/// `interest`: the path is only watched if it is a directory.
pub fn directory_mask(interest: Interest) -> (mask: u32)
    ensures
        mask == interest.spec_mask() | IN_ONLYDIR | watch_flags(),
{
    (interest.mask() | IN_ONLYDIR) | (IN_DONT_FOLLOW | IN_EXCL_UNLINK | IN_MASK_ADD)
}

/// `IN_UNMOUNT`: the filesystem of the watched file was unmounted.
pub const IN_UNMOUNT: u32 = 0x0000_2000;
/// `IN_Q_OVERFLOW`: the event queue overflowed.
pub const IN_Q_OVERFLOW: u32 = 0x0000_4000;
/// `IN_IGNORED`: the watch was removed, the file is no longer watched.
pub const IN_IGNORED: u32 = 0x0000_8000;
/// `IN_ISDIR`: the subject of the event is a directory.
pub const IN_ISDIR: u32 = 0x4000_0000;

/// The size of the fixed part of an event record of `inotify(7)`: the watch
/// descriptor, mask, cookie and length of the name, four bytes each.
pub const EVENT_HEADER_SIZE: usize = 16;

/// The watched paths, by watch descriptor.
pub type Watching = HashMapWithView<i32, Vec<u8>>;

/// The four bytes of `buf` at `at` as a number, in little or big endian order.
pub open spec fn u32_at(buf: Seq<u8>, at: int, little_endian: bool) -> u32 {
    if little_endian {
        (buf[at] + buf[at + 1] * 0x100 + buf[at + 2] * 0x1_0000 + buf[at + 3] * 0x100_0000) as u32
    } else {
        (buf[at + 3] + buf[at + 2] * 0x100 + buf[at + 1] * 0x1_0000 + buf[at] * 0x100_0000) as u32
    }
}

/// An event record as the kernel writes it: the header and the name that
/// follows it.
pub struct Record {
    pub wd: i32,
    pub mask: u32,
    pub cookie: u32,
    pub name: Seq<u8>,
}

/// The record at `at` in `buf`, if its header and name fit.
pub open spec fn record_at(buf: Seq<u8>, at: int, little_endian: bool) -> Option<(Record, int)> {
    if 0 <= at && at + 16 <= buf.len() {
        let len = u32_at(buf, at + 12, little_endian);
        let end = at + 16 + len;
        if end <= buf.len() {
            Some(
                (
                    Record {
                        wd: u32_at(buf, at, little_endian) as i32,
                        mask: u32_at(buf, at + 4, little_endian),
                        cookie: u32_at(buf, at + 8, little_endian),
                        name: buf.subrange(at + 16, end),
                    },
                    end,
                ),
            )
        } else {
            None
        }
    } else {
        None
    }
}

/// The records of `buf` from `at` on, up to the end or to a record that does
/// not fit in the buffer.
pub open spec fn records(buf: Seq<u8>, at: int, little_endian: bool) -> Seq<Record>
    decreases buf.len() - at,
{
    match record_at(buf, at, little_endian) {
        Some((record, end)) => if end > at {
            seq![record] + records(buf, end, little_endian)
        } else {
            Seq::empty()
        },
        None => Seq::empty(),
    }
}

/// Whether a record is handled internally rather than handed to the user: a
/// watch that was removed, or an overflowed queue.
pub open spec fn is_internal(record: Record) -> bool {
    record.mask & IN_IGNORED != 0 || record.mask & IN_Q_OVERFLOW != 0
}

/// The watched paths after the records `records`: the watch of each removed
/// watch (`IN_IGNORED`) is forgotten.
pub open spec fn forget_ignored(watching: Map<i32, Seq<u8>>, records: Seq<Record>) -> Map<i32, Seq<u8>>
    decreases records.len(),
{
    if records.len() == 0 {
        watching
    } else {
        let rest = forget_ignored(watching, records.drop_last());
        if records.last().mask & IN_IGNORED != 0 {
            rest.remove(records.last().wd)
        } else {
            rest
        }
    }
}

/// The paths of `watching` as byte sequences.
pub open spec fn watched_paths(watching: Map<i32, Vec<u8>>) -> Map<i32, Seq<u8>> {
    Map::new(|wd: i32| watching.contains_key(wd), |wd: i32| watching[wd]@)
}

/// Event that represent a file system change.
#[derive(Debug)]
pub struct Event {
    wd: i32,
    mask: u32,
    cookie: u32,
    path: Vec<u8>,
}

impl Event {
    /// The record the event was read from.
    pub closed spec fn spec_record(&self) -> Record {
        Record { wd: self.wd, mask: self.mask, cookie: self.cookie, name: self.path@ }
    }

    /// The watch descriptor of the watch the event is for.
    pub fn wd(&self) -> (wd: i32)
        ensures
            wd == self.spec_record().wd,
    {
        self.wd
    }

    /// The events that happened, as the mask bits of `inotify(7)`.
    pub fn mask(&self) -> (mask: u32)
        ensures
            mask == self.spec_record().mask,
    {
        self.mask
    }

    /// The cookie that connects the two events of a rename.
    pub fn cookie(&self) -> (cookie: u32)
        ensures
            cookie == self.spec_record().cookie,
    {
        self.cookie
    }

    /// Whether the raw name, with its padding, is empty.
    pub fn has_no_name(&self) -> (empty: bool)
        ensures
            empty == (self.spec_record().name.len() == 0),
    {
        self.path.len() == 0
    }

    /// Path to the file within the watched directory: the name up to its
    /// first null byte, which pads it.
    ///
    /// This will only be non-empty for events triggered by files/directories
    /// in watched directories. It is empty for events on watched files and
    /// directories themselves.
    pub fn file_path(&self) -> (path: &[u8])
        ensures
            path@ == name_of(self.spec_record().name),
    {
        let mut end: usize = 0;
        while end < self.path.len() && self.path[end] != 0
            invariant
                end <= self.path@.len(),
                forall|i: int| 0 <= i < end ==> self.path@[i] != 0,
            decreases self.path@.len() - end,
        {
            end = end + 1;
        }
        proof {
            lemma_name_of(self.path@, end as int);
        }
        slice_subrange(self.path.as_slice(), 0, end)
    }

    /// Return true if the subject of this event is a directory.
    pub fn is_dir(&self) -> (is: bool)
        ensures
            is == (self.spec_record().mask & IN_ISDIR != 0),
    {
        self.mask & IN_ISDIR != 0
    }

    /// Returns true if the watched file, or a file within a watched directory,
    /// was accessed.
    pub fn accessed(&self) -> (is: bool)
        ensures
            is == (self.spec_record().mask & IN_ACCESS != 0),
    {
        self.mask & IN_ACCESS != 0
    }

    /// Returns true if the watched file, or a file within a watched directory,
    /// was modified.
    pub fn modified(&self) -> (is: bool)
        ensures
            is == (self.spec_record().mask & IN_MODIFY != 0),
    {
        self.mask & IN_MODIFY != 0
    }

    /// Returns true if the watched file, a file within a watched directory or
    /// the watched directory had its metadata changed.
    pub fn metadata_changed(&self) -> (is: bool)
        ensures
            is == (self.spec_record().mask & IN_ATTRIB != 0),
    {
        self.mask & IN_ATTRIB != 0
    }

    /// Returns true if the watched file, or a file within a watched directory,
    /// opened for writing was closed.
    pub fn closed_write(&self) -> (is: bool)
        ensures
            is == (self.spec_record().mask & IN_CLOSE_WRITE != 0),
    {
        self.mask & IN_CLOSE_WRITE != 0
    }

    /// Returns true if the watched file, a file within a watched directory or
    /// the watched directory, not opened for writing, was closed.
    pub fn closed_no_write(&self) -> (is: bool)
        ensures
            is == (self.spec_record().mask & IN_CLOSE_NOWRITE != 0),
    {
        self.mask & IN_CLOSE_NOWRITE != 0
    }

    /// Returns true if the watched file, a file within a watched directory or
    /// the watched directory was closed.
    pub fn closed(&self) -> (is: bool)
        ensures
            is == (self.spec_record().mask & IN_CLOSE != 0),
    {
        self.mask & IN_CLOSE != 0
    }

    /// Returns true if the watched file, a file within a watched directory or
    /// the watched directory was opened.
    pub fn opened(&self) -> (is: bool)
        ensures
            is == (self.spec_record().mask & IN_OPEN != 0),
    {
        self.mask & IN_OPEN != 0
    }

    /// Returns true if the watched file or directory was deleted.
    pub fn deleted(&self) -> (is: bool)
        ensures
            is == (self.spec_record().mask & IN_DELETE_SELF != 0),
    {
        self.mask & IN_DELETE_SELF != 0
    }

    /// Returns true if the watched file or directory was moved.
    pub fn moved(&self) -> (is: bool)
        ensures
            is == (self.spec_record().mask & IN_MOVE_SELF != 0),
    {
        self.mask & IN_MOVE_SELF != 0
    }

    /// Returns true if the filesystem containing the watched file or directory
    /// was unmounted.
    pub fn unmounted(&self) -> (is: bool)
        ensures
            is == (self.spec_record().mask & IN_UNMOUNT != 0),
    {
        self.mask & IN_UNMOUNT != 0
    }

    /// Returns true if a file within a watched directory was moved out of it.
    pub fn file_moved_from(&self) -> (is: bool)
        ensures
            is == (self.spec_record().mask & IN_MOVED_FROM != 0),
    {
        self.mask & IN_MOVED_FROM != 0
    }

    /// Returns true if a file was moved into a watched directory.
    pub fn file_moved_into(&self) -> (is: bool)
        ensures
            is == (self.spec_record().mask & IN_MOVED_TO != 0),
    {
        self.mask & IN_MOVED_TO != 0
    }

    /// Returns true if a file within a watched directory was moved (into or out
    /// of the watched directory).
    pub fn file_moved(&self) -> (is: bool)
        ensures
            is == (self.spec_record().mask & IN_MOVE != 0),
    {
        self.mask & IN_MOVE != 0
    }

    /// Returns true if a file within a watched directory was created.
    pub fn file_created(&self) -> (is: bool)
        ensures
            is == (self.spec_record().mask & IN_CREATE != 0),
    {
        self.mask & IN_CREATE != 0
    }

    /// Returns true if a file within a watched directory was deleted.
    pub fn file_deleted(&self) -> (is: bool)
        ensures
            is == (self.spec_record().mask & IN_DELETE != 0),
    {
        self.mask & IN_DELETE != 0
    }
}

/// The name in `name` up to its first null byte.
pub open spec fn name_of(name: Seq<u8>) -> Seq<u8> {
    name.take(first_null(name, 0))
}

/// The index of the first null byte of `name` from `from` on, its length if
/// there is none.
pub open spec fn first_null(name: Seq<u8>, from: int) -> int
    decreases name.len() - from,
{
    if from < 0 || from >= name.len() {
        name.len() as int
    } else if name[from] == 0 {
        from
    } else {
        first_null(name, from + 1)
    }
}

/// The first null byte is at `end`, where no byte before it is null and it is
/// null or the end.
proof fn lemma_name_of(name: Seq<u8>, end: int)
    requires
        0 <= end <= name.len(),
        forall|i: int| 0 <= i < end ==> name[i] != 0,
        end == name.len() || name[end] == 0,
    ensures
        first_null(name, 0) == end,
{
    lemma_first_null_from(name, 0, end);
}

/// Searching from `from` finds the first null byte `end`.
proof fn lemma_first_null_from(name: Seq<u8>, from: int, end: int)
    requires
        0 <= from <= end <= name.len(),
        forall|i: int| from <= i < end ==> name[i] != 0,
        end == name.len() || name[end] == 0,
    ensures
        first_null(name, from) == end,
    decreases end - from,
{
    if from < end {
        lemma_first_null_from(name, from + 1, end);
    }
}

/// The four bytes of `buf` at `at` as a number, in little or big endian order.
fn read_u32(buf: &[u8], at: usize, little_endian: bool) -> (value: u32)
    requires
        at + 4 <= buf@.len(),
    ensures
        value == u32_at(buf@, at as int, little_endian),
{
    let (b0, b1, b2, b3) = (buf[at] as u32, buf[at + 1] as u32, buf[at + 2] as u32, buf[at + 3] as u32);
    if little_endian {
        b0 + b1 * 0x100 + b2 * 0x1_0000 + b3 * 0x100_0000
    } else {
        b3 + b2 * 0x100 + b1 * 0x1_0000 + b0 * 0x100_0000
    }
}

/// Reads the record at `at` of `buf`, if it fits: the record and where the
/// next one starts.
fn read_record(buf: &[u8], at: usize, little_endian: bool) -> (read: Option<(Event, usize)>)
    ensures
        match read {
            Some((event, end)) => record_at(buf@, at as int, little_endian) == Some((event.spec_record(), end as int)),
            None => record_at(buf@, at as int, little_endian) is None,
        },
{
    if at > buf.len() || buf.len() - at < EVENT_HEADER_SIZE {
        return None;
    }
    let len = read_u32(buf, at + 12, little_endian) as usize;
    if len > buf.len() - at - EVENT_HEADER_SIZE {
        return None;
    }
    let wd = read_u32(buf, at, little_endian) as i32;
    let mask = read_u32(buf, at + 4, little_endian);
    let cookie = read_u32(buf, at + 8, little_endian);
    let start = at + EVENT_HEADER_SIZE;
    let end = start + len;
    let name = vstd::slice::slice_to_vec(slice_subrange(buf, start, end));
    let event = Event { wd, mask, cookie, path: name };
    Some((event, end))
}

/// The events read from the `inotify(7)` file descriptor, in the byte order of
/// the machine.
pub struct Events {
    buf: Vec<u8>,
    processed: usize,
    little_endian: bool,
}

impl Events {
    /// The events that are left, as their records.
    pub closed spec fn spec_records(&self) -> Seq<Record> {
        records(self.buf@, self.processed as int, self.little_endian)
    }

    /// The events of the bytes `buf` read from the file descriptor, whose
    /// numbers are in little endian order where `little_endian` is true and in
    /// big endian order otherwise.
    pub fn new(buf: Vec<u8>, little_endian: bool) -> (events: Events)
        ensures
            events.spec_records() == records(buf@, 0, little_endian),
    {
        Events { buf, processed: 0, little_endian }
    }

    /// The next event for the user, if any. Events of removed watches
    /// (`IN_IGNORED`) are handled here: the watch is forgotten in `watching`.
    /// Events of an overflowed queue are skipped.
    pub fn next(&mut self, watching: &mut Watching) -> (event: Option<Event>)
        ensures
            match event {
                Some(event) => exists|k: int|
                    {
                        &&& 0 <= k < old(self).spec_records().len()
                        &&& old(self).spec_records()[k] == event.spec_record()
                        &&& !is_internal(event.spec_record())
                        &&& forall|j: int| 0 <= j < k ==> is_internal(#[trigger] old(self).spec_records()[j])
                        &&& final(self).spec_records() == old(self).spec_records().skip(k + 1)
                        &&& watched_paths(final(watching)@) == forget_ignored(
                            watched_paths(old(watching)@),
                            old(self).spec_records().take(k),
                        )
                    },
                None => {
                    &&& forall|j: int| 0 <= j < old(self).spec_records().len() ==> is_internal(
                        #[trigger] old(self).spec_records()[j],
                    )
                    &&& final(self).spec_records().len() == 0
                    &&& watched_paths(final(watching)@) == forget_ignored(
                        watched_paths(old(watching)@),
                        old(self).spec_records(),
                    )
                },
            },
    {
        proof {
            use_type_invariant(&*self);
        }
        let ghost all = self.spec_records();
        let ghost before = watched_paths(watching@);
        let ghost mut k: int = 0;
        proof {
            assert(all.skip(0) =~= all);
            assert(all.take(0) =~= Seq::<Record>::empty());
        }
        loop
            invariant
                self.buf@ == old(self).buf@,
                self.little_endian == old(self).little_endian,
                self.processed <= self.buf@.len(),
                all == old(self).spec_records(),
                before == watched_paths(old(watching)@),
                0 <= k <= all.len(),
                self.spec_records() == all.skip(k),
                forall|j: int| 0 <= j < k ==> is_internal(#[trigger] all[j]),
                watched_paths(watching@) == forget_ignored(before, all.take(k)),
            decreases self.buf@.len() - self.processed,
        {
            let read = read_record(self.buf.as_slice(), self.processed, self.little_endian);
            match read {
                None => {
                    proof {
                        assert(all.skip(k).len() == 0);
                        assert(all.take(k) =~= all);
                    }
                    return None;
                },
                Some((event, end)) => {
                    let ghost record = event.spec_record();
                    proof {
                        assert(self.spec_records() == seq![record] + records(self.buf@, end as int, self.little_endian));
                        assert(all[k] == all.skip(k)[0]);
                        assert(all.skip(k + 1) =~= all.skip(k).drop_first());
                        assert((seq![record] + records(self.buf@, end as int, self.little_endian)).drop_first()
                            =~= records(self.buf@, end as int, self.little_endian));
                        assert(all.take(k + 1).drop_last() =~= all.take(k));
                    }
                    self.processed = end;
                    if event.mask & IN_IGNORED != 0 {
                        let ghost map_before = watching@;
                        let _ = watching.remove(&event.wd);
                        proof {
                            assert(watched_paths(watching@) =~= watched_paths(map_before).remove(record.wd));
                            k = k + 1;
                        }
                    } else if event.mask & IN_Q_OVERFLOW != 0 {
                        proof {
                            k = k + 1;
                        }
                    } else {
                        return Some(event);
                    }
                },
            }
        }
    }

    /// The number of events left for the user.
    pub fn len(&self) -> (len: usize)
        ensures
            len == user_count(self.spec_records()),
    {
        proof {
            use_type_invariant(self);
        }
        let mut count: usize = 0;
        let mut at = self.processed;
        let ghost all = self.spec_records();
        loop
            invariant
                all == self.spec_records(),
                at <= self.buf@.len(),
                count + user_count(records(self.buf@, at as int, self.little_endian)) == user_count(all),
                count <= at,
            decreases self.buf@.len() - at,
        {
            let read = read_record(self.buf.as_slice(), at, self.little_endian);
            match read {
                None => {
                    proof {
                        assert(records(self.buf@, at as int, self.little_endian) =~= Seq::<Record>::empty());
                    }
                    return count;
                },
                Some((event, end)) => {
                    let ghost record = event.spec_record();
                    let ghost rest = records(self.buf@, end as int, self.little_endian);
                    proof {
                        assert(records(self.buf@, at as int, self.little_endian) == seq![record] + rest);
                        assert((seq![record] + rest).drop_first() =~= rest);
                    }
                    if event.mask & (IN_IGNORED | IN_Q_OVERFLOW) == 0 {
                        proof {
                            assert(!is_internal(record)) by {
                                let m = record.mask;
                                assert(m & (0x8000u32 | 0x4000u32) == 0 ==> m & 0x8000u32 == 0 && m & 0x4000u32 == 0)
                                    by (bit_vector);
                            }
                        }
                        count = count + 1;
                    } else {
                        proof {
                            assert(is_internal(record)) by {
                                let m = record.mask;
                                assert(m & (0x8000u32 | 0x4000u32) != 0 ==> m & 0x8000u32 != 0 || m & 0x4000u32 != 0)
                                    by (bit_vector);
                            }
                        }
                    }
                    at = end;
                },
            }
        }
    }

    /// Events are read no further than the bytes hold.
    #[verifier::type_invariant]
    spec fn within_buffer(self) -> bool {
        self.processed <= self.buf@.len()
    }
}

/// No watched paths yet.
pub fn new_watching() -> (watching: Watching)
    ensures
        watching@ == Map::<i32, Vec<u8>>::empty(),
{
    HashMapWithView::new()
}

/// Remembers that the watch with descriptor `wd` watches `path`.
pub fn add_watched(watching: &mut Watching, wd: i32, path: Vec<u8>)
    ensures
        final(watching)@ == old(watching)@.insert(wd, path),
{
    watching.insert(wd, path);
}

/// The path of an event, in parts: the full path is the watched path joined
/// with the path of the file within it.
pub enum PathFor<'a> {
    /// The event is for the watched file or directory itself.
    Watched(&'a [u8]),
    /// The event is for a file within the watched directory.
    Joined(&'a [u8], &'a [u8]),
    /// The watch is no longer known: only the path within the directory.
    File(&'a [u8]),
}

/// The path for `event`: the watched path where the event has no name of its
/// own, the watched path and the file's path where it has, and the file's path
/// alone where the watch is no longer known (see [`Events::next`]).
pub fn path_for<'a>(watching: &'a Watching, event: &'a Event) -> (path: PathFor<'a>)
    ensures
        match path {
            PathFor::Watched(dir) => watching@.contains_key(event.spec_record().wd) && dir@
                == watching@[event.spec_record().wd]@ && event.spec_record().name.len() == 0,
            PathFor::Joined(dir, file) => watching@.contains_key(event.spec_record().wd) && dir@
                == watching@[event.spec_record().wd]@ && event.spec_record().name.len() != 0 && file@
                == name_of(event.spec_record().name),
            PathFor::File(file) => !watching@.contains_key(event.spec_record().wd) && file@ == name_of(
                event.spec_record().name,
            ),
        },
{
    match watching.get(&event.wd) {
        Some(dir) => {
            if event.has_no_name() {
                PathFor::Watched(dir.as_slice())
            } else {
                PathFor::Joined(dir.as_slice(), event.file_path())
            }
        },
        None => PathFor::File(event.file_path()),
    }
}

/// The number of records of `records` that are handed to the user.
pub open spec fn user_count(records: Seq<Record>) -> nat
    decreases records.len(),
{
    if records.len() == 0 {
        0
    } else {
        (if is_internal(records[0]) {
            0nat
        } else {
            1nat
        }) + user_count(records.drop_first())
    }
}

/// Counting the events agrees with reading them: where the next event read is
/// the record at `k`, one fewer event is left after it, and where no event is
/// read, none was counted.
pub proof fn lemma_next_counts_down(records: Seq<Record>, k: int)
    requires
        0 <= k <= records.len(),
        forall|j: int| 0 <= j < k ==> is_internal(#[trigger] records[j]),
    ensures
        k < records.len() && !is_internal(records[k]) ==> user_count(records.skip(k + 1)) + 1 == user_count(
            records,
        ),
        k == records.len() ==> user_count(records) == 0,
    decreases k,
{
    if k == 0 {
        if records.len() > 0 {
            assert(records.drop_first() =~= records.skip(1));
        }
    } else {
        let rest = records.drop_first();
        assert forall|j: int| 0 <= j < k - 1 implies is_internal(#[trigger] rest[j]) by {
            assert(rest[j] == records[j + 1]);
        }
        lemma_next_counts_down(rest, k - 1);
        assert(is_internal(records[0]));
        if k < records.len() {
            assert(rest.skip(k) =~= records.skip(k + 1));
            assert(rest[k - 1] == records[k]);
        }
    }
}

} // verus!
