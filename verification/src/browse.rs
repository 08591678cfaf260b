//! The terminal client's state logic: the modes and panels it shows, the
//! virtual directory listing of keys, list navigation, line editing and the
//! progress of a background upload.
use vstd::prelude::*;

use crate::streaming::{before_slash, push_chars, stream_id_of, string_from_chars};
use crate::text::{chars_of, decimal, push_char, push_decimal, push_str, string_of};

verus! {

/// Progress reports from a background upload.
pub enum UploadEvent {
    Started { key: String, total_bytes: u64 },
    ChunkSent { bytes_sent: u64 },
    FileCompleted,
    FileFailed { key: String, error: String },
    Finished,
}

/// What the keyboard currently drives.
#[derive(Debug, Clone, Copy, PartialEq, Eq, Structural)]
pub enum InputMode {
    Normal,
    Search,
    PathBrowser,
    NewDirInput,
    StoreKey,
    FileBrowser,
    DeleteConfirm,
    DeleteDirConfirm,
    Detail,
    RenameInput,
    MkdirInput,
    Uploading,
}

/// Which panel has the focus.
#[derive(Debug, Clone, Copy, PartialEq, Eq, Structural)]
pub enum Panel {
    List,
    Detail,
}

/// The other panel.
pub fn toggle_panel(p: Panel) -> (r: Panel)
    ensures
        r == (if p == Panel::List {
            Panel::Detail
        } else {
            Panel::List
        }),
{
    match p {
        Panel::List => Panel::Detail,
        Panel::Detail => Panel::List,
    }
}

/// A local file or directory in the file browser.
#[derive(Debug, Clone)]
pub struct FileEntry {
    pub name: String,
    pub path: String,
    pub is_dir: bool,
    pub size: u64,
}

/// An entry of the key-space directory tree.
#[derive(Debug, Clone)]
pub struct PathEntry {
    pub name: String,
    pub is_dir: bool,
    pub item_count: usize,
}

/// An entry of the main listing: a directory of keys or an object.
#[derive(Debug, Clone)]
pub struct BrowseEntry {
    pub name: String,
    pub is_dir: bool,
    pub full_key: Option<String>,
    pub item_count: usize,
    pub size: u64,
}

// ----- list navigation -----

/// The selection after moving down one entry in a list of `len` entries.
pub fn next_index(selected: usize, len: usize) -> (r: usize)
    ensures
        len == 0 ==> r == selected,
        len > 0 ==> r == (if selected + 1 < len - 1 {
            selected + 1
        } else {
            len - 1
        }),
{
    if len == 0 {
        selected
    } else if selected < len - 1 {
        selected + 1
    } else {
        len - 1
    }
}

/// The selection after moving up `rows` entries.
pub fn up_index(selected: usize, rows: usize) -> (r: usize)
    ensures
        r == (if selected >= rows {
            selected - rows
        } else {
            0
        }),
{
    if selected >= rows {
        selected - rows
    } else {
        0
    }
}

/// The selection after moving down `rows` entries in a list of `len`.
pub fn down_index(selected: usize, rows: usize, len: usize) -> (r: usize)
    ensures
        len == 0 ==> r == selected,
        len > 0 ==> r == (if selected + rows < len - 1 {
            selected + rows
        } else {
            len - 1
        }),
{
    if len == 0 {
        selected
    } else if selected < len - 1 && rows < len - 1 - selected {
        selected + rows
    } else {
        len - 1
    }
}

/// The selection on the last entry (unchanged for an empty list).
pub fn last_index(selected: usize, len: usize) -> (r: usize)
    ensures
        r == (if len == 0 {
            selected
        } else {
            (len - 1) as usize
        }),
{
    if len == 0 {
        selected
    } else {
        len - 1
    }
}

/// The selection kept after the list was rebuilt with `len` entries: the
/// last entry when the old one is past the end.
pub fn clamp_index(selected: usize, len: usize) -> (r: usize)
    ensures
        r == (if selected < len {
            selected
        } else if len > 0 {
            (len - 1) as usize
        } else {
            0
        }),
{
    if selected < len {
        selected
    } else if len > 0 {
        len - 1
    } else {
        0
    }
}

/// The confirmation a delete asks for: of a whole directory when a
/// directory is selected, of one object when an object is; none otherwise.
pub fn delete_confirm_mode(selected_dir: bool, selected_object: bool) -> (r: Option<InputMode>)
    ensures
        r == (if selected_dir {
            Some(InputMode::DeleteDirConfirm)
        } else if selected_object {
            Some(InputMode::DeleteConfirm)
        } else {
            None::<InputMode>
        }),
{
    if selected_dir {
        Some(InputMode::DeleteDirConfirm)
    } else if selected_object {
        Some(InputMode::DeleteConfirm)
    } else {
        None
    }
}

/// The path prefix after confirming a new directory's name: the trimmed
/// name entered under the current prefix, or `None` when it is empty.
pub fn new_dir_prefix(path_prefix: &str, input: &str) -> (r: Option<String>)
    ensures
        ({
            let name = crate::server_key::trimmed(input@);
            match r {
                None => name.len() == 0,
                Some(p) => name.len() > 0 && p@ == child_prefix_spec(path_prefix@, name),
            }
        }),
{
    let name = crate::server_key::trim(input);
    if name.as_str().unicode_len() == 0 {
        return None;
    }
    Some(child_prefix(path_prefix, name.as_str()))
}

/// The first row shown of a list `rows` high, scrolled from `offset` just
/// enough that the selected entry shows.
pub open spec fn scroll_spec(selected: nat, offset: nat, rows: nat) -> nat {
    if selected < offset {
        selected
    } else if selected >= offset + rows {
        (selected - rows + 1) as nat
    } else {
        offset
    }
}

/// The first row shown of a list `rows` high (at least one) when scrolled
/// from `offset` so that entry `selected` shows.
pub fn scroll_offset(selected: usize, offset: usize, rows: usize) -> (r: usize)
    requires
        rows > 0,
    ensures
        r == scroll_spec(selected as nat, offset as nat, rows as nat),
        r <= selected < r + rows,
{
    if selected < offset {
        selected
    } else if selected - offset >= rows {
        selected - rows + 1
    } else {
        offset
    }
}

/// How the client shows a path prefix: `/` then the prefix.
pub fn path_display(prefix: &str) -> (r: String)
    ensures
        r@ == seq!['/'] + prefix@,
{
    let mut s = String::new();
    push_char(&mut s, '/');
    push_str(&mut s, prefix);
    s
}

/// Navigation keeps the selection inside a nonempty list.
pub proof fn lemma_navigation_stays_in_list(selected: usize, rows: usize, len: usize)
    requires
        len > 0,
        selected < len,
    ensures
        (if selected + 1 < len - 1 {
            selected + 1
        } else {
            len - 1
        }) < len,
        (if selected >= rows {
            selected - rows
        } else {
            0
        }) < len,
        (if selected + rows < len - 1 {
            selected + rows
        } else {
            len - 1
        }) < len,
{
}

// ----- key prefixes -----

/// `prefix + name + "/"`: the prefix of a directory entered.
pub open spec fn child_prefix_spec(prefix: Seq<char>, name: Seq<char>) -> Seq<char> {
    prefix + name + seq!['/']
}

pub fn child_prefix(prefix: &str, name: &str) -> (r: String)
    ensures
        r@ == child_prefix_spec(prefix@, name@),
{
    let mut s = string_of(prefix);
    push_str(&mut s, name);
    push_char(&mut s, '/');
    s
}

/// `s` with every trailing `/` removed.
pub open spec fn without_trailing_slashes(s: Seq<char>) -> Seq<char>
    decreases s.len(),
{
    if s.len() > 0 && s.last() == '/' {
        without_trailing_slashes(s.drop_last())
    } else {
        s
    }
}

/// `s` up to and including its last `/` (empty when it has none).
pub open spec fn through_last_slash(s: Seq<char>) -> Seq<char>
    decreases s.len(),
{
    if s.len() == 0 {
        s
    } else if s.last() == '/' {
        s
    } else {
        through_last_slash(s.drop_last())
    }
}

/// The prefix of the parent directory: the trailing slashes dropped, then
/// everything after the last remaining `/`.
pub open spec fn parent_prefix_spec(prefix: Seq<char>) -> Seq<char> {
    through_last_slash(without_trailing_slashes(prefix))
}

/// The prefix one directory up.
pub fn parent_prefix(prefix: &str) -> (r: String)
    ensures
        r@ == parent_prefix_spec(prefix@),
{
    let v = chars_of(prefix);
    let mut n = v.len();
    assert(v@.subrange(0, n as int) =~= v@);
    while n > 0 && v[n - 1] == '/'
        invariant
            n <= v@.len(),
            without_trailing_slashes(v@.subrange(0, n as int)) == without_trailing_slashes(v@),
        decreases n,
    {
        assert(v@.subrange(0, n as int).drop_last() =~= v@.subrange(0, n - 1));
        n = n - 1;
    }
    let ghost t = v@.subrange(0, n as int);
    assert(without_trailing_slashes(t) == t);
    let mut m = n;
    while m > 0 && v[m - 1] != '/'
        invariant
            m <= n <= v@.len(),
            t == v@.subrange(0, n as int),
            through_last_slash(v@.subrange(0, m as int)) == through_last_slash(t),
        decreases m,
    {
        assert(v@.subrange(0, m as int).drop_last() =~= v@.subrange(0, m - 1));
        m = m - 1;
    }
    string_from_chars(&v, 0, m)
}

// ----- line editing -----

/// A line being edited: its characters and the cursor position (in
/// characters).
pub struct TextInput {
    chars: Vec<char>,
    cursor: usize,
}

/// What a `TextInput` holds.
pub struct TextInputView {
    pub text: Seq<char>,
    pub cursor: nat,
}

impl View for TextInput {
    type V = TextInputView;

    closed spec fn view(&self) -> TextInputView {
        TextInputView { text: self.chars@, cursor: self.cursor as nat }
    }
}

impl TextInput {
    /// The cursor is within the text.
    pub open spec fn wf(&self) -> bool {
        self@.cursor <= self@.text.len()
    }

    /// An empty line.
    pub fn new() -> (r: Self)
        ensures
            r.wf(),
            r@.text == Seq::<char>::empty(),
            r@.cursor == 0,
    {
        TextInput { chars: Vec::new(), cursor: 0 }
    }

    /// A line holding `s`, with the cursor at its end.
    pub fn from_text(s: &str) -> (r: Self)
        ensures
            r.wf(),
            r@.text == s@,
            r@.cursor == s@.len(),
    {
        let chars = chars_of(s);
        let cursor = chars.len();
        TextInput { chars, cursor }
    }

    /// The text.
    pub fn text(&self) -> (r: String)
        ensures
            r@ == self@.text,
    {
        let mut s = String::new();
        push_chars(&mut s, &self.chars, 0, self.chars.len());
        assert(self.chars@.subrange(0, self.chars@.len() as int) =~= self.chars@);
        s
    }

    /// The cursor position in bytes of the text's UTF-8 encoding.
    pub fn byte_cursor(&self) -> (r: usize)
        requires
            self.wf(),
        ensures
            r == crate::keys::key_bytes(self@.text.take(self@.cursor as int)).len(),
    {
        let mut s = String::new();
        push_chars(&mut s, &self.chars, 0, self.cursor);
        let b = s.as_str().as_bytes().len();
        assert(s@ =~= self@.text.take(self@.cursor as int));
        b
    }

    /// Inserts `c` at the cursor and moves past it.
    pub fn insert_char(&mut self, c: char)
        requires
            old(self).wf(),
        ensures
            final(self).wf(),
            final(self)@.text == old(self)@.text.insert(old(self)@.cursor as int, c),
            final(self)@.cursor == old(self)@.cursor + 1,
    {
        self.chars.insert(self.cursor, c);
        let n = self.chars.len();
        assert(self.cursor < n);
        self.cursor = self.cursor + 1;
    }

    /// Removes the character before the cursor.
    pub fn backspace(&mut self)
        requires
            old(self).wf(),
        ensures
            final(self).wf(),
            old(self)@.cursor == 0 ==> final(self)@ == old(self)@,
            old(self)@.cursor > 0 ==> final(self)@.text == old(self)@.text.remove(
                old(self)@.cursor - 1,
            ) && final(self)@.cursor == old(self)@.cursor - 1,
    {
        if self.cursor > 0 {
            self.chars.remove(self.cursor - 1);
            self.cursor = self.cursor - 1;
        }
    }

    /// Removes the character at the cursor.
    pub fn delete(&mut self)
        requires
            old(self).wf(),
        ensures
            final(self).wf(),
            old(self)@.cursor == old(self)@.text.len() ==> final(self)@ == old(self)@,
            old(self)@.cursor < old(self)@.text.len() ==> final(self)@.text == old(self)@.text.remove(
                old(self)@.cursor as int,
            ) && final(self)@.cursor == old(self)@.cursor,
    {
        if self.cursor < self.chars.len() {
            self.chars.remove(self.cursor);
        }
    }

    /// Moves the cursor one character left.
    pub fn move_left(&mut self)
        requires
            old(self).wf(),
        ensures
            final(self).wf(),
            final(self)@.text == old(self)@.text,
            final(self)@.cursor == (if old(self)@.cursor > 0 {
                old(self)@.cursor - 1
            } else {
                0
            }),
    {
        if self.cursor > 0 {
            self.cursor = self.cursor - 1;
        }
    }

    /// Moves the cursor one character right.
    pub fn move_right(&mut self)
        requires
            old(self).wf(),
        ensures
            final(self).wf(),
            final(self)@.text == old(self)@.text,
            final(self)@.cursor == (if old(self)@.cursor < old(self)@.text.len() {
                old(self)@.cursor + 1
            } else {
                old(self)@.cursor
            }),
    {
        if self.cursor < self.chars.len() {
            self.cursor = self.cursor + 1;
        }
    }

    /// Moves the cursor to the start.
    pub fn home(&mut self)
        ensures
            final(self)@.text == old(self)@.text,
            final(self)@.cursor == 0,
            final(self).wf(),
    {
        self.cursor = 0;
    }

    /// Moves the cursor to the end.
    pub fn end(&mut self)
        ensures
            final(self)@.text == old(self)@.text,
            final(self)@.cursor == old(self)@.text.len(),
            final(self).wf(),
    {
        self.cursor = self.chars.len();
    }

    /// Empties the line.
    pub fn clear(&mut self)
        ensures
            final(self).wf(),
            final(self)@.text == Seq::<char>::empty(),
            final(self)@.cursor == 0,
    {
        self.chars = Vec::new();
        self.cursor = 0;
    }
}

/// Typing a character and deleting it with backspace restores the line.
pub proof fn lemma_insert_then_backspace(text: Seq<char>, cursor: nat, c: char)
    requires
        cursor <= text.len(),
    ensures
        text.insert(cursor as int, c).remove(cursor as int) == text,
{
    assert(text.insert(cursor as int, c).remove(cursor as int) =~= text);
}

// ----- background upload progress -----

/// The progress of a background upload, as the status bar shows it.
pub struct UploadProgress {
    /// Files in the upload.
    pub total: usize,
    /// Files started so far.
    pub current: usize,
    /// Files stored.
    pub successes: usize,
    /// `key: error` for each file that failed.
    pub errors: Vec<String>,
    /// The file being sent.
    pub current_key: String,
    /// Bytes of it sent.
    pub bytes_sent: u64,
    /// Its size.
    pub bytes_total: u64,
}

/// `Uploading i/n: key`.
pub open spec fn uploading_status(current: nat, total: nat, key: Seq<char>) -> Seq<char> {
    "Uploading "@ + decimal(current) + "/"@ + decimal(total) + ": "@ + key
}

/// The status shown when an upload ends: cancelled when fewer files were
/// done than planned, else the count stored (and failed).
pub open spec fn finish_status(successes: nat, errors: nat, total: nat) -> Seq<char> {
    if successes + errors < total {
        "Upload cancelled ("@ + decimal(successes) + "/"@ + decimal(total) + " completed, "@ + decimal(
            errors,
        ) + " errors)"@
    } else if errors == 0 {
        "Uploaded "@ + decimal(successes) + " files"@
    } else {
        "Uploaded "@ + decimal(successes) + "/"@ + decimal(total) + " files ("@ + decimal(errors)
            + " errors)"@
    }
}

impl UploadProgress {
    /// The progress of an upload of `total` files, before any event.
    pub fn new(total: usize) -> (r: Self)
        ensures
            r.total == total,
            r.current == 0,
            r.successes == 0,
            r.errors@.len() == 0,
            r.bytes_sent == 0,
            r.bytes_total == 0,
    {
        UploadProgress {
            total,
            current: 0,
            successes: 0,
            errors: Vec::new(),
            current_key: String::new(),
            bytes_sent: 0,
            bytes_total: 0,
        }
    }

    /// Applies one event. Returns whether the upload finished, and the new
    /// status text when the event changes it.
    pub fn apply(&mut self, event: UploadEvent) -> (r: (bool, Option<String>))
        requires
            old(self).current < usize::MAX,
            old(self).successes < usize::MAX,
        ensures
            final(self).total == old(self).total,
            match event {
                UploadEvent::Started { key, total_bytes } => {
                    &&& !r.0
                    &&& final(self).current == old(self).current + 1
                    &&& final(self).current_key@ == key@
                    &&& final(self).bytes_sent == 0
                    &&& final(self).bytes_total == total_bytes
                    &&& final(self).successes == old(self).successes
                    &&& final(self).errors@ == old(self).errors@
                    &&& r.1 matches Some(m) && m@ == uploading_status(
                        final(self).current as nat,
                        old(self).total as nat,
                        key@,
                    )
                },
                UploadEvent::ChunkSent { bytes_sent } => {
                    &&& !r.0 && r.1 is None
                    &&& final(self).bytes_sent == bytes_sent
                    &&& final(self).current == old(self).current
                    &&& final(self).successes == old(self).successes
                    &&& final(self).errors@ == old(self).errors@
                    &&& final(self).bytes_total == old(self).bytes_total
                },
                UploadEvent::FileCompleted => {
                    &&& !r.0 && r.1 is None
                    &&& final(self).successes == old(self).successes + 1
                    &&& final(self).bytes_sent == old(self).bytes_total
                    &&& final(self).current == old(self).current
                    &&& final(self).errors@ == old(self).errors@
                    &&& final(self).bytes_total == old(self).bytes_total
                },
                UploadEvent::FileFailed { key, error } => {
                    &&& !r.0 && r.1 is None
                    &&& final(self).errors@.len() == old(self).errors@.len() + 1
                    &&& final(self).errors@.last()@ == key@ + ": "@ + error@
                    &&& final(self).errors@.drop_last() == old(self).errors@
                    &&& final(self).current == old(self).current
                    &&& final(self).successes == old(self).successes
                    &&& final(self).bytes_sent == old(self).bytes_sent
                    &&& final(self).bytes_total == old(self).bytes_total
                },
                UploadEvent::Finished => {
                    &&& r.0
                    &&& final(self).current == old(self).current
                    &&& final(self).successes == old(self).successes
                    &&& final(self).errors@ == old(self).errors@
                    &&& r.1 matches Some(m) && m@ == finish_status(
                        old(self).successes as nat,
                        old(self).errors@.len(),
                        old(self).total as nat,
                    )
                },
            },
    {
        match event {
            UploadEvent::Started { key, total_bytes } => {
                self.current = self.current + 1;
                let mut m = string_of("Uploading ");
                push_decimal(&mut m, self.current as u64);
                push_str(&mut m, "/");
                push_decimal(&mut m, self.total as u64);
                push_str(&mut m, ": ");
                push_str(&mut m, &key);
                self.current_key = key;
                self.bytes_sent = 0;
                self.bytes_total = total_bytes;
                (false, Some(m))
            },
            UploadEvent::ChunkSent { bytes_sent } => {
                self.bytes_sent = bytes_sent;
                (false, None)
            },
            UploadEvent::FileCompleted => {
                self.successes = self.successes + 1;
                self.bytes_sent = self.bytes_total;
                (false, None)
            },
            UploadEvent::FileFailed { key, error } => {
                let mut m = key;
                push_str(&mut m, ": ");
                push_str(&mut m, &error);
                self.errors.push(m);
                (false, None)
            },
            UploadEvent::Finished => (true, Some(self.finish_status())),
        }
    }

    /// The status shown when the upload ends.
    pub fn finish_status(&self) -> (r: String)
        ensures
            r@ == finish_status(self.successes as nat, self.errors@.len(), self.total as nat),
    {
        let errors = self.errors.len();
        let cancelled = (self.successes as u128) + (errors as u128) < (self.total as u128);
        if cancelled {
            let mut m = string_of("Upload cancelled (");
            push_decimal(&mut m, self.successes as u64);
            push_str(&mut m, "/");
            push_decimal(&mut m, self.total as u64);
            push_str(&mut m, " completed, ");
            push_decimal(&mut m, errors as u64);
            push_str(&mut m, " errors)");
            m
        } else if errors == 0 {
            let mut m = string_of("Uploaded ");
            push_decimal(&mut m, self.successes as u64);
            push_str(&mut m, " files");
            m
        } else {
            let mut m = string_of("Uploaded ");
            push_decimal(&mut m, self.successes as u64);
            push_str(&mut m, "/");
            push_decimal(&mut m, self.total as u64);
            push_str(&mut m, " files (");
            push_decimal(&mut m, errors as u64);
            push_str(&mut m, " errors)");
            m
        }
    }
}

// ----- the key-space directory listing -----

/// `str::to_lowercase`.
pub uninterp spec fn lowercase_of(s: Seq<char>) -> Seq<char>;

/// `str::to_lowercase` (Unicode lowercase mapping).
#[verifier::external_body]
fn lowercase(s: &str) -> (r: String)
    ensures
        r@ == lowercase_of(s@),
{
    s.to_lowercase()
}

/// How many listed items each directory directly under `prefix` has.
pub open spec fn dir_counts(items: Seq<(Seq<char>, u64)>, prefix: Seq<char>) -> Map<Seq<char>, usize>
    decreases items.len(),
{
    if items.len() == 0 {
        Map::empty()
    } else {
        let m = dir_counts(items.drop_last(), prefix);
        match stream_id_of(items.last().0, prefix) {
            Some(d) => m.insert(
                d,
                if m.dom().contains(d) {
                    (m[d] + 1) as usize
                } else {
                    1
                },
            ),
            None => m,
        }
    }
}

/// Whether a name is shown: hidden names (starting with `.`) only when
/// hidden files are shown.
pub open spec fn visible(name: Seq<char>, show_hidden: bool) -> bool {
    show_hidden || !(name.len() > 0 && name[0] == '.')
}

/// The file name an item has directly under `prefix`: the rest of its key,
/// when nonempty and free of `/`.
pub open spec fn file_name_of(key: Seq<char>, prefix: Seq<char>) -> Option<Seq<char>> {
    let rest = key.skip(prefix.len() as int);
    if prefix.is_prefix_of(key) && rest.len() > 0 && !rest.contains('/') {
        Some(rest)
    } else {
        None
    }
}

/// The files directly under `prefix` that are shown, in item order: name,
/// key and size.
pub open spec fn listed_files(items: Seq<(Seq<char>, u64)>, prefix: Seq<char>, show_hidden: bool) -> Seq<
    (Seq<char>, Seq<char>, u64),
>
    decreases items.len(),
{
    if items.len() == 0 {
        Seq::empty()
    } else {
        let prev = listed_files(items.drop_last(), prefix, show_hidden);
        match file_name_of(items.last().0, prefix) {
            Some(n) => if visible(n, show_hidden) {
                prev.push((n, items.last().0, items.last().1))
            } else {
                prev
            },
            None => prev,
        }
    }
}

/// How many leading files have a lowercased name not above `lower`.
pub open spec fn not_above(s: Seq<(Seq<char>, Seq<char>, u64)>, lower: Seq<char>) -> nat
    decreases s.len(),
{
    if s.len() > 0 && !crate::keys::key_lt(lower, lowercase_of(s[0].0)) {
        1 + not_above(s.drop_first(), lower)
    } else {
        0
    }
}

/// Files ordered by lowercased name; equal names keep their order (a
/// stable sort).
pub open spec fn by_lowercase_name(s: Seq<(Seq<char>, Seq<char>, u64)>) -> Seq<(Seq<char>, Seq<char>, u64)>
    decreases s.len(),
{
    if s.len() == 0 {
        s
    } else {
        let t = by_lowercase_name(s.drop_last());
        t.insert(not_above(t, lowercase_of(s.last().0)) as int, s.last())
    }
}

/// The directories that are shown, in key order, with their counts.
pub open spec fn visible_dirs(s: Seq<(Seq<char>, usize)>, show_hidden: bool) -> Seq<(Seq<char>, usize)>
    decreases s.len(),
{
    if s.len() == 0 {
        s
    } else {
        let prev = visible_dirs(s.drop_last(), show_hidden);
        if visible(s.last().0, show_hidden) {
            prev.push(s.last())
        } else {
            prev
        }
    }
}

/// What a `BrowseEntry` holds.
pub struct BrowseView {
    pub name: Seq<char>,
    pub is_dir: bool,
    pub full_key: Option<Seq<char>>,
    pub item_count: usize,
    pub size: u64,
}

impl View for BrowseEntry {
    type V = BrowseView;

    open spec fn view(&self) -> BrowseView {
        BrowseView {
            name: self.name@,
            is_dir: self.is_dir,
            full_key: match self.full_key {
                Some(k) => Some(k@),
                None => None,
            },
            item_count: self.item_count,
            size: self.size,
        }
    }
}

/// The entries for directories with their counts.
pub open spec fn dir_entries(s: Seq<(Seq<char>, usize)>) -> Seq<BrowseView> {
    s.map_values(
        |e: (Seq<char>, usize)|
            BrowseView { name: e.0, is_dir: true, full_key: None, item_count: e.1, size: 0 },
    )
}

/// The entries for files (name, key, size).
pub open spec fn file_entries(s: Seq<(Seq<char>, Seq<char>, u64)>) -> Seq<BrowseView> {
    s.map_values(
        |f: (Seq<char>, Seq<char>, u64)|
            BrowseView { name: f.0, is_dir: false, full_key: Some(f.1), item_count: 0, size: f.2 },
    )
}

/// The views of listing entries.
pub open spec fn browse_views(s: Seq<BrowseEntry>) -> Seq<BrowseView> {
    s.map_values(|e: BrowseEntry| e@)
}

/// The files gathered for a listing: name, key, size and lowercased name.
pub open spec fn gathered_views(s: Seq<(String, String, u64, String)>) -> Seq<(Seq<char>, Seq<char>, u64)> {
    s.map_values(|f: (String, String, u64, String)| (f.0@, f.1@, f.2))
}

/// The listing of the key space one level under `prefix`: the directories
/// (in key order, with how many items each holds), then the files (by
/// lowercased name).
pub open spec fn browse_listing(items: Seq<(Seq<char>, u64)>, prefix: Seq<char>, show_hidden: bool) -> Seq<
    BrowseView,
> {
    dir_entries(visible_dirs(crate::index::sorted_entries(dir_counts(items, prefix)), show_hidden))
        + file_entries(by_lowercase_name(listed_files(items, prefix, show_hidden)))
}

/// The views of listed items.
pub open spec fn item_views(items: Seq<(String, u64)>) -> Seq<(Seq<char>, u64)> {
    items.map_values(|i: (String, u64)| (i.0@, i.1))
}

proof fn lemma_not_above(s: Seq<(Seq<char>, Seq<char>, u64)>, lower: Seq<char>, i: int)
    requires
        0 <= i <= s.len(),
        forall|j: int| 0 <= j < i ==> !crate::keys::key_lt(lower, lowercase_of((#[trigger] s[j]).0)),
        i == s.len() || crate::keys::key_lt(lower, lowercase_of(s[i].0)),
    ensures
        not_above(s, lower) == i,
    decreases i,
{
    if i > 0 {
        let t = s.drop_first();
        assert forall|j: int| 0 <= j < i - 1 implies !crate::keys::key_lt(lower, lowercase_of((#[trigger] t[j]).0)) by {
            assert(t[j] == s[j + 1]);
        }
        if i < s.len() {
            assert(t[i - 1] == s[i]);
        }
        lemma_not_above(t, lower, i - 1);
    }
}

/// Counts the items of each directory directly under `prefix`.
fn count_dirs(items: &Vec<(String, u64)>, prefix: &str) -> (r: crate::sorted_map::SortedMap<usize>)
    ensures
        r.wf(),
        crate::index::to_map(r@) == dir_counts(item_views(items@), prefix@),
{
    let ghost views = item_views(items@);
    let mut counts: crate::sorted_map::SortedMap<usize> = crate::sorted_map::SortedMap::new();
    let mut i: usize = 0;
    assert(views.take(0) =~= Seq::<(Seq<char>, u64)>::empty());
    assert(crate::index::to_map(counts@) =~= Map::<Seq<char>, usize>::empty());
    while i < items.len()
        invariant
            i <= items@.len(),
            views == item_views(items@),
            counts.wf(),
            crate::index::to_map(counts@) == dir_counts(views.take(i as int), prefix@),
            forall|k: Seq<char>| #[trigger] crate::index::to_map(counts@).dom().contains(k)
                ==> crate::index::to_map(counts@)[k] <= i,
        decreases items@.len() - i,
    {
        let it = &items[i];
        assert(views.take(i + 1).drop_last() =~= views.take(i as int));
        assert(views.take(i + 1).last() == (it.0@, it.1));
        match crate::streaming::stream_id_in(&it.0, prefix) {
            Some(d) => {
                let ghost s0 = counts@;
                let ghost dv = d@;
                proof {
                    crate::index::lemma_to_map_sorted(s0, dv);
                }
                let c: usize = match counts.get(&d) {
                    Some(c) => *c + 1,
                    None => 1,
                };
                counts.insert(d, c);
                proof {
                    crate::streaming::lemma_to_map_insert(s0, counts@, dv, c);
                    assert forall|k: Seq<char>| #[trigger] crate::index::to_map(counts@).dom().contains(k) implies crate::index::to_map(counts@)[k] <= i + 1 by {
                        if k != dv {
                            assert(crate::index::to_map(s0).dom().contains(k));
                        }
                    }
                }
            },
            None => {},
        }
        i = i + 1;
    }
    assert(views.take(items@.len() as int) =~= views);
    counts
}

/// The file name an item has directly under `prefix`.
fn file_name_in(key: &str, prefix: &str) -> (r: Option<String>)
    ensures
        crate::index::opt_string_view(r) == file_name_of(key@, prefix@),
{
    let k = chars_of(key);
    let p = chars_of(prefix);
    if k.len() <= p.len() {
        proof {
            if p@.is_prefix_of(k@) {
                assert(k@.skip(p@.len() as int).len() == 0);
            }
        }
        return None;
    }
    let mut i: usize = 0;
    while i < p.len()
        invariant
            i <= p@.len() < k@.len(),
            k@ == key@,
            p@ == prefix@,
            forall|j: int| 0 <= j < i ==> p@[j] == k@[j],
        decreases p@.len() - i,
    {
        if p[i] != k[i] {
            assert(k@.subrange(0, p@.len() as int)[i as int] != p@[i as int]);
            return None;
        }
        i = i + 1;
    }
    assert(p@.is_prefix_of(k@));
    let ghost rest = k@.skip(p@.len() as int);
    let mut j = p.len();
    while j < k.len()
        invariant
            p@.len() <= j <= k@.len(),
            k@ == key@,
            p@ == prefix@,
            p@.is_prefix_of(k@),
            rest == k@.skip(p@.len() as int),
            forall|q: int| p@.len() <= q < j ==> k@[q] != '/',
        decreases k@.len() - j,
    {
        if k[j] == '/' {
            assert(rest[j - p@.len()] == '/');
            assert(rest.contains('/'));
            return None;
        }
        j = j + 1;
    }
    assert(!rest.contains('/')) by {
        if rest.contains('/') {
            let q = choose|q: int| 0 <= q < rest.len() && rest[q] == '/';
            assert(k@[p@.len() + q] == '/');
        }
    }
    assert(rest =~= k@.subrange(p@.len() as int, k@.len() as int));
    Some(string_from_chars(&k, p.len(), k.len()))
}

/// Whether a name is shown.
fn is_visible(name: &str, show_hidden: bool) -> (r: bool)
    ensures
        r == visible(name@, show_hidden),
{
    if show_hidden {
        return true;
    }
    let v = chars_of(name);
    !(v.len() > 0 && v[0] == '.')
}

/// The listing of the key space one level under `prefix`, over the items
/// `(key, size)` shown.
pub fn browse_entries(items: &Vec<(String, u64)>, prefix: &str, show_hidden: bool) -> (r: Vec<BrowseEntry>)
    ensures
        browse_views(r@) == browse_listing(item_views(items@), prefix@, show_hidden),
{
    let ghost views = item_views(items@);
    let counts = count_dirs(items, prefix);
    let ghost all = counts@;
    proof {
        crate::index::lemma_sorted_entries_of(all);
    }
    let mut out = dir_list(&counts, show_hidden);
    let files = gathered_files(items, prefix, show_hidden);
    let ghost fs = gathered_views(files@);
    let ghost dv = browse_views(out@);
    let mut q: usize = 0;
    assert(browse_views(out@) =~= dv + file_entries(fs.take(0)));
    while q < files.len()
        invariant
            q <= files@.len(),
            fs == gathered_views(files@),
            browse_views(out@) == dv + file_entries(fs.take(q as int)),
        decreases files@.len() - q,
    {
        let f = &files[q];
        let ghost o0 = out@;
        let e = BrowseEntry { name: f.0.clone(), is_dir: false, full_key: Some(f.1.clone()), item_count: 0, size: f.2 };
        let ghost ev = e@;
        out.push(e);
        assert(fs[q as int] == (f.0@, f.1@, f.2));
        assert(file_entries(fs.take(q + 1)) =~= file_entries(fs.take(q as int)).push(ev));
        assert(browse_views(out@) =~= browse_views(o0).push(ev));
        q = q + 1;
    }
    assert(fs.take(files@.len() as int) =~= fs);
    out
}

/// The shown directories, in key order, as entries.
fn dir_list(counts: &crate::sorted_map::SortedMap<usize>, show_hidden: bool) -> (r: Vec<BrowseEntry>)
    requires
        counts.wf(),
    ensures
        browse_views(r@) == dir_entries(visible_dirs(counts@, show_hidden)),
{
    let ghost all = counts@;
    let mut dirs: Vec<BrowseEntry> = Vec::new();
    let mut i: usize = 0;
    assert(all.take(0) =~= Seq::<(Seq<char>, usize)>::empty());
    assert(browse_views(dirs@) =~= Seq::<BrowseView>::empty());
    assert(dir_entries(visible_dirs(all.take(0), show_hidden)) =~= Seq::<BrowseView>::empty());
    while i < counts.len()
        invariant
            i <= counts@.len(),
            all == counts@,
            browse_views(dirs@) == dir_entries(visible_dirs(all.take(i as int), show_hidden)),
        decreases counts@.len() - i,
    {
        let name = counts.key_at(i);
        let c = *counts.value_at(i);
        let ghost d0 = dirs@;
        assert(all.take(i + 1).drop_last() =~= all.take(i as int));
        assert(all.take(i + 1).last() == all[i as int]);
        if is_visible(name.as_str(), show_hidden) {
            let e = BrowseEntry { name: name.clone(), is_dir: true, full_key: None, item_count: c, size: 0 };
            let ghost ev = e@;
            dirs.push(e);
            assert(browse_views(dirs@) =~= browse_views(d0).push(ev));
            assert(dir_entries(visible_dirs(all.take(i + 1), show_hidden)) =~= dir_entries(
                visible_dirs(all.take(i as int), show_hidden),
            ).push(ev));
        }
        i = i + 1;
    }
    assert(all.take(counts@.len() as int) =~= all);
    dirs
}

/// Where a file with lowercased name `lower` goes among files sorted by
/// lowercased name: after every file whose name is not above it.
fn insertion_point(files: &Vec<(String, String, u64, String)>, lower: &String) -> (j: usize)
    requires
        forall|q: int| 0 <= q < files@.len() ==> (#[trigger] files@[q]).3@ == lowercase_of(files@[q].0@),
    ensures
        j <= files@.len(),
        j == not_above(gathered_views(files@), lower@),
{
    let ghost t = gathered_views(files@);
    let mut j: usize = 0;
    let mut stop = false;
    while j < files.len() && !stop
        invariant
            j <= files@.len(),
            t == gathered_views(files@),
            forall|q: int| 0 <= q < files@.len() ==> (#[trigger] files@[q]).3@ == lowercase_of(files@[q].0@),
            forall|q: int| 0 <= q < j ==> !crate::keys::key_lt(lower@, lowercase_of((#[trigger] t[q]).0)),
            stop ==> j < files@.len() && crate::keys::key_lt(lower@, lowercase_of(t[j as int].0)),
        decreases files@.len() - j + (if stop {
            0int
        } else {
            1int
        }),
    {
        assert(t[j as int].0 == files@[j as int].0@);
        match crate::keys::key_order(lower.as_str(), files[j].3.as_str()) {
            crate::keys::KeyOrder::Less => {
                stop = true;
            },
            _ => {
                j = j + 1;
            },
        }
    }
    proof {
        lemma_not_above(t, lower@, j as int);
    }
    j
}

/// The shown files directly under `prefix`, sorted by lowercased name.
fn gathered_files(items: &Vec<(String, u64)>, prefix: &str, show_hidden: bool) -> (r: Vec<(String, String, u64, String)>)
    ensures
        gathered_views(r@) == by_lowercase_name(listed_files(item_views(items@), prefix@, show_hidden)),
{
    let ghost views = item_views(items@);
    let mut files: Vec<(String, String, u64, String)> = Vec::new();
    let mut k: usize = 0;
    assert(views.take(0) =~= Seq::<(Seq<char>, u64)>::empty());
    assert(gathered_views(files@) =~= Seq::<(Seq<char>, Seq<char>, u64)>::empty());
    while k < items.len()
        invariant
            k <= items@.len(),
            views == item_views(items@),
            gathered_views(files@) == by_lowercase_name(listed_files(views.take(k as int), prefix@, show_hidden)),
            forall|q: int| 0 <= q < files@.len() ==> (#[trigger] files@[q]).3@ == lowercase_of(files@[q].0@),
        decreases items@.len() - k,
    {
        let it = &items[k];
        assert(views.take(k + 1).drop_last() =~= views.take(k as int));
        assert(views.take(k + 1).last() == (it.0@, it.1));
        let ghost prev = listed_files(views.take(k as int), prefix@, show_hidden);
        match file_name_in(&it.0, prefix) {
            Some(n) => {
                if is_visible(n.as_str(), show_hidden) {
                    let lower = lowercase(n.as_str());
                    let ghost t = gathered_views(files@);
                    proof {
                        let entry = (n@, it.0@, it.1);
                        assert(listed_files(views.take(k + 1), prefix@, show_hidden) == prev.push(entry));
                        assert(prev.push(entry).drop_last() =~= prev);
                        assert(by_lowercase_name(prev.push(entry)) == by_lowercase_name(prev).insert(
                            not_above(by_lowercase_name(prev), lowercase_of(n@)) as int,
                            entry,
                        ));
                    }
                    let j = insertion_point(&files, &lower);
                    let ghost entry = (n@, it.0@, it.1);
                    let ghost f0 = files@;
                    let key = it.0.clone();
                    files.insert(j, (n, key, it.1, lower));
                    assert(gathered_views(files@) =~= t.insert(j as int, entry));
                    assert forall|q: int| 0 <= q < files@.len() implies (#[trigger] files@[q]).3@ == lowercase_of(files@[q].0@) by {
                        if q < j {
                            assert(files@[q] == f0[q]);
                        } else if q > j {
                            assert(files@[q] == f0[q - 1]);
                        }
                    }
                }
            },
            None => {},
        }
        k = k + 1;
    }
    assert(views.take(items@.len() as int) =~= views);
    files
}

/// What a `PathEntry` holds.
pub struct PathView {
    pub name: Seq<char>,
    pub is_dir: bool,
    pub item_count: usize,
}

/// The views of path entries.
pub open spec fn path_views(s: Seq<PathEntry>) -> Seq<PathView> {
    s.map_values(|e: PathEntry| PathView { name: e.name@, is_dir: e.is_dir, item_count: e.item_count })
}

/// A listing entry as a path-browser entry.
pub open spec fn as_path_view(b: BrowseView) -> PathView {
    PathView { name: b.name, is_dir: b.is_dir, item_count: b.item_count }
}

/// Keys as listed items of size 0.
pub open spec fn keys_as_items(keys: Seq<String>) -> Seq<(Seq<char>, u64)> {
    keys.map_values(|k: String| (k@, 0u64))
}

/// The key-space directory tree one level under `prefix`: directories
/// first (with their item counts), then files by lowercased name; hidden
/// names included.
pub fn path_entries(keys: &Vec<String>, prefix: &str) -> (r: Vec<PathEntry>)
    ensures
        path_views(r@) == browse_listing(keys_as_items(keys@), prefix@, true).map_values(
            |b: BrowseView| as_path_view(b),
        ),
{
    let mut items: Vec<(String, u64)> = Vec::new();
    let mut i: usize = 0;
    while i < keys.len()
        invariant
            i <= keys@.len(),
            item_views(items@) == keys_as_items(keys@).take(i as int),
        decreases keys@.len() - i,
    {
        let ghost i0 = items@;
        items.push((keys[i].clone(), 0));
        assert(item_views(items@) =~= item_views(i0).push((keys@[i as int]@, 0u64)));
        assert(keys_as_items(keys@).take(i + 1) =~= keys_as_items(keys@).take(i as int).push((keys@[i as int]@, 0u64)));
        i = i + 1;
    }
    assert(keys_as_items(keys@).take(keys@.len() as int) =~= keys_as_items(keys@));
    let listed = browse_entries(&items, prefix, true);
    let ghost bv = browse_views(listed@);
    let mut out: Vec<PathEntry> = Vec::new();
    let mut j: usize = 0;
    while j < listed.len()
        invariant
            j <= listed@.len(),
            bv == browse_views(listed@),
            path_views(out@) == bv.take(j as int).map_values(|b: BrowseView| as_path_view(b)),
        decreases listed@.len() - j,
    {
        let b = &listed[j];
        let ghost o0 = out@;
        out.push(PathEntry { name: b.name.clone(), is_dir: b.is_dir, item_count: b.item_count });
        assert(path_views(out@) =~= path_views(o0).push(as_path_view(bv[j as int])));
        assert(bv.take(j + 1).map_values(|b: BrowseView| as_path_view(b)) =~= bv.take(j as int).map_values(
            |b: BrowseView| as_path_view(b),
        ).push(as_path_view(bv[j as int])));
        j = j + 1;
    }
    assert(bv.take(listed@.len() as int) =~= bv);
    out
}

/// Whether `needle` occurs in `hay` at position `i`.
pub open spec fn text_at(hay: Seq<char>, needle: Seq<char>, i: int) -> bool {
    0 <= i && i + needle.len() <= hay.len() && hay.subrange(i, i + needle.len()) == needle
}

/// Whether `needle` occurs in `hay`.
pub open spec fn contains_text(hay: Seq<char>, needle: Seq<char>) -> bool {
    exists|i: int| #[trigger] text_at(hay, needle, i)
}

/// Whether `needle` occurs in `hay`.
fn find_text(hay: &Vec<char>, needle: &Vec<char>) -> (r: bool)
    ensures
        r == contains_text(hay@, needle@),
{
    let n = hay.len();
    let m = needle.len();
    if m > n {
        assert(!contains_text(hay@, needle@)) by {
            if contains_text(hay@, needle@) {
                let p = choose|p: int| #[trigger] text_at(hay@, needle@, p);
            }
        }
        return false;
    }
    let mut i: usize = 0;
    while i <= n - m
        invariant
            n == hay@.len(),
            m == needle@.len(),
            m <= n,
            i <= n - m + 1,
            forall|p: int| 0 <= p < i ==> !text_at(hay@, needle@, p),
        decreases n - m + 1 - i,
    {
        let mut j: usize = 0;
        let mut same = true;
        while j < m && same
            invariant
                i + m <= n,
                n == hay@.len(),
                m == needle@.len(),
                j <= m,
                same ==> forall|q: int| 0 <= q < j ==> hay@[i + q] == needle@[q],
                !same ==> j < m && hay@[i + j] != needle@[j as int],
            decreases m - j + (if same { 1int } else { 0int }),
        {
            if hay[i + j] != needle[j] {
                same = false;
            } else {
                j = j + 1;
            }
        }
        if same {
            assert(hay@.subrange(i as int, i + m) =~= needle@);
            assert(text_at(hay@, needle@, i as int));
            return true;
        }
        assert(hay@.subrange(i as int, i + m)[j as int] != needle@[j as int]);
        assert(!text_at(hay@, needle@, i as int));
        i = i + 1;
    }
    assert(!contains_text(hay@, needle@)) by {
        if contains_text(hay@, needle@) {
            let p = choose|p: int| #[trigger] text_at(hay@, needle@, p);
            assert(p < i);
        }
    }
    false
}

/// Whether an item (key, content type) matches a search: its key or its
/// content type contains the lowercased query, compared lowercased.
pub open spec fn matches_query(key: Seq<char>, content_type: Seq<char>, query: Seq<char>) -> bool {
    contains_text(lowercase_of(key), lowercase_of(query)) || contains_text(
        lowercase_of(content_type),
        lowercase_of(query),
    )
}

/// The positions of the items a search shows: all of them for an empty
/// query, else those matching it, in order.
pub open spec fn search_hits(items: Seq<(Seq<char>, Seq<char>)>, query: Seq<char>) -> Seq<usize>
    decreases items.len(),
{
    if items.len() == 0 {
        Seq::empty()
    } else {
        let prev = search_hits(items.drop_last(), query);
        if query.len() == 0 || matches_query(items.last().0, items.last().1, query) {
            prev.push((items.len() - 1) as usize)
        } else {
            prev
        }
    }
}

/// The views of (key, content type) items.
pub open spec fn pair_views(items: Seq<(String, String)>) -> Seq<(Seq<char>, Seq<char>)> {
    items.map_values(|i: (String, String)| (i.0@, i.1@))
}

/// Applies a search to the listed items `(key, content type)`.
pub fn filter_items(items: &Vec<(String, String)>, query: &str) -> (r: Vec<usize>)
    ensures
        r@ == search_hits(pair_views(items@), query@),
{
    let ghost views = pair_views(items@);
    let q = chars_of(lowercase(query).as_str());
    let empty = query.is_empty();
    let mut out: Vec<usize> = Vec::new();
    let mut i: usize = 0;
    assert(views.take(0) =~= Seq::<(Seq<char>, Seq<char>)>::empty());
    while i < items.len()
        invariant
            i <= items@.len(),
            views == pair_views(items@),
            q@ == lowercase_of(query@),
            empty == (query@.len() == 0),
            out@ == search_hits(views.take(i as int), query@),
        decreases items@.len() - i,
    {
        let it = &items[i];
        assert(views.take(i + 1).drop_last() =~= views.take(i as int));
        assert(views.take(i + 1).last() == (it.0@, it.1@));
        let hit = if empty {
            true
        } else {
            let k = chars_of(lowercase(it.0.as_str()).as_str());
            if find_text(&k, &q) {
                true
            } else {
                let c = chars_of(lowercase(it.1.as_str()).as_str());
                find_text(&c, &q)
            }
        };
        if hit {
            out.push(i);
        }
        i = i + 1;
    }
    assert(views.take(items@.len() as int) =~= views);
    out
}


/// What a rename entered in the client comes to, before any request is sent.
pub enum RenamePlan {
    /// The new name is empty once trimmed: "Key cannot be empty".
    EmptyKey,
    /// The new name is the old one: "Name unchanged".
    Unchanged,
    /// A directory under which no listed key lies; holds the prefix looked for.
    NothingUnder(String),
    /// The renames to request, each `(from, to)`, in the order of the listing.
    Moves(Vec<(String, String)>),
}

/// The renames that moving the directory prefix `from` to `to` asks for, one
/// for each key under `from`, in the order of `keys`.
pub open spec fn dir_moves(keys: Seq<Seq<char>>, from: Seq<char>, to: Seq<char>) -> Seq<
    (Seq<char>, Seq<char>),
>
    decreases keys.len(),
{
    if keys.len() == 0 {
        Seq::empty()
    } else {
        let k = keys.last();
        let rest = dir_moves(keys.drop_last(), from, to);
        if from.is_prefix_of(k) {
            rest.push((k, to + k.skip(from.len() as int)))
        } else {
            rest
        }
    }
}

pub open spec fn key_views(keys: Seq<String>) -> Seq<Seq<char>> {
    keys.map_values(|k: String| k@)
}

/// What a rename starts from, for the selected entry of the listing under
/// `prefix`: a directory's full prefix without its slash, or an object's
/// key; `None` when nothing renamable is selected.
pub fn rename_target(prefix: &str, selected: Option<&BrowseEntry>) -> (r: Option<(String, bool)>)
    ensures
        match selected {
            None => r is None,
            Some(e) => if e.is_dir {
                r matches Some((k, d)) && d && k@ == prefix@ + e.name@
            } else {
                match e.full_key {
                    Some(key) => r matches Some((k, d)) && !d && k@ == key@,
                    None => r is None,
                }
            },
        },
{
    match selected {
        None => None,
        Some(e) => {
            if e.is_dir {
                let mut k = string_of(prefix);
                push_str(&mut k, e.name.as_str());
                Some((k, true))
            } else {
                match &e.full_key {
                    Some(key) => Some((key.clone(), false)),
                    None => None,
                }
            }
        },
    }
}

/// Plans a rename: `input` is what was typed, `current` the key (or, for a
/// directory, the prefix without its slash) that was selected, and `keys`
/// the listed keys.
pub fn plan_rename(input: &str, current: &str, is_dir: bool, keys: &Vec<String>) -> (r:
    RenamePlan)
    ensures
        ({
            let new = crate::server_key::trimmed(input@);
            let from = current@.push('/');
            let moves = dir_moves(key_views(keys@), from, new.push('/'));
            match r {
                RenamePlan::EmptyKey => new.len() == 0,
                RenamePlan::Unchanged => new.len() > 0 && new == current@,
                RenamePlan::NothingUnder(p) => new.len() > 0 && new != current@ && is_dir
                    && moves.len() == 0 && p@ == from,
                RenamePlan::Moves(m) => new.len() > 0 && new != current@ && pair_views(m@) == (
                if is_dir {
                    moves
                } else {
                    seq![(current@, new)]
                }) && m@.len() > 0,
            }
        }),
{
    let new_path = crate::server_key::trim(input);
    if new_path.as_str().unicode_len() == 0 {
        return RenamePlan::EmptyKey;
    }
    if crate::keys::key_eq(new_path.as_str(), current) {
        return RenamePlan::Unchanged;
    }
    if !is_dir {
        let mut m: Vec<(String, String)> = Vec::new();
        m.push((string_of(current), new_path));
        assert(pair_views(m@) =~= seq![(current@, crate::server_key::trimmed(input@))]);
        return RenamePlan::Moves(m);
    }
    let mut from = string_of(current);
    push_char(&mut from, '/');
    let mut to = new_path.clone();
    push_char(&mut to, '/');
    let f = chars_of(from.as_str());
    let ghost views = key_views(keys@);
    let mut m: Vec<(String, String)> = Vec::new();
    let mut i: usize = 0;
    while i < keys.len()
        invariant
            i <= keys@.len(),
            views == key_views(keys@),
            f@ == from@,
            from@ == current@.push('/'),
            to@ == crate::server_key::trimmed(input@).push('/'),
            pair_views(m@) == dir_moves(views.take(i as int), from@, to@),
        decreases keys@.len() - i,
    {
        assert(views.take(i + 1).drop_last() =~= views.take(i as int));
        assert(views.take(i + 1).last() == keys@[i as int]@);
        let k = chars_of(keys[i].as_str());
        if crate::text::starts_with_chars(&k, &f) {
            let mut t = to.clone();
            push_chars(&mut t, &k, f.len(), k.len());
            assert(k@.subrange(f@.len() as int, k@.len() as int) =~= k@.skip(f@.len() as int));
            let ghost before = m@;
            m.push((keys[i].clone(), t));
            assert(pair_views(m@) =~= pair_views(before).push((keys@[i as int]@, t@)));
        }
        i = i + 1;
    }
    assert(views.take(keys@.len() as int) =~= views);
    if m.len() == 0 {
        return RenamePlan::NothingUnder(from);
    }
    RenamePlan::Moves(m)
}


// ----- the local file browser -----

/// A local entry as plain values: `(name, path, is_dir, size)`.
pub open spec fn file_views(s: Seq<FileEntry>) -> Seq<(Seq<char>, Seq<char>, bool, u64)> {
    s.map_values(|e: FileEntry| (e.name@, e.path@, e.is_dir, e.size))
}

/// The shown entries that are directories (or, for `dirs` false, files), in
/// the order given, as `(name, path, size)`.
pub open spec fn shown_of_kind(s: Seq<(Seq<char>, Seq<char>, bool, u64)>, dirs: bool, show_hidden: bool) -> Seq<
    (Seq<char>, Seq<char>, u64),
>
    decreases s.len(),
{
    if s.len() == 0 {
        Seq::empty()
    } else {
        let e = s.last();
        let rest = shown_of_kind(s.drop_last(), dirs, show_hidden);
        if e.2 == dirs && visible(e.0, show_hidden) {
            rest.push((e.0, e.1, e.3))
        } else {
            rest
        }
    }
}

/// `(name, path, size)` entries marked as directories or files.
pub open spec fn tagged(s: Seq<(Seq<char>, Seq<char>, u64)>, is_dir: bool) -> Seq<
    (Seq<char>, Seq<char>, bool, u64),
> {
    s.map_values(|e: (Seq<char>, Seq<char>, u64)| (e.0, e.1, is_dir, e.2))
}

/// The file browser's listing of a directory: the shown directories, then
/// the shown files, each ordered by lowercased name, equal names in the
/// order read.
pub open spec fn local_listing(s: Seq<(Seq<char>, Seq<char>, bool, u64)>, show_hidden: bool) -> Seq<
    (Seq<char>, Seq<char>, bool, u64),
> {
    tagged(by_lowercase_name(shown_of_kind(s, true, show_hidden)), true) + tagged(
        by_lowercase_name(shown_of_kind(s, false, show_hidden)),
        false,
    )
}

/// The shown entries of one kind, sorted by lowercased name, each with
/// its lowercased name.
fn sorted_of_kind(entries: &Vec<FileEntry>, dirs: bool, show_hidden: bool) -> (r: Vec<
    (String, String, u64, String),
>)
    ensures
        gathered_views(r@) == by_lowercase_name(shown_of_kind(file_views(entries@), dirs, show_hidden)),
{
    let ghost views = file_views(entries@);
    let mut files: Vec<(String, String, u64, String)> = Vec::new();
    let mut k: usize = 0;
    assert(views.take(0) =~= Seq::<(Seq<char>, Seq<char>, bool, u64)>::empty());
    assert(gathered_views(files@) =~= Seq::<(Seq<char>, Seq<char>, u64)>::empty());
    while k < entries.len()
        invariant
            k <= entries@.len(),
            views == file_views(entries@),
            gathered_views(files@) == by_lowercase_name(shown_of_kind(views.take(k as int), dirs, show_hidden)),
            forall|q: int| 0 <= q < files@.len() ==> (#[trigger] files@[q]).3@ == lowercase_of(files@[q].0@),
        decreases entries@.len() - k,
    {
        let e = &entries[k];
        assert(views.take(k + 1).drop_last() =~= views.take(k as int));
        assert(views.take(k + 1).last() == (e.name@, e.path@, e.is_dir, e.size));
        let ghost prev = shown_of_kind(views.take(k as int), dirs, show_hidden);
        if e.is_dir == dirs && is_visible(e.name.as_str(), show_hidden) {
            let lower = lowercase(e.name.as_str());
            let ghost t = gathered_views(files@);
            let ghost entry = (e.name@, e.path@, e.size);
            proof {
                assert(shown_of_kind(views.take(k + 1), dirs, show_hidden) == prev.push(entry));
                assert(prev.push(entry).drop_last() =~= prev);
            }
            let j = insertion_point(&files, &lower);
            let ghost f0 = files@;
            files.insert(j, (e.name.clone(), e.path.clone(), e.size, lower));
            assert(gathered_views(files@) =~= t.insert(j as int, entry));
            assert forall|q: int| 0 <= q < files@.len() implies (#[trigger] files@[q]).3@ == lowercase_of(files@[q].0@) by {
                if q < j {
                    assert(files@[q] == f0[q]);
                } else if q > j {
                    assert(files@[q] == f0[q - 1]);
                }
            }
        }
        k = k + 1;
    }
    assert(views.take(entries@.len() as int) =~= views);
    files
}

/// Appends sorted entries of one kind to a listing.
fn push_kind(out: &mut Vec<FileEntry>, sorted: &Vec<(String, String, u64, String)>, is_dir: bool)
    ensures
        file_views(final(out)@) == file_views(old(out)@) + tagged(gathered_views(sorted@), is_dir),
{
    let ghost start = file_views(out@);
    let ghost g = gathered_views(sorted@);
    let mut i: usize = 0;
    assert(tagged(g.take(0), is_dir) =~= Seq::<(Seq<char>, Seq<char>, bool, u64)>::empty());
    assert(file_views(out@) =~= start + tagged(g.take(0), is_dir));
    while i < sorted.len()
        invariant
            i <= sorted@.len(),
            g == gathered_views(sorted@),
            file_views(out@) == start + tagged(g.take(i as int), is_dir),
        decreases sorted@.len() - i,
    {
        let s = &sorted[i];
        let e = FileEntry { name: s.0.clone(), path: s.1.clone(), is_dir: is_dir, size: s.2 };
        let ghost o0 = out@;
        out.push(e);
        assert(g[i as int] == (s.0@, s.1@, s.2));
        assert(tagged(g.take(i + 1), is_dir) =~= tagged(g.take(i as int), is_dir).push(
            (s.0@, s.1@, is_dir, s.2),
        ));
        assert(file_views(out@) =~= file_views(o0).push((s.0@, s.1@, is_dir, s.2)));
        i = i + 1;
    }
    assert(g.take(sorted@.len() as int) =~= g);
}

/// Orders the entries read from a local directory for the file browser:
/// hidden names left out unless shown, directories first, then by
/// lowercased name.
pub fn local_entries(entries: &Vec<FileEntry>, show_hidden: bool) -> (r: Vec<FileEntry>)
    ensures
        file_views(r@) == local_listing(file_views(entries@), show_hidden),
{
    let dirs = sorted_of_kind(entries, true, show_hidden);
    let files = sorted_of_kind(entries, false, show_hidden);
    let mut out: Vec<FileEntry> = Vec::new();
    assert(file_views(out@) =~= Seq::<(Seq<char>, Seq<char>, bool, u64)>::empty());
    push_kind(&mut out, &dirs, true);
    push_kind(&mut out, &files, false);
    assert(file_views(out@) =~= local_listing(file_views(entries@), show_hidden));
    out
}


// ----- what the client's actions send and report -----

/// The keys that begin with `prefix`, in the order given.
pub open spec fn keys_with_prefix(keys: Seq<Seq<char>>, prefix: Seq<char>) -> Seq<Seq<char>>
    decreases keys.len(),
{
    if keys.len() == 0 {
        Seq::empty()
    } else {
        let rest = keys_with_prefix(keys.drop_last(), prefix);
        if prefix.is_prefix_of(keys.last()) {
            rest.push(keys.last())
        } else {
            rest
        }
    }
}

/// The listed keys under a directory prefix, which deleting the directory
/// removes one by one.
pub fn keys_under(keys: &Vec<String>, prefix: &str) -> (r: Vec<String>)
    ensures
        key_views(r@) == keys_with_prefix(key_views(keys@), prefix@),
{
    let ghost views = key_views(keys@);
    let p = chars_of(prefix);
    let mut out: Vec<String> = Vec::new();
    let mut i: usize = 0;
    assert(key_views(out@) =~= keys_with_prefix(views.take(0), prefix@));
    while i < keys.len()
        invariant
            i <= keys@.len(),
            views == key_views(keys@),
            p@ == prefix@,
            key_views(out@) == keys_with_prefix(views.take(i as int), prefix@),
        decreases keys@.len() - i,
    {
        assert(views.take(i + 1).drop_last() =~= views.take(i as int));
        assert(views.take(i + 1).last() == keys@[i as int]@);
        let k = chars_of(keys[i].as_str());
        if crate::text::starts_with_chars(&k, &p) {
            let ghost o0 = out@;
            out.push(keys[i].clone());
            assert(key_views(out@) =~= key_views(o0).push(keys@[i as int]@));
        }
        i = i + 1;
    }
    assert(views.take(keys@.len() as int) =~= views);
    out
}

/// `Force-deleted 'prefix' (deleted/total deleted, errors errors)`.
pub open spec fn delete_dir_status(prefix: Seq<char>, deleted: nat, total: nat, errors: nat) -> Seq<
    char,
> {
    "Force-deleted '"@ + prefix + "' ("@ + decimal(deleted) + "/"@ + decimal(total)
        + " deleted, "@ + decimal(errors) + " errors)"@
}

/// The status after deleting a directory's keys; `None` for the count of
/// keys found means there were none.
pub fn delete_dir_report(prefix: &str, found: Option<(u64, u64, u64)>) -> (r: String)
    ensures
        r@ == (match found {
            None => "Directory '"@ + prefix@ + "' is already empty"@,
            Some((deleted, total, errors)) => delete_dir_status(
                prefix@,
                deleted as nat,
                total as nat,
                errors as nat,
            ),
        }),
{
    match found {
        None => {
            let mut m = string_of("Directory '");
            push_str(&mut m, prefix);
            push_str(&mut m, "' is already empty");
            m
        },
        Some((deleted, total, errors)) => {
            let mut m = string_of("Force-deleted '");
            push_str(&mut m, prefix);
            push_str(&mut m, "' (");
            push_decimal(&mut m, deleted);
            push_str(&mut m, "/");
            push_decimal(&mut m, total);
            push_str(&mut m, " deleted, ");
            push_decimal(&mut m, errors);
            push_str(&mut m, " errors)");
            m
        },
    }
}

/// The name of the empty object that keeps a created directory listed.
pub open spec fn dir_marker_name() -> Seq<char> {
    ".kaidadb_dir"@
}

/// The key of the marker object that creates directory `input` (trimmed)
/// under `prefix`; `None` when the trimmed name is empty.
pub fn mkdir_marker(prefix: &str, input: &str) -> (r: Option<(String, String)>)
    ensures
        ({
            let name = crate::server_key::trimmed(input@);
            match r {
                None => name.len() == 0,
                Some((key, shown)) => name.len() > 0 && key@ == prefix@ + name + "/"@
                    + dir_marker_name() && shown@ == prefix@ + name,
            }
        }),
{
    let name = crate::server_key::trim(input);
    if name.as_str().unicode_len() == 0 {
        return None;
    }
    let mut shown = string_of(prefix);
    push_str(&mut shown, name.as_str());
    let mut key = shown.clone();
    push_str(&mut key, "/");
    push_str(&mut key, ".kaidadb_dir");
    Some((key, shown))
}

/// `s` with each backslash turned into a slash.
pub open spec fn forward_slashes(s: Seq<char>) -> Seq<char> {
    s.map_values(|c: char| if c == '\\' { '/' } else { c })
}

/// The key a file found under an uploaded directory is stored under: the
/// current path prefix, then its path relative to the directory with
/// forward slashes.
pub fn relative_upload_key(path_prefix: &str, relative: &str) -> (r: String)
    ensures
        r@ == path_prefix@ + forward_slashes(relative@),
{
    let mut out = string_of(path_prefix);
    let ghost start = out@;
    let v = chars_of(relative);
    let mut i: usize = 0;
    assert(forward_slashes(v@.take(0)) =~= Seq::<char>::empty());
    while i < v.len()
        invariant
            i <= v@.len(),
            v@ == relative@,
            start == path_prefix@,
            out@ == start + forward_slashes(v@.take(i as int)),
        decreases v@.len() - i,
    {
        let c = v[i];
        let d = if c == '\\' {
            '/'
        } else {
            c
        };
        push_char(&mut out, d);
        assert(forward_slashes(v@.take(i + 1)) =~= forward_slashes(v@.take(i as int)).push(d));
        i = i + 1;
    }
    assert(v@.take(v@.len() as int) =~= v@);
    out
}

/// How many names repeat one seen before them.
pub open spec fn repeats(names: Seq<Seq<char>>) -> nat
    decreases names.len(),
{
    if names.len() == 0 {
        0
    } else {
        repeats(names.drop_last()) + (if names.drop_last().contains(names.last()) {
            1nat
        } else {
            0nat
        })
    }
}

/// The uploads that marked files make: each file with a name, by position,
/// stored under the path prefix and its name.
pub open spec fn marked_plan(names: Seq<Seq<char>>, path_prefix: Seq<char>) -> Seq<(usize, Seq<char>)>
    decreases names.len(),
{
    if names.len() == 0 {
        Seq::empty()
    } else {
        let rest = marked_plan(names.drop_last(), path_prefix);
        if names.last().len() > 0 {
            rest.push(((names.len() - 1) as usize, path_prefix + names.last()))
        } else {
            rest
        }
    }
}

/// The names that are not empty, in order.
pub open spec fn named(names: Seq<Seq<char>>) -> Seq<Seq<char>>
    decreases names.len(),
{
    if names.len() == 0 {
        Seq::empty()
    } else if names.last().len() > 0 {
        named(names.drop_last()).push(names.last())
    } else {
        named(names.drop_last())
    }
}

pub open spec fn plan_views(s: Seq<(usize, String)>) -> Seq<(usize, Seq<char>)> {
    s.map_values(|e: (usize, String)| (e.0, e.1@))
}

/// Whether `v` holds `name`.
fn holds_name(v: &Vec<String>, name: &str) -> (r: bool)
    ensures
        r == key_views(v@).contains(name@),
{
    let mut i: usize = 0;
    while i < v.len()
        invariant
            i <= v@.len(),
            forall|j: int| 0 <= j < i ==> key_views(v@)[j] != name@,
        decreases v@.len() - i,
    {
        if crate::keys::key_eq(v[i].as_str(), name) {
            assert(key_views(v@)[i as int] == name@);
            return true;
        }
        i = i + 1;
    }
    false
}

/// Plans the upload of marked files from their names (`file_names[i]` of
/// the `i`-th marked file): the files to send with their keys, and how
/// many of them repeat a name, so that a later one overwrites an earlier.
pub fn plan_marked_upload(file_names: &Vec<String>, path_prefix: &str) -> (r: (Vec<(usize, String)>, usize))
    ensures
        plan_views(r.0@) == marked_plan(key_views(file_names@), path_prefix@),
        r.1 == repeats(named(key_views(file_names@))),
{
    let ghost names = key_views(file_names@);
    let mut plan: Vec<(usize, String)> = Vec::new();
    let mut seen: Vec<String> = Vec::new();
    let mut dups: usize = 0;
    let mut i: usize = 0;
    assert(names.take(0) =~= Seq::<Seq<char>>::empty());
    assert(key_views(seen@) =~= Seq::<Seq<char>>::empty());
    assert(plan_views(plan@) =~= Seq::<(usize, Seq<char>)>::empty());
    while i < file_names.len()
        invariant
            i <= file_names@.len(),
            names == key_views(file_names@),
            plan_views(plan@) == marked_plan(names.take(i as int), path_prefix@),
            key_views(seen@) == named(names.take(i as int)),
            dups == repeats(named(names.take(i as int))),
            dups <= seen@.len() <= i,
        decreases file_names@.len() - i,
    {
        let n = &file_names[i];
        assert(names.take(i + 1).drop_last() =~= names.take(i as int));
        assert(names.take(i + 1).last() == n@);
        assert(names.take(i + 1).len() == i + 1);
        if n.as_str().unicode_len() > 0 {
            let ghost before = key_views(seen@);
            let again = holds_name(&seen, n.as_str());
            if again {
                dups = dups + 1;
            }
            seen.push(n.clone());
            assert(key_views(seen@) =~= before.push(n@));
            assert(named(names.take(i + 1)) == before.push(n@));
            assert(before.push(n@).drop_last() =~= before);
            let mut key = string_of(path_prefix);
            push_str(&mut key, n.as_str());
            let ghost p0 = plan_views(plan@);
            plan.push((i, key));
            assert(plan_views(plan@) =~= p0.push((i, path_prefix@ + n@)));
        }
        i = i + 1;
    }
    assert(names.take(file_names@.len() as int) =~= names);
    (plan, dups)
}

/// The status when an upload of several files starts, with a warning
/// where names repeat.
pub open spec fn upload_start_status(total: nat, dups: nat) -> Seq<char> {
    if dups > 0 {
        "Starting upload of "@ + decimal(total) + " files (warning: "@ + decimal(dups)
            + " duplicate filenames \u{2014} later uploads will overwrite earlier ones)"@
    } else {
        "Starting upload of "@ + decimal(total) + " files..."@
    }
}

/// The status when an upload of several files starts.
pub fn upload_start_report(total: u64, dups: u64) -> (r: String)
    ensures
        r@ == upload_start_status(total as nat, dups as nat),
{
    let mut m = string_of("Starting upload of ");
    push_decimal(&mut m, total);
    if dups > 0 {
        push_str(&mut m, " files (warning: ");
        push_decimal(&mut m, dups);
        push_str(
            &mut m,
            " duplicate filenames \u{2014} later uploads will overwrite earlier ones)",
        );
    } else {
        push_str(&mut m, " files...");
    }
    m
}

/// The status after a directory's renames were sent: how many of its keys
/// moved, and how many failed.
pub open spec fn rename_status(old: Seq<char>, new: Seq<char>, moved: nat, failed: nat) -> Seq<char> {
    if failed == 0 {
        "Renamed directory '"@ + old + "' -> '"@ + new + "' ("@ + decimal(moved) + " items)"@
    } else {
        "Renamed "@ + decimal(moved) + " items, "@ + decimal(failed) + " failed ('"@ + old + "' -> '"@
            + new + "')"@
    }
}

/// The status after a directory's renames were sent.
pub fn rename_report(old: &str, new: &str, moved: u64, failed: u64) -> (r: String)
    ensures
        r@ == rename_status(old@, new@, moved as nat, failed as nat),
{
    if failed == 0 {
        let mut m = string_of("Renamed directory '");
        push_str(&mut m, old);
        push_str(&mut m, "' -> '");
        push_str(&mut m, new);
        push_str(&mut m, "' (");
        push_decimal(&mut m, moved);
        push_str(&mut m, " items)");
        m
    } else {
        let mut m = string_of("Renamed ");
        push_decimal(&mut m, moved);
        push_str(&mut m, " items, ");
        push_decimal(&mut m, failed);
        push_str(&mut m, " failed ('");
        push_str(&mut m, old);
        push_str(&mut m, "' -> '");
        push_str(&mut m, new);
        push_str(&mut m, "')");
        m
    }
}

/// The rename dialog of the client: its mode, the line typed and its
/// cursor (in bytes), what is being renamed, and the status line.
pub struct RenameDialog {
    pub mode: InputMode,
    pub input: String,
    pub cursor: usize,
    pub current: String,
    pub is_dir: bool,
    pub status: String,
}

/// What the client sends after a rename is submitted.
pub enum RenameAction {
    /// Nothing.
    Nothing,
    /// These renames, `(from, to)`, in order; their outcome then goes to
    /// `rename_replied`.
    Send(Vec<(String, String)>),
}

/// How the renames that were sent went.
pub enum RenameReply {
    /// A directory's renames: how many succeeded and how many failed.
    Dir { moved: u64, failed: u64 },
    /// One object's rename: `None` when it succeeded, else the error's text.
    One(Option<String>),
    /// There was no server connection, so nothing was sent.
    NotConnected,
}

/// Submitting the rename dialog: an empty name keeps the dialog open with
/// a message; an unchanged name, or a directory with no key under it,
/// closes it with a message; otherwise the renames to send.
pub fn rename_submitted(d: RenameDialog, keys: &Vec<String>) -> (r: (RenameDialog, RenameAction))
    ensures
        ({
            let new = crate::server_key::trimmed(d.input@);
            let from = d.current@.push('/');
            let moves = dir_moves(key_views(keys@), from, new.push('/'));
            let (n, act) = r;
            &&& n.input@ == d.input@ && n.cursor == d.cursor && n.current@ == d.current@
                && n.is_dir == d.is_dir
            &&& if new.len() == 0 {
                n.mode == d.mode && n.status@ == "Key cannot be empty"@ && act is Nothing
            } else if new == d.current@ {
                n.mode == InputMode::Normal && n.status@ == "Name unchanged"@ && act is Nothing
            } else if d.is_dir && moves.len() == 0 {
                n.mode == InputMode::Normal && n.status@ == "No items found under '"@ + from + "'"@
                    && act is Nothing
            } else {
                n.mode == d.mode && n.status@ == d.status@ && (act matches RenameAction::Send(m)
                    && pair_views(m@) == (if d.is_dir {
                    moves
                } else {
                    seq![(d.current@, new)]
                }))
            }
        }),
{
    let plan = plan_rename(d.input.as_str(), d.current.as_str(), d.is_dir, keys);
    match plan {
        RenamePlan::EmptyKey => {
            proof {
                reveal_strlit("Key cannot be empty");
            }
            (RenameDialog { status: string_of("Key cannot be empty"), ..d }, RenameAction::Nothing)
        },
        RenamePlan::Unchanged => {
            proof {
                reveal_strlit("Name unchanged");
            }
            (
                RenameDialog { mode: InputMode::Normal, status: string_of("Name unchanged"), ..d },
                RenameAction::Nothing,
            )
        },
        RenamePlan::NothingUnder(p) => {
            let mut m = string_of("No items found under '");
            push_str(&mut m, p.as_str());
            push_str(&mut m, "'");
            (RenameDialog { mode: InputMode::Normal, status: m, ..d }, RenameAction::Nothing)
        },
        RenamePlan::Moves(m) => (d, RenameAction::Send(m)),
    }
}

/// The status a rename ends with, and whether the listing is refreshed.
pub open spec fn replied_status(d: RenameDialog, reply: RenameReply) -> (Seq<char>, bool) {
    let new = crate::server_key::trimmed(d.input@);
    match reply {
        RenameReply::Dir { moved, failed } => (rename_status(d.current@, new, moved as nat, failed as nat), true),
        RenameReply::One(None) => ("Renamed '"@ + d.current@ + "' -> '"@ + new + "'"@, true),
        RenameReply::One(Some(e)) => ("Rename failed: "@ + e@, false),
        RenameReply::NotConnected => if d.is_dir {
            (rename_status(d.current@, new, 0, 0), true)
        } else {
            (d.status@, false)
        },
    }
}

/// After the renames were sent: the status reports how they went, the
/// dialog is cleared (normal mode, empty line, cursor 0, nothing selected,
/// not a directory), and the listing is refreshed once unless one object's
/// rename failed or nothing could be sent for it.
pub fn rename_replied(d: RenameDialog, reply: RenameReply) -> (r: (RenameDialog, bool))
    ensures
        r.0.status@ == replied_status(d, reply).0,
        r.1 == replied_status(d, reply).1,
        r.0.mode == InputMode::Normal,
        r.0.input@.len() == 0,
        r.0.cursor == 0,
        r.0.current@.len() == 0,
        !r.0.is_dir,
{
    let new = crate::server_key::trim(d.input.as_str());
    let (status, refresh) = match reply {
        RenameReply::Dir { moved, failed } => (rename_report(d.current.as_str(), new.as_str(), moved, failed), true),
        RenameReply::One(None) => {
            let mut m = string_of("Renamed '");
            push_str(&mut m, d.current.as_str());
            push_str(&mut m, "' -> '");
            push_str(&mut m, new.as_str());
            push_str(&mut m, "'");
            (m, true)
        },
        RenameReply::One(Some(e)) => {
            let mut m = string_of("Rename failed: ");
            push_str(&mut m, e.as_str());
            (m, false)
        },
        RenameReply::NotConnected => if d.is_dir {
            (rename_report(d.current.as_str(), new.as_str(), 0, 0), true)
        } else {
            (d.status, false)
        },
    };
    (
        RenameDialog {
            mode: InputMode::Normal,
            input: String::new(),
            cursor: 0,
            current: String::new(),
            is_dir: false,
            status,
        },
        refresh,
    )
}

} // verus!
