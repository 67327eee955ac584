//! Tasks and notes: the item record, its kinds, priority levels and status.
use vstd::prelude::*;

use crate::text::same_text;

verus! {

/// Whether an item is a task (which can be done) or a note.
#[derive(Clone, Copy, Debug, PartialEq, Eq, Structural)]
pub enum ItemType {
    Task,
    Note,
}

/// Priority level of an item.
#[derive(Clone, Copy, Debug, PartialEq, Eq, Structural)]
pub enum Priority {
    Low,
    Medium,
    High,
}

/// Progress of an item.
#[derive(Clone, Copy, Debug, PartialEq, Eq, Structural)]
pub enum Status {
    Pending,
    InProgress,
    Done,
}

/// A point in time: whole seconds since the Unix epoch and the nanoseconds
/// past that second.
#[derive(Clone, Copy, Debug, PartialEq, Eq, Structural)]
pub struct Timestamp {
    pub secs: i64,
    pub nanos: u32,
}

impl Timestamp {
    /// Chronological order of two points in time.
    pub open spec fn before(self, other: Timestamp) -> bool {
        self.secs < other.secs || (self.secs == other.secs && self.nanos < other.nanos)
    }

    /// Whether `self` comes strictly before `other`.
    pub fn is_before(&self, other: &Timestamp) -> (r: bool)
        ensures
            r == self.before(*other),
    {
        self.secs < other.secs || (self.secs == other.secs && self.nanos < other.nanos)
    }
}

/// Reads the system clock through `chrono::Local::now` and hands back the
/// instant as seconds and nanoseconds since the Unix epoch. There is no
/// contract: the value is the time at which the call is made.
#[verifier::external_body]
pub(crate) fn clock_now() -> Timestamp {
    let now = chrono::Local::now();
    Timestamp { secs: now.timestamp(), nanos: now.timestamp_subsec_nanos() }
}

/// What `str::to_lowercase` returns for a string: its Unicode lowercase
/// mapping, which depends on the string alone.
pub uninterp spec fn lowercase_of(s: Seq<char>) -> Seq<char>;

/// Whether every character is ASCII.
pub open spec fn all_ascii(s: Seq<char>) -> bool {
    forall|i: int| 0 <= i < s.len() ==> (s[i] as u32) < 128
}

/// ASCII lowercasing of one character: `A`..`Z` become `a`..`z`, every other
/// character stays.
pub open spec fn ascii_lower_char(c: char) -> char {
    if 'A' <= c <= 'Z' {
        ((c as u32) + 32) as char
    } else {
        c
    }
}

/// ASCII lowercasing of a text.
pub open spec fn ascii_lowercase(s: Seq<char>) -> Seq<char> {
    s.map_values(|c: char| ascii_lower_char(c))
}

/// Calls `str::to_lowercase`. The contract claims that the result is
/// `lowercase_of` the argument, and that on ASCII text it is the ASCII
/// lowercasing; what the mapping does to other characters is not stated.
#[verifier::external_body]
pub(crate) fn to_lowercase(s: &str) -> (r: String)
    ensures
        r@ == lowercase_of(s@),
        all_ascii(s@) ==> r@ == ascii_lowercase(s@),
{
    s.to_lowercase()
}

/// The level that a lowercase word names: `Some(Some(level))` for `low`,
/// `medium` and `high`, `Some(None)` for `none` (no priority), `None` for
/// any other word.
pub open spec fn priority_from_word(w: Seq<char>) -> Option<Option<Priority>> {
    if w == "low"@ {
        Some(Some(Priority::Low))
    } else if w == "medium"@ {
        Some(Some(Priority::Medium))
    } else if w == "high"@ {
        Some(Some(Priority::High))
    } else if w == "none"@ {
        Some(None)
    } else {
        None
    }
}

impl Priority {
    /// The label that displays the level.
    pub open spec fn label_text(self) -> Seq<char> {
        match self {
            Priority::Low => "LOW"@,
            Priority::Medium => "MEDIUM"@,
            Priority::High => "HIGH"@,
        }
    }

    /// Reads a priority level, ignoring case: `low`, `medium`, `high`, or
    /// `none` for no priority. `None` for anything else.
    pub fn from_str(s: &str) -> (r: Option<Option<Priority>>)
        ensures
            r == priority_from_word(lowercase_of(s@)),
            all_ascii(s@) ==> r == priority_from_word(ascii_lowercase(s@)),
    {
        let lowered = to_lowercase(s);
        Priority::from_lowercase(lowered.as_str())
    }

    /// Reads a level from an already lowercased word.
    pub fn from_lowercase(w: &str) -> (r: Option<Option<Priority>>)
        ensures
            r == priority_from_word(w@),
    {
        if same_text(w, "low") {
            Some(Some(Priority::Low))
        } else if same_text(w, "medium") {
            Some(Some(Priority::Medium))
        } else if same_text(w, "high") {
            Some(Some(Priority::High))
        } else if same_text(w, "none") {
            Some(None)
        } else {
            None
        }
    }

    /// `LOW`, `MEDIUM` or `HIGH`.
    pub fn label(&self) -> (r: &'static str)
        ensures
            r@ == self.label_text(),
    {
        match self {
            Priority::Low => "LOW",
            Priority::Medium => "MEDIUM",
            Priority::High => "HIGH",
        }
    }
}

/// Every level's label is read back as that level: the labels are ASCII,
/// and lowercased they are the words `from_str` takes.
pub proof fn labels_read_back(p: Priority)
    ensures
        all_ascii(p.label_text()),
        priority_from_word(ascii_lowercase(p.label_text())) == Some(Some(p)),
{
    reveal_strlit("LOW");
    reveal_strlit("MEDIUM");
    reveal_strlit("HIGH");
    reveal_strlit("low");
    reveal_strlit("medium");
    reveal_strlit("high");
    reveal_strlit("none");
    match p {
        Priority::Low => {
            assert(ascii_lowercase("LOW"@) =~= "low"@);
        },
        Priority::Medium => {
            assert(ascii_lowercase("MEDIUM"@) =~= "medium"@);
            assert("medium"@ != "low"@);
        },
        Priority::High => {
            assert(ascii_lowercase("HIGH"@) =~= "high"@);
            assert("high"@ != "low"@);
            assert("high"@ != "medium"@);
        },
    }
}

/// A task or a note.
#[derive(Debug)]
pub struct Item {
    pub id: u32,
    pub item_type: ItemType,
    pub description: String,
    pub board: String,
    pub priority: Option<Priority>,
    pub status: Status,
    pub created_at: Timestamp,
    pub completed_at: Option<Timestamp>,
    pub archived: bool,
}

/// An item with its text as character sequences.
pub struct ItemView {
    pub id: u32,
    pub item_type: ItemType,
    pub description: Seq<char>,
    pub board: Seq<char>,
    pub priority: Option<Priority>,
    pub status: Status,
    pub created_at: Timestamp,
    pub completed_at: Option<Timestamp>,
    pub archived: bool,
}

impl View for Item {
    type V = ItemView;

    open spec fn view(&self) -> ItemView {
        ItemView {
            id: self.id,
            item_type: self.item_type,
            description: self.description@,
            board: self.board@,
            priority: self.priority,
            status: self.status,
            created_at: self.created_at,
            completed_at: self.completed_at,
            archived: self.archived,
        }
    }
}

impl Clone for Item {
    fn clone(&self) -> (r: Self)
        ensures
            r@ == self@,
    {
        Item {
            id: self.id,
            item_type: self.item_type,
            description: self.description.clone(),
            board: self.board.clone(),
            priority: self.priority,
            status: self.status,
            created_at: self.created_at,
            completed_at: self.completed_at,
            archived: self.archived,
        }
    }
}

impl ItemView {
    pub open spec fn is_task(self) -> bool {
        self.item_type == ItemType::Task
    }

    pub open spec fn is_done(self) -> bool {
        self.status == Status::Done
    }

    /// A fresh item of the given kind, as created at `now`.
    pub open spec fn fresh(
        id: u32,
        item_type: ItemType,
        description: Seq<char>,
        board: Seq<char>,
        now: Timestamp,
    ) -> ItemView {
        ItemView {
            id,
            item_type,
            description,
            board,
            priority: None,
            status: Status::Pending,
            created_at: now,
            completed_at: None,
            archived: false,
        }
    }
}

impl ItemView {
    /// The item marked done, completed at `now`.
    pub open spec fn done_at(self, now: Timestamp) -> ItemView {
        ItemView { status: Status::Done, completed_at: Some(now), ..self }
    }

    /// The item marked pending, with no completion time.
    pub open spec fn undone(self) -> ItemView {
        ItemView { status: Status::Pending, completed_at: None, ..self }
    }
}

/// Marking a pending item done and then undone gives back the item.
pub proof fn undone_undoes_done(v: ItemView, now: Timestamp)
    requires
        v.status == Status::Pending,
        v.completed_at is None,
    ensures
        v.done_at(now).undone() == v,
{
}

/// A done item is done; an undone one is not.
pub proof fn done_means_done(v: ItemView, now: Timestamp)
    ensures
        v.done_at(now).is_done(),
        !v.undone().is_done(),
{
}

impl Item {
    /// A new pending task, created now.
    pub fn new_task(id: u32, description: String, board: String) -> (r: Item)
        ensures
            r@ == ItemView::fresh(id, ItemType::Task, description@, board@, r@.created_at),
    {
        Item::new_task_at(id, description, board, clock_now())
    }

    /// A new pending note, created now.
    pub fn new_note(id: u32, description: String, board: String) -> (r: Item)
        ensures
            r@ == ItemView::fresh(id, ItemType::Note, description@, board@, r@.created_at),
    {
        Item::new_note_at(id, description, board, clock_now())
    }

    /// A new pending task, created at `now`.
    pub fn new_task_at(id: u32, description: String, board: String, now: Timestamp) -> (r: Item)
        ensures
            r@ == ItemView::fresh(id, ItemType::Task, description@, board@, now),
    {
        Item {
            id,
            item_type: ItemType::Task,
            description,
            board,
            priority: None,
            status: Status::Pending,
            created_at: now,
            completed_at: None,
            archived: false,
        }
    }

    /// A new pending note, created at `now`.
    pub fn new_note_at(id: u32, description: String, board: String, now: Timestamp) -> (r: Item)
        ensures
            r@ == ItemView::fresh(id, ItemType::Note, description@, board@, now),
    {
        Item {
            id,
            item_type: ItemType::Note,
            description,
            board,
            priority: None,
            status: Status::Pending,
            created_at: now,
            completed_at: None,
            archived: false,
        }
    }

    pub fn is_done(&self) -> (r: bool)
        ensures
            r == self@.is_done(),
    {
        self.status == Status::Done
    }

    /// Marks the item done, completed now.
    pub fn mark_done(&mut self)
        ensures
            final(self)@ == old(self)@.done_at(final(self)@.completed_at->0),
            final(self)@.completed_at is Some,
    {
        let now = clock_now();
        self.mark_done_at(now);
    }

    /// Marks the item done, completed at `now`.
    pub fn mark_done_at(&mut self, now: Timestamp)
        ensures
            final(self)@ == old(self)@.done_at(now),
    {
        self.status = Status::Done;
        self.completed_at = Some(now);
    }

    /// Marks the item pending again and forgets when it was completed.
    pub fn mark_undone(&mut self)
        ensures
            final(self)@ == old(self)@.undone(),
    {
        self.status = Status::Pending;
        self.completed_at = None;
    }
}

} // verus!
