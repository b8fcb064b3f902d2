//! The message sink and the shared directories: authors, rooms, and each
//! room's ordered message history.
//!
//! A submitted message receives a strictly monotonic ordering key from its
//! room's log, so keys are unique and totally ordered even when two submits
//! land back to back — a wall-clock timestamp at coarse resolution could not
//! promise that. Author and room directories are keyed by identity and keep
//! their ids unique.

use vstd::prelude::*;

use crate::buffer::LineBuffer;
use crate::engine::apply_event;
use crate::engine::step_m;
use crate::engine::submit_payload_m;
use crate::engine::EditCommand;
use crate::engine::InputEvent;

verus! {

/// One submitted chat message: its ordering key, its author, and its content.
#[derive(Clone, Debug)]
pub struct Message {
    /// The ordering key, unique and strictly increasing within a room.
    pub id: u64,
    /// The identity of the message's author.
    pub author: u128,
    /// The message text; lines are separated by `'\n'`.
    pub content: String,
}

/// A chat participant.
#[derive(Clone, Debug)]
pub struct Author {
    pub id: u128,
    pub username: String,
    pub avatar: Option<String>,
    pub bio: Option<String>,
}

/// A room's message history, ordered by a strictly monotonic key that the
/// log itself assigns at append time.
pub struct MessageLog {
    next_key: u64,
    entries: Vec<Message>,
}

impl View for MessageLog {
    type V = Seq<Message>;

    closed spec fn view(&self) -> Seq<Message> {
        self.entries@
    }
}

impl MessageLog {
    /// The key the next appended message will receive.
    pub closed spec fn next_key_spec(&self) -> u64 {
        self.next_key
    }

    /// Ordering keys are strictly increasing along the log and below the
    /// next key to be assigned; in particular they are unique.
    pub open spec fn wf(&self) -> bool {
        &&& forall|i: int, j: int| 0 <= i < j < self@.len() ==> self@[i].id < self@[j].id
        &&& forall|i: int| 0 <= i < self@.len() ==> self@[i].id < self.next_key_spec()
    }

    /// Creates an empty log; the first message will get key 0.
    pub fn new() -> (log: MessageLog)
        ensures
            log@ == Seq::<Message>::empty(),
            log.next_key_spec() == 0,
            log.wf(),
    {
        MessageLog { next_key: 0, entries: Vec::new() }
    }

    /// Appends a message, assigning it the next ordering key.
    pub fn append(&mut self, author: u128, content: String)
        requires
            old(self).wf(),
            old(self).next_key_spec() < u64::MAX,
        ensures
            final(self)@ == old(self)@.push(
                (Message { id: old(self).next_key_spec(), author, content }),
            ),
            final(self).next_key_spec() == old(self).next_key_spec() + 1,
            final(self).wf(),
    {
        let id = self.next_key;
        self.entries.push(Message { id, author, content });
        self.next_key = self.next_key + 1;
    }

    /// The key the next appended message will receive.
    pub fn next_key(&self) -> (key: u64)
        ensures
            key == self.next_key_spec(),
    {
        self.next_key
    }

    /// The number of messages in the log.
    pub fn len(&self) -> (n: usize)
        ensures
            n == self@.len(),
    {
        self.entries.len()
    }

    /// The message at position `index`, in key order.
    pub fn get(&self, index: usize) -> (msg: &Message)
        requires
            index < self@.len(),
        ensures
            *msg == self@[index as int],
    {
        &self.entries[index]
    }
}

/// A chat room: its identity, its display name, and its message history.
pub struct Room {
    pub id: u128,
    pub name: String,
    pub messages: MessageLog,
}

/// True when some author in `s` has identity `id`.
pub open spec fn has_author(s: Seq<Author>, id: u128) -> bool {
    exists|i: int| 0 <= i < s.len() && s[i].id == id
}

/// The position of the author with identity `id` (unique when ids are).
pub open spec fn author_index(s: Seq<Author>, id: u128) -> int {
    choose|i: int| 0 <= i < s.len() && s[i].id == id
}

/// True when some room in `s` has identity `id`.
pub open spec fn has_room(s: Seq<Room>, id: u128) -> bool {
    exists|i: int| 0 <= i < s.len() && s[i].id == id
}

/// The position of the room with identity `id` (unique when ids are).
pub open spec fn room_index(s: Seq<Room>, id: u128) -> int {
    choose|i: int| 0 <= i < s.len() && s[i].id == id
}

/// When author ids are unique, a position holding `id` is the position
/// [`author_index`] names.
pub proof fn lemma_author_index(s: Seq<Author>, i: int, id: u128)
    requires
        forall|p: int, q: int| 0 <= p < q < s.len() ==> s[p].id != s[q].id,
        0 <= i < s.len(),
        s[i].id == id,
    ensures
        has_author(s, id),
        author_index(s, id) == i,
{
    assert(has_author(s, id));
    let k = author_index(s, id);
    if k < i {
        assert(s[k].id != s[i].id);
    }
    if i < k {
        assert(s[i].id != s[k].id);
    }
}

/// When room ids are unique, a position holding `id` is the position
/// [`room_index`] names.
pub proof fn lemma_room_index(s: Seq<Room>, i: int, id: u128)
    requires
        forall|p: int, q: int| 0 <= p < q < s.len() ==> s[p].id != s[q].id,
        0 <= i < s.len(),
        s[i].id == id,
    ensures
        has_room(s, id),
        room_index(s, id) == i,
{
    assert(has_room(s, id));
    let k = room_index(s, id);
    if k < i {
        assert(s[k].id != s[i].id);
    }
    if i < k {
        assert(s[i].id != s[k].id);
    }
}

/// The author directory: one entry per identity.
pub struct Authors {
    entries: Vec<Author>,
}

impl View for Authors {
    type V = Seq<Author>;

    closed spec fn view(&self) -> Seq<Author> {
        self.entries@
    }
}

impl Authors {
    /// Identities are unique.
    pub open spec fn wf(&self) -> bool {
        forall|i: int, j: int| 0 <= i < j < self@.len() ==> self@[i].id != self@[j].id
    }

    /// Creates an empty directory.
    pub fn new() -> (authors: Authors)
        ensures
            authors@ == Seq::<Author>::empty(),
            authors.wf(),
    {
        Authors { entries: Vec::new() }
    }

    /// The position of the author with identity `id`, when one exists.
    fn find_index(&self, id: u128) -> (found: Option<usize>)
        requires
            self.wf(),
        ensures
            match found {
                Some(i) => {
                    &&& i < self@.len()
                    &&& self@[i as int].id == id
                    &&& has_author(self@, id)
                    &&& author_index(self@, id) == i as int
                },
                None => !has_author(self@, id),
            },
    {
        let n = self.entries.len();
        let mut i: usize = 0;
        while i < n
            invariant
                self.wf(),
                n == self@.len(),
                i <= n,
                forall|j: int| 0 <= j < i ==> self@[j].id != id,
            decreases n - i,
        {
            if self.entries[i].id == id {
                proof {
                    lemma_author_index(self@, i as int, id);
                }
                return Some(i);
            }
            i = i + 1;
        }
        None
    }

    /// Adds `author`, replacing any entry with the same identity.
    pub fn insert(&mut self, author: Author)
        requires
            old(self).wf(),
        ensures
            has_author(old(self)@, author.id) ==> final(self)@ == old(self)@.update(
                author_index(old(self)@, author.id),
                author,
            ),
            !has_author(old(self)@, author.id) ==> final(self)@ == old(self)@.push(author),
            final(self).wf(),
    {
        match self.find_index(author.id) {
            Some(i) => {
                self.entries[i] = author;
            },
            None => {
                self.entries.push(author);
            },
        }
    }

    /// Looks an author up by identity.
    pub fn get(&self, id: u128) -> (found: Option<&Author>)
        requires
            self.wf(),
        ensures
            match found {
                Some(author) => {
                    &&& has_author(self@, id)
                    &&& *author == self@[author_index(self@, id)]
                    &&& author.id == id
                },
                None => !has_author(self@, id),
            },
    {
        let n = self.entries.len();
        let mut i: usize = 0;
        while i < n
            invariant
                self.wf(),
                n == self@.len(),
                i <= n,
                forall|j: int| 0 <= j < i ==> self@[j].id != id,
            decreases n - i,
        {
            if self.entries[i].id == id {
                proof {
                    lemma_author_index(self@, i as int, id);
                }
                return Some(&self.entries[i]);
            }
            i = i + 1;
        }
        None
    }

    /// The number of authors.
    pub fn len(&self) -> (n: usize)
        ensures
            n == self@.len(),
    {
        self.entries.len()
    }

    /// The author at position `index`, in insertion order.
    pub fn get_at(&self, index: usize) -> (author: &Author)
        requires
            index < self@.len(),
        ensures
            *author == self@[index as int],
    {
        &self.entries[index]
    }
}

/// One message was posted to the room with identity `room_id`: that room's
/// log grew by one message carrying `content` and the key the log had
/// promised next, and nothing else changed.
pub open spec fn posts_message(
    oldv: Seq<Room>,
    newv: Seq<Room>,
    room_id: u128,
    author_id: u128,
    content: Seq<char>,
) -> bool {
    let i = room_index(oldv, room_id);
    &&& newv.len() == oldv.len()
    &&& (forall|j: int| 0 <= j < oldv.len() && j != i ==> newv[j] == oldv[j])
    &&& newv[i].id == oldv[i].id
    &&& newv[i].name == oldv[i].name
    &&& newv[i].messages@.len() == oldv[i].messages@.len() + 1
    &&& newv[i].messages@.drop_last() == oldv[i].messages@
    &&& newv[i].messages@.last().id == oldv[i].messages.next_key_spec()
    &&& newv[i].messages@.last().author == author_id
    &&& newv[i].messages@.last().content@ == content
    &&& newv[i].messages.next_key_spec() == oldv[i].messages.next_key_spec() + 1
}

/// The room directory: one room per identity, each with a well-formed log.
pub struct Rooms {
    entries: Vec<Room>,
}

impl View for Rooms {
    type V = Seq<Room>;

    closed spec fn view(&self) -> Seq<Room> {
        self.entries@
    }
}

impl Rooms {
    /// Identities are unique and every room's log is well-formed.
    pub open spec fn wf(&self) -> bool {
        &&& forall|i: int, j: int| 0 <= i < j < self@.len() ==> self@[i].id != self@[j].id
        &&& forall|i: int| 0 <= i < self@.len() ==> self@[i].messages.wf()
    }

    /// Creates an empty directory.
    pub fn new() -> (rooms: Rooms)
        ensures
            rooms@ == Seq::<Room>::empty(),
            rooms.wf(),
    {
        Rooms { entries: Vec::new() }
    }

    /// The position of the room with identity `id`, when one exists.
    fn find_index(&self, id: u128) -> (found: Option<usize>)
        requires
            self.wf(),
        ensures
            match found {
                Some(i) => {
                    &&& i < self@.len()
                    &&& self@[i as int].id == id
                    &&& has_room(self@, id)
                    &&& room_index(self@, id) == i as int
                },
                None => !has_room(self@, id),
            },
    {
        let n = self.entries.len();
        let mut i: usize = 0;
        while i < n
            invariant
                self.wf(),
                n == self@.len(),
                i <= n,
                forall|j: int| 0 <= j < i ==> self@[j].id != id,
            decreases n - i,
        {
            if self.entries[i].id == id {
                proof {
                    lemma_room_index(self@, i as int, id);
                }
                return Some(i);
            }
            i = i + 1;
        }
        None
    }

    /// Adds `room`, replacing any room with the same identity.
    pub fn insert(&mut self, room: Room)
        requires
            old(self).wf(),
            room.messages.wf(),
        ensures
            has_room(old(self)@, room.id) ==> final(self)@ == old(self)@.update(
                room_index(old(self)@, room.id),
                room,
            ),
            !has_room(old(self)@, room.id) ==> final(self)@ == old(self)@.push(room),
            final(self).wf(),
    {
        match self.find_index(room.id) {
            Some(i) => {
                self.entries[i] = room;
            },
            None => {
                self.entries.push(room);
            },
        }
    }

    /// Looks a room up by identity.
    pub fn get(&self, id: u128) -> (found: Option<&Room>)
        requires
            self.wf(),
        ensures
            match found {
                Some(room) => {
                    &&& has_room(self@, id)
                    &&& *room == self@[room_index(self@, id)]
                    &&& room.id == id
                },
                None => !has_room(self@, id),
            },
    {
        let n = self.entries.len();
        let mut i: usize = 0;
        while i < n
            invariant
                self.wf(),
                n == self@.len(),
                i <= n,
                forall|j: int| 0 <= j < i ==> self@[j].id != id,
            decreases n - i,
        {
            if self.entries[i].id == id {
                proof {
                    lemma_room_index(self@, i as int, id);
                }
                return Some(&self.entries[i]);
            }
            i = i + 1;
        }
        None
    }

    /// The number of rooms.
    pub fn len(&self) -> (n: usize)
        ensures
            n == self@.len(),
    {
        self.entries.len()
    }

    /// The room at position `index`, in insertion order.
    pub fn get_at(&self, index: usize) -> (room: &Room)
        requires
            index < self@.len(),
        ensures
            *room == self@[index as int],
    {
        &self.entries[index]
    }

    /// Appends a message by `author_id` to the room with identity `room_id`.
    /// Returns whether such a room exists; when none does, nothing changes.
    pub fn post_message(&mut self, room_id: u128, author_id: u128, content: String) -> (posted:
        bool)
        requires
            old(self).wf(),
            has_room(old(self)@, room_id) ==> old(self)@[room_index(
                old(self)@,
                room_id,
            )].messages.next_key_spec() < u64::MAX,
        ensures
            posted == has_room(old(self)@, room_id),
            !posted ==> final(self)@ == old(self)@,
            posted ==> posts_message(old(self)@, final(self)@, room_id, author_id, content@),
            final(self).wf(),
    {
        match self.find_index(room_id) {
            Some(i) => {
                let mut room = self.entries.remove(i);
                room.messages.append(author_id, content);
                self.entries.insert(i, room);
                proof {
                    assert(self@ =~= old(self)@.update(i as int, self@[i as int]));
                    assert(self@[i as int].messages@.drop_last() =~= old(self)@[
                        i as int
                    ].messages@);
                }
                true
            },
            None => false,
        }
    }
}

/// Handles one input event against `buf` and, when the event submits, posts
/// the message to `room_id` as `author_id` in the same step: the buffer
/// reset and the sink append happen together, so no caller observes a
/// half-submitted state. Returns whether a message was posted.
pub fn dispatch_event(
    rooms: &mut Rooms,
    room_id: u128,
    author_id: u128,
    buf: &mut LineBuffer,
    evt: &InputEvent,
) -> (posted: bool)
    requires
        old(rooms).wf(),
        old(buf)@.wf(),
        has_room(old(rooms)@, room_id) ==> old(rooms)@[room_index(
            old(rooms)@,
            room_id,
        )].messages.next_key_spec() < u64::MAX,
    ensures
        final(buf)@ == step_m(old(buf)@, *evt),
        final(buf)@.wf(),
        final(rooms).wf(),
        submit_payload_m(old(buf)@, *evt) is None ==> final(rooms)@ == old(rooms)@ && !posted,
        submit_payload_m(old(buf)@, *evt) matches Some(content) ==> {
            &&& posted == has_room(old(rooms)@, room_id)
            &&& !posted ==> final(rooms)@ == old(rooms)@
            &&& posted ==> posts_message(old(rooms)@, final(rooms)@, room_id, author_id, content)
        },
{
    let cmd = apply_event(buf, evt);
    match cmd {
        EditCommand::Nothing => false,
        EditCommand::Submit(content) => rooms.post_message(room_id, author_id, content),
    }
}

} // verus!
