use chat_editor::buffer::LineBuffer;
use chat_editor::engine::InputEvent;
use chat_editor::engine::KeyCode;
use chat_editor::engine::Modifiers;
use chat_editor::history::dispatch_event;
use chat_editor::history::Author;
use chat_editor::history::Authors;
use chat_editor::history::MessageLog;
use chat_editor::history::Room;
use chat_editor::history::Rooms;

fn no_mods() -> Modifiers {
    Modifiers { shift: false, ctrl: false, meta: false }
}

fn author(id: u128, name: &str) -> Author {
    Author {
        id,
        username: name.to_string(),
        avatar: None,
        bio: None,
    }
}

fn room(id: u128, name: &str) -> Room {
    Room {
        id,
        name: name.to_string(),
        messages: MessageLog::new(),
    }
}

#[test]
fn message_log_assigns_strictly_increasing_keys() {
    let mut log = MessageLog::new();
    assert_eq!(log.len(), 0);
    assert_eq!(log.next_key(), 0);
    log.append(7, "first".to_string());
    log.append(7, "second".to_string());
    log.append(9, "third".to_string());
    assert_eq!(log.len(), 3);
    assert_eq!(log.next_key(), 3);
    let mut i = 0;
    while i < log.len() {
        let msg = log.get(i);
        assert_eq!(msg.id as usize, i);
        if i > 0 {
            assert!(log.get(i - 1).id < msg.id);
        }
        i += 1;
    }
    assert_eq!(log.get(0).content.as_str(), "first");
    assert_eq!(log.get(2).author, 9);
}

#[test]
fn author_directory_inserts_and_looks_up() {
    let mut authors = Authors::new();
    assert_eq!(authors.len(), 0);
    authors.insert(author(1, "Anakin"));
    authors.insert(author(2, "Obi-Wan"));
    assert_eq!(authors.len(), 2);
    let found = authors.get(2).expect("author 2 must be present");
    assert_eq!(found.username.as_str(), "Obi-Wan");
    assert!(authors.get(3).is_none());
}

#[test]
fn author_insert_replaces_same_identity() {
    let mut authors = Authors::new();
    authors.insert(author(1, "Old"));
    authors.insert(Author {
        id: 1,
        username: "New".to_string(),
        avatar: Some("http://example.invalid/a.webp".to_string()),
        bio: Some("renamed".to_string()),
    });
    assert_eq!(authors.len(), 1);
    let found = authors.get(1).expect("author 1 must be present");
    assert_eq!(found.username.as_str(), "New");
    assert_eq!(authors.get_at(0).username.as_str(), "New");
}

#[test]
fn room_directory_inserts_and_looks_up() {
    let mut rooms = Rooms::new();
    rooms.insert(room(10, "Starwars"));
    rooms.insert(room(11, "Spiderman"));
    assert_eq!(rooms.len(), 2);
    let found = rooms.get(10).expect("room 10 must be present");
    assert_eq!(found.name.as_str(), "Starwars");
    assert!(rooms.get(12).is_none());
    assert_eq!(rooms.get_at(1).name.as_str(), "Spiderman");
}

#[test]
fn room_insert_replaces_same_identity() {
    let mut rooms = Rooms::new();
    rooms.insert(room(10, "Before"));
    rooms.insert(room(10, "After"));
    assert_eq!(rooms.len(), 1);
    assert_eq!(rooms.get_at(0).name.as_str(), "After");
}

#[test]
fn post_message_appends_to_the_right_room() {
    let mut rooms = Rooms::new();
    rooms.insert(room(10, "Starwars"));
    rooms.insert(room(11, "Spiderman"));
    assert!(rooms.post_message(11, 7, "hello there".to_string()));
    assert!(rooms.post_message(11, 8, "general".to_string()));
    let starwars = rooms.get(10).expect("room 10 must be present");
    assert_eq!(starwars.messages.len(), 0);
    let spiderman = rooms.get(11).expect("room 11 must be present");
    assert_eq!(spiderman.messages.len(), 2);
    assert_eq!(spiderman.messages.get(0).content.as_str(), "hello there");
    assert_eq!(spiderman.messages.get(0).id, 0);
    assert_eq!(spiderman.messages.get(0).author, 7);
    assert_eq!(spiderman.messages.get(1).id, 1);
}

#[test]
fn post_message_to_a_missing_room_changes_nothing() {
    let mut rooms = Rooms::new();
    rooms.insert(room(10, "Starwars"));
    assert!(!rooms.post_message(99, 7, "lost".to_string()));
    assert_eq!(rooms.get_at(0).messages.len(), 0);
}

#[test]
fn dispatch_submit_posts_and_clears_in_one_step() {
    let mut rooms = Rooms::new();
    rooms.insert(room(10, "Starwars"));
    let mut buf = LineBuffer::new();
    buf.insert_text("Do or do not.");
    buf.split_line();
    buf.insert_text("There is no try.");
    let posted = dispatch_event(
        &mut rooms,
        10,
        7,
        &mut buf,
        &InputEvent::Key(KeyCode::Enter, no_mods()),
    );
    assert!(posted);
    assert_eq!(buf.line_count(), 1);
    assert_eq!(buf.line_at(0).as_str(), "");
    let starwars = rooms.get(10).expect("room 10 must be present");
    assert_eq!(starwars.messages.len(), 1);
    assert_eq!(
        starwars.messages.get(0).content.as_str(),
        "Do or do not.\nThere is no try."
    );
    assert_eq!(starwars.messages.get(0).author, 7);
}

#[test]
fn dispatch_non_submit_leaves_rooms_alone() {
    let mut rooms = Rooms::new();
    rooms.insert(room(10, "Starwars"));
    let mut buf = LineBuffer::new();
    let posted = dispatch_event(
        &mut rooms,
        10,
        7,
        &mut buf,
        &InputEvent::Character(String::from("a"), no_mods()),
    );
    assert!(!posted);
    assert_eq!(buf.line_at(0).as_str(), "a");
    assert_eq!(rooms.get_at(0).messages.len(), 0);
}
