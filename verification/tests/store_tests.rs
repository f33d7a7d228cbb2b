//! The store operations, exercised on in-memory stores.
use tickets::errors::ErrorKind;
use tickets::node::Ticket;
use tickets::store::Store;
use tickets::store::WriteOutcome;

fn fresh_store() -> Store {
    let mut store = Store::empty();
    tickets::store::initialize_root(&mut store).unwrap();
    store
}

fn category_names(store: &Store) -> Vec<String> {
    store.categories.iter().map(|c| c.name.clone()).collect()
}

// ========== initialize_root / purge ==========
#[test]
fn initialize_root() {
    let mut store = Store::empty();
    let result_init = tickets::store::initialize_root(&mut store);
    assert!(result_init.is_ok());
    assert!(store.initialized);
}

#[test]
fn fail_to_initialize_root_when_the_root_exists() {
    let mut store = Store::empty();
    tickets::store::initialize_root(&mut store).unwrap();
    let result_init = tickets::store::initialize_root(&mut store);
    assert!(result_init.is_err());
    match result_init {
        Ok(()) => {
            panic!("This should never happen.");
        }
        Err(error) => {
            assert_eq!(error.message(), "The root ~/.tickets already exists.");
        }
    }
}

#[test]
fn purge() {
    let mut store = fresh_store();
    let ticket = Ticket::from("new/".to_string(), None).unwrap();
    ticket.new(&mut store, 1).unwrap();
    let result_purge = tickets::store::purge(&mut store);
    assert!(result_purge.is_ok());
    assert!(!store.initialized);
    assert!(store.categories.is_empty());
}

#[test]
fn fail_to_purge_when_the_root_does_not_exist() {
    let mut store = Store::empty();
    let result_purge = tickets::store::purge(&mut store);
    assert!(result_purge.is_err());
    match result_purge {
        Ok(()) => {
            panic!("This should never happen.");
        }
        Err(error) => {
            assert_eq!(error.kind(), ErrorKind::NotFound);
        }
    }
}

// ========== ticket.new ==========
#[test]
fn ticket_new_a_category() {
    let mut store = fresh_store();
    let ticket = Ticket::from("new/".to_string(), None).unwrap();
    let result_new = ticket.new(&mut store, 1);
    assert!(result_new.is_ok());
    assert_eq!(category_names(&store), vec!["new".to_string()]);
}

#[test]
fn fail_to_ticket_new_the_same_category_again() {
    let mut store = fresh_store();
    let ticket = Ticket::from("new/".to_string(), None).unwrap();
    ticket.new(&mut store, 1).unwrap();
    let again = Ticket::from("new/".to_string(), None).unwrap();
    let result_new = again.new(&mut store, 2);
    assert!(result_new.is_err());
    assert_eq!(result_new.unwrap_err().message(), "The path already exists.");
    assert_eq!(store.categories.len(), 1);
}

#[test]
fn ticket_new_a_ticket() {
    let mut store = fresh_store();
    let ticket = Ticket::from(
        "hello/new_ticket".to_string(),
        Some("Some contents".to_string()),
    )
    .unwrap();
    ticket.initialize_directory(&mut store, 1).unwrap();
    let result_new = ticket.new(&mut store, 2);
    assert!(matches!(result_new, Ok(WriteOutcome::Done)));
    let stored = &store.categories[0].tickets[0];
    assert_eq!(stored.id, "new_ticket");
    assert_eq!(ticket.title.unwrap(), stored.content);
}

#[test]
fn ticket_new_without_content_stores_nothing() {
    let mut store = fresh_store();
    let ticket = Ticket::from("hello/pending".to_string(), None).unwrap();
    ticket.initialize_directory(&mut store, 1).unwrap();
    let result_new = ticket.new(&mut store, 2);
    assert!(matches!(result_new, Ok(WriteOutcome::NeedsContent)));
    assert!(store.categories[0].tickets.is_empty());
}

#[test]
fn fail_to_ticket_new_a_ticket_without_directory() {
    let mut store = fresh_store();
    let ticket = Ticket::from(
        "never-exists/new_ticket".to_string(),
        Some("Some contents".to_string()),
    )
    .unwrap();
    let result_new = ticket.new(&mut store, 1);
    assert!(result_new.is_err());
    assert!(store.categories.is_empty());
    match result_new {
        Ok(_) => {
            panic!("This should never happen");
        }
        Err(error) => {
            assert_eq!(error.message(), "The category does not exist.");
        }
    }
}

// ========== ticket.edit ==========
#[test]
fn ticket_edit_a_ticket_with_message_given() {
    let mut store = fresh_store();
    let original = Ticket::from(
        "hello/ticket".to_string(),
        Some("ticket title\n\nand some content".to_string()),
    )
    .unwrap();
    original.initialize_directory(&mut store, 1).unwrap();
    original.new(&mut store, 2).unwrap();

    let ticket = Ticket::from(
        "hello/ticket".to_string(),
        Some("Edited title".to_string()),
    )
    .unwrap();
    let result_edit = ticket.edit(&mut store, 3);
    assert!(matches!(result_edit, Ok(WriteOutcome::Done)));
    let stored = &store.categories[0].tickets[0];
    assert_eq!(ticket.title.unwrap(), stored.content);
}

#[test]
fn fail_to_ticket_edit_a_non_existing_ticket() {
    let mut store = fresh_store();
    let dir = Ticket::from("hello/".to_string(), None).unwrap();
    dir.new(&mut store, 1).unwrap();

    let ticket = Ticket::from(
        "hello/ticket".to_string(),
        Some("Edited title".to_string()),
    )
    .unwrap();
    let result_edit = ticket.edit(&mut store, 2);
    assert!(result_edit.is_err());
    match result_edit {
        Ok(_) => {
            panic!("This should never happen.");
        }
        Err(error) => {
            assert_eq!(error.kind(), ErrorKind::NotFound);
            assert_eq!(error.message(), "The path does not exist.".to_string());
        }
    }
}

#[test]
fn fail_to_ticket_edit_a_directory() {
    let mut store = fresh_store();
    let dir = Ticket::from("hello/".to_string(), None).unwrap();
    dir.new(&mut store, 1).unwrap();

    let ticket = Ticket::from("hello/".to_string(), Some("Edited title".to_string())).unwrap();
    let result_edit = ticket.edit(&mut store, 2);
    assert!(result_edit.is_err());
    match result_edit {
        Ok(_) => {
            panic!("This should never happen.");
        }
        Err(error) => {
            assert_eq!(error.kind(), ErrorKind::InvalidInput);
            assert_eq!(error.message(), "The category cannot be edited.".to_string());
        }
    }
}

// ========== ticket.read ==========
#[test]
fn ticket_read_a_title() {
    let mut store = fresh_store();
    let writer = Ticket::from("test/new_ticket".to_string(), Some("title".to_string())).unwrap();
    writer.initialize_directory(&mut store, 1).unwrap();
    writer.new(&mut store, 2).unwrap();

    let mut ticket = Ticket::from("test/new_ticket".to_string(), None).unwrap();
    let result_read = ticket.read(&store);
    assert!(result_read.is_ok());
    assert_eq!(ticket.title, Some("title".to_string()));
    assert_eq!(ticket.message, None);
}

#[test]
fn ticket_read_a_title_and_a_message() {
    let mut store = fresh_store();
    let writer = Ticket::from(
        "test/new_ticket".to_string(),
        Some("title\n\nand some content".to_string()),
    )
    .unwrap();
    writer.initialize_directory(&mut store, 1).unwrap();
    writer.new(&mut store, 2).unwrap();

    let mut ticket = Ticket::from("test/new_ticket".to_string(), None).unwrap();
    let result_read = ticket.read(&store);
    assert!(result_read.is_ok());
    assert_eq!(ticket.title, Some("title".to_string()));
    assert_eq!(ticket.message, Some("and some content".to_string()));
    assert_eq!(ticket.modified_at, Some(2));
}

#[test]
fn ticket_read_trims_blank_remainders_to_no_message() {
    let mut store = fresh_store();
    let writer = Ticket::from("test/blank".to_string(), Some("title\n  \n ".to_string())).unwrap();
    writer.initialize_directory(&mut store, 1).unwrap();
    writer.new(&mut store, 2).unwrap();

    let mut ticket = Ticket::from("test/blank".to_string(), None).unwrap();
    ticket.read(&store).unwrap();
    assert_eq!(ticket.title, Some("title".to_string()));
    assert_eq!(ticket.message, None);
}

// ========== ticket.collect ==========
#[test]
fn ticket_collect_an_empty_directory() {
    let mut store = fresh_store();
    let dir = Ticket::from("empty/".to_string(), None).unwrap();
    dir.new(&mut store, 1).unwrap();

    let ticket = Ticket::from("empty/".to_string(), None).unwrap();
    let result = ticket.collect(&store);
    assert!(result.is_ok());
    assert_eq!(result.unwrap().len(), 0);
}

#[test]
fn ticket_collect_a_nonempty_directory() {
    let mut store = fresh_store();
    let dir = Ticket::from("nonempty/".to_string(), None).unwrap();
    dir.new(&mut store, 1).unwrap();
    for (i, name) in ["ticket1", "ticket2", "ticket3"].iter().enumerate() {
        let t = Ticket::from(
            format!("nonempty/{}", name),
            Some(format!("ticket no.{}\n\nand some content", i + 1)),
        )
        .unwrap();
        t.new(&mut store, 2 + i as u64).unwrap();
    }

    let ticket = Ticket::from("nonempty/".to_string(), None).unwrap();
    let result = ticket.collect(&store);
    assert!(result.is_ok());
    let result = result.unwrap();
    assert_eq!(result.len(), 3);
    assert_eq!(result[0].id, Some(String::from("ticket1")));
    assert_eq!(result[1].id, Some(String::from("ticket2")));
    assert_eq!(result[2].id, Some(String::from("ticket3")));
}

#[test]
fn ticket_collect_sorts_by_modification_time() {
    let mut store = fresh_store();
    let dir = Ticket::from("ordered/".to_string(), None).unwrap();
    dir.new(&mut store, 1).unwrap();
    let a = Ticket::from("ordered/late".to_string(), Some("late".to_string())).unwrap();
    a.new(&mut store, 30).unwrap();
    let b = Ticket::from("ordered/early".to_string(), Some("early".to_string())).unwrap();
    b.new(&mut store, 10).unwrap();
    let c = Ticket::from("ordered/middle".to_string(), Some("middle".to_string())).unwrap();
    c.new(&mut store, 20).unwrap();

    let result = dir.collect(&store).unwrap();
    let ids: Vec<Option<String>> = result.iter().map(|t| t.id.clone()).collect();
    assert_eq!(
        ids,
        vec![
            Some("early".to_string()),
            Some("middle".to_string()),
            Some("late".to_string())
        ]
    );
}

#[test]
fn fail_to_collect_a_ticket_node() {
    let mut store = fresh_store();
    let ticket = Ticket::from("cat/file".to_string(), None).unwrap();
    let result = ticket.collect(&store);
    assert!(result.is_err());
    assert_eq!(result.unwrap_err().kind(), ErrorKind::InvalidInput);
}

// ========== ticket.move_ ==========
#[test]
fn ticket_move_within_category() {
    let mut store = fresh_store();
    let writer = Ticket::from(
        "hello/ticket".to_string(),
        Some("ticket to be moved\n\nand some content".to_string()),
    )
    .unwrap();
    writer.initialize_directory(&mut store, 1).unwrap();
    writer.new(&mut store, 2).unwrap();

    let start_ticket = Ticket::from("hello/ticket".to_string(), None).unwrap();
    let dest_ticket = Ticket::from("hello/tucker".to_string(), None).unwrap();
    let result_move = start_ticket.move_(&dest_ticket, &mut store, 3);
    assert!(result_move.is_ok());

    let mut old = Ticket::from("hello/ticket".to_string(), None).unwrap();
    assert!(old.read(&store).is_err());

    let mut dest_ticket = Ticket::from("hello/tucker".to_string(), None).unwrap();
    dest_ticket.read(&store).unwrap();
    assert_eq!(dest_ticket.id, Some("tucker".to_string()));
    assert_eq!(dest_ticket.category, "hello".to_string());
    assert_eq!(dest_ticket.title, Some("ticket to be moved".to_string()));
    assert_eq!(dest_ticket.message, Some("and some content".to_string()));
}

#[test]
fn ticket_move_between_categories() {
    let mut store = fresh_store();
    let writer = Ticket::from(
        "hello/ticket".to_string(),
        Some("ticket to be moved\n\nand some content".to_string()),
    )
    .unwrap();
    writer.initialize_directory(&mut store, 1).unwrap();
    writer.new(&mut store, 2).unwrap();
    let world = Ticket::from("world/".to_string(), None).unwrap();
    world.new(&mut store, 3).unwrap();

    let start_ticket = Ticket::from("hello/ticket".to_string(), None).unwrap();
    let dest_ticket = Ticket::from("world/ticket".to_string(), None).unwrap();
    let result_move = start_ticket.move_(&dest_ticket, &mut store, 4);
    assert!(result_move.is_ok());

    let mut old = Ticket::from("hello/ticket".to_string(), None).unwrap();
    assert!(old.read(&store).is_err());

    let mut dest_ticket = Ticket::from("world/ticket".to_string(), None).unwrap();
    dest_ticket.read(&store).unwrap();
    assert_eq!(dest_ticket.id, Some("ticket".to_string()));
    assert_eq!(dest_ticket.category, "world".to_string());
    assert_eq!(dest_ticket.title, Some("ticket to be moved".to_string()));
    assert_eq!(dest_ticket.message, Some("and some content".to_string()));
}

#[test]
fn ticket_move_into_a_category_keeps_the_id() {
    let mut store = fresh_store();
    let writer = Ticket::from("hello/stay".to_string(), Some("body".to_string())).unwrap();
    writer.initialize_directory(&mut store, 1).unwrap();
    writer.new(&mut store, 2).unwrap();
    let world = Ticket::from("world/".to_string(), None).unwrap();
    world.new(&mut store, 3).unwrap();

    let start_ticket = Ticket::from("hello/stay".to_string(), None).unwrap();
    let result_move = start_ticket.move_(&world, &mut store, 4);
    assert!(result_move.is_ok());
    let mut moved = Ticket::from("world/stay".to_string(), None).unwrap();
    moved.read(&store).unwrap();
    assert_eq!(moved.title, Some("body".to_string()));
}

#[test]
fn fail_to_move_a_missing_ticket() {
    let mut store = fresh_store();
    let hello = Ticket::from("hello/".to_string(), None).unwrap();
    hello.new(&mut store, 1).unwrap();
    let start_ticket = Ticket::from("hello/ghost".to_string(), None).unwrap();
    let dest_ticket = Ticket::from("hello/anywhere".to_string(), None).unwrap();
    let result_move = start_ticket.move_(&dest_ticket, &mut store, 2);
    assert!(result_move.is_err());
    assert_eq!(result_move.unwrap_err().kind(), ErrorKind::NotFound);
}

// ========== ticket.move_all ==========
#[test]
fn ticket_move_all() {
    let mut store = fresh_store();
    let hello = Ticket::from("hello/".to_string(), None).unwrap();
    hello.new(&mut store, 1).unwrap();
    for (i, name) in ["ticket1", "ticket2", "ticket3"].iter().enumerate() {
        let t = Ticket::from(
            format!("hello/{}", name),
            Some(format!("ticket no.{}\n\nand some content", i + 1)),
        )
        .unwrap();
        t.new(&mut store, 2 + i as u64).unwrap();
    }
    let world = Ticket::from("world/".to_string(), None).unwrap();
    world.new(&mut store, 5).unwrap();

    let start_ticket = Ticket::from("hello/".to_string(), None).unwrap();
    let dest_ticket = Ticket::from("world/".to_string(), None).unwrap();
    let result_move = start_ticket.move_all(&dest_ticket, &mut store, 6);
    assert!(result_move.is_ok());

    let vec_empty = start_ticket.collect(&store).unwrap();
    assert!(vec_empty.is_empty());

    let vec_moved = dest_ticket.collect(&store).unwrap();
    assert_eq!(vec_moved.len(), 3);
    let titles: Vec<Option<String>> = vec_moved.iter().map(|t| t.title.clone()).collect();
    assert_eq!(
        titles,
        vec![
            Some("ticket no.1".to_string()),
            Some("ticket no.2".to_string()),
            Some("ticket no.3".to_string())
        ]
    );
}

#[test]
fn fail_to_move_all_into_a_ticket_node() {
    let mut store = fresh_store();
    let hello = Ticket::from("hello/".to_string(), None).unwrap();
    hello.new(&mut store, 1).unwrap();
    let dest = Ticket::from("world/file".to_string(), None).unwrap();
    let result = hello.move_all(&dest, &mut store, 2);
    assert!(result.is_err());
    assert_eq!(
        result.unwrap_err().message(),
        "The destination path for the file is given, expected a directory."
    );
}

// ========== ticket.remove ==========
#[test]
fn ticket_remove_one() {
    let mut store = fresh_store();
    let writer = Ticket::from(
        "hello/ticket1".to_string(),
        Some("ticket title\n\nand some content".to_string()),
    )
    .unwrap();
    writer.initialize_directory(&mut store, 1).unwrap();
    writer.new(&mut store, 2).unwrap();

    let ticket = Ticket::from("hello/ticket1".to_string(), None).unwrap();
    let result_remove = ticket.remove(&mut store, 3);
    assert!(result_remove.is_ok());

    let ticket_dir = Ticket::from("hello/".to_string(), None).unwrap();
    let vec_empty = ticket_dir.collect(&store).unwrap();
    assert!(vec_empty.is_empty());
}

#[test]
fn ticket_remove_leaves_siblings_intact() {
    let mut store = fresh_store();
    let a = Ticket::from("hello/a".to_string(), Some("left".to_string())).unwrap();
    a.initialize_directory(&mut store, 1).unwrap();
    a.new(&mut store, 2).unwrap();
    let b = Ticket::from("hello/b".to_string(), Some("right".to_string())).unwrap();
    b.new(&mut store, 3).unwrap();

    let target = Ticket::from("hello/a".to_string(), None).unwrap();
    target.remove(&mut store, 4).unwrap();

    let dir = Ticket::from("hello/".to_string(), None).unwrap();
    let remaining = dir.collect(&store).unwrap();
    assert_eq!(remaining.len(), 1);
    assert_eq!(remaining[0].id, Some("b".to_string()));
    assert_eq!(remaining[0].title, Some("right".to_string()));
}

#[test]
fn fail_to_ticket_remove_non_existing_one() {
    let mut store = fresh_store();
    let dir = Ticket::from("hello/".to_string(), None).unwrap();
    dir.new(&mut store, 1).unwrap();

    let ticket = Ticket::from("hello/ticket1".to_string(), None).unwrap();
    let result_remove = ticket.remove(&mut store, 2);
    assert!(result_remove.is_err());
}

#[test]
fn ticket_remove_all() {
    let mut store = fresh_store();
    let w1 = Ticket::from(
        "hello/ticket1".to_string(),
        Some("ticket1 title\n\nand some content".to_string()),
    )
    .unwrap();
    w1.initialize_directory(&mut store, 1).unwrap();
    w1.new(&mut store, 2).unwrap();
    let w2 = Ticket::from(
        "hello/ticket2".to_string(),
        Some("ticket2 title\n\nand some content".to_string()),
    )
    .unwrap();
    w2.new(&mut store, 3).unwrap();

    let ticket = Ticket::from("hello/".to_string(), None).unwrap();
    let result_remove = ticket.remove(&mut store, 4);
    assert!(result_remove.is_ok());
    assert!(store.categories.is_empty());
}

// ========== ticket.write ==========
#[test]
fn ticket_write_overwrites_content() {
    let mut store = fresh_store();
    let writer = Ticket::from("hello/note".to_string(), Some("first".to_string())).unwrap();
    writer.initialize_directory(&mut store, 1).unwrap();
    writer.new(&mut store, 2).unwrap();

    let node = Ticket::from("hello/note".to_string(), None).unwrap();
    node.write(&mut store, "second", 3).unwrap();
    let mut back = Ticket::from("hello/note".to_string(), None).unwrap();
    back.read(&store).unwrap();
    assert_eq!(back.title, Some("second".to_string()));
    assert_eq!(back.modified_at, Some(3));
}

#[test]
fn fail_to_write_into_a_missing_category() {
    let mut store = fresh_store();
    let node = Ticket::from("ghost/note".to_string(), None).unwrap();
    let result = node.write(&mut store, "text", 1);
    assert!(result.is_err());
    assert_eq!(result.unwrap_err().message(), "The category does not exist.");
}
