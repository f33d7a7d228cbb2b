//! The action layer: verbs, framing, and end-to-end flows.
use tickets::actions::match_action;
use tickets::actions::Action;
use tickets::actions::ActionOutcome;
use tickets::actions::Opt;
use tickets::actions::Status;
use tickets::store::Store;

fn run(store: &mut Store, action: Option<Action>, now: u64) -> (Status, String) {
    match match_action(store, Opt { action }, now) {
        ActionOutcome::Done(status, message) => (status, message),
        ActionOutcome::EditorNeeded(_, _) => panic!("the editor is not exercised here"),
    }
}

fn new(id: &str, message: &str) -> Option<Action> {
    Some(Action::New {
        id: id.to_string(),
        message: Some(message.to_string()),
    })
}

#[test]
fn the_very_first_run_requires_init() {
    let mut store = Store::empty();
    let (status, message) = run(&mut store, None, 0);
    assert_eq!(status, Status::Failure);
    assert_eq!(message, "ERROR: NOT INITIALIZED, PLEASE init.");
}

#[test]
fn init_successfully() {
    let mut store = Store::empty();
    let (status, message) = run(&mut store, Some(Action::Init), 0);
    assert_eq!(status, Status::Success);
    assert_eq!(message, "tickets :: init\n\nSUCCEEDED.");
}

#[test]
fn fail_to_re_init() {
    let mut store = Store::empty();
    run(&mut store, Some(Action::Init), 0);
    let (status, message) = run(&mut store, Some(Action::Init), 1);
    assert_eq!(status, Status::Failure);
    assert_eq!(
        message,
        "tickets :: init\n\nERROR: The root ~/.tickets already exists."
    );
}

#[test]
fn create_a_new_category() {
    let mut store = Store::empty();
    run(&mut store, Some(Action::Init), 0);
    let action = Some(Action::New {
        id: "test/".to_string(),
        message: None,
    });
    let (status, message) = run(&mut store, action, 1);
    assert_eq!(status, Status::Success);
    assert_eq!(message, "tickets :: new :: test/\n\nSUCCEEDED.");
}

#[test]
fn do_not_create_the_same_category_again() {
    let mut store = Store::empty();
    run(&mut store, Some(Action::Init), 0);
    let action = Some(Action::New {
        id: "test/".to_string(),
        message: None,
    });
    run(&mut store, action, 1);
    let action = Some(Action::New {
        id: "test/".to_string(),
        message: None,
    });
    let (status, message) = run(&mut store, action, 2);
    assert_eq!(status, Status::Failure);
    assert_eq!(
        message,
        "tickets :: new :: test/\n\nERROR: The path already exists."
    );
}

#[test]
fn create_a_new_ticket() {
    let mut store = Store::empty();
    run(&mut store, Some(Action::Init), 0);
    run(
        &mut store,
        Some(Action::New {
            id: "test/".to_string(),
            message: None,
        }),
        1,
    );
    let (status, message) = run(
        &mut store,
        new("test/ID-1234", "A fresh new ticket."),
        2,
    );
    assert_eq!(status, Status::Success);
    assert_eq!(message, "tickets :: new :: test/ID-1234\n\nSUCCEEDED.");
}

#[test]
fn fail_to_create_a_ticket_without_category() {
    let mut store = Store::empty();
    run(&mut store, Some(Action::Init), 0);
    let (status, message) = run(&mut store, new("without-you", "A fresh new ticket."), 1);
    assert_eq!(status, Status::Failure);
    assert_eq!(
        message,
        "tickets :: new\n\nERROR: Invalid identifier without-you"
    );
}

#[test]
fn fail_to_create_a_ticket_with_non_existing_category() {
    let mut store = Store::empty();
    run(&mut store, Some(Action::Init), 0);
    let (status, message) = run(
        &mut store,
        new("never-exists/ID-1234", "It will never happen."),
        1,
    );
    assert_eq!(status, Status::Failure);
    assert_eq!(
        message,
        "tickets :: new :: never-exists/ID-1234\n\nERROR: The category does not exist."
    );
}

#[test]
fn show_a_valid_ticket() {
    let mut store = Store::empty();
    run(&mut store, Some(Action::Init), 0);
    run(
        &mut store,
        Some(Action::New {
            id: "test/".to_string(),
            message: None,
        }),
        1,
    );
    run(&mut store, new("test/ID-1234", "A fresh new ticket."), 2);
    let (status, message) = run(
        &mut store,
        Some(Action::Show {
            id: "test/ID-1234".to_string(),
        }),
        3,
    );
    assert_eq!(status, Status::Success);
    assert_eq!(
        message,
        "tickets :: show :: test/ID-1234\n\nA fresh new ticket."
    );
}

#[test]
fn show_a_invalid_ticket_id() {
    let mut store = Store::empty();
    let (status, message) = run(
        &mut store,
        Some(Action::Show {
            id: "invalid-ticket".to_string(),
        }),
        0,
    );
    assert_eq!(status, Status::Failure);
    assert_eq!(
        message,
        "tickets :: show\n\nERROR: Invalid identifier invalid-ticket"
    );
}

#[test]
fn fail_to_show_a_non_existing_ticket() {
    let mut store = Store::empty();
    run(&mut store, Some(Action::Init), 0);
    let (status, message) = run(
        &mut store,
        Some(Action::Show {
            id: "never/exists".to_string(),
        }),
        1,
    );
    assert_eq!(status, Status::Failure);
    assert_eq!(message, "tickets :: show :: never/exists\n\nERROR: NOT FOUND.");
}

#[test]
fn show_an_empty_category() {
    let mut store = Store::empty();
    run(&mut store, Some(Action::Init), 0);
    run(
        &mut store,
        Some(Action::New {
            id: "test/".to_string(),
            message: None,
        }),
        1,
    );
    let (status, message) = run(
        &mut store,
        Some(Action::Show {
            id: "test/".to_string(),
        }),
        2,
    );
    assert_eq!(status, Status::Success);
    assert_eq!(message, "tickets :: show :: test/\n\nNO TICKETS.");
}

#[test]
fn failed_to_show_a_non_existing_category() {
    let mut store = Store::empty();
    run(&mut store, Some(Action::Init), 0);
    let (status, message) = run(
        &mut store,
        Some(Action::Show {
            id: "never-exists/".to_string(),
        }),
        1,
    );
    assert_eq!(status, Status::Failure);
    assert_eq!(
        message,
        "tickets :: show :: never-exists/\n\nERROR: NOT FOUND."
    );
}

#[test]
fn show_a_category_with_multiple_tickets() {
    let mut store = Store::empty();
    run(&mut store, Some(Action::Init), 0);
    run(
        &mut store,
        Some(Action::New {
            id: "test/".to_string(),
            message: None,
        }),
        1,
    );
    run(&mut store, new("test/ID-1", "A fresh new ticket."), 2);
    run(&mut store, new("test/ID-2", "The second ticket."), 3);
    run(&mut store, new("test/ID-3", "A beautiful 3rd ticket."), 4);
    let (status, message) = run(
        &mut store,
        Some(Action::Show {
            id: "test/".to_string(),
        }),
        5,
    );
    assert_eq!(status, Status::Success);
    assert_eq!(
        message,
        "tickets :: show :: test/\n\n\
         [ID-1]A fresh new ticket.\n\
         [ID-2]The second ticket.\n\
         [ID-3]A beautiful 3rd ticket."
    );
}

#[test]
fn edit_a_ticket() {
    let mut store = Store::empty();
    run(&mut store, Some(Action::Init), 0);
    run(
        &mut store,
        Some(Action::New {
            id: "hello/".to_string(),
            message: None,
        }),
        1,
    );
    run(&mut store, new("hello/ID-1234", "To be edited..."), 2);
    let (status, message) = run(
        &mut store,
        Some(Action::Edit {
            id: "hello/ID-1234".to_string(),
            message: Some("Now edited!".to_string()),
        }),
        3,
    );
    assert_eq!(status, Status::Success);
    assert_eq!(message, "tickets :: edit :: hello/ID-1234\n\nSUCCEEDED.");
    let (status, message) = run(
        &mut store,
        Some(Action::Show {
            id: "hello/ID-1234".to_string(),
        }),
        4,
    );
    assert_eq!(status, Status::Success);
    assert_eq!(message, "tickets :: show :: hello/ID-1234\n\nNow edited!");
}

#[test]
fn fail_to_edit_a_non_existing_ticket() {
    let mut store = Store::empty();
    run(&mut store, Some(Action::Init), 0);
    run(
        &mut store,
        Some(Action::New {
            id: "hello/".to_string(),
            message: None,
        }),
        1,
    );
    let (status, message) = run(
        &mut store,
        Some(Action::Edit {
            id: "hello/ID-1234".to_string(),
            message: Some("Now edited!".to_string()),
        }),
        2,
    );
    assert_eq!(status, Status::Failure);
    assert_eq!(
        message,
        "tickets :: edit :: hello/ID-1234\n\nERROR: The path does not exist."
    );
}

#[test]
fn fail_to_edit_a_category() {
    let mut store = Store::empty();
    run(&mut store, Some(Action::Init), 0);
    run(
        &mut store,
        Some(Action::New {
            id: "hello/".to_string(),
            message: None,
        }),
        1,
    );
    let (status, message) = run(
        &mut store,
        Some(Action::Edit {
            id: "hello/".to_string(),
            message: Some("Hope to edit!".to_string()),
        }),
        2,
    );
    assert_eq!(status, Status::Failure);
    assert_eq!(
        message,
        "tickets :: edit :: hello/\n\nERROR: The category cannot be edited."
    );
}

#[test]
fn move_a_ticket() {
    let mut store = Store::empty();
    run(&mut store, Some(Action::Init), 0);
    run(
        &mut store,
        Some(Action::New {
            id: "test1/".to_string(),
            message: None,
        }),
        1,
    );
    run(
        &mut store,
        Some(Action::New {
            id: "test2/".to_string(),
            message: None,
        }),
        2,
    );
    run(&mut store, new("test1/ID-1234", "To be moved..."), 3);
    let (status, message) = run(
        &mut store,
        Some(Action::Move {
            id: "test1/ID-1234".to_string(),
            dest_id: "test2/ID-1234".to_string(),
        }),
        4,
    );
    assert_eq!(status, Status::Success);
    assert_eq!(
        message,
        "tickets :: move :: test1/ID-1234 => test2/ID-1234\n\nSUCCEEDED."
    );
    let (status, message) = run(
        &mut store,
        Some(Action::Move {
            id: "test2/ID-1234".to_string(),
            dest_id: "test1/".to_string(),
        }),
        5,
    );
    assert_eq!(status, Status::Success);
    assert_eq!(
        message,
        "tickets :: move :: test2/ID-1234 => test1/\n\nSUCCEEDED."
    );
}

#[test]
fn reject_to_move_from_invalid_id() {
    let mut store = Store::empty();
    run(&mut store, Some(Action::Init), 0);
    let (status, message) = run(
        &mut store,
        Some(Action::Move {
            id: "in/valid/ID-1234".to_string(),
            dest_id: "test2/".to_string(),
        }),
        1,
    );
    assert_eq!(status, Status::Failure);
    assert_eq!(
        message,
        "tickets :: move\n\nERROR: Invalid identifier in/valid/ID-1234"
    );
}

#[test]
fn reject_to_move_from_invalid_destination_id() {
    let mut store = Store::empty();
    run(&mut store, Some(Action::Init), 0);
    run(
        &mut store,
        Some(Action::New {
            id: "test1/".to_string(),
            message: None,
        }),
        1,
    );
    run(&mut store, new("test1/ID-1234", "To be moved..."), 2);
    let (status, message) = run(
        &mut store,
        Some(Action::Move {
            id: "test1/ID-1234".to_string(),
            dest_id: "in/valid/id".to_string(),
        }),
        3,
    );
    assert_eq!(status, Status::Failure);
    assert_eq!(
        message,
        "tickets :: move\n\nERROR: Invalid identifier in/valid/id"
    );
}

#[test]
fn fail_to_move_a_non_existing_ticket() {
    let mut store = Store::empty();
    run(&mut store, Some(Action::Init), 0);
    run(
        &mut store,
        Some(Action::New {
            id: "test1/".to_string(),
            message: None,
        }),
        1,
    );
    let (status, _message) = run(
        &mut store,
        Some(Action::Move {
            id: "test1/ID-1234".to_string(),
            dest_id: "test2/".to_string(),
        }),
        2,
    );
    assert_eq!(status, Status::Failure);
}

#[test]
fn fail_to_move_a_ticket_to_non_existing_category() {
    let mut store = Store::empty();
    run(&mut store, Some(Action::Init), 0);
    run(
        &mut store,
        Some(Action::New {
            id: "test1/".to_string(),
            message: None,
        }),
        1,
    );
    run(&mut store, new("test1/ID-1234", "To be moved..."), 2);
    let (status, _message) = run(
        &mut store,
        Some(Action::Move {
            id: "test1/ID-1234".to_string(),
            dest_id: "test2/ID-1234".to_string(),
        }),
        3,
    );
    assert_eq!(status, Status::Failure);
}

#[test]
fn move_a_whole_category() {
    let mut store = Store::empty();
    run(&mut store, Some(Action::Init), 0);
    run(
        &mut store,
        Some(Action::New {
            id: "test1/".to_string(),
            message: None,
        }),
        1,
    );
    run(
        &mut store,
        Some(Action::New {
            id: "test2/".to_string(),
            message: None,
        }),
        2,
    );
    run(&mut store, new("test1/ID-1233", "To be moved..."), 3);
    run(&mut store, new("test1/ID-1234", "To be moved too..."), 4);
    let (status, message) = run(
        &mut store,
        Some(Action::Move {
            id: "test1/".to_string(),
            dest_id: "test2/".to_string(),
        }),
        5,
    );
    assert_eq!(status, Status::Success);
    assert_eq!(message, "tickets :: move :: test1/ => test2/\n\nSUCCEEDED.");
    let (status, message) = run(
        &mut store,
        Some(Action::Show {
            id: "test2/".to_string(),
        }),
        6,
    );
    assert_eq!(status, Status::Success);
    assert_eq!(
        message,
        "tickets :: show :: test2/\n\n[ID-1233]To be moved...\n[ID-1234]To be moved too..."
    );
}

#[test]
fn remove_a_ticket() {
    let mut store = Store::empty();
    run(&mut store, Some(Action::Init), 0);
    run(
        &mut store,
        Some(Action::New {
            id: "hello/".to_string(),
            message: None,
        }),
        1,
    );
    run(&mut store, new("hello/ID-1233", "To be removed..."), 2);
    let (status, message) = run(
        &mut store,
        Some(Action::Remove {
            id: "hello/ID-1233".to_string(),
        }),
        3,
    );
    assert_eq!(status, Status::Success);
    assert_eq!(message, "tickets :: remove :: hello/ID-1233\n\nSUCCEEDED.");
    let (status, message) = run(
        &mut store,
        Some(Action::Show {
            id: "hello/ID-1233".to_string(),
        }),
        4,
    );
    assert_eq!(status, Status::Failure);
    assert_eq!(
        message,
        "tickets :: show :: hello/ID-1233\n\nERROR: NOT FOUND."
    );
}

#[test]
fn fail_to_remove_non_existing_ticket() {
    let mut store = Store::empty();
    run(&mut store, Some(Action::Init), 0);
    run(
        &mut store,
        Some(Action::New {
            id: "hello/".to_string(),
            message: None,
        }),
        1,
    );
    let (status, _message) = run(
        &mut store,
        Some(Action::Remove {
            id: "hello/ID-1233".to_string(),
        }),
        2,
    );
    assert_eq!(status, Status::Failure);
}

#[test]
fn remove_a_whole_category() {
    let mut store = Store::empty();
    run(&mut store, Some(Action::Init), 0);
    run(
        &mut store,
        Some(Action::New {
            id: "hello/".to_string(),
            message: None,
        }),
        1,
    );
    run(&mut store, new("hello/ID-1233", "To be removed..."), 2);
    run(&mut store, new("hello/ID-1234", "To be removed too..."), 3);
    let (status, message) = run(
        &mut store,
        Some(Action::Remove {
            id: "hello/".to_string(),
        }),
        4,
    );
    assert_eq!(status, Status::Success);
    assert_eq!(message, "tickets :: remove :: hello/\n\nSUCCEEDED.");
    let (status, message) = run(
        &mut store,
        Some(Action::Show {
            id: "hello/".to_string(),
        }),
        5,
    );
    assert_eq!(status, Status::Failure);
    assert_eq!(message, "tickets :: show :: hello/\n\nERROR: NOT FOUND.");
}

#[test]
fn tickets() {
    let mut store = Store::empty();
    run(&mut store, Some(Action::Init), 0);
    run(
        &mut store,
        Some(Action::New {
            id: "hello/".to_string(),
            message: None,
        }),
        1,
    );
    run(&mut store, new("hello/ID-1233", "Final Tests"), 2);
    run(&mut store, new("hello/ID-1234", "Real Final Tests"), 3);
    run(
        &mut store,
        Some(Action::New {
            id: "world/".to_string(),
            message: None,
        }),
        4,
    );
    run(&mut store, new("world/WTF-1", "What The ...?"), 5);
    run(&mut store, new("world/WTF-2", "Don't Do That"), 6);

    let (status, message) = run(&mut store, None, 7);
    assert_eq!(status, Status::Success);
    assert_eq!(
        message,
        "hello/\n\
         [ID-1233]Final Tests\n\
         [ID-1234]Real Final Tests\n\
         \n\
         world/\n\
         [WTF-1]What The ...?\n\
         [WTF-2]Don't Do That"
    );
}

#[test]
fn fail_to_ticket_without_init() {
    let mut store = Store::empty();
    let (status, message) = run(&mut store, None, 0);
    assert_eq!(status, Status::Failure);
    assert_eq!(message, "ERROR: NOT INITIALIZED, PLEASE init.");
}

#[test]
fn ticket_with_no_categories() {
    let mut store = Store::empty();
    run(&mut store, Some(Action::Init), 0);
    let (status, message) = run(&mut store, None, 1);
    assert_eq!(status, Status::Success);
    assert_eq!(message, "NO TICKETS.");
}

#[test]
fn ticket_with_categories_but_no_tickets() {
    let mut store = Store::empty();
    run(&mut store, Some(Action::Init), 0);
    run(
        &mut store,
        Some(Action::New {
            id: "hello/".to_string(),
            message: None,
        }),
        1,
    );
    run(
        &mut store,
        Some(Action::New {
            id: "world/".to_string(),
            message: None,
        }),
        2,
    );
    let (status, message) = run(&mut store, None, 3);
    assert_eq!(status, Status::Success);
    assert_eq!(message, "hello/\nNO TICKETS.\n\nworld/\nNO TICKETS.");
}

#[test]
fn new_without_message_hands_back_the_node() {
    let mut store = Store::empty();
    run(&mut store, Some(Action::Init), 0);
    run(
        &mut store,
        Some(Action::New {
            id: "hello/".to_string(),
            message: None,
        }),
        1,
    );
    let outcome = match_action(
        &mut store,
        Opt {
            action: Some(Action::New {
                id: "hello/draft".to_string(),
                message: None,
            }),
        },
        2,
    );
    match outcome {
        ActionOutcome::EditorNeeded(node, header) => {
            assert_eq!(node.path, "hello/draft");
            assert_eq!(header, "tickets :: new :: hello/draft");
            // the caller stores what the editor left
            node.write(&mut store, "Drafted later", 3).unwrap();
        }
        ActionOutcome::Done(_, _) => panic!("This should never happen."),
    }
    let (status, message) = run(
        &mut store,
        Some(Action::Show {
            id: "hello/draft".to_string(),
        }),
        4,
    );
    assert_eq!(status, Status::Success);
    assert_eq!(message, "tickets :: show :: hello/draft\n\nDrafted later");
}
