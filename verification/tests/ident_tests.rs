//! The identifier grammar and node construction.
use tickets::node::Ticket;

// ========== identify_id ==========
#[test]
fn identify_id() {
    assert_eq!(
        tickets::ident::identify_id("where/hello-1234"),
        Ok((String::from("where"), Some(String::from("hello-1234"))))
    );
}

#[test]
fn fail_to_identify_id_without_slash() {
    let result = tickets::ident::identify_id("hello-1234");
    assert!(result.is_err());
    match result {
        Ok((_category, _id)) => {
            panic!("This should naver happen.");
        }
        Err(error) => {
            assert_eq!(error.message(), "Invalid identifier hello-1234");
        }
    }
}

#[test]
fn fail_to_identify_a_bad_id() {
    let result = tickets::ident::identify_id("really/bad/id");
    assert!(result.is_err());
    match result {
        Ok(_) => {
            panic!("This should never happen.");
        }
        Err(error) => {
            assert_eq!(error.message(), "Invalid identifier really/bad/id");
        }
    }
}

#[test]
fn identify_directory() {
    assert_eq!(
        tickets::ident::identify_id("where/"),
        Ok((String::from("where"), None))
    );
}

#[test]
fn identify_empty_category_segment() {
    assert_eq!(
        tickets::ident::identify_id("/orphan"),
        Ok((String::from(""), Some(String::from("orphan"))))
    );
}

// ========== ticket::from ==========
#[test]
fn instantiate_a_ticket_from_a_valid_ticket() {
    let ticket = Ticket::from("valid/ticket".to_string(), None);
    assert!(ticket.is_ok());
    let ticket = ticket.unwrap();
    assert_eq!(ticket.is_dir, false);
}

#[test]
fn ticket_from_a_valid_category() {
    let ticket = Ticket::from("valid/".to_string(), None);
    assert!(ticket.is_ok());
    let ticket = ticket.unwrap();
    assert_eq!(ticket.is_dir, true);
}

#[test]
fn fail_to_ticket_from_id_without_slash() {
    let ticket = Ticket::from("ticket".to_string(), None);
    assert!(ticket.is_err());
    match ticket {
        Err(err) => {
            assert_eq!(err.message(), "Invalid identifier ticket".to_string());
        }
        Ok(_) => {
            panic!("This should never happen.");
        }
    }
}

#[test]
fn fail_to_ticket_from_invalid_id() {
    let ticket = Ticket::from("w/t/f/ticket".to_string(), None);
    assert!(ticket.is_err());
    match ticket {
        Err(err) => {
            assert_eq!(err.message(), "Invalid identifier w/t/f/ticket".to_string());
        }
        Ok(_) => {
            panic!("This should never happen.");
        }
    }
}

#[test]
fn ticket_from_fields_follow_the_identifier() {
    let ticket = Ticket::from("cat/id-1".to_string(), Some("content".to_string())).unwrap();
    assert_eq!(ticket.path, "cat/id-1");
    assert_eq!(ticket.category, "cat");
    assert_eq!(ticket.id, Some("id-1".to_string()));
    assert_eq!(ticket.title, Some("content".to_string()));
    assert_eq!(ticket.message, None);
    assert_eq!(ticket.modified_at, None);
    assert!(!ticket.is_dir);
}
