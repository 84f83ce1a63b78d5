use wedding_api::guests::GuestBook;
use wedding_api::import::import_guests;

#[test]
fn parsed_rows_become_guests_with_derived_fields() {
    let mut book = GuestBook::new();
    let body = "Name,Relationship,Sam/Jonah,Maybe\n\
                Jane Doe,+1,Sam,Yes\n\
                John Smith,1,Jonah,no\n";
    let r = import_guests(&mut book, body, 10);
    assert!(r.success);
    assert_eq!(r.imported_count, 2);
    assert!(r.errors.is_empty());
    assert_eq!(book.guests.len(), 2);

    let jane = &book.guests[0];
    assert_eq!(jane.name, "Jane Doe");
    assert_eq!(jane.relationship, "+1");
    assert_eq!(jane.sam_or_jonah, "Sam");
    assert!(jane.maybe);
    assert_eq!(jane.invite_type, "plus_one");
    assert_eq!(jane.unique_code.chars().count(), 8);
    assert!(jane.unique_code.chars().all(|c| c.is_ascii_hexdigit() && !c.is_ascii_uppercase()));
    assert_eq!(jane.email, format!("jane_doe_{}", jane.unique_code));
    assert_eq!(jane.invite_id, None);
    assert!(!jane.removed);

    let john = &book.guests[1];
    assert_eq!(john.invite_type, "single");
    assert!(!john.maybe);
}

#[test]
fn maybe_column_is_read_case_insensitively() {
    let mut book = GuestBook::new();
    let body = "Name,Relationship,Sam/Jonah,Maybe\n\
                A One,1,Sam,YES\n\
                B Two,1,Sam,yEs\n\
                C Three,1,Sam,\n";
    let r = import_guests(&mut book, body, 1);
    assert_eq!(r.imported_count, 3);
    assert!(book.guests[0].maybe);
    assert!(book.guests[1].maybe);
    assert!(!book.guests[2].maybe);
}

#[test]
fn a_malformed_record_is_reported_with_its_row_number() {
    let mut book = GuestBook::new();
    let body = "Name,Relationship,Sam/Jonah,Maybe\n\
                Jane Doe,+1,Sam,Yes\n\
                Broken Row,only-two\n\
                John Smith,1,Jonah,no\n";
    let r = import_guests(&mut book, body, 1);
    assert!(!r.success);
    assert_eq!(r.imported_count, 2);
    assert_eq!(r.errors.len(), 1);
    assert!(r.errors[0].starts_with("Row 2: "));
    assert_eq!(book.guests.len(), 2);
}

#[test]
fn an_empty_body_imports_nothing() {
    let mut book = GuestBook::new();
    let r = import_guests(&mut book, "", 1);
    assert!(r.success);
    assert_eq!(r.imported_count, 0);
    assert!(r.errors.is_empty());
    assert!(book.guests.is_empty());
}

#[test]
fn imported_guests_get_distinct_ids_and_codes_make_emails_unique() {
    let mut book = GuestBook::new();
    let body = "Name,Relationship,Sam/Jonah,Maybe\n\
                Twin One,1,Sam,no\n\
                Twin One,1,Sam,no\n";
    let r = import_guests(&mut book, body, 1);
    assert_eq!(r.imported_count, 2);
    assert_ne!(book.guests[0].id, book.guests[1].id);
}
