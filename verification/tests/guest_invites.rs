use wedding_api::CoreError;
use wedding_api::guests::CreateGuestRequest;
use wedding_api::guests::GuestBook;
use wedding_api::guests::MarkRemovedRequest;

fn request(name: &str, email: &str) -> CreateGuestRequest {
    CreateGuestRequest {
        name: name.to_string(),
        email: email.to_string(),
        relationship: "Friend".to_string(),
        sam_or_jonah: "Jonah".to_string(),
        maybe: false,
        invite_type: "couple".to_string(),
    }
}

#[test]
fn added_guest_gets_an_eight_digit_code_and_no_invite() {
    let mut book = GuestBook::new();
    let g = book.add_guest(request("Jane Doe", "jane@example.com"), 10);
    assert_eq!(g.name, "Jane Doe");
    assert_eq!(g.email, "jane@example.com");
    assert_eq!(g.unique_code.chars().count(), 8);
    assert!(!g.removed);
    assert_eq!(g.invite_id, None);
    assert_eq!(g.created_at, 10);
    assert_eq!(book.get_guest(g.id).unwrap().name, "Jane Doe");
}

#[test]
fn update_guest_keeps_code_and_link() {
    let mut book = GuestBook::new();
    let g = book.add_guest(request("Jane Doe", "jane@example.com"), 10);
    let updated = book
        .update_guest(g.id, request("Jane Smith", "smith@example.com"), 11)
        .unwrap();
    assert_eq!(updated.name, "Jane Smith");
    assert_eq!(updated.unique_code, g.unique_code);
    assert_eq!(updated.invite_id, None);
    assert_eq!(updated.updated_at, 11);
    assert_eq!(
        book.update_guest(999, request("X Y", "x@example.com"), 12).unwrap_err(),
        CoreError::NotFound
    );
}

#[test]
fn mark_removed_toggles_the_soft_delete_flag() {
    let mut book = GuestBook::new();
    let g = book.add_guest(request("Jane Doe", "jane@example.com"), 10);
    let marked = book.mark_guest_removed(g.id, &MarkRemovedRequest { removed: true }, 11).unwrap();
    assert!(marked.removed);
    let unmarked = book.mark_guest_removed(g.id, &MarkRemovedRequest { removed: false }, 12).unwrap();
    assert!(!unmarked.removed);
    assert_eq!(
        book.mark_guest_removed(999, &MarkRemovedRequest { removed: true }, 13).unwrap_err(),
        CoreError::NotFound
    );
}

#[test]
fn delete_guest_removes_the_record() {
    let mut book = GuestBook::new();
    let g = book.add_guest(request("Jane Doe", "jane@example.com"), 10);
    book.delete_guest(g.id);
    assert!(book.get_guest(g.id).is_none());
    assert!(book.guests.is_empty());
}

#[test]
fn invite_of_three_guests_is_an_invalid_argument() {
    let mut book = GuestBook::new();
    let g1 = book.add_guest(request("A One", "a@example.com"), 1);
    let g2 = book.add_guest(request("B Two", "b@example.com"), 2);
    let g3 = book.add_guest(request("C Three", "c@example.com"), 3);
    let e = book
        .create_invite(&vec![g1.id, g2.id, g3.id], "couple".to_string(), 4)
        .unwrap_err();
    assert_eq!(e, CoreError::InvalidArgument);
    assert!(book.invites.is_empty());
    let e2 = book.create_invite(&vec![], "couple".to_string(), 5).unwrap_err();
    assert_eq!(e2, CoreError::InvalidArgument);
}

#[test]
fn created_invite_links_its_guests() {
    let mut book = GuestBook::new();
    let g1 = book.add_guest(request("Jane Doe", "jane@example.com"), 1);
    let g2 = book.add_guest(request("John Doe", "john@example.com"), 2);
    let id = book.create_invite(&vec![g1.id, g2.id], "couple".to_string(), 3).unwrap();

    let invite = book.get_invite(id).unwrap();
    assert_eq!(invite.invite_type, "couple");
    assert_eq!(invite.unique_code.chars().count(), 8);

    assert_eq!(book.get_guest(g1.id).unwrap().invite_id, Some(id));
    assert_eq!(book.get_guest(g2.id).unwrap().invite_id, Some(id));
    let members = book.guests_of_invite(id);
    assert_eq!(members.len(), 2);
}

#[test]
fn unknown_guest_ids_are_silently_ignored() {
    let mut book = GuestBook::new();
    let g1 = book.add_guest(request("Jane Doe", "jane@example.com"), 1);
    let id = book.create_invite(&vec![g1.id, 777], "couple".to_string(), 2).unwrap();
    assert_eq!(book.guests_of_invite(id).len(), 1);
}

#[test]
fn reassigning_a_guest_steals_it_from_its_invite() {
    let mut book = GuestBook::new();
    let g1 = book.add_guest(request("Jane Doe", "jane@example.com"), 1);
    let first = book.create_invite(&vec![g1.id], "single".to_string(), 2).unwrap();
    let second = book.create_invite(&vec![g1.id], "single".to_string(), 3).unwrap();
    assert_eq!(book.get_guest(g1.id).unwrap().invite_id, Some(second));
    assert!(book.guests_of_invite(first).is_empty());
}

#[test]
fn update_invite_fully_replaces_the_guest_set() {
    let mut book = GuestBook::new();
    let g1 = book.add_guest(request("Jane Doe", "jane@example.com"), 1);
    let g2 = book.add_guest(request("John Doe", "john@example.com"), 2);
    let id = book.create_invite(&vec![g1.id], "single".to_string(), 3).unwrap();

    book.update_invite(id, &vec![g2.id], "plus_one".to_string(), 4).unwrap();
    assert_eq!(book.get_guest(g1.id).unwrap().invite_id, None);
    assert_eq!(book.get_guest(g2.id).unwrap().invite_id, Some(id));
    assert_eq!(book.get_invite(id).unwrap().invite_type, "plus_one");

    assert_eq!(
        book.update_invite(id, &vec![g1.id, g2.id, 777], "couple".to_string(), 5).unwrap_err(),
        CoreError::InvalidArgument
    );
    assert_eq!(
        book.update_invite(999, &vec![g1.id], "single".to_string(), 6).unwrap_err(),
        CoreError::NotFound
    );
}

#[test]
fn delete_invite_unlinks_before_removing() {
    let mut book = GuestBook::new();
    let g1 = book.add_guest(request("Jane Doe", "jane@example.com"), 1);
    let g2 = book.add_guest(request("John Doe", "john@example.com"), 2);
    let id = book.create_invite(&vec![g1.id, g2.id], "couple".to_string(), 3).unwrap();

    book.delete_invite(id);
    assert!(book.get_invite(id).is_none());
    assert_eq!(book.get_guest(g1.id).unwrap().invite_id, None);
    assert_eq!(book.get_guest(g2.id).unwrap().invite_id, None);
    assert!(book.guests.len() == 2);
}

#[test]
fn an_invite_lists_its_guests_in_name_order() {
    let mut book = GuestBook::new();
    let zoe = book.add_guest(request("Zoe Doe", "zoe@example.com"), 1);
    let amy = book.add_guest(request("Amy Doe", "amy@example.com"), 2);
    let id = book.create_invite(&vec![zoe.id, amy.id], "couple".to_string(), 3).unwrap();

    let listed = book.guests_of_invite_by_name(id);
    assert_eq!(listed.len(), 2);
    assert_eq!(listed[0].name, "Amy Doe");
    assert_eq!(listed[1].name, "Zoe Doe");
}

#[test]
fn sorting_guests_by_name_orders_and_keeps_everyone() {
    let mut book = GuestBook::new();
    for name in ["Cara Lee", "Ben Lee", "amy smith", "Ben Lee"] {
        book.add_guest(request(name, "x@example.com"), 1);
    }
    let sorted = wedding_api::guests::sort_guests_by_name(&book.guests);
    let names: Vec<&str> = sorted.iter().map(|g| g.name.as_str()).collect();
    // character-wise order: capitals precede lowercase letters
    assert_eq!(names, vec!["Ben Lee", "Ben Lee", "Cara Lee", "amy smith"]);
}

#[test]
fn a_campaign_goes_to_invites_with_a_not_removed_guest() {
    let mut book = GuestBook::new();
    let g1 = book.add_guest(request("Jane Doe", "jane@example.com"), 1);
    let g2 = book.add_guest(request("John Doe", "john@example.com"), 2);
    let g3 = book.add_guest(request("Amy Smith", "amy@example.com"), 3);
    let lively = book.create_invite(&vec![g1.id, g2.id], "couple".to_string(), 4).unwrap();
    let silent = book.create_invite(&vec![g3.id], "single".to_string(), 5).unwrap();
    book.mark_guest_removed(g2.id, &MarkRemovedRequest { removed: true }, 6).unwrap();
    book.mark_guest_removed(g3.id, &MarkRemovedRequest { removed: true }, 7).unwrap();

    assert_eq!(book.campaign_recipient_invites(), vec![lively]);
    let active = book.active_guests_of_invite(lively);
    assert_eq!(active.len(), 1);
    assert_eq!(active[0].id, g1.id);
    assert!(book.active_guests_of_invite(silent).is_empty());
}

#[test]
fn unassigned_guests_skip_linked_and_removed_ones() {
    let mut book = GuestBook::new();
    let g1 = book.add_guest(request("Jane Doe", "jane@example.com"), 1);
    let g2 = book.add_guest(request("John Doe", "john@example.com"), 2);
    let g3 = book.add_guest(request("Amy Smith", "amy@example.com"), 3);
    book.create_invite(&vec![g1.id], "single".to_string(), 4).unwrap();
    book.mark_guest_removed(g2.id, &MarkRemovedRequest { removed: true }, 5).unwrap();

    let pool = book.unassigned_guests();
    assert_eq!(pool.len(), 1);
    assert_eq!(pool[0].id, g3.id);
}
