use wedding_api::guests::Guest;
use wedding_api::pairing::expand_groups;
use wedding_api::pairing::pair_guests;

fn guest(id: u64, name: &str, invite_type: &str) -> Guest {
    Guest {
        id,
        name: name.to_string(),
        email: format!("{}@example.com", id),
        relationship: "Friend".to_string(),
        sam_or_jonah: "Sam".to_string(),
        maybe: false,
        unique_code: "00000000".to_string(),
        invite_type: invite_type.to_string(),
        removed: false,
        invite_id: None,
        created_at: 0,
        updated_at: 0,
    }
}

#[test]
fn couples_with_shared_last_name_pair_up_and_single_stays_alone() {
    // ["Jane Doe" couple], ["John Doe" couple], ["Amy Smith" single]
    // -> [["Jane Doe","John Doe"]], [["Amy Smith"]]
    let guests = vec![
        guest(1, "Jane Doe", "couple"),
        guest(2, "John Doe", "couple"),
        guest(3, "Amy Smith", "single"),
    ];
    let groups = pair_guests(&guests);
    assert_eq!(groups.len(), 2);
    assert_eq!(groups[0].first, 0);
    assert_eq!(groups[0].second, Some(1));
    assert_eq!(groups[1].first, 2);
    assert_eq!(groups[1].second, None);

    let expanded = expand_groups(&guests, &groups);
    assert_eq!(expanded.len(), 2);
    assert_eq!(expanded[0][0].name, "Jane Doe");
    assert_eq!(expanded[0][1].name, "John Doe");
    assert_eq!(expanded[1][0].name, "Amy Smith");
}

#[test]
fn last_name_match_ignores_ascii_case() {
    let guests = vec![
        guest(1, "Jane DOE", "couple"),
        guest(2, "john doe", "couple"),
    ];
    let groups = pair_guests(&guests);
    assert_eq!(groups.len(), 1);
    assert_eq!(groups[0].first, 0);
    assert_eq!(groups[0].second, Some(1));
}

#[test]
fn first_match_wins_among_three_namesakes() {
    let guests = vec![
        guest(1, "Anna Lee", "couple"),
        guest(2, "Ben Lee", "couple"),
        guest(3, "Cara Lee", "couple"),
    ];
    let groups = pair_guests(&guests);
    assert_eq!(groups.len(), 2);
    assert_eq!(groups[0].first, 0);
    assert_eq!(groups[0].second, Some(1));
    assert_eq!(groups[1].first, 2);
    assert_eq!(groups[1].second, None);
}

#[test]
fn non_couple_types_never_pair() {
    let guests = vec![
        guest(1, "Jane Doe", "single"),
        guest(2, "John Doe", "plus_one"),
    ];
    let groups = pair_guests(&guests);
    assert_eq!(groups.len(), 2);
    assert_eq!(groups[0].second, None);
    assert_eq!(groups[1].second, None);
}

#[test]
fn one_token_names_cannot_couple_pair() {
    let guests = vec![
        guest(1, "Cher", "couple"),
        guest(2, "Cher", "couple"),
    ];
    let groups = pair_guests(&guests);
    assert_eq!(groups.len(), 2);
    assert_eq!(groups[0].second, None);
    assert_eq!(groups[1].second, None);
}

#[test]
fn trailing_whitespace_does_not_hide_the_last_name() {
    let guests = vec![
        guest(1, "Jane Doe  ", "couple"),
        guest(2, "John\tDoe", "couple"),
    ];
    let groups = pair_guests(&guests);
    assert_eq!(groups.len(), 1);
    assert_eq!(groups[0].second, Some(1));
}

#[test]
fn empty_guest_list_yields_no_groups() {
    let guests: Vec<Guest> = vec![];
    let groups = pair_guests(&guests);
    assert!(groups.is_empty());
}

#[test]
fn every_guest_lands_in_exactly_one_group() {
    let guests = vec![
        guest(1, "Anna Lee", "couple"),
        guest(2, "Amy Smith", "single"),
        guest(3, "Ben Lee", "couple"),
        guest(4, "Cara Lee", "couple"),
        guest(5, "Dan Poe", "plus_one"),
    ];
    let groups = pair_guests(&guests);
    let mut seen = vec![0usize; guests.len()];
    for g in &groups {
        seen[g.first] += 1;
        if let Some(s) = g.second {
            seen[s] += 1;
        }
    }
    assert_eq!(seen, vec![1, 1, 1, 1, 1]);
}
