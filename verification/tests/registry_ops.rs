use wedding_api::CoreError;
use wedding_api::funding::Status;
use wedding_api::registry::CreateContributionRequest;
use wedding_api::registry::CreateItemRequest;
use wedding_api::registry::Registry;

fn item(price: u64) -> CreateItemRequest {
    CreateItemRequest {
        category_id: None,
        name: "Honeymoon dinner".to_string(),
        description: Some("A dinner for two".to_string()),
        price,
        display_order: 1,
    }
}

fn contribution(item_id: Option<u64>, amount: u64) -> CreateContributionRequest {
    CreateContributionRequest {
        item_id,
        contributor_name: Some("Alex Guest".to_string()),
        contributor_email: Some("alex@example.com".to_string()),
        amount,
        is_anonymous: false,
        message: Some("Congratulations!".to_string()),
        purpose: None,
    }
}

#[test]
fn funding_scenario_pending_counts_and_reject_recomputes() {
    // item price 100.00; A amount=60.00 pending -> total 60.00, not funded;
    // B amount=50.00 pending -> total 110.00, funded; rejecting A -> 50.00.
    let mut r = Registry::new();
    let id = r.add_item(item(10000), 1);

    let a = r.create_contribution(contribution(Some(id), 6000), 2).unwrap();
    {
        let it = r.get_item(id).unwrap();
        assert_eq!(it.total_contributed, 6000);
        assert!(!it.is_fully_funded);
    }

    let _b = r.create_contribution(contribution(Some(id), 5000), 3).unwrap();
    {
        let it = r.get_item(id).unwrap();
        assert_eq!(it.total_contributed, 11000);
        assert!(it.is_fully_funded);
    }

    r.update_contribution_status(a.id, Status::Rejected, 4).unwrap();
    {
        let it = r.get_item(id).unwrap();
        assert_eq!(it.total_contributed, 5000);
        assert!(!it.is_fully_funded);
    }
}

#[test]
fn contribution_against_funded_item_fails_and_changes_nothing() {
    let mut r = Registry::new();
    let id = r.add_item(item(1000), 1);
    r.create_contribution(contribution(Some(id), 1000), 2).unwrap();
    assert!(r.get_item(id).unwrap().is_fully_funded);

    let n_before = r.contributions.len();
    let e = r.create_contribution(contribution(Some(id), 500), 3).unwrap_err();
    assert_eq!(e, CoreError::AlreadyFunded);
    assert_eq!(r.contributions.len(), n_before);
    assert_eq!(r.get_item(id).unwrap().total_contributed, 1000);
}

#[test]
fn contribution_to_missing_item_is_not_found() {
    let mut r = Registry::new();
    let e = r.create_contribution(contribution(Some(42), 500), 1).unwrap_err();
    assert_eq!(e, CoreError::NotFound);
    assert!(r.contributions.is_empty());
}

#[test]
fn general_gift_affects_no_item() {
    let mut r = Registry::new();
    let id = r.add_item(item(10000), 1);
    r.create_contribution(contribution(Some(id), 2500), 2).unwrap();

    let g = r.create_contribution(contribution(None, 99999), 3).unwrap();
    assert_eq!(g.item_id, None);
    assert_eq!(g.status, Status::Pending);
    let it = r.get_item(id).unwrap();
    assert_eq!(it.total_contributed, 2500);
    assert!(!it.is_fully_funded);
}

#[test]
fn reject_then_reconfirm_restores_total() {
    let mut r = Registry::new();
    let id = r.add_item(item(10000), 1);
    let a = r.create_contribution(contribution(Some(id), 4000), 2).unwrap();
    r.create_contribution(contribution(Some(id), 1000), 3).unwrap();
    assert_eq!(r.get_item(id).unwrap().total_contributed, 5000);

    r.update_contribution_status(a.id, Status::Rejected, 4).unwrap();
    assert_eq!(r.get_item(id).unwrap().total_contributed, 1000);

    r.update_contribution_status(a.id, Status::Confirmed, 5).unwrap();
    assert_eq!(r.get_item(id).unwrap().total_contributed, 5000);
    let back = r.get_contribution(a.id).unwrap();
    assert_eq!(back.status, Status::Confirmed);
    assert_eq!(back.confirmed_at, Some(5));
}

#[test]
fn confirmed_at_set_only_while_confirmed() {
    let mut r = Registry::new();
    let id = r.add_item(item(10000), 1);
    let a = r.create_contribution(contribution(Some(id), 4000), 2).unwrap();
    assert_eq!(a.confirmed_at, None);

    r.update_contribution_status(a.id, Status::Confirmed, 7).unwrap();
    assert_eq!(r.get_contribution(a.id).unwrap().confirmed_at, Some(7));

    r.update_contribution_status(a.id, Status::Pending, 8).unwrap();
    assert_eq!(r.get_contribution(a.id).unwrap().confirmed_at, None);
}

#[test]
fn deleting_rejected_contribution_keeps_total_deleting_pending_drops_it() {
    let mut r = Registry::new();
    let id = r.add_item(item(10000), 1);
    let a = r.create_contribution(contribution(Some(id), 4000), 2).unwrap();
    let b = r.create_contribution(contribution(Some(id), 1000), 3).unwrap();
    r.update_contribution_status(a.id, Status::Rejected, 4).unwrap();
    assert_eq!(r.get_item(id).unwrap().total_contributed, 1000);

    r.delete_contribution(a.id, 5).unwrap();
    assert_eq!(r.get_item(id).unwrap().total_contributed, 1000);

    r.delete_contribution(b.id, 6).unwrap();
    assert_eq!(r.get_item(id).unwrap().total_contributed, 0);
    assert!(r.contributions.is_empty());
}

#[test]
fn missing_contribution_is_not_found() {
    let mut r = Registry::new();
    assert_eq!(r.update_contribution_status(9, Status::Confirmed, 1).unwrap_err(), CoreError::NotFound);
    assert_eq!(r.delete_contribution(9, 1).unwrap_err(), CoreError::NotFound);
    assert!(r.get_contribution(9).is_none());
    assert!(r.get_item(9).is_none());
}

#[test]
fn confirmed_total_counts_confirmed_only() {
    let mut r = Registry::new();
    let id = r.add_item(item(100000), 1);
    let a = r.create_contribution(contribution(Some(id), 4000), 2).unwrap();
    r.create_contribution(contribution(Some(id), 1000), 3).unwrap();
    assert_eq!(r.confirmed_total(id), 0);

    r.update_contribution_status(a.id, Status::Confirmed, 4).unwrap();
    assert_eq!(r.confirmed_total(id), 4000);
    assert_eq!(r.get_item(id).unwrap().total_contributed, 5000);
}

#[test]
fn public_projection_hides_names_on_request_and_drops_rejected() {
    let mut r = Registry::new();
    let id = r.add_item(item(100000), 1);

    let named = r.create_contribution(contribution(Some(id), 1000), 2).unwrap();
    let mut anon_req = contribution(Some(id), 2000);
    anon_req.is_anonymous = true;
    r.create_contribution(anon_req, 3).unwrap();
    let mut nameless = contribution(Some(id), 3000);
    nameless.contributor_name = None;
    r.create_contribution(nameless, 4).unwrap();
    let rejected = r.create_contribution(contribution(Some(id), 4000), 5).unwrap();
    r.update_contribution_status(rejected.id, Status::Rejected, 6).unwrap();

    let shown = r.public_contributions(id);
    assert_eq!(shown.len(), 3);
    assert_eq!(shown[0].display_name, "Alex Guest");
    assert_eq!(shown[0].amount, 1000);
    assert_eq!(shown[0].message, Some("Congratulations!".to_string()));
    assert_eq!(shown[1].display_name, "Anonymous");
    assert_eq!(shown[2].display_name, "Anonymous");
    let _ = named;
}

#[test]
fn zero_priced_item_is_born_funded() {
    let mut r = Registry::new();
    let id = r.add_item(item(0), 1);
    let it = r.get_item(id).unwrap();
    assert!(it.is_fully_funded);
    assert_eq!(it.total_contributed, 0);
}
