use wedding_api::campaign::campaign_stats_of;
use wedding_api::campaign::send_campaign_response;
use wedding_api::email::recipient_emails;
use wedding_api::email::save_the_date_html;
use wedding_api::email::valid_recipient_email;
use wedding_api::guests::Guest;
use wedding_api::text::u64_to_string;

fn guest_with_email(id: u64, email: &str) -> Guest {
    Guest {
        id,
        name: "Jane Doe".to_string(),
        email: email.to_string(),
        relationship: "Friend".to_string(),
        sam_or_jonah: "Sam".to_string(),
        maybe: false,
        unique_code: "00000000".to_string(),
        invite_type: "single".to_string(),
        removed: false,
        invite_id: None,
        created_at: 0,
        updated_at: 0,
    }
}

#[test]
fn rendered_email_greets_one_guest_by_name() {
    let names = vec!["Jane Doe".to_string()];
    let html = save_the_date_html(
        &names,
        "https://wedding.example",
        "https://maps.example/venue",
        "https://hotel.example",
        "https://wedding.example/pixel.png",
    );
    assert!(html.starts_with("<!DOCTYPE html>"));
    assert!(html.contains("Dear Jane Doe,"));
    assert!(html.contains("https://wedding.example/save-the-date-hero.png"));
    assert!(html.contains("https://maps.example/venue"));
    assert!(html.contains("https://hotel.example"));
    assert!(html.contains("https://wedding.example/pixel.png"));
}

#[test]
fn rendered_email_joins_two_guests_with_and() {
    let names = vec!["Jane Doe".to_string(), "John Doe".to_string()];
    let html = save_the_date_html(
        &names,
        "https://w.example",
        "https://v.example",
        "https://h.example",
        "https://p.example",
    );
    assert!(html.contains("Dear Jane Doe and John Doe,"));
}

#[test]
fn recipient_rule_wants_an_at_sign_and_a_dot_in_the_domain() {
    assert!(valid_recipient_email("jane@example.com"));
    assert!(valid_recipient_email("a@b.c"));
    assert!(!valid_recipient_email("janeexample.com"));
    assert!(!valid_recipient_email("jane@examplecom"));
    assert!(!valid_recipient_email(""));
    assert!(!valid_recipient_email("jane@"));
    // the dot must fall in the segment right after the first '@'
    assert!(!valid_recipient_email("a@b@c.d"));
    assert!(valid_recipient_email("a@b.c@d"));
}

#[test]
fn recipient_list_keeps_only_valid_addresses() {
    let guests = vec![
        guest_with_email(1, "jane@example.com"),
        guest_with_email(2, "not-an-email"),
        guest_with_email(3, "john@example.org"),
    ];
    let recipients = recipient_emails(&guests);
    assert_eq!(recipients, vec!["jane@example.com".to_string(), "john@example.org".to_string()]);
}

#[test]
fn a_send_is_assembled_for_the_valid_recipients() {
    let guests = vec![
        guest_with_email(1, "jane@example.com"),
        guest_with_email(2, "nowhere"),
    ];
    let p = wedding_api::email::build_save_the_date_send(
        7,
        9,
        &guests,
        "Save the date!",
        "contact@samandjonah.com",
        "https://wedding.example",
        "https://maps.example",
        "https://hotel.example",
        "https://wedding.example/pixel.png",
    )
    .unwrap();
    assert_eq!(p.from, "Sam & Jonah <contact@samandjonah.com>");
    assert_eq!(p.to, vec!["jane@example.com".to_string()]);
    assert_eq!(p.subject, "Save the date!");
    assert_eq!(p.reply_to, "contact@samandjonah.com");
    assert_eq!(p.campaign_tag, "7");
    assert_eq!(p.invite_tag, "9");
    assert!(p.html.contains("Dear Jane Doe and Jane Doe,"));
}

#[test]
fn an_invite_without_valid_addresses_is_refused() {
    let guests = vec![guest_with_email(1, "nowhere")];
    let e = wedding_api::email::build_save_the_date_send(
        1,
        2,
        &guests,
        "Save the date!",
        "contact@samandjonah.com",
        "https://w.example",
        "https://v.example",
        "https://h.example",
        "https://p.example",
    )
    .unwrap_err();
    assert_eq!(e, "No valid email addresses found for invite");
}

#[test]
fn campaign_stats_report_the_pending_remainder() {
    let stats = campaign_stats_of(10, 4);
    assert_eq!(stats.total_invites, 10);
    assert_eq!(stats.sent_count, 4);
    assert_eq!(stats.pending_count, 6);
    assert_eq!(stats.opened_count, 0);
    assert_eq!(stats.not_opened_count, 0);
}

#[test]
fn send_response_spells_out_the_count() {
    let r = send_campaign_response(3);
    assert!(r.success);
    assert_eq!(r.sent_count, 3);
    assert_eq!(r.message, "Successfully sent 3 emails via Resend");
}

#[test]
fn decimal_formatting_is_exact() {
    assert_eq!(u64_to_string(0), "0");
    assert_eq!(u64_to_string(7), "7");
    assert_eq!(u64_to_string(1234), "1234");
    assert_eq!(u64_to_string(u64::MAX), "18446744073709551615");
}
