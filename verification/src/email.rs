//! Email-campaign rendering support: the save-the-date HTML template
//! and the recipient selection rule. Dispatch itself (the HTTP call to
//! the mail provider and the send records) lives outside the core.

use vstd::prelude::*;
use vstd::string::StrSliceExecFns;
use vstd::string::StringExecFns;

use crate::guests::Guest;
use crate::text::dec_seq;
use crate::text::u64_to_string;

verus! {

/// Template text of the save-the-date email.
pub const HTML_BEFORE_HERO: &'static str = r#"<!DOCTYPE html>
<html lang="en">
<head>
    <meta charset="UTF-8">
    <meta name="viewport" content="width=device-width, initial-scale=1.0">
    <title>Save the Date - Sam & Jonah</title>
</head>
<body style="margin: 0; padding: 0; font-family: 'Palatino Linotype', 'Book Antiqua', Palatino, Georgia, serif; background-color: #f7f3f0;">
    <table role="presentation" width="100%" cellspacing="0" cellpadding="0" border="0" style="background-color: #f7f3f0;">
        <tr>
            <td align="center" style="padding: 30px 20px;">
                <table role="presentation" width="600" cellspacing="0" cellpadding="0" border="0" style="max-width: 600px; background-color: #ffffff; box-shadow: 0 8px 24px rgba(0,0,0,0.08);">

                    <!-- Hero Image -->
                    <tr>
                        <td style="padding: 0;">
                            <img src=""#;

/// Template text of the save-the-date email.
pub const HTML_AFTER_HERO: &'static str = r#"" alt="Sam and Jonah" width="600" style="width: 100%; height: auto; display: block; border: none;" />
                        </td>
                    </tr>

                    <!-- Main content -->
                    <tr>
                        <td style="padding: 40px; color: #4a4a4a;">
                            <p style="margin: 0 0 30px 0; font-size: 17px; line-height: 1.7; color: #6b6b6b; text-align: center;">
                                Dear "#;

/// Template text of the save-the-date email.
pub const HTML_AFTER_NAMES: &'static str = r#",
                            </p>

                            <p style="margin: 0 0 40px 0; font-size: 17px; line-height: 1.8; color: #6b6b6b; text-align: center;">
                                We're getting married and would love for you to celebrate with us!
                            </p>

                            <!-- Action Links -->
                            <table role="presentation" width="100%" cellspacing="0" cellpadding="0" border="0" style="margin: 40px 0;">
                                <tr>
                                    <td align="center" style="padding: 0 0 15px 0;">
                                        <a href=""#;

/// Template text of the save-the-date email.
pub const HTML_AFTER_VENUE: &'static str = r#"" style="display: inline-block; background-color: #a0826d; color: #ffffff; text-decoration: none; padding: 16px 40px; font-size: 15px; font-weight: 400; letter-spacing: 1.5px; text-transform: uppercase; min-width: 200px; text-align: center;">
                                            View Venue
                                        </a>
                                    </td>
                                </tr>
                                <tr>
                                    <td align="center" style="padding: 0;">
                                        <a href=""#;

/// Template text of the save-the-date email.
pub const HTML_AFTER_HOTEL: &'static str = r#"" style="display: inline-block; background-color: #c9a88a; color: #ffffff; text-decoration: none; padding: 16px 40px; font-size: 15px; font-weight: 400; letter-spacing: 1.5px; text-transform: uppercase; min-width: 200px; text-align: center;">
                                            Hotel Information
                                        </a>
                                    </td>
                                </tr>
                            </table>

                            <p style="margin: 40px 0 0 0; font-size: 16px; line-height: 1.7; color: #6b6b6b; text-align: center;">
                                Formal invitation with RSVP details to follow.
                            </p>

                            <p style="margin: 30px 0 0 0; font-size: 16px; line-height: 1.7; color: #8b7355; text-align: center; font-style: italic;">
                                With love,<br>
                                <span style="font-weight: 400; font-style: normal; letter-spacing: 1px;">Sam & Jonah</span>
                            </p>
                        </td>
                    </tr>

                    <!-- Footer -->
                    <tr>
                        <td style="padding: 35px 40px; background-color: #f7f3f0; text-align: center; border-top: 1px solid #e8ddd1;">
                            <p style="margin: 0; font-size: 14px; color: #999999; letter-spacing: 0.5px;">
                                August 15, 2026 &bull; Rouge, Calgary, Alberta
                            </p>
                        </td>
                    </tr>

                </table>
            </td>
        </tr>
    </table>

    <!-- Tracking pixel -->
    <img src=""#;

/// Template text of the save-the-date email.
pub const HTML_TAIL: &'static str = r#"" width="1" height="1" alt="" style="display:block;" />
</body>
</html>"#;

/// The greeting line: one guest's name, or the first two names joined
/// with " and ".
pub open spec fn names_display_of(names: Seq<String>) -> Seq<char> {
    if names.len() == 1 {
        names[0]@
    } else {
        names[0]@ + " and "@ + names[1]@
    }
}

/// The rendered save-the-date email, character for character: the
/// template with the hero image URL (derived from the website URL), the
/// greeting names, the venue and hotel links and the tracking pixel URL
/// spliced in.
pub open spec fn save_the_date_of(
    names: Seq<String>,
    website: Seq<char>,
    venue: Seq<char>,
    hotel: Seq<char>,
    pixel: Seq<char>,
) -> Seq<char> {
    HTML_BEFORE_HERO@ + website + "/save-the-date-hero.png"@ + HTML_AFTER_HERO@
        + names_display_of(names) + HTML_AFTER_NAMES@ + venue + HTML_AFTER_VENUE@ + hotel
        + HTML_AFTER_HOTEL@ + pixel + HTML_TAIL@
}

/// Renders the save-the-date email for the given guest names and links.
/// Inline styles throughout, for mail-client compatibility.
pub fn save_the_date_html(
    guest_names: &[String],
    website_url: &str,
    venue_map_url: &str,
    hotel_info_url: &str,
    tracking_pixel_url: &str,
) -> (r: String)
    requires
        guest_names@.len() >= 1,
    ensures
        r@ == save_the_date_of(
            guest_names@,
            website_url@,
            venue_map_url@,
            hotel_info_url@,
            tracking_pixel_url@,
        ),
{
    let mut out = String::new();
    out.append(HTML_BEFORE_HERO);
    out.append(website_url);
    out.append("/save-the-date-hero.png");
    out.append(HTML_AFTER_HERO);
    if guest_names.len() == 1 {
        out.append(guest_names[0].as_str());
    } else {
        out.append(guest_names[0].as_str());
        out.append(" and ");
        out.append(guest_names[1].as_str());
    }
    out.append(HTML_AFTER_NAMES);
    out.append(venue_map_url);
    out.append(HTML_AFTER_VENUE);
    out.append(hotel_info_url);
    out.append(HTML_AFTER_HOTEL);
    out.append(tracking_pixel_url);
    out.append(HTML_TAIL);
    proof {
        assert(out@ =~= save_the_date_of(
            guest_names@,
            website_url@,
            venue_map_url@,
            hotel_info_url@,
            tracking_pixel_url@,
        ));
    }
    out
}

/// `i` is the position of the first '@' of `s`.
pub open spec fn first_at_sign(s: Seq<char>, i: int) -> bool {
    &&& 0 <= i < s.len()
    &&& s[i] == '@'
    &&& (forall|j: int| 0 <= j < i ==> s[j] != '@')
}

/// The segment after position `i`, up to the next '@' or the end,
/// contains a '.'.
pub open spec fn domain_has_dot(s: Seq<char>, i: int) -> bool {
    exists|k: int|
        i < k < s.len() && s[k] == '.' && (forall|m: int| i < m < k ==> s[m] != '@')
}

/// A recipient address is accepted when it has an '@' and the segment
/// after the first '@' (up to any further '@') contains a '.'.
pub open spec fn valid_email(s: Seq<char>) -> bool {
    exists|i: int| #[trigger] first_at_sign(s, i) && domain_has_dot(s, i)
}

/// Does `email` pass the recipient rule?
pub fn valid_recipient_email(email: &str) -> (r: bool)
    ensures
        r == valid_email(email@),
{
    let ghost s = email@;
    let n = email.unicode_len();
    let mut i: usize = 0;
    while i < n && email.get_char(i) != '@'
        invariant
            i <= n,
            n == s.len(),
            s == email@,
            forall|j: int| 0 <= j < i ==> s[j] != '@',
        decreases n - i,
    {
        i = i + 1;
    }
    if i == n {
        proof {
            assert forall|i2: int| !(first_at_sign(s, i2) && domain_has_dot(s, i2)) by {
                if 0 <= i2 < s.len() {
                    assert(s[i2] != '@');
                }
            }
        }
        return false;
    }
    proof {
        assert(first_at_sign(s, i as int));
        assert forall|i2: int| first_at_sign(s, i2) implies i2 == i as int by {
            if i2 < i as int {
                assert(s[i2] != '@');
            } else if i2 > i as int {
                assert(s[i as int] != '@');
            }
        }
    }
    let mut k: usize = i + 1;
    while k < n
        invariant
            i < k <= n,
            n == s.len(),
            s == email@,
            first_at_sign(s, i as int),
            forall|m: int| i < m < k ==> s[m] != '.' && s[m] != '@',
        decreases n - k,
    {
        let c = email.get_char(k);
        if c == '.' {
            proof {
                assert(domain_has_dot(s, i as int));
            }
            return true;
        }
        if c == '@' {
            proof {
                assert forall|i2: int| !(first_at_sign(s, i2) && domain_has_dot(s, i2)) by {
                    if first_at_sign(s, i2) {
                        assert(i2 == i as int);
                        if domain_has_dot(s, i2) {
                            let kd = choose|kd: int|
                                i2 < kd < s.len() && s[kd] == '.' && (forall|m: int|
                                    i2 < m < kd ==> s[m] != '@');
                            if kd < k as int {
                                assert(s[kd] != '.');
                            } else {
                                assert(s[k as int] != '@');
                            }
                        }
                    }
                }
            }
            return false;
        }
        k = k + 1;
    }
    proof {
        assert forall|i2: int| !(first_at_sign(s, i2) && domain_has_dot(s, i2)) by {
            if first_at_sign(s, i2) && domain_has_dot(s, i2) {
                assert(i2 == i as int);
                let kd = choose|kd: int|
                    i2 < kd < s.len() && s[kd] == '.' && (forall|m: int|
                        i2 < m < kd ==> s[m] != '@');
                assert(s[kd] != '.');
            }
        }
    }
    false
}

/// The email addresses of `s`, in order, keeping only those that pass
/// the recipient rule.
pub open spec fn recipient_emails_of(s: Seq<Guest>) -> Seq<String>
    decreases s.len(),
{
    if s.len() == 0 {
        Seq::empty()
    } else if valid_email(s.last().email@) {
        recipient_emails_of(s.drop_last()).push(s.last().email)
    } else {
        recipient_emails_of(s.drop_last())
    }
}

proof fn lemma_recipients_take_step(s: Seq<Guest>, i: int)
    requires
        0 <= i < s.len(),
    ensures
        recipient_emails_of(s.take(i + 1)) == if valid_email(s[i].email@) {
            recipient_emails_of(s.take(i)).push(s[i].email)
        } else {
            recipient_emails_of(s.take(i))
        },
{
    assert(s.take(i + 1).drop_last() =~= s.take(i));
    assert(s.take(i + 1).last() == s[i]);
}

/// The valid recipient addresses among the given guests, in order — the
/// send step refuses an invite whose guests yield none.
pub fn recipient_emails(guests: &Vec<Guest>) -> (r: Vec<String>)
    ensures
        r@ == recipient_emails_of(guests@),
{
    let ghost s = guests@;
    let mut r: Vec<String> = Vec::new();
    let mut i: usize = 0;
    while i < guests.len()
        invariant
            i <= s.len(),
            s == guests@,
            r@ == recipient_emails_of(s.take(i as int)),
        decreases s.len() - i,
    {
        proof {
            lemma_recipients_take_step(s, i as int);
        }
        let g = &guests[i];
        if valid_recipient_email(g.email.as_str()) {
            r.push(g.email.clone());
        }
        i = i + 1;
    }
    proof {
        assert(s.take(s.len() as int) =~= s);
    }
    r
}

/// One save-the-date email, ready for the transport layer to send: the
/// addressing, the tag values identifying the campaign and the invite
/// for open tracking, and the rendered body.
#[derive(Debug)]
pub struct EmailPayload {
    pub from: String,
    pub to: Vec<String>,
    pub subject: String,
    pub html: String,
    pub reply_to: String,
    pub campaign_tag: String,
    pub invite_tag: String,
}

/// The names of the given guests, in order.
pub open spec fn names_of(s: Seq<Guest>) -> Seq<String> {
    s.map(|i: int, g: Guest| g.name)
}

/// Assembles the save-the-date send for one invite: the body is rendered
/// for the invite's guests, and the recipients are their valid addresses
/// — an invite yielding none is refused with the exact message the admin
/// sees.
pub fn build_save_the_date_send(
    campaign_id: u64,
    invite_id: u64,
    guests: &Vec<Guest>,
    subject: &str,
    from_email: &str,
    frontend_url: &str,
    venue_map_url: &str,
    hotel_info_url: &str,
    tracking_pixel_url: &str,
) -> (r: Result<EmailPayload, String>)
    requires
        guests@.len() >= 1,
    ensures
        (r is Ok <==> recipient_emails_of(guests@).len() > 0),
        match r {
            Ok(p) => {
                &&& p.to@ == recipient_emails_of(guests@)
                &&& p.from@ == "Sam & Jonah <"@ + from_email@ + ">"@
                &&& p.reply_to@ == from_email@
                &&& p.subject@ == subject@
                &&& p.campaign_tag@ == dec_seq(campaign_id as int)
                &&& p.invite_tag@ == dec_seq(invite_id as int)
                &&& p.html@ == save_the_date_of(
                    names_of(guests@),
                    frontend_url@,
                    venue_map_url@,
                    hotel_info_url@,
                    tracking_pixel_url@,
                )
            },
            Err(e) => e@ == "No valid email addresses found for invite"@,
        },
{
    let mut names: Vec<String> = Vec::new();
    let mut i: usize = 0;
    while i < guests.len()
        invariant
            i <= guests@.len(),
            names@.len() == i,
            forall|j: int| 0 <= j < i ==> names@[j] == guests@[j].name,
        decreases guests@.len() - i,
    {
        names.push(guests[i].name.clone());
        i = i + 1;
    }
    proof {
        assert(names@ =~= names_of(guests@));
    }
    let html = save_the_date_html(
        names.as_slice(),
        frontend_url,
        venue_map_url,
        hotel_info_url,
        tracking_pixel_url,
    );
    let to = recipient_emails(guests);
    if to.len() == 0 {
        return Err(String::from_str("No valid email addresses found for invite"));
    }
    let mut from = String::from_str("Sam & Jonah <");
    from.append(from_email);
    from.append(">");
    proof {
        assert(from@ =~= "Sam & Jonah <"@ + from_email@ + ">"@);
    }
    Ok(EmailPayload {
        from,
        to,
        subject: String::from_str(subject),
        html,
        reply_to: String::from_str(from_email),
        campaign_tag: u64_to_string(campaign_id),
        invite_tag: u64_to_string(invite_id),
    })
}

} // verus!
