//! Campaign bookkeeping records and the small computations behind the
//! campaign endpoints: the statistics row and the send response. Campaign
//! storage and dispatch are store and transport work outside the core.

use vstd::prelude::*;
use vstd::string::StringExecFns;

use crate::text::dec_seq;
use crate::text::u64_to_string;

verus! {

/// Fields of a campaign to be created.
pub struct CreateCampaignRequest {
    pub name: String,
    pub subject: String,
    pub template_type: String,
}

/// The statistics row of a campaign.
pub struct CampaignStats {
    pub total_invites: i64,
    pub sent_count: i64,
    pub opened_count: i64,
    pub not_opened_count: i64,
    pub pending_count: i64,
}

/// The response of a campaign send.
pub struct SendCampaignResponse {
    pub success: bool,
    pub sent_count: usize,
    pub message: String,
}

/// The campaign statistics: invites still pending are those not yet sent
/// to. Open tracking is reported by the mail provider's dashboard, so the
/// opened counts are zero here.
pub fn campaign_stats_of(total_invites: i64, sent_count: i64) -> (r: CampaignStats)
    requires
        0 <= total_invites,
        0 <= sent_count,
    ensures
        r.total_invites == total_invites,
        r.sent_count == sent_count,
        r.opened_count == 0 && r.not_opened_count == 0,
        r.pending_count == total_invites - sent_count,
{
    CampaignStats {
        total_invites,
        sent_count,
        opened_count: 0,
        not_opened_count: 0,
        pending_count: total_invites - sent_count,
    }
}

/// The success response after a campaign send of `sent_count` emails.
pub fn send_campaign_response(sent_count: usize) -> (r: SendCampaignResponse)
    ensures
        r.success == true,
        r.sent_count == sent_count,
        r.message@ == "Successfully sent "@ + dec_seq(sent_count as int) + " emails via Resend"@,
{
    let mut message = String::new();
    message.append("Successfully sent ");
    let num = u64_to_string(sent_count as u64);
    message.append(num.as_str());
    message.append(" emails via Resend");
    proof {
        assert(message@ =~= "Successfully sent "@ + dec_seq(sent_count as int)
            + " emails via Resend"@);
    }
    SendCampaignResponse { success: true, sent_count, message }
}

} // verus!
