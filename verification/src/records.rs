//! The plain record types exchanged with the export engine's
//! collaborators: the document store, the credential vault, the
//! publishing platforms, the scheduler and the AI proxy.  They carry only
//! plain values; the collaborators' behaviour is their own.

use vstd::prelude::*;

verus! {

/// A configured AI provider.
#[derive(Debug, Clone)]
pub struct AiProvider {
    pub id: String,
    pub name: String,
    pub api_key: String,
    pub model: String,
    pub base_url: String,
    pub is_active: bool,
}

/// One chat message exchanged with an AI provider.
#[derive(Debug, Clone)]
pub struct AiMessage {
    pub role: String,
    pub content: String,
}

/// The answer an AI provider returned.
#[derive(Debug, Clone)]
pub struct AiResponse {
    pub content: String,
    pub provider: String,
    pub model: String,
    pub usage: Option<AiUsage>,
}

/// Token accounting of one AI call.
#[derive(Debug, Clone)]
pub struct AiUsage {
    pub input_tokens: u32,
    pub output_tokens: u32,
}

/// One platform a subscriber is linked to.
#[derive(Debug, Clone)]
pub struct PlatformLink {
    pub platform: String,
    pub account_id: String,
    pub status: String,
    pub subscribed_at: Option<String>,
}

/// Subscriber count of one platform.
#[derive(Debug, Clone)]
pub struct PlatformCount {
    pub platform: String,
    pub count: i64,
}

/// Subscriber count at one date.
#[derive(Debug, Clone)]
pub struct GrowthPoint {
    pub date: String,
    pub count: i64,
}

/// A named audience segment.
#[derive(Debug, Clone)]
pub struct Segment {
    pub name: String,
    pub description: String,
    pub count: i64,
    pub color: String,
}

/// The outcome of one subscriber synchronisation.
#[derive(Debug, Clone)]
pub struct SyncResult {
    pub synced: i64,
    pub new_subscribers: i64,
    pub updated: i64,
}

/// A credential held in the vault.
#[derive(Debug, Clone)]
pub struct StoredCredential {
    pub platform: String,
    pub account_id: String,
    pub api_key: String,
    pub account_name: String,
    pub email: String,
}

/// An image held in the media library.
#[derive(Debug, Clone)]
pub struct ImageEntry {
    pub id: String,
    pub filename: String,
    pub path: String,
    pub size: u64,
    pub created_at: String,
}

/// A publication on a connected platform.
#[derive(Debug, Clone)]
pub struct Publication {
    pub id: String,
    pub name: String,
    pub url: String,
    pub platform: String,
    pub subscriber_count: Option<u64>,
    pub description: Option<String>,
}

/// One subscriber on a connected platform.
#[derive(Debug, Clone)]
pub struct Subscriber {
    pub id: String,
    pub email: String,
    pub status: String,
    pub created_at: String,
    pub platform: String,
}

/// Engagement numbers of one published post.
#[derive(Debug, Clone)]
pub struct PostPerformance {
    pub id: String,
    pub title: String,
    pub published_at: String,
    pub opens: u64,
    pub clicks: u64,
    pub unsubscribes: u64,
    pub platform: String,
}

/// A post handed to a platform for publication.
#[derive(Debug, Clone)]
pub struct PublishRequest {
    pub title: String,
    pub html_content: String,
    pub subtitle: Option<String>,
    pub preview_text: Option<String>,
    pub status: String,
}

/// One recorded revenue entry.
#[derive(Debug, Clone)]
pub struct RevenueEntry {
    pub id: String,
    pub source: String,
    pub amount_cents: i64,
    pub currency: String,
    pub entry_type: String,
    pub subscriber_email: Option<String>,
    pub description: Option<String>,
    pub period_start: Option<String>,
    pub period_end: Option<String>,
    pub recorded_at: String,
    pub created_at: String,
}

/// Revenue summed over one month.
#[derive(Debug, Clone)]
pub struct MonthlyRevenue {
    pub month: String,
    pub amount_cents: i64,
}

/// Revenue summed over one source.
#[derive(Debug, Clone)]
pub struct SourceRevenue {
    pub source: String,
    pub amount_cents: i64,
}

/// A post queued for publication.
#[derive(Debug, Clone)]
pub struct ScheduledPost {
    pub id: String,
    pub document_id: String,
    pub platform: String,
    pub account_id: String,
    pub publication_id: Option<String>,
    pub title: String,
    pub scheduled_at: String,
    pub status: String,
    pub error_message: Option<String>,
    pub published_url: Option<String>,
    pub created_at: String,
    pub updated_at: String,
}

/// One entry of the publication calendar.
#[derive(Debug, Clone)]
pub struct CalendarEvent {
    pub id: String,
    pub title: String,
    pub date: String,
    pub event_type: String,
    pub platform: Option<String>,
    pub status: String,
    pub document_id: Option<String>,
}

/// One charge fetched from the payment platform.
#[derive(Debug, Clone)]
pub struct StripeCharge {
    pub id: String,
    pub amount: i64,
    pub currency: String,
    pub status: String,
    pub created: i64,
    pub description: Option<String>,
    pub receipt_email: Option<String>,
}

/// One subscription fetched from the payment platform.
#[derive(Debug, Clone)]
pub struct StripeSubscription {
    pub id: String,
    pub status: String,
    pub current_period_start: i64,
    pub current_period_end: i64,
    pub plan: Option<StripePlan>,
    pub customer: String,
}

/// The plan of a subscription.
#[derive(Debug, Clone)]
pub struct StripePlan {
    pub amount: Option<i64>,
    pub currency: Option<String>,
    pub interval: Option<String>,
}

} // verus!
