use vstd::prelude::*;
use crate::text::str_equals;

verus! {

/// How often a subscription is billed.
#[derive(Debug, Clone, Copy, PartialEq, Eq, Structural)]
pub enum BillingType {
    Monthly,
    Yearly,
}

/// The lifecycle state of a subscription.
#[derive(Debug, Clone, Copy, PartialEq, Eq, Structural)]
pub enum SubscriptionStatus {
    Active,
    Canceled,
    Expired,
    Pending,
}

/// What an add-on purchase extends.
#[derive(Debug, Clone, Copy, PartialEq, Eq, Structural)]
pub enum AddonType {
    Storage,
    AiToken,
}

/// The lifecycle state of an add-on.
#[derive(Debug, Clone, Copy, PartialEq, Eq, Structural)]
pub enum AddonStatus {
    Active,
    Expired,
    Used,
}

/// The metered resources.
#[derive(Debug, Clone, Copy, PartialEq, Eq, Structural)]
pub enum UsageType {
    AiChat,
    AiImage,
    StorageBytes,
}

/// A request to subscribe to a plan.
#[derive(Debug, Clone, Copy, PartialEq, Eq, Structural)]
pub struct SubscribeRequest {
    pub plan_id: i64,
    pub billing_type: BillingType,
}

/// A request to cancel the current subscription.
#[derive(Debug, Clone)]
pub struct CancelSubscriptionRequest {
    pub reason: Option<String>,
}

/// A request to buy `quantity` units of an add-on.
#[derive(Debug, Clone, Copy, PartialEq, Eq, Structural)]
pub struct PurchaseAddonRequest {
    pub addon_id: i64,
    pub quantity: i32,
}

/// One row of summed usage, keyed by the usage type's name.
#[derive(Debug, Clone)]
pub struct UsageAggregateRow {
    pub usage_type: String,
    pub total: i64,
}

/// A request to share with a user.
#[derive(Debug, Clone, Copy, PartialEq, Eq, Structural)]
pub struct PostSharedRequest {
    pub user_id: i64,
}

pub open spec fn billing_type_name(b: BillingType) -> Seq<char> {
    match b {
        BillingType::Monthly => "monthly"@,
        BillingType::Yearly => "yearly"@,
    }
}

pub open spec fn subscription_status_name(s: SubscriptionStatus) -> Seq<char> {
    match s {
        SubscriptionStatus::Active => "active"@,
        SubscriptionStatus::Canceled => "canceled"@,
        SubscriptionStatus::Expired => "expired"@,
        SubscriptionStatus::Pending => "pending"@,
    }
}

pub open spec fn addon_type_name(a: AddonType) -> Seq<char> {
    match a {
        AddonType::Storage => "storage"@,
        AddonType::AiToken => "ai_token"@,
    }
}

pub open spec fn addon_status_name(a: AddonStatus) -> Seq<char> {
    match a {
        AddonStatus::Active => "active"@,
        AddonStatus::Expired => "expired"@,
        AddonStatus::Used => "used"@,
    }
}

pub open spec fn usage_type_name(u: UsageType) -> Seq<char> {
    match u {
        UsageType::AiChat => "ai_chat"@,
        UsageType::AiImage => "ai_image"@,
        UsageType::StorageBytes => "storage_bytes"@,
    }
}

impl BillingType {
    pub fn as_str(&self) -> (r: &'static str)
        ensures
            r@ == billing_type_name(*self),
    {
        match self {
            BillingType::Monthly => "monthly",
            BillingType::Yearly => "yearly",
        }
    }

    /// The number of months one billing period covers.
    pub fn months(&self) -> (r: u32)
        ensures
            r == (match *self {
                BillingType::Monthly => 1u32,
                BillingType::Yearly => 12u32,
            }),
    {
        match self {
            BillingType::Monthly => 1,
            BillingType::Yearly => 12,
        }
    }
}

impl SubscriptionStatus {
    pub fn as_str(&self) -> (r: &'static str)
        ensures
            r@ == subscription_status_name(*self),
    {
        match self {
            SubscriptionStatus::Active => "active",
            SubscriptionStatus::Canceled => "canceled",
            SubscriptionStatus::Expired => "expired",
            SubscriptionStatus::Pending => "pending",
        }
    }
}

impl AddonType {
    pub fn as_str(&self) -> (r: &'static str)
        ensures
            r@ == addon_type_name(*self),
    {
        match self {
            AddonType::Storage => "storage",
            AddonType::AiToken => "ai_token",
        }
    }
}

impl AddonStatus {
    pub fn as_str(&self) -> (r: &'static str)
        ensures
            r@ == addon_status_name(*self),
    {
        match self {
            AddonStatus::Active => "active",
            AddonStatus::Expired => "expired",
            AddonStatus::Used => "used",
        }
    }
}

pub fn usage_type_to_str(usage_type: UsageType) -> (r: &'static str)
    ensures
        r@ == usage_type_name(usage_type),
{
    match usage_type {
        UsageType::AiChat => "ai_chat",
        UsageType::AiImage => "ai_image",
        UsageType::StorageBytes => "storage_bytes",
    }
}

/// Reads a billing type from its stored name.
pub fn parse_billing_type(value: &str) -> (r: Option<BillingType>)
    ensures
        r matches Some(b) ==> billing_type_name(b) == value@,
        r is None ==> forall|b: BillingType| billing_type_name(b) != value@,
{
    if str_equals(value, "monthly") {
        Some(BillingType::Monthly)
    } else if str_equals(value, "yearly") {
        Some(BillingType::Yearly)
    } else {
        None
    }
}

/// Reads a subscription status from its stored name.
pub fn parse_status(value: &str) -> (r: Option<SubscriptionStatus>)
    ensures
        r matches Some(s) ==> subscription_status_name(s) == value@,
        r is None ==> forall|s: SubscriptionStatus| subscription_status_name(s) != value@,
{
    if str_equals(value, "active") {
        Some(SubscriptionStatus::Active)
    } else if str_equals(value, "canceled") {
        Some(SubscriptionStatus::Canceled)
    } else if str_equals(value, "expired") {
        Some(SubscriptionStatus::Expired)
    } else if str_equals(value, "pending") {
        Some(SubscriptionStatus::Pending)
    } else {
        None
    }
}

/// Reads an add-on type from its stored name.
pub fn parse_addon_type(value: &str) -> (r: Option<AddonType>)
    ensures
        r matches Some(a) ==> addon_type_name(a) == value@,
        r is None ==> forall|a: AddonType| addon_type_name(a) != value@,
{
    if str_equals(value, "storage") {
        Some(AddonType::Storage)
    } else if str_equals(value, "ai_token") {
        Some(AddonType::AiToken)
    } else {
        None
    }
}

/// Reads an add-on status from its stored name.
pub fn parse_addon_status(value: &str) -> (r: Option<AddonStatus>)
    ensures
        r matches Some(a) ==> addon_status_name(a) == value@,
        r is None ==> forall|a: AddonStatus| addon_status_name(a) != value@,
{
    if str_equals(value, "active") {
        Some(AddonStatus::Active)
    } else if str_equals(value, "expired") {
        Some(AddonStatus::Expired)
    } else if str_equals(value, "used") {
        Some(AddonStatus::Used)
    } else {
        None
    }
}

/// A stored limit of zero or below means that no limit applies.
pub fn normalize_limit(value: i32) -> (r: Option<i64>)
    ensures
        r == (if value > 0 { Some(value as i64) } else { None::<i64> }),
{
    if value > 0 {
        Some(value as i64)
    } else {
        None
    }
}

} // verus!
