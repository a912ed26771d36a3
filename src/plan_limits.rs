use vstd::prelude::*;

verus! {

/// The subscription tiers a workspace owner can be on.
#[derive(Debug, Clone, Copy, PartialEq, Eq, Structural)]
pub enum SubscriptionPlan {
    Free,
    Basic,
    Pro,
    Team,
    AiMax,
    AiLocal,
}

pub const MIB: i64 = 1024 * 1024;

pub const GIB: i64 = 1024 * 1024 * 1024;

/// Plan limits configuration for each subscription tier.
#[derive(Debug, Clone, Copy, PartialEq, Eq, Structural)]
pub struct PlanLimits {
    /// Maximum number of members allowed in the workspace
    pub member_limit: i64,
    /// Maximum storage in bytes
    pub storage_bytes_limit: i64,
    /// Maximum AI responses per month
    pub ai_responses_limit: i64,
    /// Maximum single file upload size in bytes
    pub single_upload_limit: i64,
    /// Whether storage is unlimited
    pub storage_unlimited: bool,
    /// Whether AI responses are unlimited
    pub ai_unlimited: bool,
}

/// The limits of a paid tier that meters AI use.
pub open spec fn metered_limits(members: i64, storage_gib: i64, ai: i64, upload_mib: i64) -> PlanLimits {
    PlanLimits {
        member_limit: members,
        storage_bytes_limit: (storage_gib * GIB) as i64,
        ai_responses_limit: ai,
        single_upload_limit: (upload_mib * MIB) as i64,
        storage_unlimited: false,
        ai_unlimited: false,
    }
}

/// The limits that each tier grants. The AI tiers keep Pro's storage and
/// member limits and lift the AI limit. The Free tier is for local use:
/// members and storage are unlimited, and it grants no AI responses (an AI
/// limit of 0).
pub open spec fn limits_of(plan: SubscriptionPlan) -> PlanLimits {
    match plan {
        SubscriptionPlan::Free => PlanLimits {
            member_limit: i64::MAX,
            storage_bytes_limit: 0,
            ai_responses_limit: 0,
            single_upload_limit: 0,
            storage_unlimited: true,
            ai_unlimited: false,
        },
        SubscriptionPlan::Basic => metered_limits(2, 2, 10, 5),
        SubscriptionPlan::Pro => metered_limits(5, 10, 40, 10),
        SubscriptionPlan::Team => metered_limits(10, 20, 120, 20),
        SubscriptionPlan::AiMax | SubscriptionPlan::AiLocal => PlanLimits {
            ai_responses_limit: i64::MAX,
            ai_unlimited: true,
            ..metered_limits(5, 10, 40, 10)
        },
    }
}

impl PlanLimits {
    /// Get the limits for a given subscription plan.
    pub fn from_plan(plan: &SubscriptionPlan) -> (r: PlanLimits)
        ensures
            r == limits_of(*plan),
    {
        match plan {
            SubscriptionPlan::Free => PlanLimits {
                member_limit: i64::MAX,
                storage_bytes_limit: 0,
                ai_responses_limit: 0,
                single_upload_limit: 0,
                storage_unlimited: true,
                ai_unlimited: false,
            },
            SubscriptionPlan::Basic => PlanLimits {
                member_limit: 2,
                storage_bytes_limit: 2 * GIB,
                ai_responses_limit: 10,
                single_upload_limit: 5 * MIB,
                storage_unlimited: false,
                ai_unlimited: false,
            },
            SubscriptionPlan::Pro => PlanLimits {
                member_limit: 5,
                storage_bytes_limit: 10 * GIB,
                ai_responses_limit: 40,
                single_upload_limit: 10 * MIB,
                storage_unlimited: false,
                ai_unlimited: false,
            },
            SubscriptionPlan::Team => PlanLimits {
                member_limit: 10,
                storage_bytes_limit: 20 * GIB,
                ai_responses_limit: 120,
                single_upload_limit: 20 * MIB,
                storage_unlimited: false,
                ai_unlimited: false,
            },
            SubscriptionPlan::AiMax | SubscriptionPlan::AiLocal => {
                PlanLimits {
                    member_limit: 5,
                    storage_bytes_limit: 10 * GIB,
                    ai_responses_limit: i64::MAX,
                    single_upload_limit: 10 * MIB,
                    storage_unlimited: false,
                    ai_unlimited: true,
                }
            },
        }
    }

    /// Whether `members_to_add` more members fit next to `current_count`.
    pub fn can_add_members(&self, current_count: i64, members_to_add: i64) -> (r: bool)
        ensures
            r == (current_count + members_to_add <= self.member_limit),
    {
        (current_count as i128) + (members_to_add as i128) <= self.member_limit as i128
    }

    /// Whether `bytes_to_add` more bytes fit next to `current_bytes`.
    pub fn can_add_storage(&self, current_bytes: i64, bytes_to_add: i64) -> (r: bool)
        ensures
            r == (self.storage_unlimited || current_bytes + bytes_to_add <= self.storage_bytes_limit),
    {
        if self.storage_unlimited {
            return true;
        }
        (current_bytes as i128) + (bytes_to_add as i128) <= self.storage_bytes_limit as i128
    }

    /// Whether a single file of `file_size` bytes may be uploaded.
    pub fn can_upload_file(&self, file_size: i64) -> (r: bool)
        ensures
            r == (file_size <= self.single_upload_limit),
    {
        file_size <= self.single_upload_limit
    }

    /// Whether one more AI response is available after `current_count`.
    pub fn can_use_ai(&self, current_count: i64) -> (r: bool)
        ensures
            r == (self.ai_unlimited || current_count < self.ai_responses_limit),
    {
        if self.ai_unlimited {
            return true;
        }
        current_count < self.ai_responses_limit
    }
}

} // verus!
