//! Authentication: tenant sessions, subscription tiers and the API-key
//! decision of the development authenticator.

use vstd::prelude::*;

use crate::kernel::error::{AnamError, Result};
use crate::text::{chars_of, starts_with, starts_with_exec, string_of, text_eq};

verus! {

/// An authenticated tenant session.
#[derive(Debug, Clone)]
pub struct AuthContext {
    pub tenant_id: String,
    pub api_key: String,
    pub tier: SubscriptionTier,
}

/// A tenant's subscription tier.
#[derive(Debug, Clone, PartialEq, Eq, Structural)]
pub enum SubscriptionTier {
    Community,
    Pro,
    Team,
    Enterprise,
}

/// The development authenticator: a fixed admin key, and any other
/// `sk-` key for the demo tenant.
pub struct DummyAuthenticator;

/// What authenticating `token` gives: the admin key opens the enterprise
/// admin tenant, any other key starting with `sk-` the community demo
/// tenant, and anything else is refused.
pub open spec fn auth_spec(token: Seq<char>) -> Option<(Seq<char>, SubscriptionTier)> {
    if token == "sk-admin-secret"@ {
        Some(("tenant-admin"@, SubscriptionTier::Enterprise))
    } else if starts_with(token, "sk-"@) {
        Some(("tenant-demo"@, SubscriptionTier::Community))
    } else {
        None
    }
}

impl DummyAuthenticator {
    /// Authenticate an API key (see [`auth_spec`]); a refused key gives an
    /// internal error "Invalid API key".
    pub fn authenticate_token(&self, token: &str) -> (r: Result<AuthContext>)
        ensures
            match auth_spec(token@) {
                Some((tenant, tier)) => r matches Ok(ctx) && ctx.tenant_id@ == tenant
                    && ctx.api_key@ == token@ && ctx.tier == tier,
                None => r matches Err(AnamError::Internal(m)) && m@ == "Invalid API key"@,
            },
    {
        let t = chars_of(token);
        if text_eq(&t, &chars_of("sk-admin-secret")) {
            Ok(
                AuthContext {
                    tenant_id: string_of(&chars_of("tenant-admin")),
                    api_key: string_of(&t),
                    tier: SubscriptionTier::Enterprise,
                },
            )
        } else if starts_with_exec(&t, &chars_of("sk-")) {
            Ok(
                AuthContext {
                    tenant_id: string_of(&chars_of("tenant-demo")),
                    api_key: string_of(&t),
                    tier: SubscriptionTier::Community,
                },
            )
        } else {
            Err(AnamError::Internal(string_of(&chars_of("Invalid API key"))))
        }
    }
}

} // verus!
