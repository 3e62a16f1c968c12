//! Compliance: audit log, jurisdiction rules and request quotas.

pub mod audit_ledger;
pub mod jurisdiction_filter;
pub mod rate_limiter;
