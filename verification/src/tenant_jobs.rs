//! Background jobs of tenants.

pub mod worker;
