//! Owned dynamically-sized values, specialized to parsed domain names.
//!
//! The crate has two halves.  The first is a generic mechanism for
//! building heap-owned values whose trailing region (a string or an
//! array) has a length fixed at construction time: a capability contract
//! ([`dst::Dst`]), verified layout arithmetic ([`layout`]), and an
//! allocation engine with leak-free failure ([`dst::TryAllocDst`]).  The
//! second specializes that mechanism to domain names: [`domain::Domain`]
//! and [`domain::Root`] are header-plus-string values produced by
//! parsing and validating a name against the public suffix list.

pub mod domain;
pub mod dst;
pub mod layout;
pub mod record;
pub mod shapes;
