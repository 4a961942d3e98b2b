//! Script variants and the two-pass route between them.
//!
//! Every conversion goes through a standard intermediate form: one pass
//! converts the source variant to the standard form, a second pass converts
//! the standard form to the destination variant.

use vstd::prelude::*;

verus! {

/// A source or destination script variant.
#[derive(Clone, Copy, PartialEq, Eq, Hash, Debug, Structural)]
pub enum Script {
    /// The standard intermediate form.
    ST,
    /// Simplified characters, mainland convention.
    CN,
    /// Traditional characters, Taiwan convention.
    TW,
    /// Traditional characters, Hong Kong convention.
    HK,
}

/// Identifies one of the eight compiled pass dictionaries: for each variant,
/// one pass towards the standard form and one pass away from it.
#[derive(Clone, Copy, PartialEq, Eq, Hash, Debug, Structural)]
pub enum PassId {
    FromStandard,
    FromChina,
    FromTaiwan,
    FromHongKong,
    ToStandard,
    ToChina,
    ToTaiwan,
    ToHongKong,
}

/// The pass that converts the given variant to the standard form.
pub open spec fn spec_to_standard_pass(s: Script) -> PassId {
    match s {
        Script::ST => PassId::FromStandard,
        Script::CN => PassId::FromChina,
        Script::TW => PassId::FromTaiwan,
        Script::HK => PassId::FromHongKong,
    }
}

/// The pass that converts the standard form to the given variant.
pub open spec fn spec_from_standard_pass(s: Script) -> PassId {
    match s {
        Script::ST => PassId::ToStandard,
        Script::CN => PassId::ToChina,
        Script::TW => PassId::ToTaiwan,
        Script::HK => PassId::ToHongKong,
    }
}

/// Position of a pass dictionary in the registry's fixed table of eight.
pub open spec fn spec_pass_index(id: PassId) -> int {
    match id {
        PassId::FromStandard => 0,
        PassId::FromChina => 1,
        PassId::FromTaiwan => 2,
        PassId::FromHongKong => 3,
        PassId::ToStandard => 4,
        PassId::ToChina => 5,
        PassId::ToTaiwan => 6,
        PassId::ToHongKong => 7,
    }
}

pub fn to_standard_pass(s: Script) -> (id: PassId)
    ensures
        id == spec_to_standard_pass(s),
{
    match s {
        Script::ST => PassId::FromStandard,
        Script::CN => PassId::FromChina,
        Script::TW => PassId::FromTaiwan,
        Script::HK => PassId::FromHongKong,
    }
}

pub fn from_standard_pass(s: Script) -> (id: PassId)
    ensures
        id == spec_from_standard_pass(s),
{
    match s {
        Script::ST => PassId::ToStandard,
        Script::CN => PassId::ToChina,
        Script::TW => PassId::ToTaiwan,
        Script::HK => PassId::ToHongKong,
    }
}

pub fn pass_index(id: PassId) -> (i: usize)
    ensures
        i == spec_pass_index(id),
        i < 8,
{
    match id {
        PassId::FromStandard => 0,
        PassId::FromChina => 1,
        PassId::FromTaiwan => 2,
        PassId::FromHongKong => 3,
        PassId::ToStandard => 4,
        PassId::ToChina => 5,
        PassId::ToTaiwan => 6,
        PassId::ToHongKong => 7,
    }
}

/// The two passes that convert `from` to `to`, in the order they are applied.
pub fn resolve(from: Script, to: Script) -> (route: (PassId, PassId))
    ensures
        route.0 == spec_to_standard_pass(from),
        route.1 == spec_from_standard_pass(to),
{
    (to_standard_pass(from), from_standard_pass(to))
}

} // verus!
