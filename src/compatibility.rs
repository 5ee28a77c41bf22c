//! Conversion of registries kept in other layouts into this library's structures.
//!
//! `registro_ale` reads the workbook layout with one worksheet per month.
pub mod registro_ale;

use vstd::prelude::*;

use crate::names::{eq_ignore_ascii_case, same_ignoring_case};

verus! {

/// A worksheet could not be read: a required column or cell is missing, or a value is not
/// of the expected kind.
#[derive(Clone, Copy, Debug, PartialEq, Eq, Structural)]
pub struct ExtractionError {}

/// The supported layouts of raw input.
#[derive(Clone, Copy, Debug, PartialEq, Eq, Structural)]
pub enum CompatibilityEnum {
    /// The library's own layout: nothing to convert.
    Base,
    /// The monthly-worksheet layout.
    Ale,
}

impl CompatibilityEnum {
    pub open spec fn spec_name(self) -> Seq<char> {
        match self {
            CompatibilityEnum::Base => "Base"@,
            CompatibilityEnum::Ale => "Ale"@,
        }
    }

    /// The printable name of the layout.
    pub fn name(&self) -> (r: &'static str)
        ensures
            r@ == self.spec_name(),
    {
        match self {
            CompatibilityEnum::Base => "Base",
            CompatibilityEnum::Ale => "Ale",
        }
    }

    /// The layout whose name is `s`, ignoring ASCII case.
    pub fn parse(s: &str) -> (r: Option<CompatibilityEnum>)
        ensures
            same_ignoring_case(s@, CompatibilityEnum::Base.spec_name()) ==> r == Some(CompatibilityEnum::Base),
            !same_ignoring_case(s@, CompatibilityEnum::Base.spec_name()) && same_ignoring_case(
                s@,
                CompatibilityEnum::Ale.spec_name(),
            ) ==> r == Some(CompatibilityEnum::Ale),
            !same_ignoring_case(s@, CompatibilityEnum::Base.spec_name()) && !same_ignoring_case(
                s@,
                CompatibilityEnum::Ale.spec_name(),
            ) ==> r is None,
    {
        if eq_ignore_ascii_case(s, CompatibilityEnum::Base.name()) {
            Some(CompatibilityEnum::Base)
        } else if eq_ignore_ascii_case(s, CompatibilityEnum::Ale.name()) {
            Some(CompatibilityEnum::Ale)
        } else {
            None
        }
    }
}

} // verus!
