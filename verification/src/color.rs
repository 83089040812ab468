//! The named colors of the sketches.
use vstd::prelude::*;

verus! {

/// Enumeration of custom color names.
#[derive(Clone, Copy, Debug, PartialEq, Eq, Structural)]
pub enum Color {
    Skobeloff,
    ChampagnePink,
    InternationalOrangeGoldenGateBridge,
    EerieBlack,
    RedPigment,
    MintCream,
    SpaceCadet,
    Cerise,
}

impl Color {
    /// The red, green and blue parts of the color.
    pub open spec fn spec_value(self) -> (u8, u8, u8) {
        match self {
            Color::Skobeloff => (25u8, 114u8, 120u8),
            Color::ChampagnePink => (237u8, 221u8, 212u8),
            Color::InternationalOrangeGoldenGateBridge => (196u8, 69u8, 54u8),
            Color::EerieBlack => (37u8, 36u8, 34u8),
            Color::RedPigment => (255u8, 0u8, 34u8),
            Color::MintCream => (243u8, 247u8, 240u8),
            Color::SpaceCadet => (57u8, 47u8, 90u8),
            Color::Cerise => (218u8, 65u8, 103u8),
        }
    }

    /// Returns the red, green and blue parts of the color.
    pub fn value(&self) -> (rgb: (u8, u8, u8))
        ensures
            rgb == self.spec_value(),
    {
        match self {
            Color::Skobeloff => (25u8, 114u8, 120u8),
            Color::ChampagnePink => (237u8, 221u8, 212u8),
            Color::InternationalOrangeGoldenGateBridge => (196u8, 69u8, 54u8),
            Color::EerieBlack => (37u8, 36u8, 34u8),
            Color::RedPigment => (255u8, 0u8, 34u8),
            Color::MintCream => (243u8, 247u8, 240u8),
            Color::SpaceCadet => (57u8, 47u8, 90u8),
            Color::Cerise => (218u8, 65u8, 103u8),
        }
    }
}

} // verus!
