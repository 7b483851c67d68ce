//! Intent categories that a message can be routed to and that skills are tagged with.
use vstd::prelude::*;

verus! {

/// The kind of request a user message is about.
#[derive(Debug, Clone, Copy, PartialEq, Eq, Hash, Structural)]
pub enum IntentCategory {
    PolymarketRead,
    PolymarketTrade,
    CryptoTokens,
    System,
    Research,
    General,
    Prediction,
}

/// The label under which a category is shown.
pub open spec fn category_label(c: IntentCategory) -> Seq<char> {
    match c {
        IntentCategory::PolymarketRead => "polymarket_read"@,
        IntentCategory::PolymarketTrade => "polymarket_trade"@,
        IntentCategory::CryptoTokens => "crypto_tokens"@,
        IntentCategory::System => "system"@,
        IntentCategory::Research => "research"@,
        IntentCategory::General => "general"@,
        IntentCategory::Prediction => "prediction"@,
    }
}

impl IntentCategory {
    /// The category's label.
    pub fn as_str(&self) -> (r: &'static str)
        ensures
            r@ == category_label(*self),
    {
        match self {
            IntentCategory::PolymarketRead => "polymarket_read",
            IntentCategory::PolymarketTrade => "polymarket_trade",
            IntentCategory::CryptoTokens => "crypto_tokens",
            IntentCategory::System => "system",
            IntentCategory::Research => "research",
            IntentCategory::General => "general",
            IntentCategory::Prediction => "prediction",
        }
    }
}

} // verus!
