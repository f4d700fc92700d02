use vstd::prelude::*;

verus! {

/// How the game's flavored floats read as text. A flavor turns the raw
/// integer of a binary float token into the text the game would write.
pub trait FlavorText {
    /// Text of the 32 bit float whose raw integer is `raw`.
    fn f32_text(&self, raw: i32) -> Vec<u8>;

    /// Text of the 64 bit float whose raw integer is `raw`.
    fn f64_text(&self, raw: i64) -> Vec<u8>;
}

} // verus!
