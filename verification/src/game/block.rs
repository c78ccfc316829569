use vstd::prelude::*;

verus! {

/// The colour of one square of the well.
#[derive(Copy, Clone, Debug, PartialEq, Eq, Structural)]
pub enum Block {
    Purple,
    Orange,
    Green,
    PaleBlue,
    Gold,
    DarkBlue,
    Pink,
}

/// The name of the sprite that draws a block of the given colour.
pub open spec fn sprite_name(block: Block) -> Seq<char> {
    match block {
        Block::Purple => "purple"@,
        Block::Orange => "orange"@,
        Block::Green => "green"@,
        Block::PaleBlue => "pale_blue"@,
        Block::Gold => "gold"@,
        Block::DarkBlue => "dark_blue"@,
        Block::Pink => "pink"@,
    }
}

/// Sprite used to draw a block of this colour.
pub fn sprite(block: &Block) -> (name: &'static str)
    ensures
        name@ == sprite_name(*block),
{
    match block {
        Block::Purple => "purple",
        Block::Orange => "orange",
        Block::Green => "green",
        Block::PaleBlue => "pale_blue",
        Block::Gold => "gold",
        Block::DarkBlue => "dark_blue",
        Block::Pink => "pink",
    }
}

} // verus!
