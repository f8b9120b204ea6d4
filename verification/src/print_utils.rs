use vstd::prelude::*;
use crate::tile::Tile;

verus! {

/// The Unicode domino glyph for a tile standing upright: the vertical tiles
/// are one consecutive block of 49 code points, row by left pip, column by
/// right pip.
pub fn tile_to_char_vertical(tile: Tile) -> (c: char)
    requires
        tile.wf(),
    ensures
        c as u32 == 0x1F063 + 7 * (tile.left as u32) + (tile.right as u32),
{
    let table: [char; 49] = [
        '\u{1F063}',
        '\u{1F064}',
        '\u{1F065}',
        '\u{1F066}',
        '\u{1F067}',
        '\u{1F068}',
        '\u{1F069}',
        '\u{1F06A}',
        '\u{1F06B}',
        '\u{1F06C}',
        '\u{1F06D}',
        '\u{1F06E}',
        '\u{1F06F}',
        '\u{1F070}',
        '\u{1F071}',
        '\u{1F072}',
        '\u{1F073}',
        '\u{1F074}',
        '\u{1F075}',
        '\u{1F076}',
        '\u{1F077}',
        '\u{1F078}',
        '\u{1F079}',
        '\u{1F07A}',
        '\u{1F07B}',
        '\u{1F07C}',
        '\u{1F07D}',
        '\u{1F07E}',
        '\u{1F07F}',
        '\u{1F080}',
        '\u{1F081}',
        '\u{1F082}',
        '\u{1F083}',
        '\u{1F084}',
        '\u{1F085}',
        '\u{1F086}',
        '\u{1F087}',
        '\u{1F088}',
        '\u{1F089}',
        '\u{1F08A}',
        '\u{1F08B}',
        '\u{1F08C}',
        '\u{1F08D}',
        '\u{1F08E}',
        '\u{1F08F}',
        '\u{1F090}',
        '\u{1F091}',
        '\u{1F092}',
        '\u{1F093}',
    ];
    let idx: usize = 7 * (tile.left as usize) + (tile.right as usize);
    table[idx]
}

/// The Unicode domino glyph for a tile lying flat: the horizontal tiles are
/// one consecutive block of 49 code points, row by left pip, column by right
/// pip.
pub fn tile_to_char_horizontal(tile: Tile) -> (c: char)
    requires
        tile.wf(),
    ensures
        c as u32 == 0x1F031 + 7 * (tile.left as u32) + (tile.right as u32),
{
    let table: [char; 49] = [
        '\u{1F031}',
        '\u{1F032}',
        '\u{1F033}',
        '\u{1F034}',
        '\u{1F035}',
        '\u{1F036}',
        '\u{1F037}',
        '\u{1F038}',
        '\u{1F039}',
        '\u{1F03A}',
        '\u{1F03B}',
        '\u{1F03C}',
        '\u{1F03D}',
        '\u{1F03E}',
        '\u{1F03F}',
        '\u{1F040}',
        '\u{1F041}',
        '\u{1F042}',
        '\u{1F043}',
        '\u{1F044}',
        '\u{1F045}',
        '\u{1F046}',
        '\u{1F047}',
        '\u{1F048}',
        '\u{1F049}',
        '\u{1F04A}',
        '\u{1F04B}',
        '\u{1F04C}',
        '\u{1F04D}',
        '\u{1F04E}',
        '\u{1F04F}',
        '\u{1F050}',
        '\u{1F051}',
        '\u{1F052}',
        '\u{1F053}',
        '\u{1F054}',
        '\u{1F055}',
        '\u{1F056}',
        '\u{1F057}',
        '\u{1F058}',
        '\u{1F059}',
        '\u{1F05A}',
        '\u{1F05B}',
        '\u{1F05C}',
        '\u{1F05D}',
        '\u{1F05E}',
        '\u{1F05F}',
        '\u{1F060}',
        '\u{1F061}',
    ];
    let idx: usize = 7 * (tile.left as usize) + (tile.right as usize);
    table[idx]
}

} // verus!
