//! Where a tile is fetched from and where it is stored: both follow the
//! slippy-tile convention `{zoom}/{x}/{y}.png`, so repeated runs agree.
use crate::tile::SlippyTileKey;
use crate::tile::TileSize;
use vstd::prelude::*;

verus! {

pub open spec fn digit_chars() -> Seq<char> {
    seq!['0', '1', '2', '3', '4', '5', '6', '7', '8', '9']
}

/// The decimal digits of `n`, most significant first, without leading zeros.
pub open spec fn decimal(n: nat) -> Seq<char>
    decreases n,
{
    if n < 10 {
        seq![digit_chars()[n as int]]
    } else {
        decimal(n / 10) + seq![digit_chars()[(n % 10) as int]]
    }
}

/// `{zoom}/{x}/{y}.png`, the part of a tile's address that names the tile.
pub open spec fn tile_suffix(k: SlippyTileKey) -> Seq<char> {
    decimal(k.zoom as nat) + seq!['/'] + decimal(k.x as nat) + seq!['/'] + decimal(k.y as nat)
        + seq!['.', 'p', 'n', 'g']
}

pub open spec fn size_dir(s: TileSize) -> Seq<char> {
    match s {
        TileSize::Normal => seq!['2', '5', '6'],
        TileSize::Large => seq!['5', '1', '2'],
    }
}

fn digit_str(d: u32) -> (r: &'static str)
    requires
        d < 10,
    ensures
        r@ == seq![digit_chars()[d as int]],
{
    match d {
        0 => {
            proof {
                reveal_strlit("0");
            }
            "0"
        },
        1 => {
            proof {
                reveal_strlit("1");
            }
            "1"
        },
        2 => {
            proof {
                reveal_strlit("2");
            }
            "2"
        },
        3 => {
            proof {
                reveal_strlit("3");
            }
            "3"
        },
        4 => {
            proof {
                reveal_strlit("4");
            }
            "4"
        },
        5 => {
            proof {
                reveal_strlit("5");
            }
            "5"
        },
        6 => {
            proof {
                reveal_strlit("6");
            }
            "6"
        },
        7 => {
            proof {
                reveal_strlit("7");
            }
            "7"
        },
        8 => {
            proof {
                reveal_strlit("8");
            }
            "8"
        },
        _ => {
            proof {
                reveal_strlit("9");
            }
            "9"
        },
    }
}

/// Appends the decimal digits of `n` to `s`.
fn push_decimal(s: &mut String, n: u32)
    ensures
        final(s)@ == old(s)@ + decimal(n as nat),
    decreases n,
{
    if n >= 10 {
        push_decimal(s, n / 10);
    }
    s.append(digit_str(n % 10));
    proof {
        assert(final(s)@ == old(s)@ + decimal(n as nat)) by {
            if n >= 10 {
                assert(old(s)@ + decimal((n / 10) as nat) + seq![digit_chars()[(n % 10) as int]]
                    == old(s)@ + decimal(n as nat));
            }
        }
    }
}

/// Appends `{zoom}/{x}/{y}.png` for `key` to `s`.
fn push_tile_suffix(s: &mut String, key: SlippyTileKey)
    ensures
        final(s)@ == old(s)@ + tile_suffix(key),
{
    proof {
        reveal_strlit("/");
        reveal_strlit(".png");
    }
    push_decimal(s, key.zoom as u32);
    s.append("/");
    push_decimal(s, key.x);
    s.append("/");
    push_decimal(s, key.y);
    s.append(".png");
    proof {
        assert(final(s)@ == old(s)@ + tile_suffix(key));
    }
}

/// The address a tile is fetched from: `{base_url}/{zoom}/{x}/{y}.png`.
pub fn tile_url(base_url: &str, key: SlippyTileKey) -> (r: String)
    ensures
        r@ == base_url@ + seq!['/'] + tile_suffix(key),
{
    proof {
        reveal_strlit("/");
    }
    let mut s = String::new();
    s.append(base_url);
    s.append("/");
    push_tile_suffix(&mut s, key);
    proof {
        assert(s@ == base_url@ + seq!['/'] + tile_suffix(key));
    }
    s
}

/// Where a tile is stored under directory `dir` (given with its trailing
/// separator, as in `tiles/`): `{dir}{pixels}/{zoom}/{x}/{y}.png`, one file
/// per tile key.
pub fn tile_path(dir: &str, key: SlippyTileKey) -> (r: String)
    ensures
        r@ == dir@ + size_dir(key.size) + seq!['/'] + tile_suffix(key),
{
    proof {
        reveal_strlit("/");
        reveal_strlit("256");
        reveal_strlit("512");
    }
    let mut s = String::new();
    s.append(dir);
    match key.size {
        TileSize::Normal => s.append("256"),
        TileSize::Large => s.append("512"),
    }
    s.append("/");
    push_tile_suffix(&mut s, key);
    proof {
        assert(s@ == dir@ + size_dir(key.size) + seq!['/'] + tile_suffix(key));
    }
    s
}

} // verus!
