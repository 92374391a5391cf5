//! Tile identifiers.
//!
//! Ids 0..=8 are 1m..9m, 9..=17 are 1p..9p, 18..=26 are 1s..9s, 27..=33 are
//! the honors E S W N P F C, 34..=36 are the red fives 5mr 5pr 5sr and 37 is
//! the unknown tile `?`.

use vstd::prelude::*;

verus! {

/// Number of distinct tile ids, the unknown tile included.
pub const NUM_TILE_IDS: u8 = 38;

/// A mahjong tile, stored as its id in `0..38`.
#[derive(Debug, Clone, Copy, PartialEq, Eq, Structural, Hash)]
pub struct Tile(u8);

/// The id of the red five of the given five (4, 13 or 22), else the id itself.
pub open spec fn spec_akaize(id: int) -> int {
    if id == 4 {
        34
    } else if id == 13 {
        35
    } else if id == 22 {
        36
    } else {
        id
    }
}

/// The id of the plain five of a red five, else the id itself.
pub open spec fn spec_deaka(id: int) -> int {
    if id == 34 {
        4
    } else if id == 35 {
        13
    } else if id == 36 {
        22
    } else {
        id
    }
}

/// Whether the id is a red five.
pub open spec fn spec_is_aka(id: int) -> bool {
    34 <= id <= 36
}

/// Whether the id is a terminal (1 or 9 of a suit) or an honor.
pub open spec fn spec_is_yaokyuu(id: int) -> bool {
    id == 0 || id == 8 || id == 9 || id == 17 || id == 18 || id == 26 || (27 <= id <= 33)
}

/// Dora order: the tile that a dora indicator points to.
pub open spec fn spec_next(id: int) -> int {
    let t = spec_deaka(id);
    if t < 27 {
        (t / 9) * 9 + (t % 9 + 1) % 9
    } else if t < 31 {
        27 + (t - 27 + 1) % 4
    } else {
        31 + (t - 31 + 1) % 3
    }
}

/// The inverse of `spec_next` on plain tiles.
pub open spec fn spec_prev(id: int) -> int {
    let t = spec_deaka(id);
    if t < 27 {
        (t / 9) * 9 + (t % 9 + 8) % 9
    } else if t < 31 {
        27 + (t - 27 + 3) % 4
    } else {
        31 + (t - 31 + 2) % 3
    }
}

/// Swaps manzu and pinzu (red fives included), keeps everything else.
pub open spec fn spec_augment(id: int) -> int {
    if id < 9 {
        id + 9
    } else if id < 18 {
        id - 9
    } else if id == 34 {
        35
    } else if id == 35 {
        34
    } else {
        id
    }
}

/// The mjai name of a tile id, such as "5m", "E", "5pr" or "?".
pub open spec fn spec_name(id: int) -> Seq<char> {
    if id < 27 {
        let num = ((id % 9) + 1) as u8;
        let digit = ('0' as u8 + num) as char;
        let suit = if id < 9 {
            'm'
        } else if id < 18 {
            'p'
        } else {
            's'
        };
        seq![digit, suit]
    } else if id == 27 {
        seq!['E']
    } else if id == 28 {
        seq!['S']
    } else if id == 29 {
        seq!['W']
    } else if id == 30 {
        seq!['N']
    } else if id == 31 {
        seq!['P']
    } else if id == 32 {
        seq!['F']
    } else if id == 33 {
        seq!['C']
    } else if id == 34 {
        seq!['5', 'm', 'r']
    } else if id == 35 {
        seq!['5', 'p', 'r']
    } else if id == 36 {
        seq!['5', 's', 'r']
    } else {
        seq!['?']
    }
}

/// The tile id whose name is `s`, if any.
pub open spec fn spec_parse_name(s: Seq<char>) -> Option<int> {
    if s.len() == 1 {
        let c = s[0];
        if c == 'E' {
            Some(27)
        } else if c == 'S' {
            Some(28)
        } else if c == 'W' {
            Some(29)
        } else if c == 'N' {
            Some(30)
        } else if c == 'P' {
            Some(31)
        } else if c == 'F' {
            Some(32)
        } else if c == 'C' {
            Some(33)
        } else if c == '?' {
            Some(37)
        } else {
            None
        }
    } else if s.len() == 2 {
        let d = s[0];
        let k = s[1];
        if '1' <= d && d <= '9' {
            let num = (d as int) - ('1' as int);
            if k == 'm' {
                Some(num)
            } else if k == 'p' {
                Some(9 + num)
            } else if k == 's' {
                Some(18 + num)
            } else {
                None
            }
        } else {
            None
        }
    } else if s.len() == 3 {
        if s[0] == '5' && s[2] == 'r' {
            if s[1] == 'm' {
                Some(34)
            } else if s[1] == 'p' {
                Some(35)
            } else if s[1] == 's' {
                Some(36)
            } else {
                None
            }
        } else {
            None
        }
    } else {
        None
    }
}

impl Default for Tile {
    /// `1m`, the tile with id 0.
    fn default() -> (r: Tile)
        ensures
            r.id() == 0,
    {
        Tile(0)
    }
}

impl Tile {
    #[verifier::type_invariant]
    closed spec fn inv(self) -> bool {
        self.0 < 38
    }

    /// The id of the tile.
    pub closed spec fn id(self) -> int {
        self.0 as int
    }

    /// Tiles are equal exactly when their ids are.
    pub proof fn lemma_id_injective(self, other: Tile)
        ensures
            (self.id() == other.id()) == (self == other),
    {
    }

    /// An id is a byte.
    pub proof fn lemma_id_nonneg(self)
        ensures
            0 <= self.id() < 256,
    {
    }

    /// The tile with the given id.
    pub fn new(id: u8) -> (t: Tile)
        requires
            id < 38,
        ensures
            t.id() == id,
    {
        Tile(id)
    }

    /// The tile with the given id, or `None` when `id` is not below 38.
    pub fn try_from_u8(id: u8) -> (r: Option<Tile>)
        ensures
            r matches Some(t) ==> t.id() == id,
            r is Some <==> id < 38,
    {
        if id < 38 {
            Some(Tile(id))
        } else {
            None
        }
    }

    /// The tile with the given id, or `None` when `id` is not below 38.
    pub fn try_from_usize(id: usize) -> (r: Option<Tile>)
        ensures
            r matches Some(t) ==> t.id() == id,
            r is Some <==> id < 38,
    {
        if id < 38 {
            Some(Tile(id as u8))
        } else {
            None
        }
    }

    pub fn as_u8(self) -> (r: u8)
        ensures
            r == self.id(),
            r < 38,
    {
        proof {
            use_type_invariant(self);
        }
        self.0
    }

    pub fn as_usize(self) -> (r: usize)
        ensures
            r == self.id(),
            r < 38,
    {
        proof {
            use_type_invariant(self);
        }
        self.0 as usize
    }

    /// Turns a red five into the plain five of its suit.
    pub fn deaka(self) -> (r: Tile)
        ensures
            r.id() == spec_deaka(self.id()),
    {
        proof {
            use_type_invariant(self);
        }
        match self.0 {
            34 => Tile(4),
            35 => Tile(13),
            36 => Tile(22),
            _ => self,
        }
    }

    /// Turns a plain five into the red five of its suit.
    pub fn akaize(self) -> (r: Tile)
        ensures
            r.id() == spec_akaize(self.id()),
    {
        proof {
            use_type_invariant(self);
        }
        match self.0 {
            4 => Tile(34),
            13 => Tile(35),
            22 => Tile(36),
            _ => self,
        }
    }

    pub fn is_aka(self) -> (r: bool)
        ensures
            r == spec_is_aka(self.id()),
    {
        34 <= self.0 && self.0 <= 36
    }

    /// Whether the tile is an honor (E S W N P F C).
    pub fn is_jihai(self) -> (r: bool)
        ensures
            r == (27 <= self.id() <= 33),
    {
        27 <= self.0 && self.0 <= 33
    }

    /// Whether the tile is unknown (`?`).
    pub fn is_unknown(self) -> (r: bool)
        ensures
            r == (self.id() == 37),
    {
        self.0 == 37
    }

    /// Whether the tile is a terminal or an honor.
    pub fn is_yaokyuu(self) -> (r: bool)
        ensures
            r == spec_is_yaokyuu(self.id()),
    {
        let t = self.0;
        t == 0 || t == 8 || t == 9 || t == 17 || t == 18 || t == 26 || (27 <= t && t <= 33)
    }

    /// The tile that this tile indicates as dora.
    pub fn next(self) -> (r: Tile)
        requires
            self.id() != 37,
        ensures
            r.id() == spec_next(self.id()),
            r.id() < 34,
    {
        proof {
            use_type_invariant(self);
        }
        let t = self.deaka().0;
        if t < 27 {
            Tile((t / 9) * 9 + (t % 9 + 1) % 9)
        } else if t < 31 {
            Tile(27 + (t - 27 + 1) % 4)
        } else {
            Tile(31 + (t - 31 + 1) % 3)
        }
    }

    /// The dora indicator of this tile.
    pub fn prev(self) -> (r: Tile)
        requires
            self.id() != 37,
        ensures
            r.id() == spec_prev(self.id()),
            r.id() < 34,
    {
        proof {
            use_type_invariant(self);
        }
        let t = self.deaka().0;
        if t < 27 {
            Tile((t / 9) * 9 + (t % 9 + 8) % 9)
        } else if t < 31 {
            Tile(27 + (t - 27 + 3) % 4)
        } else {
            Tile(31 + (t - 31 + 2) % 3)
        }
    }

    /// Swaps manzu and pinzu, used for data augmentation.
    pub fn augment(self) -> (r: Tile)
        ensures
            r.id() == spec_augment(self.id()),
    {
        proof {
            use_type_invariant(self);
        }
        let t = self.0;
        if t < 9 {
            Tile(t + 9)
        } else if t < 18 {
            Tile(t - 9)
        } else if t == 34 {
            Tile(35)
        } else if t == 35 {
            Tile(34)
        } else {
            self
        }
    }
}


/// Swapping manzu and pinzu twice gives the tile back, and the swap keeps
/// red fives red and plain tiles plain.
pub proof fn lemma_augment_involution(id: int)
    requires
        0 <= id,
    ensures
        spec_augment(spec_augment(id)) == id,
        id < 38 ==> 0 <= spec_augment(id) < 38,
        spec_is_aka(spec_augment(id)) == spec_is_aka(id),
        spec_deaka(spec_augment(id)) == spec_augment(spec_deaka(id)),
{
}

/// Making a tile red and plain again gives its plain tile back; a red five
/// made plain and red again is itself.
pub proof fn lemma_aka_roundtrip(id: int)
    requires
        0 <= id < 38,
    ensures
        spec_deaka(spec_akaize(id)) == spec_deaka(id),
        spec_is_aka(id) ==> spec_akaize(spec_deaka(id)) == id,
        !spec_is_aka(spec_deaka(id)),
{
}

/// On every tile but the unknown one, `prev` undoes `next` and `next`
/// undoes `prev`, up to the red five becoming plain.
pub proof fn lemma_next_prev(id: int)
    requires
        0 <= id < 37,
    ensures
        spec_prev(spec_next(id)) == spec_deaka(id),
        spec_next(spec_prev(id)) == spec_deaka(id),
{
}

/// The tile named `name(id)` is `id` again.
pub proof fn lemma_name_parse(id: int)
    requires
        0 <= id < 38,
    ensures
        spec_parse_name(spec_name(id)) == Some(id),
{
    if id < 27 {
        let num = ((id % 9) + 1) as u8;
        let d = ('0' as u8 + num) as char;
        assert(d as int == 48 + num);
        assert('1' <= d && d <= '9');
    }
}

/// Names of distinct tiles differ.
pub proof fn lemma_name_injective(a: int, b: int)
    requires
        0 <= a < 38,
        0 <= b < 38,
        spec_name(a) == spec_name(b),
    ensures
        a == b,
{
    lemma_name_parse(a);
    lemma_name_parse(b);
}

fn digit_text(d: u8) -> (r: &'static str)
    requires
        1 <= d <= 9,
    ensures
        r@ == seq![('0' as u8 + d) as char],
{
    proof {
        reveal_strlit("1");
        reveal_strlit("2");
        reveal_strlit("3");
        reveal_strlit("4");
        reveal_strlit("5");
        reveal_strlit("6");
        reveal_strlit("7");
        reveal_strlit("8");
        reveal_strlit("9");
    }
    match d {
        1 => "1",
        2 => "2",
        3 => "3",
        4 => "4",
        5 => "5",
        6 => "6",
        7 => "7",
        8 => "8",
        _ => "9",
    }
}

impl Tile {
    /// The mjai name of the tile, such as "5m", "E", "5pr" or "?".
    pub fn to_string(&self) -> (r: String)
        ensures
            r@ == spec_name(self.id()),
    {
        proof {
            use_type_invariant(self);
        }
        let t = self.0;
        let mut ret = String::new();
        if t < 27 {
            ret.append(digit_text(t % 9 + 1));
            proof {
                reveal_strlit("m");
                reveal_strlit("p");
                reveal_strlit("s");
            }
            if t < 9 {
                ret.append("m");
            } else if t < 18 {
                ret.append("p");
            } else {
                ret.append("s");
            }
            proof {
                assert(ret@ =~= spec_name(self.id()));
            }
        } else {
            proof {
                reveal_strlit("E");
                reveal_strlit("S");
                reveal_strlit("W");
                reveal_strlit("N");
                reveal_strlit("P");
                reveal_strlit("F");
                reveal_strlit("C");
                reveal_strlit("5mr");
                reveal_strlit("5pr");
                reveal_strlit("5sr");
                reveal_strlit("?");
            }
            let name = match t {
                27 => "E",
                28 => "S",
                29 => "W",
                30 => "N",
                31 => "P",
                32 => "F",
                33 => "C",
                34 => "5mr",
                35 => "5pr",
                36 => "5sr",
                _ => "?",
            };
            ret.append(name);
            proof {
                assert(ret@ =~= spec_name(self.id()));
            }
        }
        ret
    }

    /// The tile with the given mjai name.
    pub fn from_name(s: &str) -> (r: Option<Tile>)
        ensures
            r is Some <==> spec_parse_name(s@) is Some,
            r matches Some(t) ==> spec_parse_name(s@) == Some(t.id()),
    {
        if !s.is_ascii() {
            proof {
                if spec_parse_name(s@) is Some {
                    assert(vstd::string::is_ascii(s));
                }
            }
            return None;
        }
        let b = s.as_bytes();
        proof {
            vstd::string::is_ascii_spec_bytes(s);
        }
        let n = b.len();
        if n == 1 {
            let c = b[0];
            let id: u8 = if c == 69 {
                27
            } else if c == 83 {
                28
            } else if c == 87 {
                29
            } else if c == 78 {
                30
            } else if c == 80 {
                31
            } else if c == 70 {
                32
            } else if c == 67 {
                33
            } else if c == 63 {
                37
            } else {
                return None;
            };
            Some(Tile(id))
        } else if n == 2 {
            let d = b[0];
            let k = b[1];
            if d < 49 || d > 57 {
                return None;
            }
            let num = d - 49;
            if k == 109 {
                Some(Tile(num))
            } else if k == 112 {
                Some(Tile(9 + num))
            } else if k == 115 {
                Some(Tile(18 + num))
            } else {
                None
            }
        } else if n == 3 {
            if b[0] != 53 || b[2] != 114 {
                return None;
            }
            if b[1] == 109 {
                Some(Tile(34))
            } else if b[1] == 112 {
                Some(Tile(35))
            } else if b[1] == 115 {
                Some(Tile(36))
            } else {
                None
            }
        } else {
            None
        }
    }
}

} // verus!
