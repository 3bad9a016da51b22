//! The two players and the ownership of board markers.

use vstd::prelude::*;

verus! {

/// One of the two players of a game.
#[derive(Debug, Clone, Copy, PartialEq, Eq, Structural)]
pub enum Player {
    One,
    Two,
}

/// What a board marker means to a given player.
#[derive(Debug, Clone, Copy, PartialEq, Eq, Structural)]
pub enum Cell {
    /// The empty marker `.`.
    Empty,
    /// Territory of the player, old or freshly placed.
    Own,
    /// Territory of the other player, old or freshly placed.
    Opponent,
    /// Any marker that is neither empty nor owned by a player.
    Other,
}

impl Player {
    /// The other player.
    pub open spec fn spec_opponent(self) -> Player {
        match self {
            Player::One => Player::Two,
            Player::Two => Player::One,
        }
    }

    /// The two markers of this player: territory first, fresh piece second.
    pub open spec fn spec_chars(self) -> Seq<char> {
        match self {
            Player::One => seq!['@', 'a'],
            Player::Two => seq!['$', 's'],
        }
    }

    /// The two markers of the other player.
    pub open spec fn spec_opponent_chars(self) -> Seq<char> {
        self.spec_opponent().spec_chars()
    }

    /// The player that an identity digit names, if any.
    pub open spec fn spec_from_char(c: char) -> Option<Player> {
        if c == '1' {
            Some(Player::One)
        } else if c == '2' {
            Some(Player::Two)
        } else {
            None
        }
    }

    /// The meaning of marker `c` to this player.
    pub open spec fn spec_classify(self, c: char) -> Cell {
        if c == '.' {
            Cell::Empty
        } else if self.spec_chars().contains(c) {
            Cell::Own
        } else if self.spec_opponent_chars().contains(c) {
            Cell::Opponent
        } else {
            Cell::Other
        }
    }

    /// The two markers of this player on the board.
    pub fn chars(&self) -> (markers: Vec<char>)
        ensures
            markers@ == self.spec_chars(),
    {
        match self {
            Player::One => vec!['@', 'a'],
            Player::Two => vec!['$', 's'],
        }
    }

    /// The two markers of the other player on the board.
    pub fn opponent_chars(&self) -> (markers: Vec<char>)
        ensures
            markers@ == self.spec_opponent_chars(),
    {
        match self {
            Player::One => Player::Two.chars(),
            Player::Two => Player::One.chars(),
        }
    }

    /// Reads a player's identity from the digit that names it.
    pub fn from_char(c: char) -> (player: Option<Player>)
        ensures
            player == Player::spec_from_char(c),
    {
        match c {
            '1' => Some(Player::One),
            '2' => Some(Player::Two),
            _ => None,
        }
    }

    /// Tells what the marker `c` means to this player.
    pub fn classify(&self, c: char) -> (cell: Cell)
        ensures
            cell == self.spec_classify(c),
    {
        let (territory, fresh, their_territory, their_fresh) = match self {
            Player::One => ('@', 'a', '$', 's'),
            Player::Two => ('$', 's', '@', 'a'),
        };
        proof {
            assert(self.spec_chars()[0] == territory && self.spec_chars()[1] == fresh);
            assert(self.spec_opponent_chars()[0] == their_territory
                && self.spec_opponent_chars()[1] == their_fresh);
        }
        if c == '.' {
            Cell::Empty
        } else if c == territory || c == fresh {
            Cell::Own
        } else if c == their_territory || c == their_fresh {
            Cell::Opponent
        } else {
            Cell::Other
        }
    }
}

} // verus!
