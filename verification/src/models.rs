use vstd::prelude::*;

verus! {

/// Direction of a price move relative to the committed Chainlink baseline.
#[derive(Clone, Copy, Debug, PartialEq, Eq, Structural)]
pub enum RoundDirection {
    Up,
    Down,
}

/// The wire name of a direction.
pub open spec fn spec_direction_name(d: RoundDirection) -> Seq<char> {
    match d {
        RoundDirection::Up => seq!['U', 'P'],
        RoundDirection::Down => seq!['D', 'O', 'W', 'N'],
    }
}

/// `"UP"` or `"DOWN"`.
pub fn dir_to_str(d: &RoundDirection) -> (s: &'static str)
    ensures
        s@ == spec_direction_name(*d),
{
    proof {
        reveal_strlit("UP");
        reveal_strlit("DOWN");
    }
    match d {
        RoundDirection::Up => "UP",
        RoundDirection::Down => "DOWN",
    }
}

/// Side of an order book.
#[derive(Clone, Copy, Debug, PartialEq, Eq, Structural)]
pub enum Side {
    Bid,
    Ask,
}

impl Side {
    /// The upper-case name the side has on the wire.
    pub fn wire_name(&self) -> (s: &'static str)
        ensures
            s@ == (match *self {
                Side::Bid => "BID"@,
                Side::Ask => "ASK"@,
            }),
    {
        match self {
            Side::Bid => "BID",
            Side::Ask => "ASK",
        }
    }
}

} // verus!
