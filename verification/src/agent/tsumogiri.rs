use crate::mjai::event::Event;
use crate::state::PlayerState;
use vstd::prelude::*;

verus! {

/// An agent that always discards the tile it just drew and does nothing
/// else.
pub struct Tsumogiri(pub u8);

/// The seat may discard but has not drawn a tile.
#[derive(Debug, Clone, Copy, PartialEq, Eq)]
pub struct EmptyTsumo;

impl Tsumogiri {
    pub fn name(&self) -> (r: String)
        ensures
            r@ == seq!['t', 's', 'u', 'm', 'o', 'g', 'i', 'r', 'i'],
    {
        proof {
            reveal_strlit("tsumogiri");
        }
        "tsumogiri".to_owned()
    }

    /// The reaction to `state`: a tsumogiri when a discard is allowed,
    /// nothing otherwise.
    pub fn react(&self, state: &PlayerState) -> (r: Result<Event, EmptyTsumo>)
        ensures
            !state.last_cans.can_discard ==> r == Ok::<Event, EmptyTsumo>(Event::Nothing),
            state.last_cans.can_discard ==> match state.last_self_tsumo {
                Some(t) => r == Ok::<Event, EmptyTsumo>(Event::Dahai { actor: self.0, pai: t, tsumogiri: true }),
                None => r == Err::<Event, EmptyTsumo>(EmptyTsumo),
            },
    {
        if state.last_cans().can_discard {
            match state.last_self_tsumo() {
                Some(pai) => Ok(Event::Dahai { actor: self.0, pai, tsumogiri: true }),
                None => Err(EmptyTsumo),
            }
        } else {
            Ok(Event::Nothing)
        }
    }
}

} // verus!
