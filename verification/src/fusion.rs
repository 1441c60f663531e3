//! Fusion and Engage offers: which hand cards can fuse into a host, and
//! what an Engage costs.

use vstd::prelude::*;
use crate::card::{card_ability_list, card_fuse, Ability, Card, Fuse};
use crate::db::{card_pos, CardDb};
use crate::ids::PlayerId;
use crate::select::{filter_holds, filter_matches_card};
use crate::error::Illegal;
use crate::event::Event;
use crate::state::{CardInstance, ChoiceNode, Phase, State};

verus! {

/// Some recipe of the fusion names required cards; the host then remembers
/// the kinds it has fused and refuses a second one of them.
pub open spec fn fuse_remembers_kinds(fuse: Fuse) -> bool {
    match fuse.recipes {
        Some(rs) => exists|i: int|
            0 <= i < rs@.len() && match #[trigger] rs@[i].requires {
                Some(req) => req@.len() > 0,
                None => false,
            },
        None => false,
    }
}

/// The hand card at `i` can be fused into the host at `host`: another card,
/// matching the partner filter, and not a kind the host already fused when
/// kinds are remembered.
pub open spec fn fuse_partner_ok(s: State, me: PlayerId, host: int, i: int, fuse: Fuse) -> bool {
    let hand = s.seat(me).hand@;
    &&& i != host
    &&& filter_holds(s, hand[i], fuse.partners)
    &&& !(fuse_remembers_kinds(fuse) && hand[host].flags.fused_kinds@.contains(hand[i].card))
}

/// The partner positions among the first `n` hand cards, in hand order.
pub open spec fn fuse_partners_upto(s: State, me: PlayerId, host: int, fuse: Fuse, n: int) -> Seq<u8>
    decreases n,
{
    if n <= 0 {
        Seq::empty()
    } else if fuse_partner_ok(s, me, host, n - 1, fuse) {
        fuse_partners_upto(s, me, host, fuse, n - 1).push((n - 1) as u8)
    } else {
        fuse_partners_upto(s, me, host, fuse, n - 1)
    }
}

/// The partner positions of the whole hand.
pub open spec fn fuse_partners(s: State, me: PlayerId, host: int, fuse: Fuse) -> Seq<u8> {
    fuse_partners_upto(s, me, host, fuse, s.seat(me).hand@.len() as int)
}

fn remembers_kinds(fuse: &Fuse) -> (r: bool)
    ensures
        r == fuse_remembers_kinds(*fuse),
{
    match &fuse.recipes {
        Some(rs) => {
            let mut i: usize = 0;
            while i < rs.len()
                invariant
                    fuse.recipes == Some(*rs),
                    0 <= i <= rs.len(),
                    forall|j: int|
                        0 <= j < i ==> !match #[trigger] rs@[j].requires {
                            Some(req) => req@.len() > 0,
                            None => false,
                        },
                decreases rs.len() - i,
            {
                if let Some(req) = &rs[i].requires {
                    if req.len() > 0 {
                        assert(match rs@[i as int].requires {
                            Some(q) => q@.len() > 0,
                            None => false,
                        });
                        return true;
                    }
                }
                i = i + 1;
            }
            false
        },
        None => false,
    }
}

/// Hand positions that can fuse into the host at `host`, in hand order.
pub fn fuse_partner_indices(_db: &CardDb, state: &State, me: PlayerId, host: usize, fuse: &Fuse) -> (r: Vec<u8>)
    requires
        host < state.seat(me).hand@.len(),
        state.seat(me).hand@.len() <= 256,
    ensures
        r@ == fuse_partners(*state, me, host as int, *fuse),
{
    let hand = &state.player(me).hand;
    let host_inst = &hand[host];
    let remember = remembers_kinds(fuse);
    let mut out: Vec<u8> = Vec::new();
    let mut i: usize = 0;
    while i < hand.len()
        invariant
            hand@ == state.seat(me).hand@,
            host < hand@.len() <= 256,
            *host_inst == hand@[host as int],
            remember == fuse_remembers_kinds(*fuse),
            0 <= i <= hand.len(),
            out@ == fuse_partners_upto(*state, me, host as int, *fuse, i as int),
        decreases hand.len() - i,
    {
        if i != host && filter_matches_card(state, me, &hand[i], &fuse.partners) {
            let fused = crate::apply::already_fused_kind(host_inst, &hand[i]);
            if !(remember && fused) {
                out.push(i as u8);
            }
        }
        i = i + 1;
    }
    out
}

/// The card of the host at `host` prints a fusion with at least one partner
/// in hand, and the host has not fused this turn.
pub open spec fn spec_can_fuse(db: CardDb, s: State, me: PlayerId, host: int, inst: CardInstance) -> bool {
    let k = card_pos(db.cards@, inst.card, 0);
    &&& !inst.flags.fused_this_turn
    &&& k >= 0
    &&& card_fuse(db.cards@[k]) is Some
    &&& fuse_partners(s, me, host, card_fuse(db.cards@[k])->0).len() > 0
}

/// Whether the hand card `inst` at `host` can start a fusion.
pub fn can_fuse(db: &CardDb, state: &State, me: PlayerId, host: usize, inst: &CardInstance) -> (r: bool)
    requires
        host < state.seat(me).hand@.len(),
        state.seat(me).hand@.len() <= 256,
    ensures
        r == spec_can_fuse(*db, *state, me, host as int, *inst),
{
    if inst.flags.fused_this_turn {
        return false;
    }
    let card = match db.card(inst.card) {
        Ok(c) => c,
        Err(_) => {
            return false;
        },
    };
    let fuse = match card.fuse() {
        Some(f) => f,
        None => {
            return false;
        },
    };
    let partners = fuse_partner_indices(db, state, me, host, fuse);
    partners.len() > 0
}

/// The cost of the first Engage ability in the list.
pub open spec fn first_engage_cost(abs: Seq<Ability>) -> Option<i32>
    decreases abs.len(),
{
    if abs.len() == 0 {
        None
    } else {
        match abs[0] {
            Ability::Engage { cost, .. } => Some(cost),
            _ => first_engage_cost(abs.subrange(1, abs.len() as int)),
        }
    }
}

/// The PP cost of the card's first printed Engage ability, if it has one.
pub fn engage_cost(card: &Card) -> (r: Option<i32>)
    ensures
        r == first_engage_cost(card_ability_list(*card)),
{
    let abs = card.abilities();
    assert(abs@.subrange(0, abs.len() as int) =~= abs@);
    let mut i: usize = 0;
    while i < abs.len()
        invariant
            0 <= i <= abs.len(),
            abs@ == card_ability_list(*card),
            first_engage_cost(abs@) == first_engage_cost(abs@.subrange(i as int, abs.len() as int)),
        decreases abs.len() - i,
    {
        let ghost rest = abs@.subrange(i as int, abs.len() as int);
        assert(rest.subrange(1, rest.len() as int) =~= abs@.subrange(i as int + 1, abs.len() as int));
        if let Ability::Engage { cost, .. } = &abs[i] {
            return Some(*cost);
        }
        i = i + 1;
    }
    None
}

/// The choice a fusion of the hand card at `host` offers: the partners in
/// hand, none picked yet.
pub open spec fn fuse_node(s: State, me: PlayerId, host: u8, fuse: Fuse, node: ChoiceNode) -> bool {
    node matches ChoiceNode::FusePartners { host: h, options, picked } && h == host && options@ == fuse_partners(
        s,
        me,
        host as int,
        fuse,
    ) && picked@.len() == 0
}

/// The fusion the hand card at `host` of the acting seat prints, if that
/// hand card exists and its card is known.
pub open spec fn host_fuse(db: CardDb, s: State, host: u8) -> Option<Fuse> {
    let hand = s.seat(s.active).hand@;
    if host < hand.len() {
        let k = card_pos(db.cards@, hand[host as int].card, 0);
        if k >= 0 {
            card_fuse(db.cards@[k])
        } else {
            None
        }
    } else {
        None
    }
}

/// Starts a fusion with the acting seat's hand card at `host`: the seat is
/// offered its partners in hand. Refused, with nothing changed, when there
/// is no such hand card or its card is unknown or prints no fusion.
pub fn apply_fuse_start(db: &CardDb, state: &mut State, host: u8, events: &mut Vec<Event>) -> (r: Result<(), Illegal>)
    requires
        old(state).seat(old(state).active).hand@.len() <= 256,
    ensures
        r is Ok <==> host_fuse(*db, *old(state), host) is Some,
        r is Err ==> r->Err_0 is NotLegal && *final(state) == *old(state) && final(events)@ == old(events)@,
        r is Ok ==> {
            let me = old(state).active;
            let fuse = host_fuse(*db, *old(state), host)->0;
            &&& *final(state) == (State { phase: final(state).phase, ..*old(state) })
            &&& final(state).phase matches Phase::Choice { player, node } && player == me && fuse_node(
                *old(state),
                me,
                host,
                fuse,
                node,
            )
            &&& final(events)@.len() == old(events)@.len() + 1
            &&& final(events)@.drop_last() == old(events)@
            &&& final(events)@.last() matches Event::ChoiceOffered { player, node } && player == me && fuse_node(
                *old(state),
                me,
                host,
                fuse,
                node,
            )
        },
{
    let me = state.active;
    let i = host as usize;
    if i >= state.player(me).hand.len() {
        return Err(Illegal::NotLegal);
    }
    let card = match db.card(state.player(me).hand[i].card) {
        Ok(c) => c,
        Err(_) => {
            return Err(Illegal::NotLegal);
        },
    };
    let fuse = match card.fuse() {
        Some(f) => f,
        None => {
            return Err(Illegal::NotLegal);
        },
    };
    let options = fuse_partner_indices(db, state, me, i, fuse);
    let shown = options.clone();
    state.phase = Phase::Choice { player: me, node: ChoiceNode::FusePartners { host, options, picked: Vec::new() } };
    events.push(Event::ChoiceOffered { player: me, node: ChoiceNode::FusePartners { host, options: shown, picked: Vec::new() } });
    proof {
        assert(events@.drop_last() =~= old(events)@);
    }
    Ok(())
}

} // verus!
