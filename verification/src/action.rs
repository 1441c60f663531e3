//! Actions and the map between engine actions and recorded neutral actions.

use vstd::prelude::*;
use crate::card::{card_id_text, CardId};
use crate::ids::{spec_player_label, AttackTarget, PlayerId, Slot};
use crate::state::{ChoiceNode, Phase, PlayForm, State, TargetOpt};
use crate::trace::{
    same_neutral, same_option, AttackTargetJson, ChooseOptionJson, ChooseOptionView, LeaderWord, NeutralAction,
    NeutralView,
};
use crate::apply::{legal_actions, legal_fits, spec_legal_actions};
use crate::db::CardDb;

verus! {

/// Everything a seat can do.
#[derive(Debug, Clone, Copy, PartialEq, Eq)]
pub enum Action {
    MulliganConfirm { swap: [bool; 4] },
    Play { hand: u8 },
    Attack { attacker: Slot, target: AttackTarget },
    Evolve { slot: Slot, super_evolve: bool },
    Engage { slot: Slot },
    Fuse { host: u8 },
    BonusPp,
    Choose(u8),
    Confirm,
    EndTurn,
}

/// The seat whose input the state waits for: the mulligan or choice owner,
/// otherwise the turn holder.
pub open spec fn spec_acting_player(s: State) -> PlayerId {
    match s.phase {
        Phase::Mulligan { player } => player,
        Phase::Choice { player, .. } => player,
        _ => s.active,
    }
}

pub fn acting_player(state: &State) -> (r: PlayerId)
    ensures
        r == spec_acting_player(*state),
{
    match &state.phase {
        Phase::Mulligan { player } => *player,
        Phase::Choice { player, .. } => *player,
        _ => state.active,
    }
}

/// Recorded form of a target option at index `i` of a target list.
pub open spec fn target_option_view(opt: Option<TargetOpt>, i: u8) -> ChooseOptionView {
    match opt {
        Some(TargetOpt::Slot { slot, .. }) => ChooseOptionView::Slot { slot },
        Some(TargetOpt::Leader { .. }) => ChooseOptionView::Leader,
        Some(TargetOpt::Card(id)) => ChooseOptionView::Card { card: card_id_text(id) },
        Some(TargetOpt::Mode(m)) => ChooseOptionView::Mode { mode: m },
        _ => ChooseOptionView::Mode { mode: i },
    }
}

/// Element `i` of a list, if any.
pub open spec fn seq_get<T>(s: Seq<T>, i: int) -> Option<T> {
    if 0 <= i < s.len() {
        Some(s[i])
    } else {
        None
    }
}

/// Recorded form of `Choose(i)` in `s`.
pub open spec fn spec_choose_option(s: State, i: u8) -> ChooseOptionView {
    match s.phase {
        Phase::Choice { node, .. } => match node {
            ChoiceNode::Targets { options } => target_option_view(seq_get(options@, i as int), i),
            ChoiceNode::MultiPick { options, .. } => target_option_view(seq_get(options@, i as int), i),
            ChoiceNode::Modes { options, .. } => ChooseOptionView::Mode {
                mode: if i < options.len() { options@[i as int] } else { i },
            },
            ChoiceNode::Cards { options } => if i < options.len() {
                ChooseOptionView::Card { card: card_id_text(options@[i as int]) }
            } else {
                ChooseOptionView::Mode { mode: i }
            },
            ChoiceNode::FusePartners { options, .. } => ChooseOptionView::Mode {
                mode: if i < options.len() { options@[i as int] } else { i },
            },
        },
        _ => ChooseOptionView::Mode { mode: i },
    }
}

/// Card id text at a hand position of the acting seat (empty when out of range).
pub open spec fn hand_card_text(s: State, hand: u8) -> Seq<char> {
    let h = s.seat(spec_acting_player(s)).hand@;
    if hand < h.len() {
        card_id_text(h[hand as int].card)
    } else {
        Seq::empty()
    }
}

/// Recorded form of an attack target.
pub open spec fn attack_target_json(t: AttackTarget) -> AttackTargetJson {
    match t {
        AttackTarget::Slot(s) => AttackTargetJson::Slot { slot: s.0 },
        AttackTarget::Leader => AttackTargetJson::Leader(LeaderWord::Leader),
    }
}

/// `n` is the recorded form of `a` in `s`.
pub open spec fn is_neutral_of(s: State, a: Action, n: NeutralAction) -> bool {
    &&& crate::trace::neutral_player(n) == spec_player_label(spec_acting_player(s))
    &&& match a {
        Action::MulliganConfirm { swap } => n matches NeutralAction::Mulligan { swap: w, .. } && w == swap,
        Action::Play { hand } => n matches NeutralAction::Play { hand_pos, card, .. } && hand_pos == hand
            && card@ == hand_card_text(s, hand),
        Action::Attack { attacker, target } => n matches NeutralAction::Attack { attacker_slot, target: t, .. }
            && attacker_slot == attacker.0 && t == attack_target_json(target),
        Action::Evolve { slot, super_evolve } => n matches NeutralAction::Evolve { slot: sl, super_evolve: se, .. }
            && sl == slot.0 && se == super_evolve,
        Action::Engage { slot } => n matches NeutralAction::Engage { slot: sl, .. } && sl == slot.0,
        Action::Fuse { host } => n matches NeutralAction::Fuse { host_pos, partner_pos, .. } && host_pos == host
            && partner_pos@.len() == 0,
        Action::BonusPp => n is BonusPp,
        Action::Choose(i) => n matches NeutralAction::Choose { option, .. } && option@ == spec_choose_option(s, i),
        Action::Confirm => n is Confirm,
        Action::EndTurn => n is EndTurn,
    }
}

fn target_option_json(opt: Option<&TargetOpt>, i: u8) -> (r: ChooseOptionJson)
    ensures
        r@ == target_option_view(
            match opt {
                Some(t) => Some(*t),
                None => None,
            },
            i,
        ),
{
    match opt {
        Some(TargetOpt::Slot { slot, .. }) => ChooseOptionJson::Slot { slot: *slot },
        Some(TargetOpt::Leader { .. }) => ChooseOptionJson::Leader(LeaderWord::Leader),
        Some(TargetOpt::Card(id)) => ChooseOptionJson::Card { card: id.as_str() },
        Some(TargetOpt::Mode(m)) => ChooseOptionJson::Mode { mode: *m },
        _ => ChooseOptionJson::Mode { mode: i },
    }
}

pub(crate) fn choose_option_json(state: &State, i: u8) -> (r: ChooseOptionJson)
    ensures
        r@ == spec_choose_option(*state, i),
{
    if let Phase::Choice { node, .. } = &state.phase {
        match node {
            ChoiceNode::Targets { options } => {
                let o = if (i as usize) < options.len() { Some(&options[i as usize]) } else { None };
                return target_option_json(o, i);
            },
            ChoiceNode::MultiPick { options, .. } => {
                let o = if (i as usize) < options.len() { Some(&options[i as usize]) } else { None };
                return target_option_json(o, i);
            },
            ChoiceNode::Modes { options, .. } => {
                let m = if (i as usize) < options.len() { options[i as usize] } else { i };
                return ChooseOptionJson::Mode { mode: m };
            },
            ChoiceNode::Cards { options } => {
                if (i as usize) < options.len() {
                    return ChooseOptionJson::Card { card: options[i as usize].as_str() };
                }
            },
            ChoiceNode::FusePartners { options, .. } => {
                if (i as usize) < options.len() {
                    return ChooseOptionJson::Mode { mode: options[i as usize] };
                }
            },
        }
    }
    ChooseOptionJson::Mode { mode: i }
}

fn seat_label(p: PlayerId) -> (r: String)
    ensures
        r@ == spec_player_label(p),
{
    String::from_str(p.as_str())
}

pub fn to_neutral(state: &State, action: &Action) -> (r: NeutralAction)
    ensures
        is_neutral_of(*state, *action, r),
{
    let p = seat_label(acting_player(state));
    match action {
        Action::MulliganConfirm { swap } => NeutralAction::Mulligan { player: p, swap: *swap },
        Action::Play { hand } => {
            let h = &state.player(acting_player(state)).hand;
            let card = if (*hand as usize) < h.len() {
                h[*hand as usize].card.as_str()
            } else {
                String::new()
            };
            NeutralAction::Play { player: p, hand_pos: *hand, card }
        },
        Action::Attack { attacker, target } => NeutralAction::Attack {
            player: p,
            attacker_slot: attacker.0,
            target: match target {
                AttackTarget::Slot(s) => AttackTargetJson::Slot { slot: s.0 },
                AttackTarget::Leader => AttackTargetJson::Leader(LeaderWord::Leader),
            },
        },
        Action::Evolve { slot, super_evolve } => NeutralAction::Evolve {
            player: p,
            slot: slot.0,
            super_evolve: *super_evolve,
        },
        Action::Engage { slot } => NeutralAction::Engage { player: p, slot: slot.0 },
        Action::Fuse { host } => NeutralAction::Fuse { player: p, host_pos: *host, partner_pos: Vec::new() },
        Action::BonusPp => NeutralAction::BonusPp { player: p },
        Action::Choose(i) => NeutralAction::Choose { player: p, option: choose_option_json(state, *i) },
        Action::Confirm => NeutralAction::Confirm { player: p },
        Action::EndTurn => NeutralAction::EndTurn { player: p },
    }
}

/// Number of options the pending choice lists (zero outside a choice).
pub open spec fn option_count(s: State) -> int {
    match s.phase {
        Phase::Choice { node, .. } => match node {
            ChoiceNode::Targets { options } => options.len() as int,
            ChoiceNode::MultiPick { options, .. } => options.len() as int,
            ChoiceNode::Modes { options, .. } => options.len() as int,
            ChoiceNode::Cards { options } => options.len() as int,
            ChoiceNode::FusePartners { options, .. } => options.len() as int,
        },
        _ => 0,
    }
}

/// Recorded form of option `j` as the option list is laid out.
#[verifier::opaque]
pub open spec fn option_entry(s: State, j: int) -> ChooseOptionView {
    match s.phase {
        Phase::Choice { node, .. } => match node {
            ChoiceNode::Targets { .. } => spec_choose_option(s, j as u8),
            ChoiceNode::MultiPick { .. } => spec_choose_option(s, j as u8),
            ChoiceNode::Modes { options, .. } => ChooseOptionView::Mode { mode: options@[j] },
            ChoiceNode::Cards { options } => ChooseOptionView::Card { card: card_id_text(options@[j]) },
            ChoiceNode::FusePartners { options, .. } => ChooseOptionView::Mode { mode: options@[j] },
        },
        _ => ChooseOptionView::Mode { mode: 0 },
    }
}

/// Index of the first listed option, from `j` on, recorded as `opt`; -1
/// when none is.
pub open spec fn first_option_from(s: State, opt: ChooseOptionView, j: int) -> int
    decreases option_count(s) - j,
{
    if j < 0 || j >= option_count(s) {
        -1
    } else if option_entry(s, j) == opt {
        j
    } else {
        first_option_from(s, opt, j + 1)
    }
}

/// Index of the first listed option recorded as `opt`, or 0 when none is.
pub open spec fn spec_option_index(s: State, opt: ChooseOptionView) -> u8 {
    let f = first_option_from(s, opt, 0);
    if f >= 0 {
        f as u8
    } else {
        0
    }
}

fn option_entry_json(state: &State, j: usize) -> (r: ChooseOptionJson)
    requires
        j < option_count(*state),
    ensures
        r@ == option_entry(*state, j as int),
{
    reveal(option_entry);
    match &state.phase {
        Phase::Choice { node, .. } => match node {
            ChoiceNode::Targets { .. } | ChoiceNode::MultiPick { .. } => choose_option_json(state, j as u8),
            ChoiceNode::Modes { options, .. } => ChooseOptionJson::Mode { mode: options[j] },
            ChoiceNode::Cards { options } => ChooseOptionJson::Card { card: options[j].as_str() },
            ChoiceNode::FusePartners { options, .. } => ChooseOptionJson::Mode { mode: options[j] },
        },
        _ => ChooseOptionJson::Mode { mode: 0 },
    }
}

fn option_len(state: &State) -> (r: usize)
    ensures
        r == option_count(*state),
{
    match &state.phase {
        Phase::Choice { node, .. } => match node {
            ChoiceNode::Targets { options } => options.len(),
            ChoiceNode::MultiPick { options, .. } => options.len(),
            ChoiceNode::Modes { options, .. } => options.len(),
            ChoiceNode::Cards { options } => options.len(),
            ChoiceNode::FusePartners { options, .. } => options.len(),
        },
        _ => 0,
    }
}

fn option_index(state: &State, opt: &ChooseOptionJson) -> (r: u8)
    ensures
        r == spec_option_index(*state, opt@),
{
    let n = option_len(state);
    let mut j: usize = 0;
    while j < n
        invariant
            n == option_count(*state),
            0 <= j <= n,
            first_option_from(*state, opt@, 0) == first_option_from(*state, opt@, j as int),
        decreases n - j,
    {
        let e = option_entry_json(state, j);
        if same_option(&e, opt) {
            return j as u8;
        }
        j = j + 1;
    }
    0
}

/// The engine action a recorded action stands for in `s`.
pub open spec fn spec_from_neutral(s: State, n: NeutralAction) -> Action {
    match n {
        NeutralAction::Mulligan { swap, .. } => Action::MulliganConfirm { swap },
        NeutralAction::Play { hand_pos, .. } => Action::Play { hand: hand_pos },
        NeutralAction::Attack { attacker_slot, target, .. } => Action::Attack {
            attacker: Slot(attacker_slot),
            target: match target {
                AttackTargetJson::Slot { slot } => AttackTarget::Slot(Slot(slot)),
                AttackTargetJson::Leader(_) => AttackTarget::Leader,
            },
        },
        NeutralAction::Evolve { slot, super_evolve, .. } => Action::Evolve { slot: Slot(slot), super_evolve },
        NeutralAction::Engage { slot, .. } => Action::Engage { slot: Slot(slot) },
        NeutralAction::Fuse { host_pos, .. } => Action::Fuse { host: host_pos },
        NeutralAction::BonusPp { .. } => Action::BonusPp,
        NeutralAction::Choose { option, .. } => Action::Choose(spec_option_index(s, option@)),
        NeutralAction::Confirm { .. } => Action::Confirm,
        NeutralAction::EndTurn { .. } => Action::EndTurn,
    }
}

pub fn from_neutral(state: &State, n: &NeutralAction) -> (r: Option<Action>)
    ensures
        r == Some(spec_from_neutral(*state, *n)),
{
    match n {
        NeutralAction::Mulligan { swap, .. } => Some(Action::MulliganConfirm { swap: *swap }),
        NeutralAction::Play { hand_pos, .. } => Some(Action::Play { hand: *hand_pos }),
        NeutralAction::Attack { attacker_slot, target, .. } => Some(Action::Attack {
            attacker: Slot(*attacker_slot),
            target: match target {
                AttackTargetJson::Slot { slot } => AttackTarget::Slot(Slot(*slot)),
                AttackTargetJson::Leader(_) => AttackTarget::Leader,
            },
        }),
        NeutralAction::Evolve { slot, super_evolve, .. } => Some(Action::Evolve {
            slot: Slot(*slot),
            super_evolve: *super_evolve,
        }),
        NeutralAction::Engage { slot, .. } => Some(Action::Engage { slot: Slot(*slot) }),
        // A completed fuse from a recorded trace carries its partners; the
        // partners are applied by `apply_neutral`, the action is the host.
        NeutralAction::Fuse { host_pos, .. } => Some(Action::Fuse { host: *host_pos }),
        NeutralAction::BonusPp { .. } => Some(Action::BonusPp),
        NeutralAction::Choose { option, .. } => Some(Action::Choose(option_index(state, option))),
        NeutralAction::Confirm { .. } => Some(Action::Confirm),
        NeutralAction::EndTurn { .. } => Some(Action::EndTurn),
    }
}

/// Label of a play form.
pub open spec fn play_form_text(form: PlayForm) -> Seq<char> {
    match form {
        PlayForm::Normal => "normal"@,
        PlayForm::Enhance { .. } => "enhance"@,
        PlayForm::Accelerate { .. } => "accelerate"@,
        PlayForm::Crystallize { .. } => "crystallize"@,
    }
}

pub fn play_form_label(form: PlayForm) -> (r: &'static str)
    ensures
        r@ == play_form_text(form),
{
    match form {
        PlayForm::Normal => "normal",
        PlayForm::Enhance { .. } => "enhance",
        PlayForm::Accelerate { .. } => "accelerate",
        PlayForm::Crystallize { .. } => "crystallize",
    }
}

/// Recording an action and reading it back gives the same action, for
/// every action but a choice (a choice reads back as the first option
/// recorded the same way; see `lemma_choose_roundtrip`).
pub proof fn lemma_neutral_roundtrip(s: State, a: Action, n: NeutralAction)
    requires
        is_neutral_of(s, a, n),
        !(a is Choose),
    ensures
        spec_from_neutral(s, n) == a,
{
}

proof fn lemma_first_index(s: State, opt: ChooseOptionView, k: int, i: int)
    requires
        0 <= k <= i < option_count(s),
        option_entry(s, i) == opt,
    ensures
        k <= first_option_from(s, opt, k) <= i,
        option_entry(s, first_option_from(s, opt, k)) == opt,
    decreases i - k,
{
    if option_entry(s, k) != opt {
        lemma_first_index(s, opt, k + 1, i);
    }
}

/// A recorded choice reads back as the first listed option recorded the
/// same way: at or before the chosen index, with the same recorded form.
pub proof fn lemma_choose_roundtrip(s: State, i: u8, n: NeutralAction)
    requires
        is_neutral_of(s, Action::Choose(i), n),
        i < option_count(s),
        option_entry(s, i as int) == spec_choose_option(s, i),
    ensures
        spec_from_neutral(s, n) matches Action::Choose(j) && j <= i && option_entry(s, j as int)
            == spec_choose_option(s, i),
{
    let opt = spec_choose_option(s, i);
    assert(n matches NeutralAction::Choose { option, .. } && option@ == opt);
    lemma_first_index(s, opt, 0, i as int);
}


/// How the acting seat records action `a` in state `s`.
pub open spec fn neutral_view_of(s: State, a: Action) -> NeutralView {
    let p = spec_player_label(spec_acting_player(s));
    match a {
        Action::MulliganConfirm { swap } => NeutralView::Mulligan { player: p, swap },
        Action::Play { hand } => NeutralView::Play { player: p, hand_pos: hand, card: hand_card_text(s, hand) },
        Action::Attack { attacker, target } => NeutralView::Attack {
            player: p,
            attacker_slot: attacker.0,
            target: attack_target_json(target),
        },
        Action::Evolve { slot, super_evolve } => NeutralView::Evolve { player: p, slot: slot.0, super_evolve },
        Action::Engage { slot } => NeutralView::Engage { player: p, slot: slot.0 },
        Action::Fuse { host } => NeutralView::Fuse { player: p, host_pos: host, partner_pos: Seq::empty() },
        Action::BonusPp => NeutralView::BonusPp { player: p },
        Action::Choose(i) => NeutralView::Choose { player: p, option: spec_choose_option(s, i) },
        Action::Confirm => NeutralView::Confirm { player: p },
        Action::EndTurn => NeutralView::EndTurn { player: p },
    }
}

/// A recorded action is determined by the action and the state.
pub proof fn lemma_neutral_view(s: State, a: Action, n: NeutralAction)
    requires
        is_neutral_of(s, a, n),
    ensures
        n@ == neutral_view_of(s, a),
{
    if let NeutralAction::Fuse { partner_pos, .. } = n {
        assert(partner_pos@ =~= Seq::<u8>::empty());
    }
}

/// The views of `v` with every repeat of an earlier view left out.
pub open spec fn first_views(v: Seq<NeutralView>, n: int) -> Seq<NeutralView>
    decreases n,
{
    if n <= 0 {
        Seq::empty()
    } else {
        let pre = first_views(v, n - 1);
        if pre.contains(v[n - 1]) {
            pre
        } else {
            pre.push(v[n - 1])
        }
    }
}

/// The legal actions as the acting seat records them, each recorded form
/// once, in `legal_actions` order.
pub open spec fn spec_legal_neutral(db: CardDb, s: State) -> Seq<NeutralView> {
    let v = spec_legal_actions(db, s).map_values(|a: Action| neutral_view_of(s, a));
    first_views(v, v.len() as int)
}

/// Views of a list of neutral actions.
pub open spec fn neutral_views(v: Seq<NeutralAction>) -> Seq<NeutralView> {
    v.map_values(|n: NeutralAction| n@)
}

proof fn lemma_first_views_distinct(v: Seq<NeutralView>, n: int)
    ensures
        first_views(v, n).no_duplicates(),
    decreases n,
{
    if n > 0 {
        lemma_first_views_distinct(v, n - 1);
    }
}

/// The legal actions as the acting seat records them; identical recorded
/// actions appear once (hand copies of one card collapse to one choice).
pub fn legal_actions_neutral(db: &CardDb, state: &State) -> (r: Vec<NeutralAction>)
    requires
        (state.phase is Main || state.phase is Combat) ==> legal_fits(*db, *state),
    ensures
        neutral_views(r@) == spec_legal_neutral(*db, *state),
        neutral_views(r@).no_duplicates(),
{
    let legal = legal_actions(db, state);
    let ghost v = legal@.map_values(|a: Action| neutral_view_of(*state, a));
    let mut out: Vec<NeutralAction> = Vec::new();
    let mut k: usize = 0;
    while k < legal.len()
        invariant
            0 <= k <= legal@.len(),
            legal@ == spec_legal_actions(*db, *state),
            v == legal@.map_values(|a: Action| neutral_view_of(*state, a)),
            neutral_views(out@) == first_views(v, k as int),
        decreases legal.len() - k,
    {
        let n = to_neutral(state, &legal[k]);
        proof {
            lemma_neutral_view(*state, legal@[k as int], n);
            assert(n@ == v[k as int]);
        }
        let mut seen = false;
        let mut j: usize = 0;
        while j < out.len()
            invariant
                0 <= j <= out@.len(),
                !seen ==> forall|m: int| 0 <= m < j ==> out@[m]@ != n@,
                seen ==> exists|m: int| 0 <= m < out@.len() && out@[m]@ == n@,
            decreases out.len() - j,
        {
            if same_neutral(&out[j], &n) {
                seen = true;
            }
            j = j + 1;
        }
        let ghost pre = neutral_views(out@);
        proof {
            if seen {
                let m = choose|m: int| 0 <= m < out@.len() && out@[m]@ == n@;
                assert(pre[m] == n@);
                assert(pre.contains(v[k as int]));
            } else {
                assert forall|m: int| 0 <= m < pre.len() implies pre[m] != v[k as int] by {
                    assert(pre[m] == out@[m]@);
                }
                assert(!pre.contains(v[k as int]));
            }
        }
        if !seen {
            out.push(n);
            proof {
                assert(neutral_views(out@) =~= pre.push(v[k as int]));
            }
        }
        k = k + 1;
    }
    proof {
        lemma_first_views_distinct(v, v.len() as int);
    }
    out
}

} // verus!
