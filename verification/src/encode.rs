//! Layout of the perspective-masked observation, and the choice counts it reads.

use vstd::prelude::*;
use crate::state::{BoundRef, CardInstance, ChoiceNode, Phase, State, FIELD_SLOTS, HAND_LIMIT};

verus! {

/// Padded histogram width over the two decklists' union (plus tokens).
pub const HIST_WIDTH: usize = 96;

/// `own_deck_hist` offset + 2 × histogram.
pub const LEN: usize = 353 + 2 * HIST_WIDTH;

/// Parallel card-id vector regions (never one-hot). The opponent-hand region is always 0.
pub const IDS_OWN_HAND: usize = 0;
pub const IDS_OWN_DECK: usize = 9;
pub const IDS_OPP_BOARD: usize = 9 + HIST_WIDTH;
pub const IDS_OWN_BOARD: usize = 9 + HIST_WIDTH + FIELD_SLOTS;
pub const IDS_OPP_POOL: usize = 9 + HIST_WIDTH + 2 * FIELD_SLOTS;
pub const IDS_OPP_HAND: usize = 9 + 2 * HIST_WIDTH + 2 * FIELD_SLOTS;
pub const IDS_LEN: usize = IDS_OPP_HAND + HAND_LIMIT;

/// One named block of the feature vector.
#[derive(Debug, Clone, Copy, PartialEq, Eq)]
pub struct LayoutField {
    pub name: &'static str,
    pub offset: usize,
    pub width: usize,
}

/// Widths of the feature blocks, in order.
pub open spec fn layout_widths() -> Seq<usize> {
    seq![5, 1, 1, 1, 1, 32, 29, 29, 9, 9, 9, 9, 9, 9, 100, 100, HIST_WIDTH, HIST_WIDTH]
}

/// Sum of the first `n` block widths.
pub open spec fn width_prefix(ws: Seq<usize>, n: int) -> int
    decreases n,
{
    if n <= 0 {
        0
    } else {
        width_prefix(ws, n - 1) + ws[n - 1]
    }
}

/// The blocks tile the vector: each starts where the previous one ends,
/// the first at 0, and the last ends at `LEN`.
pub open spec fn layout_contiguous(l: Seq<LayoutField>) -> bool {
    &&& l.len() > 0
    &&& l[0].offset == 0
    &&& forall|i: int| 0 <= i < l.len() - 1 ==> #[trigger] l[i + 1].offset == l[i].offset + l[i].width
    &&& l[l.len() - 1].offset + l[l.len() - 1].width == LEN
}

fn field(name: &'static str, offset: usize, width: usize) -> (r: LayoutField)
    ensures
        r.name == name,
        r.offset == offset,
        r.width == width,
{
    LayoutField { name, offset, width }
}

/// Name, offset and width of every feature block. Contiguous, covers `LEN`.
pub fn layout() -> (r: Vec<LayoutField>)
    ensures
        r@.len() == layout_widths().len(),
        forall|i: int| 0 <= i < r@.len() ==> #[trigger] r@[i].width == layout_widths()[i],
        forall|i: int| 0 <= i < r@.len() ==> #[trigger] r@[i].offset == width_prefix(layout_widths(), i),
        layout_contiguous(r@),
{
    let r = vec![
        field("phase", 0, 5),
        field("turn", 5, 1),
        field("i_am_active", 6, 1),
        field("winner", 7, 1),
        field("first_is_me", 8, 1),
        field("choice_ids", 9, 32),
        field("me_scalars", 41, 29),
        field("opp_scalars", 70, 29),
        field("own_hand_cost", 99, 9),
        field("own_hand_spellboost", 108, 9),
        field("own_hand_skybound", 117, 9),
        field("own_hand_fused", 126, 9),
        field("own_hand_cant_play", 135, 9),
        field("own_hand_once_used", 144, 9),
        field("own_board", 153, 100),
        field("opp_board", 253, 100),
        field("own_deck_hist", 353, HIST_WIDTH),
        field("opp_known_pool_hist", 353 + HIST_WIDTH, HIST_WIDTH),
    ];
    proof {
        reveal_with_fuel(width_prefix, 19);
        assert forall|i: int| 0 <= i < r@.len() implies #[trigger] r@[i].width == layout_widths()[i] by {}
        assert forall|i: int| 0 <= i < r@.len() implies #[trigger] r@[i].offset == width_prefix(
            layout_widths(),
            i,
        ) by {}
        assert forall|i: int| 0 <= i < r@.len() - 1 implies #[trigger] r@[i + 1].offset == r@[i].offset
            + r@[i].width by {}
    }
    r
}

/// Open options on a choice node: every option, except that a fusion
/// choice counts only partners not yet picked.
pub open spec fn spec_choice_option_count(node: ChoiceNode) -> nat {
    match node {
        ChoiceNode::Targets { options } => options@.len(),
        ChoiceNode::MultiPick { options, .. } => options@.len(),
        ChoiceNode::Modes { options, .. } => options@.len(),
        ChoiceNode::Cards { options } => options@.len(),
        ChoiceNode::FusePartners { options, picked, .. } => unpicked_count(options@, picked@, options@.len() as int),
    }
}

/// Options among the first `n` not in `picked`.
pub open spec fn unpicked_count(options: Seq<u8>, picked: Seq<u8>, n: int) -> nat
    decreases n,
{
    if n <= 0 {
        0
    } else {
        unpicked_count(options, picked, n - 1) + if picked.contains(options[n - 1]) {
            0nat
        } else {
            1nat
        }
    }
}

proof fn lemma_unpicked_bound(options: Seq<u8>, picked: Seq<u8>, n: int)
    requires
        0 <= n,
    ensures
        unpicked_count(options, picked, n) <= n,
    decreases n,
{
    if n > 0 {
        lemma_unpicked_bound(options, picked, n - 1);
    }
}

fn listed_u8(v: &Vec<u8>, x: u8) -> (r: bool)
    ensures
        r == v@.contains(x),
{
    let mut i: usize = 0;
    while i < v.len()
        invariant
            0 <= i <= v.len(),
            forall|j: int| 0 <= j < i ==> v@[j] != x,
        decreases v.len() - i,
    {
        if v[i] == x {
            assert(v@[i as int] == x);
            return true;
        }
        i = i + 1;
    }
    false
}

pub fn choice_option_count(node: &ChoiceNode) -> (r: usize)
    ensures
        r == spec_choice_option_count(*node),
{
    match node {
        ChoiceNode::Targets { options } => options.len(),
        ChoiceNode::MultiPick { options, .. } => options.len(),
        ChoiceNode::Modes { options, .. } => options.len(),
        ChoiceNode::Cards { options } => options.len(),
        ChoiceNode::FusePartners { options, picked, .. } => {
            let mut n: usize = 0;
            let mut i: usize = 0;
            while i < options.len()
                invariant
                    0 <= i <= options.len(),
                    n == unpicked_count(options@, picked@, i as int),
                decreases options.len() - i,
            {
                proof {
                    lemma_unpicked_bound(options@, picked@, i as int);
                }
                if !listed_u8(picked, options[i]) {
                    n = n + 1;
                }
                i = i + 1;
            }
            n
        },
    }
}

/// What `choice_option_len` gives.
pub open spec fn spec_choice_option_len(s: State) -> nat {
    match s.phase {
        Phase::Choice { node, .. } => spec_choice_option_count(node),
        _ => 0,
    }
}

/// Number of options on the current choice node (0 if not in Choice).
pub fn choice_option_len(state: &State) -> (r: usize)
    ensures
        r == spec_choice_option_len(*state),
{
    match &state.phase {
        Phase::Choice { node, .. } => choice_option_count(node),
        _ => 0,
    }
}

/// Some binding refers to the instance by its id (field, hand or deck).
pub open spec fn spec_is_bound(s: State, c: CardInstance) -> bool {
    exists|i: int, j: int|
        0 <= i < s.bindings@.len() && 0 <= j < s.bindings@[i].1@.len() && ref_names_id(
            #[trigger] s.bindings@[i].1@[j],
            c.id,
        )
}

/// A binding that names the instance `id`.
pub open spec fn ref_names_id(r: BoundRef, id: u32) -> bool {
    match r {
        BoundRef::Field { id: x, .. } | BoundRef::Hand { id: x, .. } | BoundRef::Deck { id: x, .. } => x == id,
        _ => false,
    }
}

/// Whether some binding of the resolving effect holds this instance.
#[verifier::loop_isolation(false)]
pub fn is_bound(state: &State, c: &CardInstance) -> (r: bool)
    ensures
        r == spec_is_bound(*state, *c),
{
    let b = &state.bindings;
    let mut i: usize = 0;
    while i < b.len()
        invariant
            0 <= i <= b.len(),
            forall|x: int, y: int|
                0 <= x < i && 0 <= y < b@[x].1@.len() ==> !ref_names_id(#[trigger] b@[x].1@[y], c.id),
        decreases b.len() - i,
    {
        let refs = &b[i].1;
        let mut j: usize = 0;
        while j < refs.len()
            invariant
                0 <= i < b.len(),
                refs@ == b@[i as int].1@,
                0 <= j <= refs.len(),
                forall|y: int| 0 <= y < j ==> !ref_names_id(#[trigger] refs@[y], c.id),
            decreases refs.len() - j,
        {
            let hit = match refs[j] {
                BoundRef::Field { id, .. } | BoundRef::Hand { id, .. } | BoundRef::Deck { id, .. } => id == c.id,
                _ => false,
            };
            if hit {
                assert(ref_names_id(b@[i as int].1@[j as int], c.id));
                return true;
            }
            j = j + 1;
        }
        i = i + 1;
    }
    false
}

} // verus!
