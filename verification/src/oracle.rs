//! Replay outcomes, divergence reports and the allowlist of known
//! divergences.

use vstd::prelude::*;
use crate::card::{card_name, digit_char, digit_str, digits_value, is_digit_char, spec_parse_card_id, string_views, CardId};
use crate::db::{card_pos, CardDb};

verus! {

/// Result of a completed replay.
#[derive(Debug)]
pub enum ReplayOutcome {
    Green,
    Divergence(Divergence),
}

/// First line that does not match, with enough context to classify it.
#[derive(Debug)]
pub struct Divergence {
    pub i: u32,
    pub path: String,
    pub arena: String,
    pub trace: String,
    /// The action of the diverging line, as JSON text (`null` when the
    /// action could not be written).
    pub action: String,
    /// `Name (id)` for the hand/field slot the path points at, if any.
    pub cards: Vec<String>,
}

/// One allowlist row of known divergences.
#[derive(Debug, Clone)]
pub struct KnownDivergence {
    pub trace: String,
    pub i: u32,
    pub path: String,
    pub class: DivergenceClass,
    pub reason: String,
    pub since: String,
}

/// Why a divergence is known.
#[derive(Debug, Clone, Copy, PartialEq, Eq, Structural)]
pub enum DivergenceClass {
    OldData,
    OldEmitter,
    Engine,
    Convention,
    OldRule,
}

impl KnownDivergence {
    /// The row names exactly this trace, line and path.
    pub fn matches(&self, trace: &str, i: u32, path: &str) -> (r: bool)
        ensures
            r == (self.trace@ == trace@ && self.i == i && self.path@ == path@),
    {
        let t = String::from_str(trace);
        let p = String::from_str(path);
        self.trace == t && self.i == i && self.path == p
    }
}

/// `p` is a prefix of `s`.
pub open spec fn is_prefix(p: Seq<char>, s: Seq<char>) -> bool {
    p.len() <= s.len() && s.subrange(0, p.len() as int) == p
}

fn starts_with(s: &str, p: &str) -> (r: bool)
    ensures
        r == is_prefix(p@, s@),
{
    let n = p.unicode_len();
    let m = s.unicode_len();
    if n > m {
        return false;
    }
    let mut i: usize = 0;
    while i < n
        invariant
            n == p@.len(),
            m == s@.len(),
            n <= m,
            0 <= i <= n,
            forall|j: int| 0 <= j < i ==> s@[j] == p@[j],
        decreases n - i,
    {
        if s.get_char(i) != p.get_char(i) {
            assert(s@.subrange(0, n as int)[i as int] != p@[i as int]);
            return false;
        }
        i = i + 1;
    }
    assert(s@.subrange(0, n as int) =~= p@);
    true
}

/// Seat a snapshot path points into: `"a"`, `"b"`, or `"-"`.
pub open spec fn spec_side_of_path(path: Seq<char>) -> Seq<char> {
    if is_prefix("players.a."@, path) {
        "a"@
    } else if is_prefix("players.b."@, path) {
        "b"@
    } else {
        "-"@
    }
}

fn side_of_path(path: &str) -> (r: &'static str)
    ensures
        r@ == spec_side_of_path(path@),
{
    if starts_with(path, "players.a.") {
        "a"
    } else if starts_with(path, "players.b.") {
        "b"
    } else {
        "-"
    }
}

impl Divergence {
    /// Seat the divergence path points into.
    pub fn side(&self) -> (r: &'static str)
        ensures
            r@ == spec_side_of_path(self.path@),
    {
        side_of_path(self.path.as_str())
    }
}

/// Position of the first catalog fact keyed `key` from `k` on; -1 if none.
pub open spec fn catalog_pos(cat: Seq<(String, crate::card::CatalogRecord)>, key: Seq<char>, k: int) -> int
    decreases cat.len() - k,
{
    if k < 0 || k >= cat.len() {
        -1
    } else if cat[k].0@ == key {
        k
    } else {
        catalog_pos(cat, key, k + 1)
    }
}

/// `name (id)`.
pub open spec fn labelled(name: Seq<char>, id: Seq<char>) -> Seq<char> {
    name + " ("@ + id + ")"@
}

/// How a card id reads in a report: the authored card's name, else the
/// catalog's name, with the id in brackets; the bare id when neither
/// knows it.
pub open spec fn spec_card_label(db: CardDb, id: Seq<char>) -> Seq<char> {
    let parsed = spec_parse_card_id(id);
    let k = if parsed is Some {
        card_pos(db.cards@, parsed->0, 0)
    } else {
        -1
    };
    let j = catalog_pos(db.catalog@, id, 0);
    if k >= 0 {
        labelled(card_name(db.cards@[k])@, id)
    } else if j >= 0 {
        labelled(db.catalog@[j].1.name@, id)
    } else {
        id
    }
}

fn label(name: &str, id: &str) -> (r: String)
    ensures
        r@ == labelled(name@, id@),
{
    let mut out = String::from_str(name);
    let open = String::from_str(" (");
    let close = String::from_str(")");
    proof {
        reveal_strlit(" (");
        reveal_strlit(")");
    }
    out.append(open.as_str());
    out.append(id);
    out.append(close.as_str());
    out
}

/// The report label of a card id (see `spec_card_label`).
pub fn card_label(db: &CardDb, id: &str) -> (r: String)
    ensures
        r@ == spec_card_label(*db, id@),
{
    if let Some(cid) = CardId::parse(id) {
        if let Ok(card) = db.card(cid) {
            return label(card.name(), id);
        }
    }
    let key = String::from_str(id);
    let mut i: usize = 0;
    while i < db.catalog.len()
        invariant
            key@ == id@,
            0 <= i <= db.catalog.len(),
            catalog_pos(db.catalog@, id@, 0) == catalog_pos(db.catalog@, id@, i as int),
            spec_parse_card_id(id@) is Some ==> card_pos(db.cards@, spec_parse_card_id(id@)->0, 0) < 0,
        decreases db.catalog.len() - i,
    {
        if db.catalog[i].0 == key {
            return label(db.catalog[i].1.name.as_str(), id);
        }
        i = i + 1;
    }
    String::from_str(id)
}

/// Decimal digits of `n`, without leading zeros.
pub open spec fn dec(n: nat) -> Seq<char>
    decreases n,
{
    if n < 10 {
        seq![digit_char(n)]
    } else {
        dec(n / 10).push(digit_char(n % 10))
    }
}

/// The texts of `v` joined by `sep`.
pub open spec fn joined(v: Seq<Seq<char>>, sep: Seq<char>) -> Seq<char>
    decreases v.len(),
{
    if v.len() == 0 {
        Seq::empty()
    } else if v.len() == 1 {
        v[0]
    } else {
        joined(v.drop_last(), sep) + sep + v.last()
    }
}

pub(crate) fn dec_text(n: u32) -> (r: String)
    ensures
        r@ == dec(n as nat),
    decreases n,
{
    if n < 10 {
        String::from_str(digit_str(n))
    } else {
        let mut s = dec_text(n / 10);
        s.append(digit_str(n % 10));
        s
    }
}

fn join_texts(v: &Vec<String>, sep: &str) -> (r: String)
    ensures
        r@ == joined(string_views(v@), sep@),
{
    proof {
        reveal(string_views);
    }
    let mut out = String::new();
    let mut i: usize = 0;
    while i < v.len()
        invariant
            0 <= i <= v.len(),
            out@ == joined(string_views(v@.subrange(0, i as int)), sep@),
        decreases v.len() - i,
    {
        proof {
            reveal(string_views);
        }
        let ghost pre = string_views(v@.subrange(0, i as int));
        let ghost nxt = string_views(v@.subrange(0, i as int + 1));
        assert(nxt.drop_last() =~= pre);
        assert(nxt.last() == v@[i as int]@);
        if i > 0 {
            out.append(sep);
        } else {
            assert(pre.len() == 0);
        }
        out.append(v[i].as_str());
        i = i + 1;
    }
    assert(v@.subrange(0, v.len() as int) =~= v@);
    out
}

/// The one-line report of a divergence: trace, line, path, both values,
/// the action's JSON text and the cards at the path.
pub open spec fn report_text(d: Divergence, trace: Seq<char>) -> Seq<char> {
    trace + " i="@ + dec(d.i as nat) + " "@ + d.path@ + " arena="@ + d.arena@ + " trace="@ + d.trace@
        + " action="@ + d.action@ + " cards="@ + joined(string_views(d.cards@), ", "@)
}

impl Divergence {
    /// The line the replay check prints for this divergence.
    pub fn report_line(&self, trace: &str) -> (r: String)
        ensures
            r@ == report_text(*self, trace@),
    {
        let mut out = String::from_str(trace);
        out.append(" i=");
        out.append(dec_text(self.i).as_str());
        out.append(" ");
        out.append(self.path.as_str());
        out.append(" arena=");
        out.append(self.arena.as_str());
        out.append(" trace=");
        out.append(self.trace.as_str());
        out.append(" action=");
        out.append(self.action.as_str());
        out.append(" cards=");
        out.append(join_texts(&self.cards, ", ").as_str());
        out
    }
}

/// Position of the first `c` in `s` from `k` on; -1 if none.
pub open spec fn char_pos(s: Seq<char>, c: char, k: int) -> int
    decreases s.len() - k,
{
    if k < 0 || k >= s.len() {
        -1
    } else if s[k] == c {
        k
    } else {
        char_pos(s, c, k + 1)
    }
}

/// The digits of an index text, after an optional `+`.
pub open spec fn index_digits(s: Seq<char>) -> Seq<char> {
    if s.len() > 0 && s[0] == '+' {
        s.subrange(1, s.len() as int)
    } else {
        s
    }
}

/// An index text: an optional `+` and at least one decimal digit, of a
/// value that fits `usize`.
pub open spec fn parse_index(s: Seq<char>) -> Option<nat> {
    let d = index_digits(s);
    if d.len() > 0 && (forall|i: int| 0 <= i < d.len() ==> is_digit_char(#[trigger] d[i])) && digits_value(d)
        <= usize::MAX {
        Some(digits_value(d))
    } else {
        None
    }
}

/// `p` occurs in `s` at position `k`.
pub open spec fn occurs_at(s: Seq<char>, k: int, p: Seq<char>) -> bool {
    0 <= k && k + p.len() <= s.len() && s.subrange(k, k + p.len()) == p
}

/// The seat, zone and position a snapshot path names a hand or field card
/// with: `players.`, `a` or `b`, `.`, then `field[` or `hand[`, an index
/// and `]`.
pub open spec fn path_slot(path: Seq<char>) -> Option<(Seq<char>, Seq<char>, nat)> {
    let side: Option<Seq<char>> = if is_prefix("players.a."@, path) {
        Some("a"@)
    } else if is_prefix("players.b."@, path) {
        Some("b"@)
    } else {
        None
    };
    let zone: Option<(Seq<char>, int)> = if occurs_at(path, 10, "field["@) {
        Some(("field"@, 16))
    } else if occurs_at(path, 10, "hand["@) {
        Some(("hand"@, 15))
    } else {
        None
    };
    match (side, zone) {
        (Some(sd), Some((z, start))) => {
            let e = char_pos(path, ']', start);
            if e < 0 {
                None
            } else {
                match parse_index(path.subrange(start, e)) {
                    Some(i) => Some((sd, z, i)),
                    None => None,
                }
            }
        },
        _ => None,
    }
}

fn occurs(s: &str, k: usize, p: &str) -> (r: bool)
    ensures
        r == occurs_at(s@, k as int, p@),
{
    let n = s.unicode_len();
    let m = p.unicode_len();
    if k > n || m > n - k {
        return false;
    }
    let mut i: usize = 0;
    while i < m
        invariant
            n == s@.len(),
            m == p@.len(),
            k + m <= n,
            0 <= i <= m,
            forall|j: int| 0 <= j < i ==> s@[k + j] == p@[j],
        decreases m - i,
    {
        if s.get_char(k + i) != p.get_char(i) {
            assert(s@.subrange(k as int, k + m)[i as int] != p@[i as int]);
            return false;
        }
        i = i + 1;
    }
    assert(s@.subrange(k as int, k + m) =~= p@);
    true
}

proof fn lemma_digits_value_grows(s: Seq<char>, k: int)
    requires
        0 <= k <= s.len(),
    ensures
        digits_value(s.subrange(0, k)) <= digits_value(s),
    decreases s.len() - k,
{
    if k < s.len() {
        lemma_digits_value_grows(s, k + 1);
        let t = s.subrange(0, k + 1);
        assert(t.drop_last() =~= s.subrange(0, k));
    } else {
        assert(s.subrange(0, k) =~= s);
    }
}

fn parse_index_at(s: &str, from: usize, to: usize) -> (r: Option<usize>)
    requires
        from <= to <= s@.len(),
    ensures
        match r {
            Some(i) => parse_index(s@.subrange(from as int, to as int)) == Some(i as nat),
            None => parse_index(s@.subrange(from as int, to as int)) is None,
        },
{
    let ghost text = s@.subrange(from as int, to as int);
    let mut k = from;
    if k < to && s.get_char(k) == '+' {
        k = k + 1;
    }
    let ghost d = s@.subrange(k as int, to as int);
    assert(index_digits(text) =~= d);
    if k == to {
        return None;
    }
    let mut acc: usize = 0;
    let mut j = k;
    while j < to
        invariant
            k <= j <= to <= s@.len(),
            from <= k,
            d == s@.subrange(k as int, to as int),
            index_digits(s@.subrange(from as int, to as int)) == d,
            forall|q: int| k <= q < j ==> is_digit_char(#[trigger] s@[q]),
            acc == digits_value(s@.subrange(k as int, j as int)),
        decreases to - j,
    {
        let c = s.get_char(j);
        if !('0' <= c && c <= '9') {
            assert(!is_digit_char(d[j - k]));
            return None;
        }
        let digit = (c as u32 - 48) as usize;
        let ghost nxt = s@.subrange(k as int, j + 1);
        assert(nxt.drop_last() =~= s@.subrange(k as int, j as int));
        let next = match acc.checked_mul(10) {
            Some(x) => x.checked_add(digit),
            None => None,
        };
        match next {
            Some(v) => {
                acc = v;
            },
            None => {
                proof {
                    if forall|i: int| 0 <= i < d.len() ==> is_digit_char(#[trigger] d[i]) {
                        lemma_digits_value_grows(d, j + 1 - k);
                        assert(d.subrange(0, j + 1 - k) =~= nxt);
                    }
                }
                return None;
            },
        }
        j = j + 1;
    }
    assert(s@.subrange(k as int, j as int) =~= d);
    Some(acc)
}

fn find_char(s: &str, c: char, from: usize) -> (r: Option<usize>)
    requires
        from <= s@.len(),
    ensures
        match r {
            Some(e) => char_pos(s@, c, from as int) == e as int && from <= e < s@.len(),
            None => char_pos(s@, c, from as int) < 0,
        },
{
    let n = s.unicode_len();
    let mut e = from;
    while e < n
        invariant
            n == s@.len(),
            from <= e <= n,
            char_pos(s@, c, from as int) == char_pos(s@, c, e as int),
        decreases n - e,
    {
        if s.get_char(e) == c {
            return Some(e);
        }
        e = e + 1;
    }
    None
}

/// The seat, zone and position a snapshot path names (see `path_slot`).
pub fn path_slot_of(path: &str) -> (r: Option<(&'static str, &'static str, usize)>)
    ensures
        match r {
            Some((sd, z, i)) => path_slot(path@) == Some((sd@, z@, i as nat)),
            None => path_slot(path@) is None,
        },
{
    proof {
        reveal_strlit("players.a.");
        reveal_strlit("players.b.");
        reveal_strlit("field[");
        reveal_strlit("hand[");
        reveal_strlit("a");
        reveal_strlit("b");
        reveal_strlit("field");
        reveal_strlit("hand");
    }
    let side = if starts_with(path, "players.a.") {
        "a"
    } else if starts_with(path, "players.b.") {
        "b"
    } else {
        return None;
    };
    let (zone, start): (&'static str, usize) = if occurs(path, 10, "field[") {
        ("field", 16)
    } else if occurs(path, 10, "hand[") {
        ("hand", 15)
    } else {
        return None;
    };
    let e = match find_char(path, ']', start) {
        Some(e) => e,
        None => {
            return None;
        },
    };
    match parse_index_at(path, start, e) {
        Some(i) => Some((side, zone, i)),
        None => None,
    }
}

/// A JSON value as a snapshot holds it; a number keeps its text.
#[derive(Debug)]
pub enum Json {
    Null,
    Bool(bool),
    Number(String),
    Str(String),
    Array(Vec<Json>),
    Object(Vec<(String, Json)>),
}

/// The first member named `key` among `ms`, from `k` on.
pub open spec fn member_from(ms: Seq<(String, Json)>, key: Seq<char>, k: int) -> Option<Json>
    decreases ms.len() - k,
{
    if k < 0 || k >= ms.len() {
        None
    } else if ms[k].0@ == key {
        Some(ms[k].1)
    } else {
        member_from(ms, key, k + 1)
    }
}

/// The member named `key` of an object value; none for other values.
pub open spec fn json_member(v: Json, key: Seq<char>) -> Option<Json> {
    match v {
        Json::Object(ms) => member_from(ms@, key, 0),
        _ => None,
    }
}

/// Element `i` of an array value; none for other values.
pub open spec fn json_elem(v: Json, i: int) -> Option<Json> {
    match v {
        Json::Array(xs) => if 0 <= i < xs@.len() {
            Some(xs@[i])
        } else {
            None
        },
        _ => None,
    }
}

/// The text of a string value; none for other values.
pub open spec fn json_str(v: Json) -> Option<Seq<char>> {
    match v {
        Json::Str(t) => Some(t@),
        _ => None,
    }
}

/// The `card` text of element `i` of `players.<side>.<zone>` in a snapshot.
pub open spec fn snapshot_card(state: Json, side: Seq<char>, zone: Seq<char>, i: int) -> Option<Seq<char>> {
    match json_member(state, "players"@) {
        Some(players) => match json_member(players, side) {
            Some(seat) => match json_member(seat, zone) {
                Some(cells) => match json_elem(cells, i) {
                    Some(cell) => match json_member(cell, "card"@) {
                        Some(card) => json_str(card),
                        None => None,
                    },
                    None => None,
                },
                None => None,
            },
            None => None,
        },
        None => None,
    }
}

/// The card id a snapshot holds in the hand or field slot a path names.
pub open spec fn spec_slot_card_id(path: Seq<char>, state: Json) -> Option<Seq<char>> {
    match path_slot(path) {
        Some((side, zone, i)) => snapshot_card(state, side, zone, i as int),
        None => None,
    }
}

fn member<'a>(v: &'a Json, key: &str) -> (r: Option<&'a Json>)
    ensures
        match r {
            Some(x) => json_member(*v, key@) == Some(*x),
            None => json_member(*v, key@) is None,
        },
{
    match v {
        Json::Object(ms) => {
            let k = String::from_str(key);
            let mut i: usize = 0;
            while i < ms.len()
                invariant
                    *v == Json::Object(*ms),
                    k@ == key@,
                    0 <= i <= ms.len(),
                    member_from(ms@, key@, 0) == member_from(ms@, key@, i as int),
                decreases ms.len() - i,
            {
                if ms[i].0 == k {
                    return Some(&ms[i].1);
                }
                i = i + 1;
            }
            None
        },
        _ => None,
    }
}

/// The card id a snapshot holds in the hand or field slot a path names
/// (`players.a.field[0].attack` names seat a's first field slot): the
/// `card` text of that element of `players.<side>.<zone>`; none when the
/// path names no such slot or the snapshot holds no such text.
pub fn slot_card_id(path: &str, state: &Json) -> (r: Option<String>)
    ensures
        match r {
            Some(t) => spec_slot_card_id(path@, *state) == Some(t@),
            None => spec_slot_card_id(path@, *state) is None,
        },
{
    proof {
        reveal_strlit("players");
        reveal_strlit("card");
    }
    let (side, zone, i) = match path_slot_of(path) {
        Some(t) => t,
        None => {
            return None;
        },
    };
    let players = member(state, "players")?;
    let seat = member(players, side)?;
    let cells = member(seat, zone)?;
    let cell = match cells {
        Json::Array(xs) => if i < xs.len() {
            &xs[i]
        } else {
            return None;
        },
        _ => {
            return None;
        },
    };
    match member(cell, "card")? {
        Json::Str(t) => Some(String::from_str(t.as_str())),
        _ => None,
    }
}

/// The card ids a path points at in the two snapshots: the one in `got`,
/// then the one in `want` when it is there and differs.
pub open spec fn path_card_ids(path: Seq<char>, got: Json, want: Json) -> Seq<Seq<char>> {
    let first: Seq<Seq<char>> = match spec_slot_card_id(path, got) {
        Some(x) => seq![x],
        None => Seq::empty(),
    };
    match spec_slot_card_id(path, want) {
        Some(y) => if first.contains(y) {
            first
        } else {
            first.push(y)
        },
        None => first,
    }
}

/// The labels of the cards a path points at in the two snapshots (see
/// `path_card_ids`).
pub fn cards_at_path(db: &CardDb, path: &str, got: &Json, want: &Json) -> (r: Vec<String>)
    ensures
        r@.len() == path_card_ids(path@, *got, *want).len(),
        forall|j: int|
            0 <= j < r@.len() ==> (#[trigger] r@[j])@ == spec_card_label(*db, path_card_ids(path@, *got, *want)[j]),
{
    let ghost ids = path_card_ids(path@, *got, *want);
    let mut texts: Vec<String> = Vec::new();
    if let Some(id) = slot_card_id(path, got) {
        texts.push(id);
    }
    let ghost first = string_views(texts@);
    proof {
        reveal(string_views);
        assert(first =~= match spec_slot_card_id(path@, *got) {
            Some(x) => seq![x],
            None => Seq::<Seq<char>>::empty(),
        });
    }
    if let Some(id) = slot_card_id(path, want) {
        let fresh = match texts.len() {
            0 => true,
            _ => !(texts[0] == id),
        };
        proof {
            reveal(string_views);
            assert(fresh == !first.contains(id@)) by {
                if texts@.len() > 0 {
                    assert(first[0] == texts@[0]@);
                    if first.contains(id@) {
                        let k = choose|k: int| 0 <= k < first.len() && first[k] == id@;
                        assert(k == 0);
                    }
                }
            }
        }
        if fresh {
            texts.push(id);
        }
    }
    proof {
        reveal(string_views);
        assert(string_views(texts@) =~= ids);
    }
    let mut out: Vec<String> = Vec::new();
    let mut k: usize = 0;
    while k < texts.len()
        invariant
            0 <= k <= texts.len(),
            out@.len() == k,
            string_views(texts@) == ids,
            forall|j: int| 0 <= j < k ==> (#[trigger] out@[j])@ == spec_card_label(*db, ids[j]),
        decreases texts.len() - k,
    {
        proof {
            reveal(string_views);
        }
        out.push(card_label(db, texts[k].as_str()));
        k = k + 1;
    }
    out
}

} // verus!
