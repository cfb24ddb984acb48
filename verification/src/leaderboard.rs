//! The race standings served to observers: players ordered by finish
//! time ascending, ties broken by name, unfinished players after all
//! finished ones.

use vstd::prelude::*;
use crate::game_state::{GameState, GameStateModel, finish_time_of};

verus! {

/// One line of the standings: a player and their recorded finish time,
/// if any.
pub struct LeaderboardEntry {
    pub player_id: u128,
    pub name: String,
    pub finish_time_ms: Option<u64>,
}

/// Mathematical model of a `LeaderboardEntry`.
#[verifier::ext_equal]
pub struct LeaderboardEntryModel {
    pub player_id: u128,
    pub name: Seq<char>,
    pub finish_time_ms: Option<u64>,
}

impl View for LeaderboardEntry {
    type V = LeaderboardEntryModel;

    open spec fn view(&self) -> LeaderboardEntryModel {
        LeaderboardEntryModel {
            player_id: self.player_id,
            name: self.name@,
            finish_time_ms: self.finish_time_ms,
        }
    }
}

/// The models of a standings list, in order.
pub open spec fn entry_models(entries: Seq<LeaderboardEntry>) -> Seq<LeaderboardEntryModel> {
    entries.map_values(|e: LeaderboardEntry| e@)
}

/// Lexicographic order on character sequences, by code point; a prefix
/// comes before its extensions. For names this is the order Rust's own
/// string comparison uses.
pub open spec fn chars_le(a: Seq<char>, b: Seq<char>) -> bool
    decreases a.len(),
{
    if a.len() == 0 {
        true
    } else if b.len() == 0 {
        false
    } else if a[0] as u32 == b[0] as u32 {
        chars_le(a.skip(1), b.skip(1))
    } else {
        (a[0] as u32) < (b[0] as u32)
    }
}

/// The rank a finish time sorts by: unfinished players rank after
/// every finished one.
pub open spec fn time_rank(t: Option<u64>) -> int {
    match t {
        Some(v) => v as int,
        None => 0x1_0000_0000_0000_0000,
    }
}

/// The standings order: finish time ascending, then name; unfinished
/// players after all finished players.
pub open spec fn entry_le(a: LeaderboardEntryModel, b: LeaderboardEntryModel) -> bool {
    if time_rank(a.finish_time_ms) != time_rank(b.finish_time_ms) {
        time_rank(a.finish_time_ms) < time_rank(b.finish_time_ms)
    } else {
        chars_le(a.name, b.name)
    }
}

/// Any two character sequences compare one way or the other.
proof fn lemma_chars_le_total(a: Seq<char>, b: Seq<char>)
    ensures
        chars_le(a, b) || chars_le(b, a),
    decreases a.len(),
{
    if a.len() > 0 && b.len() > 0 && a[0] as u32 == b[0] as u32 {
        lemma_chars_le_total(a.skip(1), b.skip(1));
    }
}

/// The character order is transitive.
proof fn lemma_chars_le_trans(a: Seq<char>, b: Seq<char>, c: Seq<char>)
    requires
        chars_le(a, b),
        chars_le(b, c),
    ensures
        chars_le(a, c),
    decreases a.len(),
{
    if a.len() > 0 && b.len() > 0 && c.len() > 0 && a[0] as u32 == b[0] as u32 && b[0] as u32
        == c[0] as u32 {
        lemma_chars_le_trans(a.skip(1), b.skip(1), c.skip(1));
    }
}

/// Any two standings lines compare one way or the other.
proof fn lemma_entry_le_total(a: LeaderboardEntryModel, b: LeaderboardEntryModel)
    ensures
        entry_le(a, b) || entry_le(b, a),
{
    if time_rank(a.finish_time_ms) == time_rank(b.finish_time_ms) {
        lemma_chars_le_total(a.name, b.name);
    }
}

/// The standings order is transitive.
proof fn lemma_entry_le_trans(
    a: LeaderboardEntryModel,
    b: LeaderboardEntryModel,
    c: LeaderboardEntryModel,
)
    requires
        entry_le(a, b),
        entry_le(b, c),
    ensures
        entry_le(a, c),
{
    if time_rank(a.finish_time_ms) == time_rank(b.finish_time_ms) && time_rank(b.finish_time_ms)
        == time_rank(c.finish_time_ms) {
        lemma_chars_le_trans(a.name, b.name, c.name);
    }
}

/// A shared prefix does not decide the comparison: it reduces to the
/// remainders.
proof fn lemma_chars_le_skip(a: Seq<char>, b: Seq<char>, i: int)
    requires
        0 <= i <= a.len(),
        i <= b.len(),
        forall|k: int| 0 <= k < i ==> a[k] as u32 == b[k] as u32,
    ensures
        chars_le(a, b) == chars_le(a.skip(i), b.skip(i)),
    decreases i,
{
    if i > 0 {
        assert(a.len() > 0 && b.len() > 0 && a[0] as u32 == b[0] as u32);
        let a1 = a.skip(1);
        let b1 = b.skip(1);
        assert forall|k: int| 0 <= k < i - 1 implies a1[k] as u32 == b1[k] as u32 by {
            assert(a1[k] == a[k + 1] && b1[k] == b[k + 1]);
        }
        lemma_chars_le_skip(a1, b1, i - 1);
        assert(a1.skip(i - 1) =~= a.skip(i));
        assert(b1.skip(i - 1) =~= b.skip(i));
    } else {
        assert(a.skip(0) =~= a);
        assert(b.skip(0) =~= b);
    }
}

/// Compares two names in the `chars_le` order, one character at a
/// time.
fn name_le(a: &String, b: &String) -> (r: bool)
    ensures
        r == chars_le(a@, b@),
{
    let astr = a.as_str();
    let bstr = b.as_str();
    let an = astr.unicode_len();
    let bn = bstr.unicode_len();
    let mut i: usize = 0;
    while i < an && i < bn
        invariant
            an == astr@.len(),
            bn == bstr@.len(),
            astr@ == a@,
            bstr@ == b@,
            i <= an,
            i <= bn,
            forall|k: int| 0 <= k < i ==> astr@[k] as u32 == bstr@[k] as u32,
        decreases an - i,
    {
        let ca = astr.get_char(i) as u32;
        let cb = bstr.get_char(i) as u32;
        if ca != cb {
            proof {
                lemma_chars_le_skip(a@, b@, i as int);
            }
            return ca < cb;
        }
        i += 1;
    }
    proof {
        lemma_chars_le_skip(a@, b@, i as int);
    }
    an <= bn
}

} // verus!

verus! {

broadcast use vstd::seq_lib::group_to_multiset_ensures;

/// Compares two standings lines in the `entry_le` order.
fn entry_le_exec(a: &LeaderboardEntry, b: &LeaderboardEntry) -> (r: bool)
    ensures
        r == entry_le(a@, b@),
{
    match (&a.finish_time_ms, &b.finish_time_ms) {
        (Some(x), Some(y)) => {
            if *x < *y {
                true
            } else if *x > *y {
                false
            } else {
                name_le(&a.name, &b.name)
            }
        },
        (Some(_), None) => true,
        (None, Some(_)) => false,
        (None, None) => name_le(&a.name, &b.name),
    }
}

/// The standings line of player `k` of the race.
pub open spec fn standing_of(g: GameStateModel, k: int) -> LeaderboardEntryModel {
    LeaderboardEntryModel {
        player_id: g.players[k].id,
        name: g.players[k].name,
        finish_time_ms: finish_time_of(g.finish_times, g.players[k].id),
    }
}

/// The standings lines of all players of the race, in join order.
pub open spec fn standings_of(g: GameStateModel) -> Seq<LeaderboardEntryModel> {
    Seq::new(g.players.len(), |k: int| standing_of(g, k))
}

/// The list is ordered by the standings order.
pub open spec fn standings_sorted(entries: Seq<LeaderboardEntryModel>) -> bool {
    forall|i: int, j: int|
        0 <= i < j < entries.len() ==> entry_le(#[trigger] entries[i], #[trigger] entries[j])
}

/// Builds the race standings: one line per player, a permutation of
/// the players in join order, sorted by finish time ascending, ties
/// broken by name, unfinished players after all finished ones.
pub fn leaderboard(game: &GameState) -> (r: Vec<LeaderboardEntry>)
    ensures
        entry_models(r@).to_multiset() == standings_of(game@).to_multiset(),
        standings_sorted(entry_models(r@)),
        r@.len() == game@.players.len(),
{
    let ghost goal = standings_of(game@);
    let mut lines: Vec<LeaderboardEntry> = Vec::new();
    let n = game.players.len();
    let mut k: usize = 0;
    while k < n
        invariant
            n == game.players@.len(),
            k <= n,
            lines@.len() == k,
            goal == standings_of(game@),
            forall|x: int| 0 <= x < k ==> (#[trigger] lines@[x])@ == standing_of(game@, x),
        decreases n - k,
    {
        let p = &game.players[k];
        let t = game.lookup_finish_time(p.id);
        proof {
            assert(game@.players[k as int] == crate::player::player_models(game.players@)[
                k as int]);
        }
        lines.push(LeaderboardEntry { player_id: p.id, name: p.name.clone(), finish_time_ms: t });
        k += 1;
    }
    proof {
        assert(entry_models(lines@) =~= goal);
    }
    let mut rest = lines;
    let mut out: Vec<LeaderboardEntry> = Vec::new();
    let ghost total = goal.len();
    while rest.len() > 0
        invariant
            goal == standings_of(game@),
            total == goal.len(),
            out@.len() + rest@.len() == total,
            standings_sorted(entry_models(out@)),
            forall|x: int, y: int|
                0 <= x < out@.len() && 0 <= y < rest@.len() ==> entry_le(
                    (#[trigger] out@[x])@,
                    (#[trigger] rest@[y])@,
                ),
            entry_models(out@).to_multiset().add(entry_models(rest@).to_multiset())
                =~= goal.to_multiset(),
        decreases rest@.len(),
    {
        let rn = rest.len();
        let mut m: usize = 0;
        let mut j: usize = 1;
        proof {
            lemma_entry_le_total(rest@[0]@, rest@[0]@);
        }
        while j < rn
            invariant
                rn == rest@.len(),
                m < rn,
                1 <= j <= rn,
                m < j,
                forall|x: int|
                    0 <= x < j ==> entry_le((#[trigger] rest@[m as int])@, rest@[x]@),
            decreases rn - j,
        {
            if entry_le_exec(&rest[j], &rest[m]) {
                proof {
                    assert forall|x: int| 0 <= x < j + 1 implies entry_le(
                        (#[trigger] rest@[j as int])@,
                        rest@[x]@,
                    ) by {
                        if x < j {
                            lemma_entry_le_trans(rest@[j as int]@, rest@[m as int]@, rest@[x]@);
                        } else {
                            lemma_entry_le_total(rest@[j as int]@, rest@[j as int]@);
                        }
                    }
                }
                m = j;
            } else {
                proof {
                    lemma_entry_le_total(rest@[m as int]@, rest@[j as int]@);
                }
            }
            j += 1;
        }
        let ghost mo = entry_models(out@);
        let ghost mr = entry_models(rest@);
        let e = rest.remove(m);
        out.push(e);
        proof {
            let em = e@;
            assert(mr[m as int] == em);
            assert(entry_models(out@) =~= mo.push(em));
            assert(entry_models(rest@) =~= mr.remove(m as int));
            assert(mo.push(em).to_multiset() =~= mo.to_multiset().insert(em));
            assert(mr.remove(m as int).to_multiset() =~= mr.to_multiset().remove(em));
            assert(mr.contains(em));
            assert(mr.to_multiset().count(em) > 0);
            assert(entry_models(out@).to_multiset().add(entry_models(rest@).to_multiset())
                =~= goal.to_multiset());
            // the chosen line is the least of the rest, so order is kept
            assert forall|x: int, y: int|
                0 <= x < out@.len() && 0 <= y < rest@.len() implies entry_le(
                (#[trigger] out@[x])@,
                (#[trigger] rest@[y])@,
            ) by {
                let ym = if y < m {
                    y
                } else {
                    y + 1
                };
                assert(rest@[y]@ == mr[ym]);
                if x < out@.len() - 1 {
                    lemma_entry_le_trans(out@[x]@, em, mr[ym]);
                } else {
                    assert(out@[x]@ == em);
                }
            }
            assert forall|i: int, j2: int|
                0 <= i < j2 < out@.len() implies entry_le(
                #[trigger] entry_models(out@)[i],
                #[trigger] entry_models(out@)[j2],
            ) by {
                if j2 < out@.len() - 1 {
                    assert(entry_le(mo[i], mo[j2]));
                } else {
                    assert(entry_models(out@)[j2] == em);
                }
            }
        }
    }
    proof {
        assert(entry_models(rest@) =~= Seq::<LeaderboardEntryModel>::empty());
        assert(entry_models(out@).to_multiset().add(Seq::<
            LeaderboardEntryModel,
        >::empty().to_multiset()) =~= entry_models(out@).to_multiset());
    }
    out
}

} // verus!
