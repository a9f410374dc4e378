//! Drives the live games of a server, one phase at a time: building new
//! games, ticking, handing out clicks, and removing finished games.
use vstd::prelude::*;
use crate::common::{BlockPos, WorldEffect};
use crate::custom_game::{clear_effects, CustomGame, CustomGameContainer, GameRecord};
use crate::minesweeper::BuildGameError;

verus! {

/// The games of `gs` that do not ask to be removed, in order.
pub open spec fn kept(gs: Seq<CustomGameContainer>) -> Seq<CustomGameContainer>
    decreases gs.len(),
{
    if gs.len() == 0 {
        seq![]
    } else if gs.last().despawn_view() {
        kept(gs.drop_last())
    } else {
        kept(gs.drop_last()).push(gs.last())
    }
}

/// The records that removing the finished games of `gs` stores, in order.
pub open spec fn despawn_records(gs: Seq<CustomGameContainer>) -> Seq<GameRecord>
    decreases gs.len(),
{
    if gs.len() == 0 {
        seq![]
    } else if gs.last().despawn_view() && gs.last().record_view() is Some {
        despawn_records(gs.drop_last()).push(gs.last().record_view()->0)
    } else {
        despawn_records(gs.drop_last())
    }
}

/// What removing the finished games of `gs` asks of the world: each one's
/// footprint cleared, in order.
pub open spec fn despawn_effects(gs: Seq<CustomGameContainer>) -> Seq<WorldEffect>
    decreases gs.len(),
{
    if gs.len() == 0 {
        seq![]
    } else if gs.last().despawn_view() {
        despawn_effects(gs.drop_last()) + clear_effects(gs.last().footprint_view())
    } else {
        despawn_effects(gs.drop_last())
    }
}

/// The effect lists of several games, one after another.
pub open spec fn concat_all(es: Seq<Seq<WorldEffect>>) -> Seq<WorldEffect>
    decreases es.len(),
{
    if es.len() == 0 {
        seq![]
    } else {
        concat_all(es.drop_last()) + es.last()
    }
}

/// Every game ticked once: `before[j]` became `after[j]` and asked the world
/// for its share of `e`, in order.
pub open spec fn tick_step(
    before: Seq<CustomGameContainer>,
    after: Seq<CustomGameContainer>,
    e: Seq<WorldEffect>,
) -> bool {
    &&& after.len() == before.len()
    &&& exists|es: Seq<Seq<WorldEffect>>|
        #![trigger concat_all(es)]
        es.len() == before.len() && e == concat_all(es) && forall|j: int|
            #![trigger es[j]]
            0 <= j < es.len() ==> before[j].tick_post(after[j], es[j])
}

/// A secondary click at `pos` by `player` handed to every game.
pub open spec fn right_step(
    before: Seq<CustomGameContainer>,
    after: Seq<CustomGameContainer>,
    pos: BlockPos,
    player: u64,
    e: Seq<WorldEffect>,
) -> bool {
    &&& after.len() == before.len()
    &&& exists|es: Seq<Seq<WorldEffect>>|
        #![trigger concat_all(es)]
        es.len() == before.len() && e == concat_all(es) && forall|j: int|
            #![trigger es[j]]
            0 <= j < es.len() ==> before[j].right_click_post(after[j], pos, player, es[j])
}

/// A primary click at `pos` by `player` handed to every game.
pub open spec fn left_step(
    before: Seq<CustomGameContainer>,
    after: Seq<CustomGameContainer>,
    pos: BlockPos,
    player: u64,
    e: Seq<WorldEffect>,
) -> bool {
    &&& after.len() == before.len()
    &&& exists|es: Seq<Seq<WorldEffect>>|
        #![trigger concat_all(es)]
        es.len() == before.len() && e == concat_all(es) && forall|j: int|
            #![trigger es[j]]
            0 <= j < es.len() ==> before[j].left_click_post(after[j], pos, player, es[j])
}

/// The secondary clicks handed out in order: the games go through `states`,
/// click `k` asking the world for `parts[k]`.
pub open spec fn right_chain(
    states: Seq<Seq<CustomGameContainer>>,
    parts: Seq<Seq<WorldEffect>>,
    clicks: Seq<(BlockPos, u64)>,
) -> bool {
    &&& states.len() == clicks.len() + 1
    &&& parts.len() == clicks.len()
    &&& forall|k: int|
        #![trigger parts[k]]
        0 <= k < clicks.len() ==> right_step(states[k], states[k + 1], clicks[k].0, clicks[k].1, parts[k])
}

/// The primary clicks handed out in order, as `right_chain` for secondary
/// ones.
pub open spec fn left_chain(
    states: Seq<Seq<CustomGameContainer>>,
    parts: Seq<Seq<WorldEffect>>,
    clicks: Seq<(BlockPos, u64)>,
) -> bool {
    &&& states.len() == clicks.len() + 1
    &&& parts.len() == clicks.len()
    &&& forall|k: int|
        #![trigger parts[k]]
        0 <= k < clicks.len() ==> left_step(states[k], states[k + 1], clicks[k].0, clicks[k].1, parts[k])
}

/// One round before removal: the games `before` tick, then take the
/// secondary clicks in order, then the primary clicks in order, ending as
/// `mid`; the world is asked for `e`, in that order.
pub open spec fn round(
    before: Seq<CustomGameContainer>,
    secondary: Seq<(BlockPos, u64)>,
    primary: Seq<(BlockPos, u64)>,
    mid: Seq<CustomGameContainer>,
    e: Seq<WorldEffect>,
) -> bool {
    exists|
        ticked: Seq<CustomGameContainer>,
        te: Seq<WorldEffect>,
        rs: Seq<Seq<CustomGameContainer>>,
        rp: Seq<Seq<WorldEffect>>,
        ls: Seq<Seq<CustomGameContainer>>,
        lp: Seq<Seq<WorldEffect>>,
    |
        #![trigger tick_step(before, ticked, te), right_chain(rs, rp, secondary), left_chain(ls, lp, primary)]
        {
            &&& tick_step(before, ticked, te)
            &&& right_chain(rs, rp, secondary)
            &&& rs[0] == ticked
            &&& left_chain(ls, lp, primary)
            &&& ls[0] == rs.last()
            &&& mid == ls.last()
            &&& e == te + concat_all(rp) + concat_all(lp)
        }
}

/// After the finished games are removed, none is left to remove: a second
/// round removes nothing and stores nothing, so no game is torn down twice.
pub proof fn lemma_despawn_once(gs: Seq<CustomGameContainer>)
    ensures
        forall|i: int| 0 <= i < kept(gs).len() ==> !(#[trigger] kept(gs)[i]).despawn_view(),
        kept(kept(gs)) == kept(gs),
        despawn_records(kept(gs)) == Seq::<GameRecord>::empty(),
        despawn_effects(kept(gs)) == Seq::<WorldEffect>::empty(),
    decreases gs.len(),
{
    if gs.len() > 0 {
        lemma_despawn_once(gs.drop_last());
        let k = kept(gs.drop_last());
        if !gs.last().despawn_view() {
            let k2 = k.push(gs.last());
            assert(k2.drop_last() =~= k);
            assert forall|i: int| 0 <= i < k2.len() implies !(#[trigger] k2[i]).despawn_view() by {
                if i < k.len() {
                    assert(k2[i] == k[i]);
                }
            }
        }
    }
}

/// The live games of a server.
pub struct GameCoordinator {
    games: Vec<CustomGameContainer>,
}

impl View for GameCoordinator {
    type V = Seq<CustomGameContainer>;

    closed spec fn view(&self) -> Seq<CustomGameContainer> {
        self.games@
    }
}

impl GameCoordinator {
    pub open spec fn wf(&self) -> bool {
        forall|i: int| 0 <= i < self@.len() ==> (#[trigger] self@[i]).inv()
    }

    pub fn new() -> (r: GameCoordinator)
        ensures
            r@.len() == 0,
            r.wf(),
    {
        GameCoordinator { games: Vec::new() }
    }

    /// Adds a game; it is built in a later phase.
    pub fn spawn(&mut self, game: CustomGameContainer)
        requires
            old(self).wf(),
            game.inv(),
        ensures
            final(self).wf(),
            final(self)@ == old(self)@.push(game),
    {
        self.games.push(game);
    }

    pub fn len(&self) -> (r: usize)
        ensures
            r == self@.len(),
    {
        self.games.len()
    }

    pub fn game(&self, i: usize) -> (r: &CustomGameContainer)
        requires
            i < self@.len(),
        ensures
            *r == self@[i as int],
    {
        &self.games[i]
    }

    /// Builds game `i` into the world (`occupied` tells, for each coordinate
    /// of its footprint, whether a block is there). A game that cannot be
    /// built is removed.
    pub fn build_game(&mut self, i: usize, occupied: &Vec<bool>) -> (r: Result<
        Vec<WorldEffect>,
        BuildGameError,
    >)
        requires
            old(self).wf(),
            i < old(self)@.len(),
            occupied.len() == old(self)@[i as int].footprint_view().len(),
        ensures
            final(self).wf(),
            r is Err <==> exists|j: int| 0 <= j < occupied.len() && occupied@[j],
            r is Err ==> final(self)@ == old(self)@.remove(i as int),
            r matches Ok(e) ==> e@ == old(self)@[i as int].build_view() && old(self)@[i as int].build_post(
                final(self)@[i as int],
                true,
            ),
            r is Ok ==> final(self)@.len() == old(self)@.len() && final(self)@[i as int].built_view()
                && final(self)@[i as int].footprint_view() == old(self)@[i as int].footprint_view()
                && forall|j: int|
                0 <= j < final(self)@.len() && j != i ==> final(self)@[j] == old(self)@[j],
    {
        let mut g = self.games.remove(i);
        let r = g.build_blocks(occupied);
        if r.is_ok() {
            self.games.insert(i, g);
        }
        proof {
            assert forall|j: int| 0 <= j < self@.len() implies (#[trigger] self@[j]).inv() by {
                if r.is_ok() && j == i {
                } else if j < i {
                    assert(self@[j] == old(self)@[j]);
                } else if r.is_ok() {
                    assert(self@[j] == old(self)@[j]);
                } else {
                    assert(self@[j] == old(self)@[j + 1]);
                }
            }
        }
        r
    }

    /// Ticks every game; returns what the games ask of the world, in order.
    pub fn tick_games(&mut self) -> (effects: Vec<WorldEffect>)
        requires
            old(self).wf(),
        ensures
            final(self).wf(),
            final(self)@.len() == old(self)@.len(),
            tick_step(old(self)@, final(self)@, effects@),
            forall|j: int|
                0 <= j < final(self)@.len() ==> (#[trigger] final(self)@[j]).footprint_view() == old(
                    self,
                )@[j].footprint_view(),
    {
        let mut effects: Vec<WorldEffect> = Vec::new();
        let ghost mut es: Seq<Seq<WorldEffect>> = seq![];
        let n = self.games.len();
        let mut i: usize = 0;
        while i < n
            invariant
                i <= n,
                n == self@.len() == old(self)@.len(),
                self.wf(),
                forall|j: int|
                    0 <= j < n ==> (#[trigger] self@[j]).footprint_view() == old(self)@[j].footprint_view(),
                es.len() == i,
                effects@ == concat_all(es),
                forall|j: int| #![trigger es[j]] 0 <= j < i ==> old(self)@[j].tick_post(self@[j], es[j]),
                forall|j: int| i <= j < n ==> self@[j] == old(self)@[j],
            decreases n - i,
        {
            let ghost before = self@;
            let mut g = self.games.remove(i);
            let mut more = g.tick();
            self.games.insert(i, g);
            let ghost part = more@;
            effects.append(&mut more);
            proof {
                assert forall|j: int| 0 <= j < n && j != i implies self@[j] == before[j] by {}
                let es2 = es.push(part);
                assert(es2.drop_last() =~= es);
                assert(es2[i as int] == part);
                assert forall|j: int| #![trigger es2[j]] 0 <= j < i + 1 implies old(self)@[j].tick_post(self@[j], es2[j]) by {
                    if j < i {
                        assert(es2[j] == es[j]);
                    }
                }
                es = es2;
            }
            i = i + 1;
        }
        proof {
            assert(forall|j: int| #![trigger es[j]] 0 <= j < es.len() ==> old(self)@[j].tick_post(self@[j], es[j]));
        }
        effects
    }

    /// Hands a primary click to every game; each reacts only to its own
    /// coordinates. Returns what the games ask of the world, in order.
    pub fn click_left(&mut self, pos: BlockPos, player: u64) -> (effects: Vec<WorldEffect>)
        requires
            old(self).wf(),
        ensures
            final(self).wf(),
            final(self)@.len() == old(self)@.len(),
            left_step(old(self)@, final(self)@, pos, player, effects@),
            forall|j: int|
                0 <= j < final(self)@.len() ==> (#[trigger] final(self)@[j]).footprint_view() == old(
                    self,
                )@[j].footprint_view(),
    {
        let mut effects: Vec<WorldEffect> = Vec::new();
        let ghost mut es: Seq<Seq<WorldEffect>> = seq![];
        let n = self.games.len();
        let mut i: usize = 0;
        while i < n
            invariant
                i <= n,
                n == self@.len() == old(self)@.len(),
                self.wf(),
                forall|j: int|
                    0 <= j < n ==> (#[trigger] self@[j]).footprint_view() == old(self)@[j].footprint_view(),
                es.len() == i,
                effects@ == concat_all(es),
                forall|j: int| #![trigger es[j]] 0 <= j < i ==> old(self)@[j].left_click_post(self@[j], pos, player, es[j]),
                forall|j: int| i <= j < n ==> self@[j] == old(self)@[j],
            decreases n - i,
        {
            let ghost before = self@;
            let mut g = self.games.remove(i);
            let mut more = g.click_left(pos, player);
            self.games.insert(i, g);
            let ghost part = more@;
            effects.append(&mut more);
            proof {
                assert forall|j: int| 0 <= j < n && j != i implies self@[j] == before[j] by {}
                let es2 = es.push(part);
                assert(es2.drop_last() =~= es);
                assert(es2[i as int] == part);
                assert forall|j: int| #![trigger es2[j]] 0 <= j < i + 1 implies old(self)@[j].left_click_post(self@[j], pos, player, es2[j]) by {
                    if j < i {
                        assert(es2[j] == es[j]);
                    }
                }
                es = es2;
            }
            i = i + 1;
        }
        proof {
            assert(forall|j: int| #![trigger es[j]] 0 <= j < es.len() ==> old(self)@[j].left_click_post(self@[j], pos, player, es[j]));
        }
        effects
    }

    /// Hands a secondary click to every game; each reacts only to its own
    /// coordinates. Returns what the games ask of the world, in order.
    pub fn click_right(&mut self, pos: BlockPos, player: u64) -> (effects: Vec<WorldEffect>)
        requires
            old(self).wf(),
        ensures
            final(self).wf(),
            final(self)@.len() == old(self)@.len(),
            right_step(old(self)@, final(self)@, pos, player, effects@),
            forall|j: int|
                0 <= j < final(self)@.len() ==> (#[trigger] final(self)@[j]).footprint_view() == old(
                    self,
                )@[j].footprint_view(),
    {
        let mut effects: Vec<WorldEffect> = Vec::new();
        let ghost mut es: Seq<Seq<WorldEffect>> = seq![];
        let n = self.games.len();
        let mut i: usize = 0;
        while i < n
            invariant
                i <= n,
                n == self@.len() == old(self)@.len(),
                self.wf(),
                forall|j: int|
                    0 <= j < n ==> (#[trigger] self@[j]).footprint_view() == old(self)@[j].footprint_view(),
                es.len() == i,
                effects@ == concat_all(es),
                forall|j: int| #![trigger es[j]] 0 <= j < i ==> old(self)@[j].right_click_post(self@[j], pos, player, es[j]),
                forall|j: int| i <= j < n ==> self@[j] == old(self)@[j],
            decreases n - i,
        {
            let ghost before = self@;
            let mut g = self.games.remove(i);
            let mut more = g.click_right(pos, player);
            self.games.insert(i, g);
            let ghost part = more@;
            effects.append(&mut more);
            proof {
                assert forall|j: int| 0 <= j < n && j != i implies self@[j] == before[j] by {}
                let es2 = es.push(part);
                assert(es2.drop_last() =~= es);
                assert(es2[i as int] == part);
                assert forall|j: int| #![trigger es2[j]] 0 <= j < i + 1 implies old(self)@[j].right_click_post(self@[j], pos, player, es2[j]) by {
                    if j < i {
                        assert(es2[j] == es[j]);
                    }
                }
                es = es2;
            }
            i = i + 1;
        }
        proof {
            assert(forall|j: int| #![trigger es[j]] 0 <= j < es.len() ==> old(self)@[j].right_click_post(self@[j], pos, player, es[j]));
        }
        effects
    }

    /// Removes every game that asks for it, tearing each down exactly once:
    /// its footprint is cleared and, if it was won, its record is handed
    /// over to be stored.
    pub fn despawn_games(&mut self) -> (r: (Vec<WorldEffect>, Vec<GameRecord>))
        requires
            old(self).wf(),
        ensures
            final(self).wf(),
            final(self)@ == kept(old(self)@),
            r.0@ == despawn_effects(old(self)@),
            r.1@ == despawn_records(old(self)@),
    {
        let ghost gs = self@;
        let mut effects: Vec<WorldEffect> = Vec::new();
        let mut records: Vec<GameRecord> = Vec::new();
        let mut i: usize = 0;
        let ghost mut j: int = 0;
        while i < self.games.len()
            invariant
                0 <= j <= gs.len(),
                self@ == kept(gs.take(j)) + gs.subrange(j, gs.len() as int),
                i == kept(gs.take(j)).len(),
                forall|k: int| 0 <= k < gs.len() ==> (#[trigger] gs[k]).inv(),
                effects@ == despawn_effects(gs.take(j)),
                records@ == despawn_records(gs.take(j)),
            decreases self.games.len() - i,
        {
            proof {
                assert(self@[i as int] == gs[j]);
                assert(gs.take(j + 1).drop_last() =~= gs.take(j));
                assert(gs.take(j + 1).last() == gs[j]);
            }
            if self.games[i].should_despawn() {
                let g = self.games.remove(i);
                let (mut cleared, record) = g.reset();
                effects.append(&mut cleared);
                match record {
                    Some(rec) => records.push(rec),
                    None => {},
                }
                proof {
                    assert(self@ =~= kept(gs.take(j + 1)) + gs.subrange(j + 1, gs.len() as int));
                }
            } else {
                proof {
                    assert(kept(gs.take(j + 1)) == kept(gs.take(j)).push(gs[j]));
                    assert(self@ =~= kept(gs.take(j + 1)) + gs.subrange(j + 1, gs.len() as int));
                }
                i = i + 1;
            }
            proof {
                j = j + 1;
            }
        }
        proof {
            assert(j == gs.len()) by {
                if j < gs.len() {
                    assert(self@.len() == i + (gs.len() - j));
                }
            }
            assert(gs.take(j) =~= gs);
            assert(self@ =~= kept(gs));
            lemma_kept_inv(gs);
        }
        (effects, records)
    }

    /// One server tick after the new games are built, in a fixed order:
    /// every game ticks, then the secondary clicks and then the primary
    /// clicks of this tick are handed out, each in turn, and finally the
    /// finished games are torn down and removed. Returns what the world is
    /// asked to do, in order, and the records to store.
    pub fn run_tick(
        &mut self,
        secondary: &Vec<(BlockPos, u64)>,
        primary: &Vec<(BlockPos, u64)>,
    ) -> (r: (Vec<WorldEffect>, Vec<GameRecord>))
        requires
            old(self).wf(),
        ensures
            final(self).wf(),
            exists|mid: Seq<CustomGameContainer>, e: Seq<WorldEffect>|
                #![trigger round(old(self)@, secondary@, primary@, mid, e)]
                round(old(self)@, secondary@, primary@, mid, e) && final(self)@ == kept(mid) && r.1@
                    == despawn_records(mid) && r.0@ == e + despawn_effects(mid),
            forall|j: int| 0 <= j < final(self)@.len() ==> !(#[trigger] final(self)@[j]).despawn_view(),
    {
        let mut effects = self.tick_games();
        let ghost ticked = self@;
        let ghost te = effects@;
        let ghost mut rs: Seq<Seq<CustomGameContainer>> = seq![self@];
        let ghost mut rp: Seq<Seq<WorldEffect>> = seq![];
        let mut k: usize = 0;
        while k < secondary.len()
            invariant
                self.wf(),
                k <= secondary.len(),
                rs.len() == k + 1,
                rp.len() == k,
                rs[0] == ticked,
                rs.last() == self@,
                forall|q: int|
                    #![trigger rp[q]]
                    0 <= q < k ==> right_step(rs[q], rs[q + 1], secondary@[q].0, secondary@[q].1, rp[q]),
                effects@ == te + concat_all(rp),
            decreases secondary.len() - k,
        {
            let (pos, player) = secondary[k];
            let mut more = self.click_right(pos, player);
            let ghost part = more@;
            effects.append(&mut more);
            proof {
                let rs2 = rs.push(self@);
                let rp2 = rp.push(part);
                assert(rp2.drop_last() =~= rp);
                assert forall|q: int|
                    #![trigger rp2[q]]
                    0 <= q < k + 1 implies right_step(rs2[q], rs2[q + 1], secondary@[q].0, secondary@[q].1, rp2[q]) by {
                    assert(rs2[q] == rs[q]);
                    if q < k {
                        assert(rs2[q + 1] == rs[q + 1]);
                        assert(rp2[q] == rp[q]);
                    }
                }
                rs = rs2;
                rp = rp2;
            }
            k = k + 1;
        }
        proof {
            assert(right_chain(rs, rp, secondary@));
        }
        let ghost after_right = effects@;
        let ghost mut ls: Seq<Seq<CustomGameContainer>> = seq![self@];
        let ghost mut lp: Seq<Seq<WorldEffect>> = seq![];
        let mut k: usize = 0;
        while k < primary.len()
            invariant
                self.wf(),
                k <= primary.len(),
                ls.len() == k + 1,
                lp.len() == k,
                ls[0] == rs.last(),
                ls.last() == self@,
                forall|q: int|
                    #![trigger lp[q]]
                    0 <= q < k ==> left_step(ls[q], ls[q + 1], primary@[q].0, primary@[q].1, lp[q]),
                effects@ == after_right + concat_all(lp),
            decreases primary.len() - k,
        {
            let (pos, player) = primary[k];
            let mut more = self.click_left(pos, player);
            let ghost part = more@;
            effects.append(&mut more);
            proof {
                let ls2 = ls.push(self@);
                let lp2 = lp.push(part);
                assert(lp2.drop_last() =~= lp);
                assert forall|q: int|
                    #![trigger lp2[q]]
                    0 <= q < k + 1 implies left_step(ls2[q], ls2[q + 1], primary@[q].0, primary@[q].1, lp2[q]) by {
                    assert(ls2[q] == ls[q]);
                    if q < k {
                        assert(ls2[q + 1] == ls[q + 1]);
                        assert(lp2[q] == lp[q]);
                    }
                }
                ls = ls2;
                lp = lp2;
            }
            k = k + 1;
        }
        let ghost mid = self@;
        let ghost e = effects@;
        proof {
            assert(left_chain(ls, lp, primary@));
            assert(e =~= te + concat_all(rp) + concat_all(lp));
            assert(round(old(self)@, secondary@, primary@, mid, e));
        }
        let (mut cleared, records) = self.despawn_games();
        effects.append(&mut cleared);
        proof {
            lemma_despawn_once(mid);
        }
        (effects, records)
    }
}

/// The games kept are games of the list.
proof fn lemma_kept_inv(gs: Seq<CustomGameContainer>)
    requires
        forall|k: int| 0 <= k < gs.len() ==> (#[trigger] gs[k]).inv(),
    ensures
        forall|k: int| 0 <= k < kept(gs).len() ==> (#[trigger] kept(gs)[k]).inv(),
    decreases gs.len(),
{
    if gs.len() > 0 {
        let d = gs.drop_last();
        assert forall|k: int| 0 <= k < d.len() implies (#[trigger] d[k]).inv() by {
            assert(d[k] == gs[k]);
        }
        lemma_kept_inv(d);
        if !gs.last().despawn_view() {
            let k2 = kept(d).push(gs.last());
            assert forall|k: int| 0 <= k < k2.len() implies (#[trigger] k2[k]).inv() by {
                if k < kept(d).len() {
                    assert(k2[k] == kept(d)[k]);
                }
            }
        }
    }
}

} // verus!
