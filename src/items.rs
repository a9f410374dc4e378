//! The items that start a game, and the games they start.
use vstd::prelude::*;
use crate::common::{BlockPos, Direction};
use crate::repeat_sequence::{
    bottom_left_of, fresh_rsg, horizontal, near_origin, RepeatSequenceGame, COORD_LIMIT,
};
use crate::custom_game::{CustomGame, CustomGameContainer, MineSweeperGame, MineSweeperGame3d, BOMB_AMT, BOMB_AMT_3D};
use crate::board::shape_fits;
use crate::minesweeper::{fresh_game, game_fits, layers_for, Player};

verus! {

/// The kinds of item that start a game.
#[derive(PartialEq, Eq, Structural, Copy, Clone, Debug)]
pub enum StartItemType {
    RSG5,
    RSG7,
    Minesweeper,
    Minesweeper3D20x20,
    Minesweeper3D10x10,
}

/// What the logic reads of an item stack: whether it is a stick, and its
/// display name, if it has one.
#[derive(PartialEq, Eq, Debug)]
pub struct ItemStackInfo {
    pub is_stick: bool,
    pub display_name: Option<String>,
}

/// The display name that marks an item of a kind.
pub open spec fn name_of(t: StartItemType) -> Seq<char> {
    match t {
        StartItemType::RSG5 => "\"Repeat Sequence 5x5\""@,
        StartItemType::RSG7 => "\"Repeat Sequence 7x7\""@,
        StartItemType::Minesweeper => "\"Minesweeper\""@,
        StartItemType::Minesweeper3D20x20 => "\"Minesweeper3d20x20\""@,
        StartItemType::Minesweeper3D10x10 => "\"Minesweeper3d10x10\""@,
    }
}

impl StartItemType {
    /// Every kind, in the order the items are handed out.
    pub fn all_types() -> (r: Vec<StartItemType>)
        ensures
            r@ == seq![
                StartItemType::RSG5,
                StartItemType::RSG7,
                StartItemType::Minesweeper,
                StartItemType::Minesweeper3D20x20,
                StartItemType::Minesweeper3D10x10,
            ],
    {
        let r = vec![
            StartItemType::RSG5,
            StartItemType::RSG7,
            StartItemType::Minesweeper,
            StartItemType::Minesweeper3D20x20,
            StartItemType::Minesweeper3D10x10,
        ];
        assert(r@ =~= seq![
            StartItemType::RSG5,
            StartItemType::RSG7,
            StartItemType::Minesweeper,
            StartItemType::Minesweeper3D20x20,
            StartItemType::Minesweeper3D10x10,
        ]);
        r
    }

    /// The display name that marks an item of this kind.
    pub fn display_name(&self) -> (r: String)
        ensures
            r@ == name_of(*self),
    {
        match self {
            StartItemType::RSG5 => "\"Repeat Sequence 5x5\"".to_owned(),
            StartItemType::RSG7 => "\"Repeat Sequence 7x7\"".to_owned(),
            StartItemType::Minesweeper => "\"Minesweeper\"".to_owned(),
            StartItemType::Minesweeper3D20x20 => "\"Minesweeper3d20x20\"".to_owned(),
            StartItemType::Minesweeper3D10x10 => "\"Minesweeper3d10x10\"".to_owned(),
        }
    }

    /// The kind of game an item starts: a stick whose display name is that
    /// of a kind.
    pub fn get_start_item_type(item: &ItemStackInfo) -> (r: Option<StartItemType>)
        ensures
            r matches Some(t) ==> item.is_stick && (item.display_name matches Some(n) && n@
                == name_of(t)),
            r is None ==> !item.is_stick || item.display_name is None || forall|t: StartItemType|
                item.display_name->0@ != #[trigger] name_of(t),
    {
        if !item.is_stick {
            return None;
        }
        match &item.display_name {
            None => None,
            Some(n) => {
                let all = Self::all_types();
                let mut i: usize = 0;
                while i < all.len()
                    invariant
                        i <= all.len(),
                        all@.len() == 5,
                        all@ == seq![
                            StartItemType::RSG5,
                            StartItemType::RSG7,
                            StartItemType::Minesweeper,
                            StartItemType::Minesweeper3D20x20,
                            StartItemType::Minesweeper3D10x10,
                        ],
                        forall|j: int| 0 <= j < i ==> n@ != name_of(all@[j]),
                        item.is_stick,
                        item.display_name == Some(*n),
                    decreases all.len() - i,
                {
                    let t = all[i];
                    let name = t.display_name();
                    if n.eq(&name) {
                        return Some(t);
                    }
                    i = i + 1;
                }
                proof {
                    assert forall|t: StartItemType| n@ != #[trigger] name_of(t) by {
                        match t {
                            StartItemType::RSG5 => assert(all@[0] == t),
                            StartItemType::RSG7 => assert(all@[1] == t),
                            StartItemType::Minesweeper => assert(all@[2] == t),
                            StartItemType::Minesweeper3D20x20 => assert(all@[3] == t),
                            StartItemType::Minesweeper3D10x10 => assert(all@[4] == t),
                        }
                    }
                }
                None
            },
        }
    }

    /// A stick named for this kind.
    pub fn create_start_item(item_type: StartItemType) -> (r: ItemStackInfo)
        ensures
            r.is_stick,
            r.display_name matches Some(n) && n@ == name_of(item_type),
    {
        ItemStackInfo { is_stick: true, display_name: Some(item_type.display_name()) }
    }
}

/// Whether a value lies in `lo..=hi`.
fn within(v: i32, lo: i32, hi: i32) -> (r: bool)
    ensures
        r == (lo <= v <= hi),
{
    lo <= v && v <= hi
}

/// The game an item of kind `t` starts for `player` standing at `pos` and
/// looking towards `dir`, if that kind has a game on this server and the
/// game fits the world there.
pub fn start_game(t: StartItemType, pos: BlockPos, dir: Direction, player: Player) -> (r: Option<
    CustomGameContainer,
>)
    ensures
        r matches Some(g) ==> g.inv(),
        t is Minesweeper3D20x20 ==> r is None,
        t is Minesweeper ==> if game_fits(2, 20, pos, BOMB_AMT as int) {
            r matches Some(CustomGameContainer::Minesweeper(g)) && fresh_game(
                g.engine_view(),
                pos,
                player,
            ) && g.engine_view().bomb_amt == BOMB_AMT
        } else {
            r is None
        },
        t is Minesweeper3D10x10 ==> if game_fits(3, 10, pos, BOMB_AMT_3D as int) {
            r matches Some(CustomGameContainer::Minesweeper3d(g)) && fresh_game(
                g.engine_view(),
                pos,
                player,
            ) && g.engine_view().bomb_amt == BOMB_AMT_3D
        } else {
            r is None
        },
        t is RSG5 ==> if horizontal(dir) && near_origin(pos) {
            r matches Some(CustomGameContainer::RepeatSequence5(g)) && fresh_rsg(
                g@,
                bottom_left_of(pos, dir, 5),
                dir,
                player,
            )
        } else {
            r is None
        },
        t is RSG7 ==> if horizontal(dir) && near_origin(pos) {
            r matches Some(CustomGameContainer::RepeatSequence7(g)) && fresh_rsg(
                g@,
                bottom_left_of(pos, dir, 7),
                dir,
                player,
            )
        } else {
            r is None
        },
{
    match t {
        StartItemType::Minesweeper => {
            if within(pos.x, i32::MIN, i32::MAX - 19) && within(pos.z, i32::MIN, i32::MAX - 19) {
                Some(CustomGameContainer::Minesweeper(MineSweeperGame::<20>::new(pos, player)))
            } else {
                None
            }
        },
        StartItemType::Minesweeper3D10x10 => {
            if within(pos.x, i32::MIN, i32::MAX - 27) && within(pos.y, i32::MIN, i32::MAX - 27)
                && within(pos.z, i32::MIN, i32::MAX - 27) {
                assert(layers_for(3, 10) == 10);
                assert(10 * 10 * 10int <= usize::MAX);
                assert(shape_fits(10, 10, 3, pos));
                Some(CustomGameContainer::Minesweeper3d(MineSweeperGame3d::<10>::new(pos, player)))
            } else {
                None
            }
        },
        StartItemType::RSG5 => {
            if is_horizontal(dir) && near(pos) {
                Some(CustomGameContainer::RepeatSequence5(RepeatSequenceGame::<5>::new(pos, dir, player)))
            } else {
                None
            }
        },
        StartItemType::RSG7 => {
            if is_horizontal(dir) && near(pos) {
                Some(CustomGameContainer::RepeatSequence7(RepeatSequenceGame::<7>::new(pos, dir, player)))
            } else {
                None
            }
        },
        StartItemType::Minesweeper3D20x20 => None,
    }
}

fn is_horizontal(d: Direction) -> (r: bool)
    ensures
        r == horizontal(d),
{
    d == Direction::North || d == Direction::South || d == Direction::East || d == Direction::West
}

fn near(p: BlockPos) -> (r: bool)
    ensures
        r == near_origin(p),
{
    within(p.x, -COORD_LIMIT, COORD_LIMIT) && within(p.y, -COORD_LIMIT, COORD_LIMIT) && within(
        p.z,
        -COORD_LIMIT,
        COORD_LIMIT,
    )
}

} // verus!
