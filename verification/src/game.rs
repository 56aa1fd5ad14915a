//! The game: the maze, the player, the ghosts and the score, and what one
//! frame does to them.

use crate::board::{
    blocked, cell, cells_holding, cells_of, center, dot_count, in_bounds, is_board,
    lemma_cells_holding_complete, lemma_cells_holding_sound, lemma_dot_count_bound, lemma_eat_dot,
    lemma_emptying_keeps_open, lemma_with_tile, side, spawn_clear, tile_at, walls_on_lines,
    with_tile, Cell, DOT_REWARD, GRID_SIZE, MAX_GRID_SIZE,
};
use crate::chance::random_index;
use crate::ghost::{lemma_ghost_keeps_to_open_cells, may_become, GhostEntity, GhostView};
use crate::grid::Grid;
use crate::tile::TileType;
use vstd::prelude::*;

verus! {

/// How many ghosts a session has.
pub const GHOST_COUNT: usize = 4;

/// The key that is held down in a frame, as far as the game cares.
#[derive(Clone, Copy, PartialEq, Eq, Debug, Structural)]
pub enum Key {
    Up,
    Down,
    Left,
    Right,
    /// Any key that is not an arrow.
    Other,
}

/// The state of a game as the rules see it.
pub struct GameView {
    /// The board, `maze[y][x]`.
    pub maze: Seq<Seq<TileType>>,
    /// The player's cell.
    pub player: Cell,
    /// The ghosts, in their order.
    pub ghosts: Seq<GhostView>,
    /// The points scored so far.
    pub score: int,
}

/// The cell that `key` sends a player at `c` towards. Up is towards row 0.
pub open spec fn target(c: Cell, key: Key) -> Cell {
    match key {
        Key::Up => (c.0, c.1 - 1),
        Key::Down => (c.0, c.1 + 1),
        Key::Left => (c.0 - 1, c.1),
        Key::Right => (c.0 + 1, c.1),
        Key::Other => c,
    }
}

/// The state after the player's part of a frame in which `key` was held.
///
/// With no key nothing changes. Otherwise the player makes for the target
/// cell: if that is off the board or a wall, nothing changes; if not, the
/// player stands there, and a dot found there is eaten and scored.
pub open spec fn after_key(s: GameView, key: Option<Key>) -> GameView {
    match key {
        None => s,
        Some(k) => {
            let to = target(s.player, k);
            if blocked(s.maze, to) {
                s
            } else if tile_at(s.maze, to) == TileType::Dot {
                GameView {
                    maze: with_tile(s.maze, to, TileType::Empty),
                    player: to,
                    ghosts: s.ghosts,
                    score: s.score + DOT_REWARD,
                }
            } else {
                GameView { maze: s.maze, player: to, ghosts: s.ghosts, score: s.score }
            }
        },
    }
}

/// The state after the player's parts of several frames, one key each.
pub open spec fn after_keys(s: GameView, keys: Seq<Option<Key>>) -> GameView
    decreases keys.len(),
{
    if keys.len() == 0 {
        s
    } else {
        after_key(after_keys(s, keys.drop_last()), keys.last())
    }
}

/// What holds of every state of a game: the maze is a board; the player
/// stands on it, on an empty cell; every ghost stands on it, not on a wall;
/// and the score is not negative and leaves room for all the dots still on
/// the board.
pub open spec fn valid(s: GameView) -> bool {
    &&& is_board(s.maze)
    &&& in_bounds(s.maze, s.player)
    &&& tile_at(s.maze, s.player) == TileType::Empty
    &&& forall|i: int| 0 <= i < s.ghosts.len() ==> !blocked(s.maze, (#[trigger] s.ghosts[i]).pos)
    &&& 0 <= s.score
    &&& s.score + DOT_REWARD * dot_count(s.maze) <= i32::MAX
}

/// What holds of a session that has just begun on a board of side `n`: the
/// player is at the center with nothing scored, the center and its four
/// neighbours are empty, walls stand on wall lines only, and there are
/// `GHOST_COUNT` ghosts, each on an empty cell and heading right.
pub open spec fn fresh(s: GameView, n: int) -> bool {
    &&& valid(s)
    &&& side(s.maze) == n
    &&& s.player == center(s.maze)
    &&& s.score == 0
    &&& spawn_clear(s.maze)
    &&& walls_on_lines(s.maze)
    &&& s.ghosts.len() == GHOST_COUNT
    &&& forall|i: int|
        0 <= i < s.ghosts.len() ==> {
            &&& in_bounds(s.maze, (#[trigger] s.ghosts[i]).pos)
            &&& tile_at(s.maze, s.ghosts[i].pos) == TileType::Empty
            &&& s.ghosts[i].direction == (1int, 0int)
        }
}

/// A ghost `g` may stand on `p` after its update.
pub open spec fn can_catch(m: Seq<Seq<TileType>>, g: GhostView, p: Cell) -> bool {
    exists|after: GhostView| may_become(m, g, after) && after.pos == p
}

/// Some ghost of `s` may stand on the player's cell after its update.
pub open spec fn within_reach(s: GameView) -> bool {
    exists|i: int| 0 <= i < s.ghosts.len() && can_catch(s.maze, #[trigger] s.ghosts[i], s.player)
}

/// A frame in which `key` was held and no ghost caught the player has made
/// `after` of `before`: each ghost had its update and none of them ended on
/// the player's cell; then the player had their part.
pub open spec fn played(before: GameView, key: Option<Key>, after: GameView) -> bool {
    &&& after.ghosts.len() == before.ghosts.len()
    &&& forall|i: int|
        0 <= i < before.ghosts.len() ==> {
            &&& may_become(before.maze, before.ghosts[i], #[trigger] after.ghosts[i])
            &&& after.ghosts[i].pos != before.player
        }
    &&& after == after_key(
        GameView {
            maze: before.maze,
            player: before.player,
            ghosts: after.ghosts,
            score: before.score,
        },
        key,
    )
}

/// The player's part of a frame takes a game state to a game state. The
/// score never falls, and it rises, by `DOT_REWARD`, exactly when the player
/// steps onto a dot.
pub proof fn lemma_after_key_valid(s: GameView, key: Option<Key>)
    requires
        valid(s),
    ensures
        valid(after_key(s, key)),
        side(after_key(s, key).maze) == side(s.maze),
        after_key(s, key).ghosts == s.ghosts,
        after_key(s, key).score == if key is Some && !blocked(s.maze, target(s.player, key->0))
            && tile_at(s.maze, target(s.player, key->0)) == TileType::Dot {
            s.score + DOT_REWARD
        } else {
            s.score
        },
{
    if let Some(k) = key {
        let to = target(s.player, k);
        if !blocked(s.maze, to) && tile_at(s.maze, to) == TileType::Dot {
            let after = after_key(s, key);
            lemma_with_tile(s.maze, to, TileType::Empty);
            lemma_eat_dot(s.maze, to);
            assert forall|i: int| 0 <= i < after.ghosts.len() implies !blocked(
                after.maze,
                (#[trigger] after.ghosts[i]).pos,
            ) by {
                lemma_emptying_keeps_open(s.maze, to, s.ghosts[i].pos);
            }
        }
    }
}

/// A player who presses `key` ends on the cell that the key points to if
/// that cell is on the board and not a wall, and stays put if it is not. A
/// press that is turned down changes nothing at all, so pressing again is
/// turned down again.
pub proof fn lemma_move_lands_or_stays(s: GameView, key: Key)
    requires
        valid(s),
    ensures
        after_key(s, Some(key)).player == if blocked(s.maze, target(s.player, key)) {
            s.player
        } else {
            target(s.player, key)
        },
        blocked(s.maze, target(s.player, key)) ==> after_key(s, Some(key)) == s,
        blocked(s.maze, target(s.player, key)) ==> after_key(after_key(s, Some(key)), Some(key))
            == s,
{
}

/// A key that is no arrow moves nothing and scores nothing.
pub proof fn lemma_other_key_changes_nothing(s: GameView)
    requires
        valid(s),
    ensures
        after_key(s, Some(Key::Other)) == s,
{
}

/// The player's part of a frame lays no dot: a cell that holds none holds
/// none after, and an empty cell stays empty.
pub proof fn lemma_after_key_lays_no_dot(s: GameView, key: Option<Key>, c: Cell)
    requires
        valid(s),
        in_bounds(s.maze, c),
    ensures
        tile_at(s.maze, c) != TileType::Dot ==> tile_at(after_key(s, key).maze, c) == tile_at(
            s.maze,
            c,
        ),
{
    if let Some(k) = key {
        let to = target(s.player, k);
        if !blocked(s.maze, to) && tile_at(s.maze, to) == TileType::Dot {
            lemma_with_tile(s.maze, to, TileType::Empty);
        }
    }
}

/// However many frames the player plays, the state stays a game state on
/// the same board, and a cell without a dot keeps its tile.
pub proof fn lemma_after_keys_valid(s: GameView, keys: Seq<Option<Key>>, c: Cell)
    requires
        valid(s),
        in_bounds(s.maze, c),
    ensures
        valid(after_keys(s, keys)),
        side(after_keys(s, keys).maze) == side(s.maze),
        after_keys(s, keys).score >= s.score,
        tile_at(s.maze, c) != TileType::Dot ==> tile_at(after_keys(s, keys).maze, c) == tile_at(
            s.maze,
            c,
        ),
    decreases keys.len(),
{
    if keys.len() > 0 {
        let earlier = after_keys(s, keys.drop_last());
        lemma_after_keys_valid(s, keys.drop_last(), c);
        lemma_after_key_valid(earlier, keys.last());
        lemma_after_key_lays_no_dot(earlier, keys.last(), c);
    }
}

/// A dot is scored once. The step onto a dot adds `DOT_REWARD` to the score
/// and leaves the cell empty; the cell is still empty after any number of
/// further frames, and a later step onto it adds nothing.
pub proof fn lemma_dot_scores_once(s: GameView, key: Key, later: Seq<Option<Key>>, again: Key)
    requires
        valid(s),
        !blocked(s.maze, target(s.player, key)),
        tile_at(s.maze, target(s.player, key)) == TileType::Dot,
    ensures
        after_key(s, Some(key)).player == target(s.player, key),
        after_key(s, Some(key)).score == s.score + DOT_REWARD,
        tile_at(after_key(s, Some(key)).maze, target(s.player, key)) == TileType::Empty,
        tile_at(after_keys(after_key(s, Some(key)), later).maze, target(s.player, key))
            == TileType::Empty,
        target(after_keys(after_key(s, Some(key)), later).player, again) == target(s.player, key)
            ==> after_key(after_keys(after_key(s, Some(key)), later), Some(again)).score
            == after_keys(after_key(s, Some(key)), later).score,
{
    let to = target(s.player, key);
    let eaten = after_key(s, Some(key));
    lemma_after_key_valid(s, Some(key));
    lemma_with_tile(s.maze, to, TileType::Empty);
    lemma_after_keys_valid(eaten, later, to);
    lemma_after_key_valid(after_keys(eaten, later), Some(again));
}

/// A frame without a catch takes a game state to a game state. The ghosts
/// cannot touch the maze, the player or the score: those are what the
/// player's part alone makes of them.
pub proof fn lemma_played_frame(before: GameView, key: Option<Key>, after: GameView)
    requires
        valid(before),
        played(before, key, after),
    ensures
        valid(after),
        after.maze == after_key(before, key).maze,
        after.player == after_key(before, key).player,
        after.score == after_key(before, key).score,
{
    let moved = GameView {
        maze: before.maze,
        player: before.player,
        ghosts: after.ghosts,
        score: before.score,
    };
    assert forall|i: int| 0 <= i < moved.ghosts.len() implies !blocked(
        moved.maze,
        (#[trigger] moved.ghosts[i]).pos,
    ) by {
        lemma_ghost_keeps_to_open_cells(before.maze, before.ghosts[i], after.ghosts[i]);
    }
    lemma_after_key_valid(moved, key);
}

/// The models of a list of ghosts.
pub open spec fn ghosts_of(ghosts: Seq<GhostEntity>) -> Seq<GhostView> {
    ghosts.map_values(|g: GhostEntity| g@)
}

/// The game of one session.
#[derive(Debug)]
pub struct MainState {
    player_pos: (i32, i32),
    ghosts: Vec<GhostEntity>,
    walls: Grid,
    score: i32,
}

impl View for MainState {
    type V = GameView;

    closed spec fn view(&self) -> GameView {
        GameView {
            maze: self.walls@,
            player: cell(self.player_pos),
            ghosts: ghosts_of(self.ghosts@),
            score: self.score as int,
        }
    }
}

impl MainState {
    /// The state is one that a game can be in.
    pub open spec fn wf(&self) -> bool {
        valid(self@)
    }

    /// Begins a session on a board of the usual side, `GRID_SIZE`.
    pub fn new() -> (state: MainState)
        ensures
            state.wf(),
            fresh(state@, GRID_SIZE as int),
    {
        MainState::with_size(GRID_SIZE)
    }

    /// Begins a session on a board of side `n`: a newly generated maze, the
    /// player at its center, nothing scored, and `GHOST_COUNT` ghosts, each
    /// put on one of the empty cells, drawn at random with every empty cell
    /// as likely as the next. Two ghosts may share a cell, and one may start
    /// on the player's.
    ///
    /// A side under 3 has no room for the clearing at the center, and a side
    /// over `MAX_GRID_SIZE` could hold more dots than the score can count.
    pub fn with_size(n: i32) -> (state: MainState)
        requires
            3 <= n <= MAX_GRID_SIZE,
        ensures
            state.wf(),
            fresh(state@, n as int),
    {
        let walls = Grid::generate(n);
        let free = walls.cells_holding(TileType::Empty);
        proof {
            lemma_cells_holding_complete(walls@, TileType::Empty, center(walls@));
            lemma_dot_count_bound(walls@);
        }
        let mut ghosts: Vec<GhostEntity> = Vec::new();
        while ghosts.len() < GHOST_COUNT
            invariant
                walls.wf(),
                cells_of(free@) == cells_holding(walls@, TileType::Empty),
                free@.len() > 0,
                ghosts@.len() <= GHOST_COUNT,
                forall|i: int|
                    0 <= i < ghosts@.len() ==> {
                        &&& in_bounds(walls@, (#[trigger] ghosts@[i])@.pos)
                        &&& tile_at(walls@, ghosts@[i]@.pos) == TileType::Empty
                        &&& ghosts@[i]@.direction == (1int, 0int)
                    },
            decreases GHOST_COUNT - ghosts@.len(),
        {
            let choice = random_index(free.len());
            let at = free[choice];
            proof {
                lemma_cells_holding_sound(walls@, TileType::Empty, choice as int);
            }
            ghosts.push(GhostEntity::new(at.0, at.1));
        }
        MainState { player_pos: (n / 2, n / 2), ghosts, walls, score: 0 }
    }

    /// Puts a game together from its parts, if they make a state that a game
    /// can be in.
    pub fn from_parts(
        walls: Grid,
        player_pos: (i32, i32),
        ghosts: Vec<GhostEntity>,
        score: i32,
    ) -> (state: Option<MainState>)
        requires
            walls.wf(),
        ensures
            match state {
                Some(s) => s.wf() && s@ == (GameView {
                    maze: walls@,
                    player: cell(player_pos),
                    ghosts: ghosts_of(ghosts@),
                    score: score as int,
                }),
                None => !valid(
                    GameView {
                        maze: walls@,
                        player: cell(player_pos),
                        ghosts: ghosts_of(ghosts@),
                        score: score as int,
                    },
                ),
            },
    {
        match walls.get(player_pos.0, player_pos.1) {
            Some(TileType::Empty) => {},
            _ => {
                return None;
            },
        }
        let mut i: usize = 0;
        while i < ghosts.len()
            invariant
                walls.wf(),
                i <= ghosts@.len(),
                forall|j: int| 0 <= j < i ==> !blocked(walls@, (#[trigger] ghosts@[j])@.pos),
            decreases ghosts@.len() - i,
        {
            if walls.blocks(ghosts[i].pos) {
                proof {
                    let s = GameView {
                        maze: walls@,
                        player: cell(player_pos),
                        ghosts: ghosts_of(ghosts@),
                        score: score as int,
                    };
                    assert(blocked(s.maze, s.ghosts[i as int].pos));
                }
                return None;
            }
            i += 1;
        }
        let dots = walls.cells_holding(TileType::Dot).len();
        proof {
            lemma_dot_count_bound(walls@);
        }
        if score < 0 || score as i64 + (DOT_REWARD as i64) * (dots as i64) > i32::MAX as i64 {
            return None;
        }
        Some(MainState { player_pos, ghosts, walls, score })
    }

    /// The player's cell, as `(x, y)`.
    pub fn player_pos(&self) -> (pos: (i32, i32))
        ensures
            cell(pos) == self@.player,
    {
        self.player_pos
    }

    /// The points scored in this session.
    pub fn score(&self) -> (score: i32)
        ensures
            score == self@.score,
    {
        self.score
    }

    /// The ghosts, in their order.
    pub fn ghosts(&self) -> (ghosts: &Vec<GhostEntity>)
        ensures
            ghosts_of(ghosts@) == self@.ghosts,
    {
        &self.ghosts
    }

    /// The maze.
    pub fn walls(&self) -> (walls: &Grid)
        ensures
            walls@ == self@.maze,
    {
        &self.walls
    }

    /// Whether `pos` is closed to the player: off the board, or a wall.
    pub fn check_collision(&self, pos: (i32, i32)) -> (collides: bool)
        requires
            self.wf(),
        ensures
            collides == blocked(self@.maze, cell(pos)),
    {
        self.walls.blocks(pos)
    }

    /// The player's part of a frame in which `key` was held, if any was.
    pub fn move_player(&mut self, key: Option<Key>)
        requires
            old(self).wf(),
        ensures
            final(self).wf(),
            final(self)@ == after_key(old(self)@, key),
    {
        if let Some(k) = key {
            let (x, y) = self.player_pos;
            let new_pos = match k {
                Key::Up => (x, y - 1),
                Key::Down => (x, y + 1),
                Key::Left => (x - 1, y),
                Key::Right => (x + 1, y),
                Key::Other => (x, y),
            };
            if !self.check_collision(new_pos) {
                proof {
                    lemma_with_tile(self@.maze, cell(new_pos), TileType::Empty);
                    if tile_at(self@.maze, cell(new_pos)) == TileType::Dot {
                        lemma_eat_dot(self@.maze, cell(new_pos));
                    }
                }
                self.player_pos = new_pos;
                if self.walls.eat_dot(new_pos.0, new_pos.1) {
                    self.score += DOT_REWARD;
                }
                assert(self@.ghosts == old(self)@.ghosts);
                assert forall|i: int| 0 <= i < self@.ghosts.len() implies !blocked(
                    self@.maze,
                    (#[trigger] self@.ghosts[i]).pos,
                ) by {
                    lemma_emptying_keeps_open(old(self)@.maze, cell(new_pos), self@.ghosts[i].pos);
                }
            }
        }
    }

    /// One frame of the game, in which `key` was held, if any was.
    ///
    /// The ghosts have their updates, one after the other. As soon as one
    /// of them stands on the player's cell the round is over and the state
    /// is replaced by a new session on a board of the same side; the answer
    /// is then `true` and nothing else happens in the frame. If none does,
    /// the player has their part and the answer is `false`.
    pub fn update(&mut self, key: Option<Key>) -> (restarted: bool)
        requires
            old(self).wf(),
        ensures
            final(self).wf(),
            restarted ==> within_reach(old(self)@) && fresh(final(self)@, side(old(self)@.maze)),
            !restarted ==> played(old(self)@, key, final(self)@),
    {
        let n = self.walls.size();
        let mut i: usize = 0;
        while i < self.ghosts.len()
            invariant
                old(self).wf(),
                self.wf(),
                self.walls == old(self).walls,
                self.player_pos == old(self).player_pos,
                self.score == old(self).score,
                self.ghosts@.len() == old(self).ghosts@.len(),
                i <= self.ghosts@.len(),
                n == side(self.walls@),
                3 <= n <= MAX_GRID_SIZE,
                forall|j: int|
                    0 <= j < i ==> {
                        &&& may_become(
                            self.walls@,
                            old(self).ghosts@[j]@,
                            (#[trigger] self.ghosts@[j])@,
                        )
                        &&& self.ghosts@[j]@.pos != cell(self.player_pos)
                    },
                forall|j: int|
                    i <= j < self.ghosts@.len() ==> #[trigger] self.ghosts@[j] == old(
                        self,
                    ).ghosts@[j],
            decreases self.ghosts@.len() - i,
        {
            let ghost before = self.ghosts@;
            assert(!blocked(self.walls@, self@.ghosts[i as int].pos));
            self.ghosts[i].update(&self.walls);
            assert forall|j: int| 0 <= j < self@.ghosts.len() implies !blocked(
                self@.maze,
                (#[trigger] self@.ghosts[j]).pos,
            ) by {
                if j != i {
                    assert(ghosts_of(before)[j] == before[j]@);
                }
            }
            let at = self.ghosts[i].pos;
            if at.0 == self.player_pos.0 && at.1 == self.player_pos.1 {
                assert(can_catch(
                    old(self)@.maze,
                    old(self)@.ghosts[i as int],
                    old(self)@.player,
                ));
                *self = MainState::with_size(n);
                return true;
            }
            i += 1;
        }
        self.move_player(key);
        proof {
            assert forall|j: int| 0 <= j < old(self)@.ghosts.len() implies {
                &&& may_become(old(self)@.maze, old(self)@.ghosts[j], #[trigger] self@.ghosts[j])
                &&& self@.ghosts[j].pos != old(self)@.player
            } by {
            }
        }
        false
    }
}

} // verus!
