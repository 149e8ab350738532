//! The grid-world environment: a fixed square grid of coins, pits, walls
//! and pushable boxes, an agent position, a goal position, and the step
//! rules that resolve movement, rewards, termination and truncation.
//!
//! Rewards are fixed-point integers in thousandths of a unit.

use vstd::prelude::*;

verus! {

broadcast use vstd::seq_lib::lemma_seq_contains_after_push;

/// Width and height of the square grid.
pub const GRID_SIZE: usize = 6;

/// Number of cells in one grid layer.
pub const GRID_CELLS: usize = 36;

/// Number of layers in an observation: the four terrain layers plus the
/// goal and agent one-hot layers.
pub const NUM_CHANNELS: usize = 6;

/// Steps after which an episode is truncated.
pub const MAX_TIME: u32 = 16;

/// How long an agent is allowed to stay in the same spot.
pub const MAX_SAME: usize = 4;

/// Penalty paid on every step, in thousandths of a reward unit.
pub const STEP_PENALTY_MILLI: i64 = 1;

/// Reward for collecting a coin, in thousandths of a reward unit.
pub const COIN_REWARD_MILLI: i64 = 100;

/// Reward for reaching the goal, in thousandths of a reward unit.
pub const GOAL_REWARD_MILLI: i64 = 1000;

/// Penalty for falling into a pit, in thousandths of a reward unit.
pub const PIT_PENALTY_MILLI: i64 = 1000;

/// A flattened stack of `NUM_CHANNELS` boolean grid layers; the cell
/// `(x, y)` of layer `c` sits at index `c * GRID_CELLS + y * GRID_SIZE + x`.
pub type State = Vec<bool>;

/// The flat index of the cell `(x, y)` within one grid layer.
pub open spec fn cell(x: int, y: int) -> int {
    y * (GRID_SIZE as int) + x
}

/// True when `(x, y)` lies on the grid.
pub open spec fn in_grid(x: int, y: int) -> bool {
    0 <= x < GRID_SIZE && 0 <= y < GRID_SIZE
}

/// True when the coordinates fall outside the grid.
pub fn is_border(x: i32, y: i32) -> (r: bool)
    ensures
        r == !in_grid(x as int, y as int),
{
    x < 0 || x >= GRID_SIZE as i32 || y < 0 || y >= GRID_SIZE as i32
}

/// The horizontal component of a move: left, right, up, down.
pub open spec fn dx_of(action: u32) -> int {
    if action == 0 {
        -1
    } else if action == 1 {
        1
    } else {
        0
    }
}

/// The vertical component of a move.
pub open spec fn dy_of(action: u32) -> int {
    if action == 2 {
        -1
    } else if action == 3 {
        1
    } else {
        0
    }
}

/// Clamps a coordinate to the grid.
pub open spec fn clamp_to_grid(c: int) -> int {
    if c < 0 {
        0
    } else if c > GRID_SIZE - 1 {
        GRID_SIZE - 1
    } else {
        c
    }
}

/// How many entries of `s` equal `p`.
pub open spec fn count_eq(s: Seq<(usize, usize)>, p: (usize, usize)) -> int
    decreases s.len(),
{
    if s.len() == 0 {
        0
    } else {
        count_eq(s.drop_last(), p) + if s.last() == p {
            1int
        } else {
            0int
        }
    }
}

/// True when `(x, y)` occurs in the list.
fn pos_in(list: &Vec<(usize, usize)>, x: usize, y: usize) -> (r: bool)
    ensures
        r == list@.contains((x, y)),
{
    let mut i: usize = 0;
    while i < list.len()
        invariant
            i <= list@.len(),
            forall|j: int| 0 <= j < i ==> list@[j] != (x, y),
        decreases list@.len() - i,
    {
        if list[i].0 == x && list[i].1 == y {
            proof {
                assert(list@[i as int] == (x, y));
            }
            return true;
        }
        i += 1;
    }
    false
}

/// Returns the position of an empty cell: a cell whose layout code is 0
/// and which is not among the taken positions, drawn at random among all
/// such cells.
pub fn get_empty(ref_grid: &Vec<u32>, taken: &Vec<(usize, usize)>) -> (r: (usize, usize))
    requires
        ref_grid@.len() == GRID_CELLS,
        exists|p: (usize, usize)|
            in_grid(p.0 as int, p.1 as int) && ref_grid@[cell(p.0 as int, p.1 as int)] == 0
                && !taken@.contains(p),
    ensures
        in_grid(r.0 as int, r.1 as int),
        ref_grid@[cell(r.0 as int, r.1 as int)] == 0,
        !taken@.contains(r),
{
    let mut free: Vec<(usize, usize)> = Vec::new();
    let mut y: usize = 0;
    while y < GRID_SIZE
        invariant
            y <= GRID_SIZE,
            ref_grid@.len() == GRID_CELLS,
            forall|c: int|
                0 <= c < free@.len() ==> {
                    let p = #[trigger] free@[c];
                    in_grid(p.0 as int, p.1 as int) && ref_grid@[cell(p.0 as int, p.1 as int)]
                        == 0 && !taken@.contains(p)
                },
            forall|p: (usize, usize)|
                p.1 < y && in_grid(p.0 as int, p.1 as int) && ref_grid@[cell(
                    p.0 as int,
                    p.1 as int,
                )] == 0 && !taken@.contains(p) ==> free@.contains(p),
        decreases GRID_SIZE - y,
    {
        let mut x: usize = 0;
        while x < GRID_SIZE
            invariant
                x <= GRID_SIZE,
                y < GRID_SIZE,
                ref_grid@.len() == GRID_CELLS,
                forall|c: int|
                    0 <= c < free@.len() ==> {
                        let p = #[trigger] free@[c];
                        in_grid(p.0 as int, p.1 as int) && ref_grid@[cell(p.0 as int, p.1 as int)]
                            == 0 && !taken@.contains(p)
                    },
                forall|p: (usize, usize)|
                    p.1 < y && in_grid(p.0 as int, p.1 as int) && ref_grid@[cell(
                        p.0 as int,
                        p.1 as int,
                    )] == 0 && !taken@.contains(p) ==> free@.contains(p),
                forall|p: (usize, usize)|
                    p.1 == y && p.0 < x && in_grid(p.0 as int, p.1 as int) && ref_grid@[cell(
                        p.0 as int,
                        p.1 as int,
                    )] == 0 && !taken@.contains(p) ==> free@.contains(p),
            decreases GRID_SIZE - x,
        {
            if ref_grid[y * GRID_SIZE + x] == 0 && !pos_in(taken, x, y) {
                free.push((x, y));
            }
            x += 1;
        }
        y += 1;
    }
    proof {
        let w = choose|p: (usize, usize)|
            in_grid(p.0 as int, p.1 as int) && ref_grid@[cell(p.0 as int, p.1 as int)] == 0
                && !taken@.contains(p);
        assert(free@.contains(w));
    }
    let k = crate::rng::random_below(free.len() as u64) as usize;
    let r = free[k];
    proof {
        assert(free@[k as int] == r);
    }
    r
}

/// The fixed grid layout, row by row: 0 is empty, 1 a coin, 2 a pit,
/// 3 a wall and 4 a box.
pub open spec fn fixed_layout() -> Seq<u32> {
    seq![
        3u32, 3, 3, 3, 3, 3,
        3, 0, 0, 3, 0, 3,
        3, 1, 1, 1, 1, 3,
        3, 1, 2, 3, 0, 3,
        3, 0, 0, 3, 1, 3,
        3, 3, 3, 3, 3, 3,
    ]
}

/// Gym-like interface for the environment.
pub struct GridEnv {
    /// Coin layer, one flag per cell.
    pub coins: Vec<bool>,
    /// Pit layer, one flag per cell.
    pub pits: Vec<bool>,
    /// Wall layer, one flag per cell.
    pub walls: Vec<bool>,
    /// Box layer, one flag per cell.
    pub boxes: Vec<bool>,
    pub goal_pos: (usize, usize),
    pub agent_pos: (usize, usize),
    pub timer: u32,
    /// The most recent agent positions, oldest first, at most `MAX_SAME`.
    pub pos_buf: Vec<(usize, usize)>,
}

impl GridEnv {
    /// The environment is ready to step: every layer covers the grid and
    /// both special positions lie on it.
    pub open spec fn wf(self) -> bool {
        &&& self.coins@.len() == GRID_CELLS
        &&& self.pits@.len() == GRID_CELLS
        &&& self.walls@.len() == GRID_CELLS
        &&& self.boxes@.len() == GRID_CELLS
        &&& in_grid(self.goal_pos.0 as int, self.goal_pos.1 as int)
        &&& in_grid(self.agent_pos.0 as int, self.agent_pos.1 as int)
        &&& self.pos_buf@.len() <= MAX_SAME
    }

    pub open spec fn coin_at(self, x: int, y: int) -> bool {
        self.coins@[cell(x, y)]
    }

    pub open spec fn pit_at(self, x: int, y: int) -> bool {
        self.pits@[cell(x, y)]
    }

    pub open spec fn wall_at(self, x: int, y: int) -> bool {
        self.walls@[cell(x, y)]
    }

    pub open spec fn box_at(self, x: int, y: int) -> bool {
        self.boxes@[cell(x, y)]
    }

    /// The clamped cell the agent tries to move into.
    pub open spec fn dest_of(self, action: u32) -> (int, int) {
        (
            clamp_to_grid(self.agent_pos.0 + dx_of(action)),
            clamp_to_grid(self.agent_pos.1 + dy_of(action)),
        )
    }

    /// The cell one further in the move direction, where a pushed box
    /// would land; it may lie off the grid.
    pub open spec fn push_dest_of(self, action: u32) -> (int, int) {
        (self.dest_of(action).0 + dx_of(action), self.dest_of(action).1 + dy_of(action))
    }

    /// A box at the destination cannot be pushed: its own destination is
    /// off the grid, a wall, or another box.
    pub open spec fn push_blocked(self, action: u32) -> bool {
        let (bx, by) = self.push_dest_of(action);
        !in_grid(bx, by) || self.wall_at(bx, by) || self.box_at(bx, by)
    }

    /// The whole move is cancelled: the destination is a wall, or holds a
    /// box that cannot be pushed.
    pub open spec fn move_cancelled(self, action: u32) -> bool {
        let (nx, ny) = self.dest_of(action);
        self.wall_at(nx, ny) || (self.box_at(nx, ny) && self.push_blocked(action))
    }

    /// Where the agent stands once the move resolves.
    pub open spec fn pos_after(self, action: u32) -> (int, int) {
        if self.move_cancelled(action) {
            (self.agent_pos.0 as int, self.agent_pos.1 as int)
        } else {
            self.dest_of(action)
        }
    }

    /// The agent pushes a box into a free cell and takes its place.
    pub open spec fn pushes_box(self, action: u32) -> bool {
        let (nx, ny) = self.dest_of(action);
        !self.wall_at(nx, ny) && self.box_at(nx, ny) && !self.push_blocked(action)
    }

    /// The agent moves onto a coin and consumes it.
    pub open spec fn takes_coin(self, action: u32) -> bool {
        let (nx, ny) = self.dest_of(action);
        !self.move_cancelled(action) && !self.box_at(nx, ny) && self.coin_at(nx, ny)
    }

    /// The agent reaches the goal.
    pub open spec fn reaches_goal(self, action: u32) -> bool {
        let (nx, ny) = self.dest_of(action);
        &&& !self.move_cancelled(action)
        &&& !self.box_at(nx, ny)
        &&& !self.coin_at(nx, ny)
        &&& nx == self.goal_pos.0 && ny == self.goal_pos.1
    }

    /// The agent falls into a pit.
    pub open spec fn falls_in_pit(self, action: u32) -> bool {
        let (nx, ny) = self.dest_of(action);
        &&& !self.move_cancelled(action)
        &&& !self.box_at(nx, ny)
        &&& !self.coin_at(nx, ny)
        &&& !(nx == self.goal_pos.0 && ny == self.goal_pos.1)
        &&& self.pit_at(nx, ny)
    }

    /// The reward of one step, in thousandths of a unit: the step penalty,
    /// plus at most one of the coin, goal and pit amounts.
    pub open spec fn reward_after(self, action: u32) -> int {
        if self.takes_coin(action) {
            COIN_REWARD_MILLI - STEP_PENALTY_MILLI
        } else if self.reaches_goal(action) {
            GOAL_REWARD_MILLI - STEP_PENALTY_MILLI
        } else if self.falls_in_pit(action) {
            -PIT_PENALTY_MILLI - STEP_PENALTY_MILLI
        } else {
            -STEP_PENALTY_MILLI
        }
    }

    /// The episode terminates: the agent reached the goal or a pit.
    pub open spec fn done_after(self, action: u32) -> bool {
        self.reaches_goal(action) || self.falls_in_pit(action)
    }

    /// The coin layer after the step.
    pub open spec fn coins_after(self, action: u32) -> Seq<bool> {
        if self.takes_coin(action) {
            self.coins@.update(cell(self.dest_of(action).0, self.dest_of(action).1), false)
        } else {
            self.coins@
        }
    }

    /// The box layer after the step.
    pub open spec fn boxes_after(self, action: u32) -> Seq<bool> {
        if self.pushes_box(action) {
            self.boxes@.update(
                cell(self.push_dest_of(action).0, self.push_dest_of(action).1),
                true,
            ).update(cell(self.dest_of(action).0, self.dest_of(action).1), false)
        } else {
            self.boxes@
        }
    }

    /// The observation: the four terrain layers followed by one-hot goal
    /// and agent layers, flattened.
    pub open spec fn obs_spec(self) -> Seq<bool> {
        Seq::new(
            (NUM_CHANNELS * GRID_CELLS) as nat,
            |i: int|
                if i < 36 {
                    self.coins@[i]
                } else if i < 72 {
                    self.pits@[i - 36]
                } else if i < 108 {
                    self.walls@[i - 72]
                } else if i < 144 {
                    self.boxes@[i - 108]
                } else if i < 180 {
                    i - 144 == cell(self.goal_pos.0 as int, self.goal_pos.1 as int)
                } else {
                    i - 180 == cell(self.agent_pos.0 as int, self.agent_pos.1 as int)
                },
        )
    }

    /// The character drawn for the cell `(x, y)`: a coin `@`, a pit `!`,
    /// a wall `*`, a box `O`, the goal `G`, the agent `A`, else a space.
    pub open spec fn cell_char(self, x: int, y: int) -> char {
        if self.coin_at(x, y) {
            '@'
        } else if self.pit_at(x, y) {
            '!'
        } else if self.wall_at(x, y) {
            '*'
        } else if self.box_at(x, y) {
            'O'
        } else if x == self.goal_pos.0 && y == self.goal_pos.1 {
            'G'
        } else if x == self.agent_pos.0 && y == self.agent_pos.1 {
            'A'
        } else {
            ' '
        }
    }

    /// Draws the grid, row by row, each row of the `GRID_SIZE` cell
    /// characters closed by a newline, so row `y` starts at index `y * 7`.
    pub fn render(&self) -> (r: Vec<char>)
        requires
            self.wf(),
        ensures
            r@.len() == 42,
            forall|x: int, y: int|
                in_grid(x, y) ==> #[trigger] r@[y * 7 + x] == self.cell_char(x, y),
            forall|y: int| 0 <= y < GRID_SIZE ==> #[trigger] r@[y * 7 + 6] == '\n',
    {
        let mut out: Vec<char> = Vec::new();
        let mut y: usize = 0;
        while y < GRID_SIZE
            invariant
                y <= GRID_SIZE,
                self.wf(),
                out@.len() == y * 7,
                forall|xp: int, yp: int|
                    in_grid(xp, yp) && yp < y ==> #[trigger] out@[yp * 7 + xp] == self.cell_char(
                        xp,
                        yp,
                    ),
                forall|yp: int| 0 <= yp < y ==> #[trigger] out@[yp * 7 + 6] == '\n',
            decreases GRID_SIZE - y,
        {
            let mut x: usize = 0;
            while x < GRID_SIZE
                invariant
                    x <= GRID_SIZE,
                    y < GRID_SIZE,
                    self.wf(),
                    out@.len() == y * 7 + x,
                    forall|xp: int, yp: int|
                        in_grid(xp, yp) && yp < y ==> #[trigger] out@[yp * 7 + xp]
                            == self.cell_char(xp, yp),
                    forall|yp: int| 0 <= yp < y ==> #[trigger] out@[yp * 7 + 6] == '\n',
                    forall|xp: int|
                        0 <= xp < x ==> #[trigger] out@[y * 7 + xp] == self.cell_char(xp, y as int),
                decreases GRID_SIZE - x,
            {
                let i = y * GRID_SIZE + x;
                let c: char = if self.coins[i] {
                    '@'
                } else if self.pits[i] {
                    '!'
                } else if self.walls[i] {
                    '*'
                } else if self.boxes[i] {
                    'O'
                } else if self.goal_pos.0 == x && self.goal_pos.1 == y {
                    'G'
                } else if self.agent_pos.0 == x && self.agent_pos.1 == y {
                    'A'
                } else {
                    ' '
                };
                out.push(c);
                x += 1;
            }
            out.push('\n');
            y += 1;
        }
        out
    }

    pub fn new() -> (r: Self)
        ensures
            r.coins@.len() == 0,
            r.pits@.len() == 0,
            r.walls@.len() == 0,
            r.boxes@.len() == 0,
            r.goal_pos == (0usize, 0usize),
            r.agent_pos == (0usize, 0usize),
            r.timer == 0,
            r.pos_buf@.len() == 0,
    {
        Self {
            coins: Vec::new(),
            pits: Vec::new(),
            walls: Vec::new(),
            boxes: Vec::new(),
            goal_pos: (0, 0),
            agent_pos: (0, 0),
            timer: 0,
            pos_buf: Vec::new(),
        }
    }

    /// Rebuilds the grid from the fixed layout, places the agent and the
    /// goal, and zeroes the timer and the position history.
    pub fn reset(&mut self) -> (r: State)
        ensures
            final(self).wf(),
            forall|i: int|
                0 <= i < GRID_CELLS ==> #[trigger] final(self).coins@[i] == (fixed_layout()[i]
                    == 1u32),
            forall|i: int|
                0 <= i < GRID_CELLS ==> #[trigger] final(self).pits@[i] == (fixed_layout()[i]
                    == 2u32),
            forall|i: int|
                0 <= i < GRID_CELLS ==> #[trigger] final(self).walls@[i] == (fixed_layout()[i]
                    == 3u32),
            forall|i: int|
                0 <= i < GRID_CELLS ==> #[trigger] final(self).boxes@[i] == (fixed_layout()[i]
                    == 4u32),
            final(self).goal_pos == (4usize, 1usize),
            final(self).agent_pos == (1usize, 4usize),
            final(self).timer == 0,
            final(self).pos_buf@.len() == 0,
            r@ == final(self).obs_spec(),
    {
        let layout: Vec<u32> = vec![
            3, 3, 3, 3, 3, 3,
            3, 0, 0, 3, 0, 3,
            3, 1, 1, 1, 1, 3,
            3, 1, 2, 3, 0, 3,
            3, 0, 0, 3, 1, 3,
            3, 3, 3, 3, 3, 3,
        ];
        proof {
            assert(layout@ =~= fixed_layout());
        }
        let mut coins: Vec<bool> = Vec::new();
        let mut pits: Vec<bool> = Vec::new();
        let mut walls: Vec<bool> = Vec::new();
        let mut boxes: Vec<bool> = Vec::new();
        let mut i: usize = 0;
        while i < GRID_CELLS
            invariant
                i <= GRID_CELLS,
                layout@ == fixed_layout(),
                coins@.len() == i,
                pits@.len() == i,
                walls@.len() == i,
                boxes@.len() == i,
                forall|j: int| 0 <= j < i ==> #[trigger] coins@[j] == (fixed_layout()[j] == 1u32),
                forall|j: int| 0 <= j < i ==> #[trigger] pits@[j] == (fixed_layout()[j] == 2u32),
                forall|j: int| 0 <= j < i ==> #[trigger] walls@[j] == (fixed_layout()[j] == 3u32),
                forall|j: int| 0 <= j < i ==> #[trigger] boxes@[j] == (fixed_layout()[j] == 4u32),
            decreases GRID_CELLS - i,
        {
            let v = layout[i];
            coins.push(v == 1);
            pits.push(v == 2);
            walls.push(v == 3);
            boxes.push(v == 4);
            i += 1;
        }
        *self = GridEnv {
            coins,
            pits,
            walls,
            boxes,
            goal_pos: (4, 1),
            agent_pos: (1, 4),
            timer: 0,
            pos_buf: Vec::new(),
        };
        self.get_obs()
    }

    /// Resolves one action: movement with wall blocking and box pushing,
    /// the reward, termination on the goal or a pit, and truncation by the
    /// step timer or by standing still too long.
    #[verifier::rlimit(60)]
    pub fn step(&mut self, action: u32) -> (r: (State, i64, bool, bool))
        requires
            old(self).wf(),
            action < 4,
            old(self).timer < u32::MAX,
        ensures
            final(self).wf(),
            final(self).goal_pos == old(self).goal_pos,
            final(self).timer == old(self).timer + 1,
            final(self).pits@ == old(self).pits@,
            final(self).walls@ == old(self).walls@,
            final(self).coins@ == old(self).coins_after(action),
            final(self).boxes@ == old(self).boxes_after(action),
            (final(self).agent_pos.0 as int, final(self).agent_pos.1 as int) == old(
                self,
            ).pos_after(action),
            r.1 == old(self).reward_after(action),
            r.2 == old(self).done_after(action),
            r.3 == (count_eq(old(self).pos_buf@, final(self).agent_pos) == MAX_SAME || old(
                self,
            ).timer + 1 >= MAX_TIME),
            final(self).pos_buf@ == (if old(self).pos_buf@.len() == MAX_SAME {
                old(self).pos_buf@.drop_first()
            } else {
                old(self).pos_buf@
            }).push(final(self).agent_pos),
            r.0@ == final(self).obs_spec(),
            // a cancelled move (a wall, or a blocked box push) changes
            // nothing but the clock: agent, coins and boxes stay put and
            // only the step penalty is paid
            old(self).move_cancelled(action) ==> final(self).agent_pos == old(self).agent_pos
                && r.1 == -STEP_PENALTY_MILLI && r.2 == false && final(self).coins@ == old(
                self,
            ).coins@ && final(self).boxes@ == old(self).boxes@,
            // reaching the goal terminates the episode and pays the goal
            // reward exactly once
            old(self).reaches_goal(action) ==> r.2 && r.1 == GOAL_REWARD_MILLI
                - STEP_PENALTY_MILLI,
    {
        let mut dx: i32 = 0;
        let mut dy: i32 = 0;
        if action == 0 {
            dx = -1;
        } else if action == 1 {
            dx = 1;
        } else if action == 2 {
            dy = -1;
        } else {
            dy = 1;
        }

        let ax = self.agent_pos.0;
        let ay = self.agent_pos.1;
        let xi = ax as i32 + dx;
        let yi = ay as i32 + dy;
        let mut x: usize = if xi < 0 {
            0
        } else if xi > GRID_SIZE as i32 - 1 {
            GRID_SIZE - 1
        } else {
            xi as usize
        };
        let mut y: usize = if yi < 0 {
            0
        } else if yi > GRID_SIZE as i32 - 1 {
            GRID_SIZE - 1
        } else {
            yi as usize
        };
        proof {
            assert(x as int == clamp_to_grid(old(self).agent_pos.0 + dx_of(action)));
            assert(y as int == clamp_to_grid(old(self).agent_pos.1 + dy_of(action)));
        }
        let mut reward: i64 = -STEP_PENALTY_MILLI;
        let mut done = false;

        // Moving into a wall.
        if self.walls[y * GRID_SIZE + x] {
            x = ax;
            y = ay;
        }
        // Moving a box.
        else if self.boxes[y * GRID_SIZE + x] {
            let bxi = x as i32 + dx;
            let byi = y as i32 + dy;
            if is_border(bxi, byi) || self.walls[byi as usize * GRID_SIZE + bxi as usize]
                || self.boxes[byi as usize * GRID_SIZE + bxi as usize] {
                x = ax;
                y = ay;
            } else {
                let bi = byi as usize * GRID_SIZE + bxi as usize;
                self.boxes[bi] = true;
                self.boxes[y * GRID_SIZE + x] = false;
            }
        }
        // Moving into a coin.
        else if self.coins[y * GRID_SIZE + x] {
            reward += COIN_REWARD_MILLI;
            self.coins[y * GRID_SIZE + x] = false;
        }
        // Moving into the goal.
        else if x == self.goal_pos.0 && y == self.goal_pos.1 {
            reward += GOAL_REWARD_MILLI;
            done = true;
        }
        // Moving into a pit.
        else if self.pits[y * GRID_SIZE + x] {
            reward -= PIT_PENALTY_MILLI;
            done = true;
        }

        // Check how long we have been in the same spot.
        let mut same: usize = 0;
        let mut i: usize = 0;
        while i < self.pos_buf.len()
            invariant
                i <= self.pos_buf@.len(),
                self.pos_buf@.len() <= MAX_SAME,
                same as int == count_eq(self.pos_buf@.take(i as int), (x, y)),
                same <= i,
            decreases self.pos_buf@.len() - i,
        {
            proof {
                assert(self.pos_buf@.take(i + 1).drop_last() =~= self.pos_buf@.take(i as int));
                assert(self.pos_buf@.take(i + 1).last() == self.pos_buf@[i as int]);
            }
            if self.pos_buf[i].0 == x && self.pos_buf[i].1 == y {
                same += 1;
            }
            i += 1;
        }
        proof {
            assert(self.pos_buf@.take(self.pos_buf@.len() as int) =~= self.pos_buf@);
        }
        let mut trunc = same == MAX_SAME;
        if self.pos_buf.len() == MAX_SAME {
            self.pos_buf.remove(0);
            proof {
                assert(old(self).pos_buf@.remove(0) =~= old(self).pos_buf@.drop_first());
            }
        }
        self.pos_buf.push((x, y));
        self.agent_pos = (x, y);

        self.timer = self.timer + 1;
        trunc = trunc || self.timer >= MAX_TIME;

        (self.get_obs(), reward, done, trunc)
    }

    /// Builds the observation consumed by the function approximator.
    pub fn get_obs(&self) -> (r: State)
        requires
            self.wf(),
        ensures
            r@ == self.obs_spec(),
    {
        let mut state: Vec<bool> = Vec::new();
        let mut i: usize = 0;
        while i < GRID_CELLS
            invariant
                i <= GRID_CELLS,
                self.wf(),
                state@.len() == i,
                forall|j: int| 0 <= j < i ==> state@[j] == self.coins@[j],
            decreases GRID_CELLS - i,
        {
            state.push(self.coins[i]);
            i += 1;
        }
        let mut i: usize = 0;
        while i < GRID_CELLS
            invariant
                i <= GRID_CELLS,
                self.wf(),
                state@.len() == 36 + i,
                forall|j: int| 0 <= j < 36 ==> state@[j] == self.coins@[j],
                forall|j: int| 0 <= j < i ==> state@[36 + j] == self.pits@[j],
            decreases GRID_CELLS - i,
        {
            state.push(self.pits[i]);
            i += 1;
        }
        let mut i: usize = 0;
        while i < GRID_CELLS
            invariant
                i <= GRID_CELLS,
                self.wf(),
                state@.len() == 72 + i,
                forall|j: int| 0 <= j < 36 ==> state@[j] == self.coins@[j],
                forall|j: int| 0 <= j < 36 ==> state@[36 + j] == self.pits@[j],
                forall|j: int| 0 <= j < i ==> state@[72 + j] == self.walls@[j],
            decreases GRID_CELLS - i,
        {
            state.push(self.walls[i]);
            i += 1;
        }
        let mut i: usize = 0;
        while i < GRID_CELLS
            invariant
                i <= GRID_CELLS,
                self.wf(),
                state@.len() == 108 + i,
                forall|j: int| 0 <= j < 36 ==> state@[j] == self.coins@[j],
                forall|j: int| 0 <= j < 36 ==> state@[36 + j] == self.pits@[j],
                forall|j: int| 0 <= j < 36 ==> state@[72 + j] == self.walls@[j],
                forall|j: int| 0 <= j < i ==> state@[108 + j] == self.boxes@[j],
            decreases GRID_CELLS - i,
        {
            state.push(self.boxes[i]);
            i += 1;
        }
        let goal_cell = self.goal_pos.1 * GRID_SIZE + self.goal_pos.0;
        let mut i: usize = 0;
        while i < GRID_CELLS
            invariant
                i <= GRID_CELLS,
                self.wf(),
                goal_cell == cell(self.goal_pos.0 as int, self.goal_pos.1 as int),
                state@.len() == 144 + i,
                forall|j: int| 0 <= j < 36 ==> state@[j] == self.coins@[j],
                forall|j: int| 0 <= j < 36 ==> state@[36 + j] == self.pits@[j],
                forall|j: int| 0 <= j < 36 ==> state@[72 + j] == self.walls@[j],
                forall|j: int| 0 <= j < 36 ==> state@[108 + j] == self.boxes@[j],
                forall|j: int|
                    0 <= j < i ==> #[trigger] state@[144 + j] == (j == cell(
                        self.goal_pos.0 as int,
                        self.goal_pos.1 as int,
                    )),
            decreases GRID_CELLS - i,
        {
            state.push(i == goal_cell);
            i += 1;
        }
        let agent_cell = self.agent_pos.1 * GRID_SIZE + self.agent_pos.0;
        let mut i: usize = 0;
        while i < GRID_CELLS
            invariant
                i <= GRID_CELLS,
                self.wf(),
                agent_cell == cell(self.agent_pos.0 as int, self.agent_pos.1 as int),
                state@.len() == 180 + i,
                forall|j: int| 0 <= j < 36 ==> state@[j] == self.coins@[j],
                forall|j: int| 0 <= j < 36 ==> state@[36 + j] == self.pits@[j],
                forall|j: int| 0 <= j < 36 ==> state@[72 + j] == self.walls@[j],
                forall|j: int| 0 <= j < 36 ==> state@[108 + j] == self.boxes@[j],
                forall|j: int|
                    0 <= j < 36 ==> #[trigger] state@[144 + j] == (j == cell(
                        self.goal_pos.0 as int,
                        self.goal_pos.1 as int,
                    )),
                forall|j: int|
                    0 <= j < i ==> #[trigger] state@[180 + j] == (j == cell(
                        self.agent_pos.0 as int,
                        self.agent_pos.1 as int,
                    )),
            decreases GRID_CELLS - i,
        {
            state.push(i == agent_cell);
            i += 1;
        }
        proof {
            assert forall|j: int| 0 <= j < NUM_CHANNELS * GRID_CELLS implies state@[j]
                == self.obs_spec()[j] by {
                if j < 36 {
                    assert(state@[j] == self.coins@[j]);
                } else if j < 72 {
                    assert(state@[36 + (j - 36)] == self.pits@[j - 36]);
                } else if j < 108 {
                    assert(state@[72 + (j - 72)] == self.walls@[j - 72]);
                } else if j < 144 {
                    assert(state@[108 + (j - 108)] == self.boxes@[j - 108]);
                } else if j < 180 {
                    assert(state@[144 + (j - 144)] == (j - 144 == cell(
                        self.goal_pos.0 as int,
                        self.goal_pos.1 as int,
                    )));
                } else {
                    assert(state@[180 + (j - 180)] == (j - 180 == cell(
                        self.agent_pos.0 as int,
                        self.agent_pos.1 as int,
                    )));
                }
            }
            assert(state@ =~= self.obs_spec());
        }
        state
    }
}

} // verus!
