use vstd::prelude::*;
use crate::components::{CharacterKind, MapPosition};

verus! {

/// Frames in each run animation (Male character).
pub const RUN_FRAME_COUNT: usize = 10;
/// Number of facing directions in the Female asset pack (every 22.5°).
pub const FEMALE_DIR_COUNT: usize = 16;
/// Frames in each Female walk spritesheet (6 columns × 4 rows).
pub const FEMALE_WALK_FRAME_COUNT: usize = 24;
/// Frames in each Female walk-back spritesheet (6 columns × 4 rows).
pub const FEMALE_WALKBACK_FRAME_COUNT: usize = 24;
/// Frames in each Female run spritesheet (5 columns × 4 rows).
pub const FEMALE_RUN_FRAME_COUNT: usize = 20;
/// Frames in each Female idle spritesheet (4 columns × 4 rows).
pub const FEMALE_IDLE_FRAME_COUNT: usize = 16;
/// Frames in each Female jump spritesheet (6 columns × 4 rows).
pub const FEMALE_JUMP_FRAME_COUNT: usize = 24;
/// Degree values matching the Female asset filename suffixes.
pub const FEMALE_ANGLES: [u32; 16] = [0, 22, 45, 67, 90, 112, 135, 157, 180, 202, 225, 247, 270, 292, 315, 337];

/// Last movement direction, used to pick the directional sprite set.
#[derive(Clone, Copy, PartialEq, Eq, Debug, Structural)]
pub enum FacingDir {
    North,
    NorthEast,
    East,
    SouthEast,
    South,
    SouthWest,
    West,
    NorthWest,
}

/// Angular distance, in degrees, between two directions on the 360° circle.
pub open spec fn circular_distance(a: int, b: int) -> int {
    let d = if a >= b { a - b } else { b - a };
    if d <= 360 - d { d } else { 360 - d }
}

fn circular_distance_exec(a: u32, b: u32) -> (d: u32)
    requires
        a <= 360,
        b <= 360,
    ensures
        d == circular_distance(a as int, b as int),
{
    let diff = if a >= b { a - b } else { b - a };
    if diff <= 360 - diff { diff } else { 360 - diff }
}

impl FacingDir {
    /// Screen angle of this facing in the Female asset pack: 0° is
    /// screen-up (north-west on the grid), increasing clockwise.
    pub open spec fn degrees(self) -> int {
        match self {
            FacingDir::NorthWest => 0,
            FacingDir::North => 45,
            FacingDir::NorthEast => 90,
            FacingDir::East => 135,
            FacingDir::SouthEast => 180,
            FacingDir::South => 225,
            FacingDir::SouthWest => 270,
            FacingDir::West => 315,
        }
    }

    /// Index into [`FEMALE_ANGLES`] of the angle closest to this facing
    /// (the first such index when two are equally close).
    pub fn to_female_dir_index(self) -> (r: usize)
        ensures
            r < FEMALE_DIR_COUNT,
            forall|j: int| 0 <= j < FEMALE_DIR_COUNT ==> circular_distance(FEMALE_ANGLES@[r as int] as int, self.degrees())
                <= circular_distance(#[trigger] FEMALE_ANGLES@[j] as int, self.degrees()),
            forall|j: int| 0 <= j < r ==> circular_distance(#[trigger] FEMALE_ANGLES@[j] as int, self.degrees())
                > circular_distance(FEMALE_ANGLES@[r as int] as int, self.degrees()),
    {
        let deg: u32 = match self {
            FacingDir::NorthWest => 0,
            FacingDir::North => 45,
            FacingDir::NorthEast => 90,
            FacingDir::East => 135,
            FacingDir::SouthEast => 180,
            FacingDir::South => 225,
            FacingDir::SouthWest => 270,
            FacingDir::West => 315,
        };
        let angles = FEMALE_ANGLES;
        assert(angles@ == FEMALE_ANGLES@);
        let mut best: usize = 0;
        let mut best_d = circular_distance_exec(angles[0], deg);
        let mut i: usize = 1;
        while i < FEMALE_DIR_COUNT
            invariant
                angles@ == FEMALE_ANGLES@,
                deg == self.degrees(),
                1 <= i <= FEMALE_DIR_COUNT,
                best < i,
                forall|j: int| 0 <= j < FEMALE_DIR_COUNT ==> #[trigger] angles@[j] <= 360,
                best_d == circular_distance(angles@[best as int] as int, deg as int),
                forall|j: int| 0 <= j < i ==> best_d <= circular_distance(#[trigger] angles@[j] as int, deg as int),
                forall|j: int| 0 <= j < best ==> circular_distance(#[trigger] angles@[j] as int, deg as int) > best_d,
            decreases FEMALE_DIR_COUNT - i,
        {
            let d = circular_distance_exec(angles[i], deg);
            if d < best_d {
                best = i;
                best_d = d;
            }
            i = i + 1;
        }
        best
    }
}

/// Facing towards the grid delta `(dx, dy)`, by the signs of its
/// components; a zero delta faces south.
pub open spec fn spec_dir_to_facing(dx: int, dy: int) -> FacingDir {
    let sx = if dx > 0 { 1int } else if dx < 0 { -1int } else { 0int };
    let sy = if dy > 0 { 1int } else if dy < 0 { -1int } else { 0int };
    if sx == 0 && sy == -1 {
        FacingDir::North
    } else if sx == 1 && sy == -1 {
        FacingDir::NorthEast
    } else if sx == 1 && sy == 0 {
        FacingDir::East
    } else if sx == 1 && sy == 1 {
        FacingDir::SouthEast
    } else if sx == 0 && sy == 1 {
        FacingDir::South
    } else if sx == -1 && sy == 1 {
        FacingDir::SouthWest
    } else if sx == -1 && sy == 0 {
        FacingDir::West
    } else if sx == -1 && sy == -1 {
        FacingDir::NorthWest
    } else {
        FacingDir::South
    }
}

pub fn dir_to_facing(dx: i32, dy: i32) -> (f: FacingDir)
    ensures
        f == spec_dir_to_facing(dx as int, dy as int),
{
    let sx: i32 = if dx > 0 { 1 } else if dx < 0 { -1 } else { 0 };
    let sy: i32 = if dy > 0 { 1 } else if dy < 0 { -1 } else { 0 };
    match (sx, sy) {
        (0, -1) => FacingDir::North,
        (1, -1) => FacingDir::NorthEast,
        (1, 0) => FacingDir::East,
        (1, 1) => FacingDir::SouthEast,
        (0, 1) => FacingDir::South,
        (-1, 1) => FacingDir::SouthWest,
        (-1, 0) => FacingDir::West,
        (-1, -1) => FacingDir::NorthWest,
        _ => FacingDir::South,
    }
}

/// Grid step `(dx, dy)` of a facing; diagonal facings give diagonal steps.
pub open spec fn spec_grid_delta(f: FacingDir) -> (int, int) {
    match f {
        FacingDir::North => (0, -1),
        FacingDir::NorthEast => (1, -1),
        FacingDir::East => (1, 0),
        FacingDir::SouthEast => (1, 1),
        FacingDir::South => (0, 1),
        FacingDir::SouthWest => (-1, 1),
        FacingDir::West => (-1, 0),
        FacingDir::NorthWest => (-1, -1),
    }
}

pub fn facing_to_grid_delta(facing: FacingDir) -> (d: (i32, i32))
    ensures
        d.0 == spec_grid_delta(facing).0,
        d.1 == spec_grid_delta(facing).1,
{
    match facing {
        FacingDir::North => (0, -1),
        FacingDir::NorthEast => (1, -1),
        FacingDir::East => (1, 0),
        FacingDir::SouthEast => (1, 1),
        FacingDir::South => (0, 1),
        FacingDir::SouthWest => (-1, 1),
        FacingDir::West => (-1, 0),
        FacingDir::NorthWest => (-1, -1),
    }
}

/// Facing a direction's grid step turns back to the same facing, and
/// opposite facings step in opposite directions.
pub proof fn lemma_facing_delta_roundtrip(f: FacingDir)
    ensures
        spec_dir_to_facing(spec_grid_delta(f).0, spec_grid_delta(f).1) == f,
        spec_grid_delta(spec_dir_to_facing(-spec_grid_delta(f).0, -spec_grid_delta(f).1)).0
            == -spec_grid_delta(f).0,
        spec_grid_delta(spec_dir_to_facing(-spec_grid_delta(f).0, -spec_grid_delta(f).1)).1
            == -spec_grid_delta(f).1,
{
}

/// Selects the lighting behaviour attached to the player.
#[derive(Clone, Copy, PartialEq, Eq, Debug, Structural)]
pub enum LightType {
    /// Flickering torch — large omnidirectional radius.
    Torch,
    /// Steady lantern — small omnidirectional radius plus a directional beam.
    Lantern,
    /// Near-darkness — no world light.
    Dark,
}

impl LightType {
    pub open spec fn spec_next(self) -> LightType {
        match self {
            LightType::Torch => LightType::Lantern,
            LightType::Lantern => LightType::Dark,
            LightType::Dark => LightType::Torch,
        }
    }

    /// Advance to the next mode in the cycle: Torch → Lantern → Dark → Torch.
    pub fn next(self) -> (n: Self)
        ensures
            n == self.spec_next(),
    {
        match self {
            LightType::Torch => LightType::Lantern,
            LightType::Dark => LightType::Torch,
            LightType::Lantern => LightType::Dark,
        }
    }
}

/// Three presses of the light key always return to the mode one started from.
pub proof fn lemma_light_cycle(t: LightType)
    ensures
        t.spec_next().spec_next().spec_next() == t,
        t.spec_next() != t,
        t.spec_next().spec_next() != t,
{
}

/// The three phases of a jump sequence: walk-back, run-forward, arc.
#[derive(Clone, Copy, PartialEq, Eq, Debug, Structural)]
pub enum JumpPhase {
    /// Walk backwards one tile; facing is preserved.
    WalkBack,
    /// Run forward one tile back to the origin.
    RunForward,
    /// Parabolic jump arc over two tiles.
    Arc,
}

/// Frames in the spritesheet of a jump phase.
pub open spec fn phase_frame_count(p: JumpPhase) -> usize {
    match p {
        JumpPhase::WalkBack => FEMALE_WALKBACK_FRAME_COUNT,
        JumpPhase::RunForward => FEMALE_RUN_FRAME_COUNT,
        JumpPhase::Arc => FEMALE_JUMP_FRAME_COUNT,
    }
}

/// Timing regime of the frame, cooldown and step timers: `Initial` until the
/// first step, then `Walk` (keyboard steps, and the ends of an auto-travel
/// path) or `Run` (the middle of a long auto-travel path).
#[derive(Clone, Copy, PartialEq, Eq, Debug, Structural)]
pub enum Pace {
    Initial,
    Walk,
    Run,
}

/// Which Female sheet set the normal (non-jump) animation shows.
#[derive(Clone, Copy, PartialEq, Eq, Debug, Structural)]
pub enum MoveCycle {
    Idle,
    Walk,
    Run,
}

/// Whether the player's walk or run animation is active (read by the HUD).
#[derive(Clone, Copy, PartialEq, Eq, Debug, Structural)]
pub struct PlayerMoving(pub bool);

/// Discrete animation and travel state of the player.
pub struct PlayerAnimation {
    pub facing: FacingDir,
    /// True while the player is in motion (walk or run); false when idle.
    pub running: bool,
    /// True when motion was triggered by mouse auto-travel (run animation).
    pub auto_running: bool,
    pub frame: usize,
    /// Timing regime of the frame, cooldown and step timers.
    pub pace: Pace,
    /// Remaining steps for mouse-driven auto-travel, in reverse order so
    /// that popping from the end yields the next step.
    pub path: Vec<(i32, i32)>,
    /// Total length of the path when it was first assigned.
    pub path_total: usize,
    /// True while an auto-travel step is being interpolated between tiles.
    pub lerping: bool,
    /// True while any jump phase is in progress.  Blocks all other movement.
    pub jumping: bool,
    pub jump_phase: JumpPhase,
    /// The grid tile the jump lands on (two tiles ahead of origin).
    pub jump_target: (i32, i32),
    /// The tile the player started the jump on.
    pub jump_origin: (i32, i32),
    /// The tile one step behind the origin (walk-back destination).
    pub jump_back_tile: (i32, i32),
    /// Set once the position has snapped to `jump_target`, at the arc midpoint.
    pub jump_midpoint_reached: bool,
    /// Current frame index in the active jump-phase spritesheet.
    pub jump_frame: usize,
}

/// Which sheet the normal animation shows, and where its frame wraps: the
/// idle sheet while standing, the walk sheet for steps at walking pace
/// (keyboard steps, and the ends of an auto-travel path), and the run sheet
/// only for the running middle of an auto-travel path.
pub proof fn lemma_move_cycle(a: PlayerAnimation)
    ensures
        !a.running ==> a.spec_cycle() == MoveCycle::Idle && cycle_frame_count(a.spec_cycle())
            == FEMALE_IDLE_FRAME_COUNT,
        a.running && !a.auto_running ==> a.spec_cycle() == MoveCycle::Walk && cycle_frame_count(a.spec_cycle())
            == FEMALE_WALK_FRAME_COUNT,
        a.running && a.auto_running ==> a.spec_cycle() == MoveCycle::Run && cycle_frame_count(a.spec_cycle())
            == FEMALE_RUN_FRAME_COUNT,
{
}

/// One jump frame elapsed, as [`PlayerAnimation::advance_jump_frame`] does it.
pub open spec fn jump_tick(a: PlayerAnimation) -> PlayerAnimation {
    if a.jump_frame + 1 >= phase_frame_count(a.jump_phase) {
        match a.jump_phase {
            JumpPhase::WalkBack => PlayerAnimation { jump_phase: JumpPhase::RunForward, jump_frame: 0, ..a },
            JumpPhase::RunForward => PlayerAnimation { jump_phase: JumpPhase::Arc, jump_frame: 0, ..a },
            JumpPhase::Arc => PlayerAnimation {
                jumping: false,
                jump_frame: (FEMALE_JUMP_FRAME_COUNT - 1) as usize,
                ..a
            },
        }
    } else {
        PlayerAnimation { jump_frame: (a.jump_frame + 1) as usize, ..a }
    }
}

/// `a` after `n` jump frames.
pub open spec fn jump_ticks(a: PlayerAnimation, n: nat) -> PlayerAnimation
    decreases n,
{
    if n == 0 {
        a
    } else {
        jump_tick(jump_ticks(a, (n - 1) as nat))
    }
}

/// A jump, once started, plays each of its sheets through exactly once and
/// then lands: the walk-back sheet (`FEMALE_WALKBACK_FRAME_COUNT` frames),
/// then the run sheet (`FEMALE_RUN_FRAME_COUNT`), then the jump sheet
/// (`FEMALE_JUMP_FRAME_COUNT`).  After `n` frames the phase and the frame
/// within its sheet follow from `n` alone, and the frame always lies inside
/// the sheet of its phase.
pub proof fn lemma_jump_sequence(a: PlayerAnimation, n: nat)
    requires
        a.jumping,
        a.jump_phase == JumpPhase::WalkBack,
        a.jump_frame == 0,
        n <= FEMALE_WALKBACK_FRAME_COUNT + FEMALE_RUN_FRAME_COUNT + FEMALE_JUMP_FRAME_COUNT,
    ensures
        ({
            let b = jump_ticks(a, n);
            let w = FEMALE_WALKBACK_FRAME_COUNT as int;
            let r = FEMALE_RUN_FRAME_COUNT as int;
            let j = FEMALE_JUMP_FRAME_COUNT as int;
            &&& n < w ==> b.jumping && b.jump_phase == JumpPhase::WalkBack && b.jump_frame == n
            &&& w <= n < w + r ==> b.jumping && b.jump_phase == JumpPhase::RunForward && b.jump_frame == n - w
            &&& w + r <= n < w + r + j ==> b.jumping && b.jump_phase == JumpPhase::Arc && b.jump_frame == n - w - r
            &&& n == w + r + j ==> !b.jumping && b.jump_phase == JumpPhase::Arc
            &&& b.jump_target == a.jump_target && b.jump_origin == a.jump_origin
                && b.jump_back_tile == a.jump_back_tile && b.facing == a.facing
        }),
    decreases n,
{
    if n > 0 {
        lemma_jump_sequence(a, (n - 1) as nat);
    }
}

/// Frames in the Female sheet shown for a movement cycle.
pub open spec fn cycle_frame_count(c: MoveCycle) -> usize {
    match c {
        MoveCycle::Run => FEMALE_RUN_FRAME_COUNT,
        MoveCycle::Walk => FEMALE_WALK_FRAME_COUNT,
        MoveCycle::Idle => FEMALE_IDLE_FRAME_COUNT,
    }
}

impl PlayerAnimation {
    /// Jump bookkeeping between frames when the position `pos` has been
    /// snapped after every frame: the midpoint is only ever reached in the
    /// arc, it has been reached from the middle of the arc on, and from then
    /// on the player stands on the jump target.
    pub open spec fn jump_settled(&self, pos: MapPosition) -> bool {
        self.jumping ==> {
            &&& self.jump_phase != JumpPhase::Arc ==> !self.jump_midpoint_reached
            &&& self.jump_phase == JumpPhase::Arc && self.jump_frame >= FEMALE_JUMP_FRAME_COUNT / 2
                ==> self.jump_midpoint_reached
            &&& self.jump_midpoint_reached ==> pos.x == self.jump_target.0 && pos.y == self.jump_target.1
        }
    }

    /// The same bookkeeping one frame on, before the position is snapped.
    pub open spec fn jump_advanced(&self, pos: MapPosition) -> bool {
        self.jumping ==> {
            &&& self.jump_phase != JumpPhase::Arc ==> !self.jump_midpoint_reached
            &&& self.jump_phase == JumpPhase::Arc && self.jump_frame > FEMALE_JUMP_FRAME_COUNT / 2
                ==> self.jump_midpoint_reached
            &&& self.jump_midpoint_reached ==> pos.x == self.jump_target.0 && pos.y == self.jump_target.1
        }
    }

    /// `self` and `other` agree on the jump in progress (if any).
    pub open spec fn same_jump(&self, other: &PlayerAnimation) -> bool {
        &&& self.jumping == other.jumping
        &&& self.jump_phase == other.jump_phase
        &&& self.jump_target == other.jump_target
        &&& self.jump_origin == other.jump_origin
        &&& self.jump_back_tile == other.jump_back_tile
        &&& self.jump_midpoint_reached == other.jump_midpoint_reached
        &&& self.jump_frame == other.jump_frame
    }

    pub open spec fn spec_cycle(&self) -> MoveCycle {
        if self.running && self.auto_running {
            MoveCycle::Run
        } else if self.running {
            MoveCycle::Walk
        } else {
            MoveCycle::Idle
        }
    }

    /// Idle, facing south, with no path and no jump in progress.
    pub fn new() -> (a: Self)
        ensures
            a.facing == FacingDir::South,
            !a.running,
            !a.auto_running,
            a.frame == 0,
            a.pace == Pace::Initial,
            a.path@.len() == 0,
            a.path_total == 0,
            !a.lerping,
            !a.jumping,
            a.jump_phase == JumpPhase::WalkBack,
            a.jump_target == (0i32, 0i32),
            a.jump_origin == (0i32, 0i32),
            a.jump_back_tile == (0i32, 0i32),
            !a.jump_midpoint_reached,
            a.jump_frame == 0,
    {
        PlayerAnimation {
            facing: FacingDir::South,
            running: false,
            auto_running: false,
            frame: 0,
            pace: Pace::Initial,
            path: Vec::new(),
            path_total: 0,
            lerping: false,
            jumping: false,
            jump_phase: JumpPhase::WalkBack,
            jump_target: (0, 0),
            jump_origin: (0, 0),
            jump_back_tile: (0, 0),
            jump_midpoint_reached: false,
            jump_frame: 0,
        }
    }

    /// Begin the three-phase jump sequence from `origin`, walking back to
    /// `back_tile` and landing on `target`.  Ongoing motion and auto-travel
    /// are cancelled.
    pub fn trigger_jump(&mut self, origin: (i32, i32), back_tile: (i32, i32), target: (i32, i32))
        ensures
            final(self).jumping,
            final(self).jump_phase == JumpPhase::WalkBack,
            final(self).jump_origin == origin,
            final(self).jump_back_tile == back_tile,
            final(self).jump_target == target,
            !final(self).jump_midpoint_reached,
            final(self).jump_frame == 0,
            !final(self).running,
            final(self).path@.len() == 0,
            !final(self).lerping,
            final(self).facing == old(self).facing,
            final(self).auto_running == old(self).auto_running,
            final(self).frame == old(self).frame,
            final(self).pace == old(self).pace,
            final(self).path_total == old(self).path_total,
            forall|p: MapPosition| #[trigger] final(self).jump_settled(p),
    {
        self.jumping = true;
        self.jump_phase = JumpPhase::WalkBack;
        self.jump_origin = origin;
        self.jump_back_tile = back_tile;
        self.jump_target = target;
        self.jump_midpoint_reached = false;
        self.jump_frame = 0;
        self.running = false;
        self.path.clear();
        self.lerping = false;
    }

    /// Move from the current jump phase to the next, restarting its frame
    /// count.  Returns `true` when the Arc phase has finished instead.
    pub fn advance_jump_phase(&mut self) -> (finished: bool)
        ensures
            finished == (old(self).jump_phase == JumpPhase::Arc),
            old(self).jump_phase == JumpPhase::WalkBack ==> final(self).jump_phase == JumpPhase::RunForward
                && final(self).jump_frame == 0,
            old(self).jump_phase == JumpPhase::RunForward ==> final(self).jump_phase == JumpPhase::Arc
                && final(self).jump_frame == 0,
            old(self).jump_phase == JumpPhase::Arc ==> final(self).jump_phase == JumpPhase::Arc
                && final(self).jump_frame == old(self).jump_frame,
            final(self).jumping == old(self).jumping,
            final(self).jump_target == old(self).jump_target,
            final(self).jump_origin == old(self).jump_origin,
            final(self).jump_back_tile == old(self).jump_back_tile,
            final(self).jump_midpoint_reached == old(self).jump_midpoint_reached,
            final(self).facing == old(self).facing,
            final(self).path@ == old(self).path@,
            final(self).path == old(self).path,
            final(self).running == old(self).running,
            final(self).auto_running == old(self).auto_running,
            final(self).frame == old(self).frame,
            final(self).pace == old(self).pace,
            final(self).path_total == old(self).path_total,
            final(self).lerping == old(self).lerping,
    {
        match self.jump_phase {
            JumpPhase::WalkBack => {
                self.jump_phase = JumpPhase::RunForward;
                self.jump_frame = 0;
                false
            },
            JumpPhase::RunForward => {
                self.jump_phase = JumpPhase::Arc;
                self.jump_frame = 0;
                false
            },
            JumpPhase::Arc => true,
        }
    }

    /// Keyboard step or auto-travel walk step: plays the walk animation.
    /// The frame restarts when switching over from the run animation.
    pub fn trigger_walk(&mut self, facing: FacingDir)
        ensures
            final(self).facing == facing,
            final(self).running,
            !final(self).auto_running,
            final(self).pace == Pace::Walk,
            final(self).frame == (if old(self).auto_running { 0 } else { old(self).frame }),
            final(self).path@ == old(self).path@,
            final(self).path_total == old(self).path_total,
            final(self).lerping == old(self).lerping,
            final(self).same_jump(old(self)),
    {
        if self.auto_running {
            self.frame = 0;
        }
        self.facing = facing;
        self.running = true;
        self.auto_running = false;
        self.pace = Pace::Walk;
    }

    /// Auto-travel run step (middle of a long path): plays the run animation.
    /// The frame restarts when switching over from the walk animation.
    pub fn trigger_run(&mut self, facing: FacingDir)
        ensures
            final(self).facing == facing,
            final(self).running,
            final(self).auto_running,
            final(self).pace == Pace::Run,
            final(self).frame == (if !old(self).auto_running { 0 } else { old(self).frame }),
            final(self).path@ == old(self).path@,
            final(self).path_total == old(self).path_total,
            final(self).lerping == old(self).lerping,
            final(self).same_jump(old(self)),
    {
        if !self.auto_running {
            self.frame = 0;
        }
        self.facing = facing;
        self.running = true;
        self.auto_running = true;
        self.pace = Pace::Run;
    }

    /// The motion cooldown ran out: back to idle from the first frame.
    pub fn stop_running(&mut self)
        ensures
            !final(self).running,
            final(self).frame == 0,
            final(self).auto_running == old(self).auto_running,
            final(self).facing == old(self).facing,
            final(self).path@ == old(self).path@,
            final(self).path_total == old(self).path_total,
            final(self).pace == old(self).pace,
            final(self).lerping == old(self).lerping,
            final(self).same_jump(old(self)),
    {
        self.running = false;
        self.frame = 0;
    }

    /// Which Female sheet set the normal animation shows.
    pub fn move_cycle(&self) -> (c: MoveCycle)
        ensures
            c == self.spec_cycle(),
    {
        if self.running && self.auto_running {
            MoveCycle::Run
        } else if self.running {
            MoveCycle::Walk
        } else {
            MoveCycle::Idle
        }
    }

    /// One animation frame elapsed: the frame counter advances and wraps at
    /// the length of the current sheet (the Male run cycle, or the Female
    /// idle / walk / run sheet).
    pub fn advance_frame(&mut self, kind: CharacterKind)
        requires
            old(self).frame < usize::MAX,
        ensures
            final(self).frame == (old(self).frame + 1) % (match kind {
                CharacterKind::Male => RUN_FRAME_COUNT,
                CharacterKind::Female => cycle_frame_count(old(self).spec_cycle()),
            }) as int,
            final(self).running == old(self).running,
            final(self).auto_running == old(self).auto_running,
            final(self).facing == old(self).facing,
            final(self).path@ == old(self).path@,
            final(self).path_total == old(self).path_total,
            final(self).pace == old(self).pace,
            final(self).lerping == old(self).lerping,
            final(self).same_jump(old(self)),
    {
        let max = match kind {
            CharacterKind::Male => RUN_FRAME_COUNT,
            CharacterKind::Female => match self.move_cycle() {
                MoveCycle::Run => FEMALE_RUN_FRAME_COUNT,
                MoveCycle::Walk => FEMALE_WALK_FRAME_COUNT,
                MoveCycle::Idle => FEMALE_IDLE_FRAME_COUNT,
            },
        };
        self.frame = (self.frame + 1) % max;
    }

    /// One jump frame elapsed.  Past the last frame of a phase the sequence
    /// moves to the next phase; past the last frame of the arc the jump
    /// ends on the arc's last frame, and `true` (landed) is returned.
    pub fn advance_jump_frame(&mut self) -> (landed: bool)
        requires
            old(self).jump_frame < usize::MAX,
        ensures
            landed == (old(self).jump_frame + 1 >= phase_frame_count(old(self).jump_phase)
                && old(self).jump_phase == JumpPhase::Arc),
            *final(self) == jump_tick(*old(self)),
            old(self).jump_frame + 1 < phase_frame_count(old(self).jump_phase) ==> {
                &&& final(self).jump_frame == old(self).jump_frame + 1
                &&& final(self).jump_phase == old(self).jump_phase
                &&& final(self).jumping == old(self).jumping
            },
            old(self).jump_frame + 1 >= phase_frame_count(old(self).jump_phase) ==> {
                &&& old(self).jump_phase == JumpPhase::WalkBack ==> final(self).jump_phase
                    == JumpPhase::RunForward && final(self).jump_frame == 0 && final(self).jumping
                    == old(self).jumping
                &&& old(self).jump_phase == JumpPhase::RunForward ==> final(self).jump_phase
                    == JumpPhase::Arc && final(self).jump_frame == 0 && final(self).jumping
                    == old(self).jumping
                &&& old(self).jump_phase == JumpPhase::Arc ==> final(self).jump_phase == JumpPhase::Arc
                    && !final(self).jumping && final(self).jump_frame == FEMALE_JUMP_FRAME_COUNT - 1
            },
            final(self).jump_target == old(self).jump_target,
            final(self).jump_origin == old(self).jump_origin,
            final(self).jump_back_tile == old(self).jump_back_tile,
            final(self).jump_midpoint_reached == old(self).jump_midpoint_reached,
            final(self).facing == old(self).facing,
            forall|p: MapPosition| #[trigger] old(self).jump_settled(p) ==> final(self).jump_advanced(p),
            forall|p: MapPosition| #[trigger] old(self).jump_settled(p) && old(self).jumping && landed
                ==> p.x == old(self).jump_target.0 && p.y == old(self).jump_target.1,
    {
        let count = match self.jump_phase {
            JumpPhase::WalkBack => FEMALE_WALKBACK_FRAME_COUNT,
            JumpPhase::RunForward => FEMALE_RUN_FRAME_COUNT,
            JumpPhase::Arc => FEMALE_JUMP_FRAME_COUNT,
        };
        if self.jump_frame + 1 >= count {
            let finished = self.advance_jump_phase();
            if finished {
                self.jumping = false;
                self.jump_frame = FEMALE_JUMP_FRAME_COUNT - 1;
            }
            finished
        } else {
            self.jump_frame = self.jump_frame + 1;
            false
        }
    }

    /// Grid position during a jump: the player stands on the back tile from
    /// the middle of the walk-back, on the origin from the middle of the
    /// run-forward, and on the target from the middle of the arc on (the
    /// snap to the target happens once).
    pub fn snap_jump_position(&mut self, pos: &mut MapPosition)
        ensures
            !old(self).jumping ==> *final(pos) == *old(pos) && final(self).jump_midpoint_reached
                == old(self).jump_midpoint_reached,
            old(self).jumping ==> match old(self).jump_phase {
                JumpPhase::WalkBack => {
                    &&& *final(pos) == (if old(self).jump_frame >= FEMALE_WALKBACK_FRAME_COUNT / 2 {
                        MapPosition { x: old(self).jump_back_tile.0, y: old(self).jump_back_tile.1 }
                    } else {
                        *old(pos)
                    })
                    &&& final(self).jump_midpoint_reached == old(self).jump_midpoint_reached
                },
                JumpPhase::RunForward => {
                    &&& *final(pos) == (if old(self).jump_frame >= FEMALE_RUN_FRAME_COUNT / 2 {
                        MapPosition { x: old(self).jump_origin.0, y: old(self).jump_origin.1 }
                    } else {
                        *old(pos)
                    })
                    &&& final(self).jump_midpoint_reached == old(self).jump_midpoint_reached
                },
                JumpPhase::Arc => {
                    let snap = !old(self).jump_midpoint_reached && old(self).jump_frame
                        >= FEMALE_JUMP_FRAME_COUNT / 2;
                    &&& *final(pos) == (if snap {
                        MapPosition { x: old(self).jump_target.0, y: old(self).jump_target.1 }
                    } else {
                        *old(pos)
                    })
                    &&& final(self).jump_midpoint_reached == (old(self).jump_midpoint_reached || snap)
                },
            },
            final(self).jumping == old(self).jumping,
            final(self).jump_phase == old(self).jump_phase,
            final(self).jump_frame == old(self).jump_frame,
            final(self).jump_target == old(self).jump_target,
            final(self).jump_origin == old(self).jump_origin,
            final(self).jump_back_tile == old(self).jump_back_tile,
            final(self).facing == old(self).facing,
            old(self).jump_advanced(*old(pos)) ==> final(self).jump_settled(*final(pos)),
    {
        if !self.jumping {
            return;
        }
        match self.jump_phase {
            JumpPhase::WalkBack => {
                if self.jump_frame >= FEMALE_WALKBACK_FRAME_COUNT / 2 {
                    pos.x = self.jump_back_tile.0;
                    pos.y = self.jump_back_tile.1;
                }
            },
            JumpPhase::RunForward => {
                if self.jump_frame >= FEMALE_RUN_FRAME_COUNT / 2 {
                    pos.x = self.jump_origin.0;
                    pos.y = self.jump_origin.1;
                }
            },
            JumpPhase::Arc => {
                if !self.jump_midpoint_reached && self.jump_frame >= FEMALE_JUMP_FRAME_COUNT / 2 {
                    self.jump_midpoint_reached = true;
                    pos.x = self.jump_target.0;
                    pos.y = self.jump_target.1;
                }
            },
        }
    }
}

} // verus!
