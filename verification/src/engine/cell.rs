use vstd::prelude::*;

verus! {

/// The decay value of a fully alive cell.
pub const MAX_DECAY: u8 = 255;

/// The decay value a cell drifts toward: 255 when alive, 0 when dead.
pub open spec fn decay_target(alive: bool) -> int {
    if alive {
        255
    } else {
        0
    }
}

/// One decay update: the decay moves `rate` steps toward its target,
/// saturating at the bounds of a `u8`.
pub open spec fn decay_step(alive: bool, decay: u8, rate: u8) -> u8 {
    if alive {
        if decay + rate > 255 {
            255u8
        } else {
            (decay + rate) as u8
        }
    } else {
        if decay < rate {
            0u8
        } else {
            (decay - rate) as u8
        }
    }
}

/// The decay after `n` updates at a fixed alive state and rate.
pub open spec fn decay_after(alive: bool, decay: u8, rate: u8, n: nat) -> u8
    decreases n,
{
    if n == 0 {
        decay
    } else {
        decay_step(alive, decay_after(alive, decay, rate, (n - 1) as nat), rate)
    }
}

/// A single cell in the cellular automata grid
///
/// Each cell has an alive/dead state and a decay value for smooth visual transitions.
/// The decay value (0-255) determines which glyph to render:
/// - 255 = fully alive (solid block)
/// - 0 = fully dead (empty space)
#[derive(Debug, Clone, Copy, PartialEq, Eq)]
pub struct Cell {
    alive: bool,
    decay: u8,
}

impl Cell {
    /// Whether the cell is alive.
    pub closed spec fn alive_spec(self) -> bool {
        self.alive
    }

    /// The decay value of the cell.
    pub closed spec fn decay_spec(self) -> u8 {
        self.decay
    }

    /// The cell with the given alive state and decay value.
    pub closed spec fn make(alive: bool, decay: u8) -> Cell {
        Cell { alive, decay }
    }

    /// The dead cell with zero decay.
    pub open spec fn dead_spec() -> Cell {
        Cell::make(false, 0)
    }

    /// A cell is determined by its alive state and its decay value.
    pub broadcast proof fn lemma_make_accessors(alive: bool, decay: u8)
        ensures
            #[trigger] Cell::make(alive, decay).alive_spec() == alive,
            Cell::make(alive, decay).decay_spec() == decay,
    {
    }

    /// Two cells with the same alive state and decay are the same cell.
    pub broadcast proof fn lemma_cell_ext(c: Cell)
        ensures
            #[trigger] Cell::make(c.alive_spec(), c.decay_spec()) == c,
    {
    }

    /// Create a new alive cell with full decay
    pub fn alive() -> (c: Cell)
        ensures
            c == Cell::make(true, 255),
    {
        Cell { alive: true, decay: MAX_DECAY }
    }

    /// Create a new dead cell with zero decay
    pub fn dead() -> (c: Cell)
        ensures
            c == Cell::dead_spec(),
    {
        Cell { alive: false, decay: 0 }
    }

    /// Create a cell with specific alive state and decay value
    pub fn with_decay(alive: bool, decay: u8) -> (c: Cell)
        ensures
            c == Cell::make(alive, decay),
    {
        Cell { alive, decay }
    }

    /// Update decay value based on alive state
    ///
    /// Decay gradually moves toward target (255 if alive, 0 if dead).
    /// This creates smooth visual transitions as cells die/spawn.
    ///
    /// # Arguments
    /// * `rate` - How fast to change decay (higher = faster transitions)
    pub fn update_decay(&mut self, rate: u8)
        ensures
            *final(self) == Cell::make(
                old(self).alive_spec(),
                decay_step(old(self).alive_spec(), old(self).decay_spec(), rate),
            ),
    {
        let target: u8 = if self.alive {
            MAX_DECAY
        } else {
            0
        };
        if self.decay < target {
            self.decay = self.decay.saturating_add(rate);
        } else if self.decay > target {
            self.decay = self.decay.saturating_sub(rate);
        }
    }

    /// Check if cell is alive
    pub fn is_alive(&self) -> (b: bool)
        ensures
            b == self.alive_spec(),
    {
        self.alive
    }

    /// Get current decay value (0-255)
    pub fn decay(&self) -> (d: u8)
        ensures
            d == self.decay_spec(),
    {
        self.decay
    }

    /// Set alive state (used while computing the next generation)
    pub fn set_alive(&mut self, alive: bool)
        ensures
            *final(self) == Cell::make(alive, old(self).decay_spec()),
    {
        self.alive = alive;
    }
}

impl Default for Cell {
    fn default() -> (c: Cell)
        ensures
            c == Cell::dead_spec(),
    {
        Cell::dead()
    }
}

/// One decay update never moves away from the target: an alive cell's decay
/// does not decrease, a dead cell's decay does not increase, and a cell whose
/// decay already equals its target keeps it.
pub proof fn lemma_decay_step_toward_target(alive: bool, decay: u8, rate: u8)
    ensures
        alive ==> decay_step(alive, decay, rate) >= decay,
        !alive ==> decay_step(alive, decay, rate) <= decay,
        decay == decay_target(alive) ==> decay_step(alive, decay, rate) == decay,
        decay_step(alive, decay, rate) == decay_target(alive) || {
            &&& alive ==> decay_step(alive, decay, rate) == decay + rate
            &&& !alive ==> decay_step(alive, decay, rate) == decay - rate
        },
{
}

/// One decay update moves the decay by exactly `rate` toward its target,
/// stopping at the target: an alive cell's decay becomes `decay + rate`
/// capped at 255, a dead cell's `decay - rate` floored at 0. So it never
/// moves by more than `rate`, and it moves by exactly `rate` unless that
/// would pass the target.
pub proof fn lemma_decay_step_moves_by_rate(alive: bool, decay: u8, rate: u8)
    ensures
        alive ==> decay_step(alive, decay, rate) as int == if decay as int + rate as int <= 255 {
            decay as int + rate as int
        } else {
            255
        },
        !alive ==> decay_step(alive, decay, rate) as int == if decay as int >= rate as int {
            decay as int - rate as int
        } else {
            0
        },
        -(rate as int) <= decay_step(alive, decay, rate) as int - decay as int <= rate as int,
{
}

/// Repeated decay updates reach the target: after `n` updates at a positive
/// rate with `n * rate >= 255`, the decay equals 255 for an alive cell and 0
/// for a dead one.
pub proof fn lemma_decay_converges(alive: bool, decay: u8, rate: u8, n: nat)
    requires
        rate > 0,
        n * rate >= 255,
    ensures
        decay_after(alive, decay, rate, n) == decay_target(alive),
{
    lemma_decay_after_progress(alive, decay, rate, n);
}

/// After `n` updates the decay has moved at least `n * rate` toward the
/// target, or has reached it.
proof fn lemma_decay_after_progress(alive: bool, decay: u8, rate: u8, n: nat)
    ensures
        alive ==> decay_after(alive, decay, rate, n) >= if decay + n * rate > 255 {
            255
        } else {
            decay + n * rate
        },
        !alive ==> decay_after(alive, decay, rate, n) <= if decay < n * rate {
            0
        } else {
            decay - n * rate
        },
    decreases n,
{
    if n > 0 {
        lemma_decay_after_progress(alive, decay, rate, (n - 1) as nat);
        assert((n - 1) * rate + rate == n * rate) by (nonlinear_arith);
    }
}

} // verus!
