//! The falling piece: a shape tag, an anchor position, and a rotation
//! index. Each shape owns a fixed table of rotation states, each state
//! being four relative offsets from the anchor. A piece is a pure
//! value: moves and rotations build a new piece, and the board alone
//! decides whether a piece may stand where it is.

use vstd::prelude::*;
use vstd::arithmetic::div_mod::lemma_mod_add_multiples_vanish;
use crate::move_command::MoveCommand;

verus! {

/// A cell coordinate or relative offset: `(x, y)`, column then row.
pub type Pos = (i8, i8);

#[derive(Clone, Copy, Debug, PartialEq, Eq, Structural)]
pub enum MinoType {
    I,
    O,
    S,
    Z,
    J,
    L,
    T,
}

/// How many distinct rotation states the shape's table holds.
/// The asymmetry is the true rotational symmetry of each shape:
/// I/S/Z have 2 states, O has 1, J/L/T have 4.
pub open spec fn state_count(t: MinoType) -> int {
    match t {
        MinoType::I => 2,
        MinoType::O => 1,
        MinoType::S => 2,
        MinoType::Z => 2,
        MinoType::J => 4,
        MinoType::L => 4,
        MinoType::T => 4,
    }
}

/// The `i`-th relative offset of rotation state `s` of shape `t`,
/// as `(dx, dy)` from the anchor.
pub open spec fn rel_offset(t: MinoType, s: int, i: int) -> (int, int) {
    match t {
        MinoType::I => if s == 0 {
            if i == 0 { (0, 0) } else if i == 1 { (0, -1) } else if i == 2 { (0, 1) } else { (0, 2) }
        } else {
            if i == 0 { (0, 0) } else if i == 1 { (-1, 0) } else if i == 2 { (1, 0) } else { (2, 0) }
        },
        MinoType::O => {
            if i == 0 { (0, 0) } else if i == 1 { (1, 0) } else if i == 2 { (0, -1) } else { (1, -1) }
        },
        MinoType::S => if s == 0 {
            if i == 0 { (0, 0) } else if i == 1 { (-1, 0) } else if i == 2 { (0, -1) } else { (1, -1) }
        } else {
            if i == 0 { (0, 0) } else if i == 1 { (0, -1) } else if i == 2 { (1, 0) } else { (1, 1) }
        },
        MinoType::Z => if s == 0 {
            if i == 0 { (0, 0) } else if i == 1 { (1, 0) } else if i == 2 { (0, -1) } else { (-1, -1) }
        } else {
            if i == 0 { (0, 0) } else if i == 1 { (0, 1) } else if i == 2 { (1, 0) } else { (1, -1) }
        },
        MinoType::J => if s == 0 {
            if i == 0 { (0, 0) } else if i == 1 { (0, -1) } else if i == 2 { (0, 1) } else { (-1, 1) }
        } else if s == 1 {
            if i == 0 { (0, 0) } else if i == 1 { (1, 0) } else if i == 2 { (-1, 0) } else { (-1, -1) }
        } else if s == 2 {
            if i == 0 { (0, 0) } else if i == 1 { (0, 1) } else if i == 2 { (0, -1) } else { (1, -1) }
        } else {
            if i == 0 { (0, 0) } else if i == 1 { (-1, 0) } else if i == 2 { (1, 0) } else { (1, 1) }
        },
        MinoType::L => if s == 0 {
            if i == 0 { (0, 0) } else if i == 1 { (0, -1) } else if i == 2 { (0, 1) } else { (1, 1) }
        } else if s == 1 {
            if i == 0 { (0, 0) } else if i == 1 { (1, 0) } else if i == 2 { (-1, 0) } else { (-1, 1) }
        } else if s == 2 {
            if i == 0 { (0, 0) } else if i == 1 { (0, 1) } else if i == 2 { (0, -1) } else { (-1, -1) }
        } else {
            if i == 0 { (0, 0) } else if i == 1 { (-1, 0) } else if i == 2 { (1, 0) } else { (1, -1) }
        },
        MinoType::T => if s == 0 {
            if i == 0 { (0, 0) } else if i == 1 { (0, -1) } else if i == 2 { (1, 0) } else { (-1, 0) }
        } else if s == 1 {
            if i == 0 { (0, 0) } else if i == 1 { (1, 0) } else if i == 2 { (0, 1) } else { (0, -1) }
        } else if s == 2 {
            if i == 0 { (0, 0) } else if i == 1 { (0, 1) } else if i == 2 { (-1, 0) } else { (1, 0) }
        } else {
            if i == 0 { (0, 0) } else if i == 1 { (-1, 0) } else if i == 2 { (0, -1) } else { (0, 1) }
        },
    }
}

/// Every relative offset lies in the small box `[-1, 2] x [-1, 2]`.
pub proof fn lemma_offset_bounds(t: MinoType, s: int, i: int)
    ensures
        -1 <= rel_offset(t, s, i).0 <= 2,
        -1 <= rel_offset(t, s, i).1 <= 2,
{
}

/// The first offset of every rotation state is the anchor itself.
pub proof fn lemma_first_offset_zero(t: MinoType, s: int)
    ensures
        rel_offset(t, s, 0) == (0int, 0int),
{
}

/// Within one rotation state, the four offsets are pairwise distinct.
proof fn lemma_offsets_distinct(t: MinoType, s: int, i: int, j: int)
    requires
        0 <= i < 4,
        0 <= j < 4,
        i != j,
    ensures
        rel_offset(t, s, i) != rel_offset(t, s, j),
{
}

impl MinoType {
    /// The number of rotation states of this shape.
    fn count_states(&self) -> (n: usize)
        ensures
            n as int == state_count(*self),
    {
        match self {
            MinoType::I => 2,
            MinoType::O => 1,
            MinoType::S => 2,
            MinoType::Z => 2,
            MinoType::J => 4,
            MinoType::L => 4,
            MinoType::T => 4,
        }
    }

    /// One entry of the shape's rotation table.
    fn offset_at(&self, s: usize, i: usize) -> (o: (i8, i8))
        requires
            s < state_count(*self),
            i < 4,
        ensures
            (o.0 as int, o.1 as int) == rel_offset(*self, s as int, i as int),
    {
        match self {
            MinoType::I => if s == 0 {
                if i == 0 { (0, 0) } else if i == 1 { (0, -1) } else if i == 2 { (0, 1) } else { (0, 2) }
            } else {
                if i == 0 { (0, 0) } else if i == 1 { (-1, 0) } else if i == 2 { (1, 0) } else { (2, 0) }
            },
            MinoType::O => {
                if i == 0 { (0, 0) } else if i == 1 { (1, 0) } else if i == 2 { (0, -1) } else { (1, -1) }
            },
            MinoType::S => if s == 0 {
                if i == 0 { (0, 0) } else if i == 1 { (-1, 0) } else if i == 2 { (0, -1) } else { (1, -1) }
            } else {
                if i == 0 { (0, 0) } else if i == 1 { (0, -1) } else if i == 2 { (1, 0) } else { (1, 1) }
            },
            MinoType::Z => if s == 0 {
                if i == 0 { (0, 0) } else if i == 1 { (1, 0) } else if i == 2 { (0, -1) } else { (-1, -1) }
            } else {
                if i == 0 { (0, 0) } else if i == 1 { (0, 1) } else if i == 2 { (1, 0) } else { (1, -1) }
            },
            MinoType::J => if s == 0 {
                if i == 0 { (0, 0) } else if i == 1 { (0, -1) } else if i == 2 { (0, 1) } else { (-1, 1) }
            } else if s == 1 {
                if i == 0 { (0, 0) } else if i == 1 { (1, 0) } else if i == 2 { (-1, 0) } else { (-1, -1) }
            } else if s == 2 {
                if i == 0 { (0, 0) } else if i == 1 { (0, 1) } else if i == 2 { (0, -1) } else { (1, -1) }
            } else {
                if i == 0 { (0, 0) } else if i == 1 { (-1, 0) } else if i == 2 { (1, 0) } else { (1, 1) }
            },
            MinoType::L => if s == 0 {
                if i == 0 { (0, 0) } else if i == 1 { (0, -1) } else if i == 2 { (0, 1) } else { (1, 1) }
            } else if s == 1 {
                if i == 0 { (0, 0) } else if i == 1 { (1, 0) } else if i == 2 { (-1, 0) } else { (-1, 1) }
            } else if s == 2 {
                if i == 0 { (0, 0) } else if i == 1 { (0, 1) } else if i == 2 { (0, -1) } else { (-1, -1) }
            } else {
                if i == 0 { (0, 0) } else if i == 1 { (-1, 0) } else if i == 2 { (1, 0) } else { (1, -1) }
            },
            MinoType::T => if s == 0 {
                if i == 0 { (0, 0) } else if i == 1 { (0, -1) } else if i == 2 { (1, 0) } else { (-1, 0) }
            } else if s == 1 {
                if i == 0 { (0, 0) } else if i == 1 { (1, 0) } else if i == 2 { (0, 1) } else { (0, -1) }
            } else if s == 2 {
                if i == 0 { (0, 0) } else if i == 1 { (0, 1) } else if i == 2 { (-1, 0) } else { (1, 0) }
            } else {
                if i == 0 { (0, 0) } else if i == 1 { (-1, 0) } else if i == 2 { (0, -1) } else { (0, 1) }
            },
        }
    }

    /// The full rotation table of this shape: one inner vector of four
    /// `(dx, dy)` offsets per rotation state.
    pub fn pattern(&self) -> (pat: Vec<Vec<(i8, i8)>>)
        ensures
            pat@.len() == state_count(*self),
            forall|s: int| 0 <= s < pat@.len() ==> (#[trigger] pat@[s])@.len() == 4,
            forall|s: int, i: int| 0 <= s < pat@.len() && 0 <= i < 4 ==>
                ((#[trigger] pat@[s]@[i]).0 as int, pat@[s]@[i].1 as int) == rel_offset(*self, s, i),
    {
        let n = self.count_states();
        let mut pat: Vec<Vec<(i8, i8)>> = Vec::new();
        let mut s: usize = 0;
        while s < n
            invariant
                s <= n,
                n as int == state_count(*self),
                pat@.len() == s as int,
                forall|k: int| 0 <= k < s as int ==> (#[trigger] pat@[k])@.len() == 4,
                forall|k: int, i: int| 0 <= k < s as int && 0 <= i < 4 ==>
                    ((#[trigger] pat@[k]@[i]).0 as int, pat@[k]@[i].1 as int) == rel_offset(*self, k, i),
            decreases n - s,
        {
            let mut row: Vec<(i8, i8)> = Vec::new();
            let mut i: usize = 0;
            while i < 4
                invariant
                    i <= 4,
                    s < n,
                    n as int == state_count(*self),
                    row@.len() == i as int,
                    forall|k: int| 0 <= k < i as int ==>
                        ((#[trigger] row@[k]).0 as int, row@[k].1 as int) == rel_offset(*self, s as int, k),
                decreases 4 - i,
            {
                row.push(self.offset_at(s, i));
                i += 1;
            }
            pat.push(row);
            s += 1;
        }
        pat
    }
}

#[derive(Clone, Copy, Debug)]
pub struct Mino {
    pub type_: MinoType,
    pub pos: Pos,
    pub rotation: usize,
}

impl Mino {
    /// The rotation state actually in use: the stored index wraps
    /// around the shape's table.
    pub open spec fn rot_index(self) -> int {
        (self.rotation as int) % state_count(self.type_)
    }

    /// The `i`-th occupied cell, as exact integers.
    pub open spec fn abs_pos(self, i: int) -> (int, int) {
        (self.pos.0 + rel_offset(self.type_, self.rot_index(), i).0,
         self.pos.1 + rel_offset(self.type_, self.rot_index(), i).1)
    }

    /// All four occupied cells stay representable as `i8` coordinates.
    pub open spec fn fits(self) -> bool {
        forall|i: int| 0 <= i < 4 ==> {
            let p = #[trigger] self.abs_pos(i);
            i8::MIN <= p.0 <= i8::MAX && i8::MIN <= p.1 <= i8::MAX
        }
    }

    /// The piece produced by one command, as a value.
    pub open spec fn moved_spec(self, command: MoveCommand) -> Mino {
        match command {
            MoveCommand::Left => Mino {
                type_: self.type_,
                pos: (((self.pos.0 - 1) as i8), self.pos.1),
                rotation: self.rotation,
            },
            MoveCommand::Right => Mino {
                type_: self.type_,
                pos: (((self.pos.0 + 1) as i8), self.pos.1),
                rotation: self.rotation,
            },
            MoveCommand::Down => Mino {
                type_: self.type_,
                pos: (self.pos.0, ((self.pos.1 + 1) as i8)),
                rotation: self.rotation,
            },
            MoveCommand::Rotate => Mino {
                type_: self.type_,
                pos: self.pos,
                rotation: ((self.rotation + 1) as usize),
            },
        }
    }

    /// The four cells this piece occupies, in table order.
    pub fn positions(&self) -> (v: Vec<Pos>)
        requires
            self.fits(),
        ensures
            v@.len() == 4,
            forall|i: int| 0 <= i < 4 ==>
                ((#[trigger] v@[i]).0 as int, v@[i].1 as int) == self.abs_pos(i),
            forall|i: int, j: int| 0 <= i < 4 && 0 <= j < 4 && i != j ==> v@[i] != v@[j],
    {
        let sc = self.type_.count_states();
        let s = self.rotation % sc;
        let mut v: Vec<Pos> = Vec::new();
        let mut i: usize = 0;
        while i < 4
            invariant
                i <= 4,
                self.fits(),
                s as int == self.rot_index(),
                s < state_count(self.type_),
                v@.len() == i as int,
                forall|k: int| 0 <= k < i as int ==>
                    ((#[trigger] v@[k]).0 as int, v@[k].1 as int) == self.abs_pos(k),
            decreases 4 - i,
        {
            let (dx, dy) = self.type_.offset_at(s, i);
            assert(self.abs_pos(i as int).0 == self.pos.0 + dx && self.abs_pos(i as int).1
                == self.pos.1 + dy);
            let x = self.pos.0 + dx;
            let y = self.pos.1 + dy;
            v.push((x, y));
            i += 1;
        }
        proof {
            lemma_occupied_cells_distinct(*self);
        }
        v
    }

    /// Applies one command: shift the anchor by one cell, or advance
    /// the rotation index by one. No legality check happens here.
    pub fn moved(&self, command: MoveCommand) -> (m: Mino)
        requires
            command == MoveCommand::Left ==> self.pos.0 > i8::MIN,
            command == MoveCommand::Right ==> self.pos.0 < i8::MAX,
            command == MoveCommand::Down ==> self.pos.1 < i8::MAX,
            command == MoveCommand::Rotate ==> self.rotation < usize::MAX,
        ensures
            m == self.moved_spec(command),
    {
        match command {
            MoveCommand::Left => Mino {
                type_: self.type_,
                pos: (self.pos.0 - 1, self.pos.1),
                rotation: self.rotation,
            },
            MoveCommand::Right => Mino {
                type_: self.type_,
                pos: (self.pos.0 + 1, self.pos.1),
                rotation: self.rotation,
            },
            MoveCommand::Down => Mino {
                type_: self.type_,
                pos: (self.pos.0, self.pos.1 + 1),
                rotation: self.rotation,
            },
            MoveCommand::Rotate => Mino {
                type_: self.type_,
                pos: self.pos,
                rotation: self.rotation + 1,
            },
        }
    }

    /// A freshly spawned piece: uniformly random shape, the fixed
    /// spawn anchor, rotation zero.
    pub fn random() -> (m: Mino)
        ensures
            m.pos.0 == 5 && m.pos.1 == 1,
            m.rotation == 0,
            m.fits(),
    {
        let idx = random_below(7);
        let t = type_from_index(idx);
        let m = Mino { type_: t, pos: (5, 1), rotation: 0 };
        proof {
            assert forall|i: int| 0 <= i < 4 implies {
                let p = #[trigger] m.abs_pos(i);
                i8::MIN <= p.0 <= i8::MAX && i8::MIN <= p.1 <= i8::MAX
            } by {
                lemma_offset_bounds(m.type_, m.rot_index(), i);
            }
        }
        m
    }
}

/// The shape spawned for each of the seven draw outcomes.
pub open spec fn shape_of_index(i: int) -> MinoType {
    if i == 0 { MinoType::I }
    else if i == 1 { MinoType::O }
    else if i == 2 { MinoType::S }
    else if i == 3 { MinoType::Z }
    else if i == 4 { MinoType::J }
    else if i == 5 { MinoType::L }
    else { MinoType::T }
}

/// Maps a draw outcome to its shape.
pub fn type_from_index(i: u8) -> (t: MinoType)
    ensures
        t == shape_of_index(i as int),
{
    match i {
        0 => MinoType::I,
        1 => MinoType::O,
        2 => MinoType::S,
        3 => MinoType::Z,
        4 => MinoType::J,
        5 => MinoType::L,
        _ => MinoType::T,
    }
}

/// Relies on rand's `Rng::gen_range`: returns a value drawn uniformly
/// from the half-open range `0..n`, which is nonempty here.
#[verifier::external_body]
fn random_below(n: u8) -> (r: u8)
    requires
        n > 0,
    ensures
        r < n,
{
    rand::Rng::gen_range(&mut rand::thread_rng(), 0..n)
}

/// A piece occupies exactly four pairwise distinct cells, whatever its
/// shape, rotation index and anchor.
pub proof fn lemma_occupied_cells_distinct(m: Mino)
    ensures
        forall|i: int, j: int| 0 <= i < 4 && 0 <= j < 4 && i != j ==> m.abs_pos(i) != m.abs_pos(j),
{
    assert forall|i: int, j: int| 0 <= i < 4 && 0 <= j < 4 && i != j implies m.abs_pos(i)
        != m.abs_pos(j) by {
        lemma_offsets_distinct(m.type_, m.rot_index(), i, j);
    }
}

/// Advancing the rotation index by a full state count leaves every
/// occupied cell unchanged: the rotation index wraps.
pub proof fn lemma_rotation_wraps(m: Mino, n: Mino)
    requires
        n.type_ == m.type_,
        n.pos == m.pos,
        n.rotation as int == m.rotation as int + state_count(m.type_),
    ensures
        forall|i: int| 0 <= i < 4 ==> m.abs_pos(i) == n.abs_pos(i),
{
    lemma_mod_add_multiples_vanish(m.rotation as int, state_count(m.type_));
    assert(n.rot_index() == m.rot_index());
}

} // verus!
