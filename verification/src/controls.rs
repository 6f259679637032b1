//! Keyboard state and frame statistics: which movement keys are held, which
//! camera moves they ask for, and the frames-per-second counter.
use vstd::prelude::*;

verus! {

/// The keys the simulation reacts to.
#[derive(Debug, PartialEq, Eq, Structural, Clone, Copy)]
pub enum Key {
    W,
    A,
    S,
    D,
    Space,
    ShiftLeft,
    ShiftRight,
}

/// A camera move; the caller scales it by speed and elapsed time.
#[derive(Debug, PartialEq, Eq, Structural, Clone, Copy)]
pub enum Move {
    Forward,
    Backward,
    Left,
    Right,
    Up,
    Down,
}

/// The set of keys held down.
pub struct HeldKeys {
    w: bool,
    a: bool,
    s: bool,
    d: bool,
    space: bool,
    shift_left: bool,
    shift_right: bool,
}

impl View for HeldKeys {
    type V = Set<Key>;

    closed spec fn view(&self) -> Set<Key> {
        Set::new(
            |k: Key|
                match k {
                    Key::W => self.w,
                    Key::A => self.a,
                    Key::S => self.s,
                    Key::D => self.d,
                    Key::Space => self.space,
                    Key::ShiftLeft => self.shift_left,
                    Key::ShiftRight => self.shift_right,
                },
        )
    }
}

/// `m` where `asked`, nothing otherwise.
pub open spec fn move_if(asked: bool, m: Move) -> Seq<Move> {
    if asked {
        seq![m]
    } else {
        Seq::empty()
    }
}

/// The moves that the held keys ask for, in the order they are applied:
/// forward (W), backward (S), left (A), right (D), up (Space), down (either
/// Shift). Opposite keys held together both apply.
pub open spec fn moves_for(held: Set<Key>) -> Seq<Move> {
    move_if(held.contains(Key::W), Move::Forward) + move_if(held.contains(Key::S), Move::Backward)
        + move_if(held.contains(Key::A), Move::Left) + move_if(held.contains(Key::D), Move::Right)
        + move_if(held.contains(Key::Space), Move::Up) + move_if(
        held.contains(Key::ShiftLeft) || held.contains(Key::ShiftRight),
        Move::Down,
    )
}

/// Place of each move in the order the moves of a frame are applied.
pub open spec fn move_rank(m: Move) -> int {
    match m {
        Move::Forward => 0,
        Move::Backward => 1,
        Move::Left => 2,
        Move::Right => 3,
        Move::Up => 4,
        Move::Down => 5,
    }
}

proof fn lemma_contains_concat(a: Seq<Move>, b: Seq<Move>, m: Move)
    ensures
        (a + b).contains(m) <==> a.contains(m) || b.contains(m),
{
    if a.contains(m) {
        let i = choose|i: int| 0 <= i < a.len() && a[i] == m;
        assert((a + b)[i] == m);
    }
    if b.contains(m) {
        let i = choose|i: int| 0 <= i < b.len() && b[i] == m;
        assert((a + b)[a.len() + i] == m);
    }
    if (a + b).contains(m) {
        let i = choose|i: int| 0 <= i < (a + b).len() && (a + b)[i] == m;
        if i < a.len() {
            assert(a[i] == m);
        } else {
            assert(b[i - a.len()] == m);
        }
    }
}

proof fn lemma_ranked_concat(a: Seq<Move>, m: Move, asked: bool)
    requires
        forall|i: int, j: int| 0 <= i < j < a.len() ==> move_rank(a[i]) < move_rank(a[j]),
        forall|i: int| 0 <= i < a.len() ==> move_rank(#[trigger] a[i]) < move_rank(m),
    ensures
        forall|i: int, j: int|
            0 <= i < j < (a + move_if(asked, m)).len() ==> move_rank((a + move_if(asked, m))[i])
                < move_rank((a + move_if(asked, m))[j]),
        forall|i: int|
            0 <= i < (a + move_if(asked, m)).len() ==> move_rank(#[trigger] (a + move_if(asked, m))[i])
                <= move_rank(m),
{
}

proof fn lemma_move_if_contains(b: bool, m: Move, x: Move)
    ensures
        move_if(b, m).contains(x) <==> (b && x == m),
{
    if b && x == m {
        assert(move_if(b, m)[0] == x);
    }
}

proof fn lemma_moves_contains(held: Set<Key>, x: Move)
    ensures
        moves_for(held).contains(x) <==> (move_if(held.contains(Key::W), Move::Forward).contains(x)
            || move_if(held.contains(Key::S), Move::Backward).contains(x) || move_if(
            held.contains(Key::A),
            Move::Left,
        ).contains(x) || move_if(held.contains(Key::D), Move::Right).contains(x) || move_if(
            held.contains(Key::Space),
            Move::Up,
        ).contains(x) || move_if(
            held.contains(Key::ShiftLeft) || held.contains(Key::ShiftRight),
            Move::Down,
        ).contains(x)),
{
    let p0 = move_if(held.contains(Key::W), Move::Forward);
    let p1 = move_if(held.contains(Key::S), Move::Backward);
    let p2 = move_if(held.contains(Key::A), Move::Left);
    let p3 = move_if(held.contains(Key::D), Move::Right);
    let p4 = move_if(held.contains(Key::Space), Move::Up);
    let p5 = move_if(held.contains(Key::ShiftLeft) || held.contains(Key::ShiftRight), Move::Down);
    lemma_contains_concat(p0, p1, x);
    lemma_contains_concat(p0 + p1, p2, x);
    lemma_contains_concat(p0 + p1 + p2, p3, x);
    lemma_contains_concat(p0 + p1 + p2 + p3, p4, x);
    lemma_contains_concat(p0 + p1 + p2 + p3 + p4, p5, x);
}

proof fn lemma_moves_asked(held: Set<Key>, x: Move)
    ensures
        moves_for(held).contains(x) <==> match x {
            Move::Forward => held.contains(Key::W),
            Move::Backward => held.contains(Key::S),
            Move::Left => held.contains(Key::A),
            Move::Right => held.contains(Key::D),
            Move::Up => held.contains(Key::Space),
            Move::Down => held.contains(Key::ShiftLeft) || held.contains(Key::ShiftRight),
        },
{
    lemma_moves_contains(held, x);
    lemma_move_if_contains(held.contains(Key::W), Move::Forward, x);
    lemma_move_if_contains(held.contains(Key::S), Move::Backward, x);
    lemma_move_if_contains(held.contains(Key::A), Move::Left, x);
    lemma_move_if_contains(held.contains(Key::D), Move::Right, x);
    lemma_move_if_contains(held.contains(Key::Space), Move::Up, x);
    lemma_move_if_contains(
        held.contains(Key::ShiftLeft) || held.contains(Key::ShiftRight),
        Move::Down,
        x,
    );
}

proof fn lemma_moves_ordered(held: Set<Key>)
    ensures
        forall|i: int, j: int|
            0 <= i < j < moves_for(held).len() ==> move_rank(moves_for(held)[i]) < move_rank(
                moves_for(held)[j],
            ),
{
    let p0 = move_if(held.contains(Key::W), Move::Forward);
    let p1 = move_if(held.contains(Key::S), Move::Backward);
    let p2 = move_if(held.contains(Key::A), Move::Left);
    let p3 = move_if(held.contains(Key::D), Move::Right);
    let p4 = move_if(held.contains(Key::Space), Move::Up);
    lemma_ranked_concat(Seq::empty(), Move::Forward, held.contains(Key::W));
    assert(Seq::<Move>::empty() + p0 =~= p0);
    lemma_ranked_concat(p0, Move::Backward, held.contains(Key::S));
    lemma_ranked_concat(p0 + p1, Move::Left, held.contains(Key::A));
    lemma_ranked_concat(p0 + p1 + p2, Move::Right, held.contains(Key::D));
    lemma_ranked_concat(p0 + p1 + p2 + p3, Move::Up, held.contains(Key::Space));
    lemma_ranked_concat(
        p0 + p1 + p2 + p3 + p4,
        Move::Down,
        held.contains(Key::ShiftLeft) || held.contains(Key::ShiftRight),
    );
}

/// Each move is asked for exactly when its key is held: W forward, S
/// backward, A left, D right, Space up, either Shift down. The moves come
/// once each, in the order forward, backward, left, right, up, down.
pub proof fn lemma_moves_follow_keys(held: Set<Key>)
    ensures
        moves_for(held).contains(Move::Forward) <==> held.contains(Key::W),
        moves_for(held).contains(Move::Backward) <==> held.contains(Key::S),
        moves_for(held).contains(Move::Left) <==> held.contains(Key::A),
        moves_for(held).contains(Move::Right) <==> held.contains(Key::D),
        moves_for(held).contains(Move::Up) <==> held.contains(Key::Space),
        moves_for(held).contains(Move::Down) <==> (held.contains(Key::ShiftLeft) || held.contains(
            Key::ShiftRight,
        )),
        forall|i: int, j: int|
            0 <= i < j < moves_for(held).len() ==> move_rank(moves_for(held)[i]) < move_rank(
                moves_for(held)[j],
            ),
{
    lemma_moves_asked(held, Move::Forward);
    lemma_moves_asked(held, Move::Backward);
    lemma_moves_asked(held, Move::Left);
    lemma_moves_asked(held, Move::Right);
    lemma_moves_asked(held, Move::Up);
    lemma_moves_asked(held, Move::Down);
    lemma_moves_ordered(held);
}

impl HeldKeys {
    /// No key held.
    pub fn new() -> (keys: Self)
        ensures
            keys@ == Set::<Key>::empty(),
    {
        let keys = HeldKeys {
            w: false,
            a: false,
            s: false,
            d: false,
            space: false,
            shift_left: false,
            shift_right: false,
        };
        assert(keys@ =~= Set::<Key>::empty());
        keys
    }

    /// Whether `key` is held.
    pub fn is_held(&self, key: Key) -> (held: bool)
        ensures
            held == self@.contains(key),
    {
        match key {
            Key::W => self.w,
            Key::A => self.a,
            Key::S => self.s,
            Key::D => self.d,
            Key::Space => self.space,
            Key::ShiftLeft => self.shift_left,
            Key::ShiftRight => self.shift_right,
        }
    }

    /// Records a key going down (`pressed`) or up.
    pub fn set_held(&mut self, key: Key, pressed: bool)
        ensures
            final(self)@ == if pressed {
                old(self)@.insert(key)
            } else {
                old(self)@.remove(key)
            },
    {
        match key {
            Key::W => self.w = pressed,
            Key::A => self.a = pressed,
            Key::S => self.s = pressed,
            Key::D => self.d = pressed,
            Key::Space => self.space = pressed,
            Key::ShiftLeft => self.shift_left = pressed,
            Key::ShiftRight => self.shift_right = pressed,
        }
        assert(self@ =~= if pressed {
            old(self)@.insert(key)
        } else {
            old(self)@.remove(key)
        });
    }

    /// The camera moves the held keys ask for this frame, in order.
    #[verifier::rlimit(30)]
    pub fn moves(&self) -> (moves: Vec<Move>)
        ensures
            moves@ == moves_for(self@),
    {
        let ghost h = self@;
        let mut moves: Vec<Move> = Vec::new();
        if self.w {
            moves.push(Move::Forward);
        }
        assert(moves@ =~= move_if(h.contains(Key::W), Move::Forward));
        let ghost p1 = moves@;
        if self.s {
            moves.push(Move::Backward);
        }
        assert(moves@ =~= p1 + move_if(h.contains(Key::S), Move::Backward));
        let ghost p2 = moves@;
        if self.a {
            moves.push(Move::Left);
        }
        assert(moves@ =~= p2 + move_if(h.contains(Key::A), Move::Left));
        let ghost p3 = moves@;
        if self.d {
            moves.push(Move::Right);
        }
        assert(moves@ =~= p3 + move_if(h.contains(Key::D), Move::Right));
        let ghost p4 = moves@;
        if self.space {
            moves.push(Move::Up);
        }
        assert(moves@ =~= p4 + move_if(h.contains(Key::Space), Move::Up));
        let ghost p5 = moves@;
        if self.shift_left || self.shift_right {
            moves.push(Move::Down);
        }
        assert(moves@ =~= p5 + move_if(
            h.contains(Key::ShiftLeft) || h.contains(Key::ShiftRight),
            Move::Down,
        ));
        moves
    }
}

/// Frames counted since the last once-a-second report, and the last report.
pub struct FrameStats {
    pub frame_count: u32,
    pub fps: u32,
}

impl FrameStats {
    /// No frames counted, nothing reported.
    pub fn new() -> (stats: Self)
        ensures
            stats.frame_count == 0,
            stats.fps == 0,
    {
        FrameStats { frame_count: 0, fps: 0 }
    }

    /// Counts a frame; where a second has passed since the last report,
    /// reports the count as the frame rate, restarts the count, and returns
    /// `true` so that the caller restarts its clock.
    pub fn tick(&mut self, second_elapsed: bool) -> (restart: bool)
        requires
            old(self).frame_count < u32::MAX,
        ensures
            restart == second_elapsed,
            second_elapsed ==> final(self).fps == old(self).frame_count + 1 && final(self).frame_count == 0,
            !second_elapsed ==> final(self).fps == old(self).fps && final(self).frame_count
                == old(self).frame_count + 1,
    {
        self.frame_count = self.frame_count + 1;
        if second_elapsed {
            self.fps = self.frame_count;
            self.frame_count = 0;
        }
        second_elapsed
    }
}

} // verus!
