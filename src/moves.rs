//! Move generation for each kind of piece.
use vstd::prelude::*;
use crate::board::{moves_fit, Board};
use crate::pieces::{MoveDetail, Piece, PieceType, PlayerColor};

verus! {

/// One step in each of the eight directions, row step first.
pub open spec fn king_offsets() -> Seq<(int, int)> {
    seq![(-1, -1), (-1, 0), (-1, 1), (0, -1), (0, 1), (1, -1), (1, 0), (1, 1)]
}

/// The eight L-shaped offsets.
pub open spec fn knight_offsets() -> Seq<(int, int)> {
    seq![(1, 2), (1, -2), (-1, 2), (-1, -2), (2, 1), (2, -1), (-2, 1), (-2, -1)]
}

/// `k` steps of `d` from `x`.
pub open spec fn step_from(x: int, d: int, k: int) -> int {
    x + d * k
}

/// `(to_r, to_c)` lies `d` steps from `(r, c)` along a line and `j` lies
/// `k` steps along the same line, with `0 < k < d`.
pub open spec fn strictly_between(r: int, c: int, to_r: int, to_c: int, j: (usize, usize)) -> bool {
    exists|dr: int, dc: int, k: int, d: int|
        -1 <= dr <= 1 && -1 <= dc <= 1 && 0 < k < d <= 3 && to_r == #[trigger] step_from(r, dr, d)
            && to_c == step_from(c, dc, d) && j.0 == step_from(r, dr, k) && j.1 == #[trigger] step_from(c, dc, k)
}

fn king_offset(i: usize) -> (o: (isize, isize))
    requires
        i < 8,
    ensures
        o.0 as int == king_offsets()[i as int].0,
        o.1 as int == king_offsets()[i as int].1,
{
    match i {
        0 => (-1, -1),
        1 => (-1, 0),
        2 => (-1, 1),
        3 => (0, -1),
        4 => (0, 1),
        5 => (1, -1),
        6 => (1, 0),
        _ => (1, 1),
    }
}

fn knight_offset(i: usize) -> (o: (isize, isize))
    requires
        i < 8,
    ensures
        o.0 as int == knight_offsets()[i as int].0,
        o.1 as int == knight_offsets()[i as int].1,
{
    match i {
        0 => (1, 2),
        1 => (1, -2),
        2 => (-1, 2),
        3 => (-1, -2),
        4 => (2, 1),
        5 => (2, -1),
        6 => (-2, 1),
        _ => (-2, -1),
    }
}

impl Board {
    /// The move, if any, of a landing piece of `color` at `(r, c)` by `off`:
    /// onto an empty square, or onto an opposing piece as a capture.
    pub open spec fn landing(&self, r: int, c: int, color: PlayerColor, off: (int, int)) -> Seq<MoveDetail> {
        let tr = r + off.0;
        let tc = c + off.1;
        match self.piece_at(tr, tc) {
            None => if self.on_board(tr, tc) {
                seq![MoveDetail { to_r: tr as usize, to_c: tc as usize, is_capture: false, jumped_piece_coord: None }]
            } else {
                Seq::empty()
            },
            Some(q) => if q.color != color {
                seq![MoveDetail { to_r: tr as usize, to_c: tc as usize, is_capture: true, jumped_piece_coord: None }]
            } else {
                Seq::empty()
            },
        }
    }

    /// The landing moves for each offset of `offs`, in that order.
    pub open spec fn landings(&self, r: int, c: int, color: PlayerColor, offs: Seq<(int, int)>) -> Seq<MoveDetail>
        decreases offs.len(),
    {
        if offs.len() == 0 {
            Seq::empty()
        } else {
            self.landings(r, c, color, offs.drop_last()) + self.landing(r, c, color, offs.last())
        }
    }

    /// The squares 1 to `k` steps from `(r, c)` along `(dr, dc)` are all on the
    /// board and empty.
    pub open spec fn ray_open(&self, r: int, c: int, dr: int, dc: int, k: nat) -> bool
        decreases k,
    {
        if k == 0 {
            true
        } else {
            self.ray_open(r, c, dr, dc, (k - 1) as nat) && self.on_board(r + dr * k, c + dc * k)
                && self.piece_at(r + dr * k, c + dc * k) is None
        }
    }

    /// Scanning the squares 1 to `n` steps along `(dr, dc)` for a jumping piece
    /// of `color`: `None` when a friendly piece or a second opposing piece is
    /// met, else the opposing piece jumped over, if any.
    pub open spec fn path_scan(&self, r: int, c: int, color: PlayerColor, dr: int, dc: int, n: nat) -> Option<Option<(usize, usize)>>
        decreases n,
    {
        if n == 0 {
            Some(None)
        } else {
            match self.path_scan(r, c, color, dr, dc, (n - 1) as nat) {
                None => None,
                Some(j) => match self.piece_at(r + dr * n, c + dc * n) {
                    None => Some(j),
                    Some(q) => if q.color == color || j is Some {
                        None
                    } else {
                        Some(Some(((r + dr * n) as usize, (c + dc * n) as usize)))
                    },
                },
            }
        }
    }

    /// The jump of `k` steps along `(dr, dc)`, if it is allowed.
    pub open spec fn jump(&self, r: int, c: int, color: PlayerColor, dr: int, dc: int, k: nat) -> Seq<MoveDetail> {
        if self.ray_open(r, c, dr, dc, k) {
            match self.path_scan(r, c, color, dr, dc, (k - 1) as nat) {
                None => Seq::empty(),
                Some(j) => seq![MoveDetail {
                    to_r: (r + dr * k) as usize,
                    to_c: (c + dc * k) as usize,
                    is_capture: j is Some,
                    jumped_piece_coord: j,
                }],
            }
        } else {
            Seq::empty()
        }
    }

    /// The jumps of 1 to `k` steps along `(dr, dc)`, shortest first.
    pub open spec fn ray(&self, r: int, c: int, color: PlayerColor, dr: int, dc: int, k: nat) -> Seq<MoveDetail>
        decreases k,
    {
        if k == 0 {
            Seq::empty()
        } else {
            self.ray(r, c, color, dr, dc, (k - 1) as nat) + self.jump(r, c, color, dr, dc, k)
        }
    }

    /// The jumps of up to three steps along each direction of `dirs`, in that order.
    pub open spec fn rays(&self, r: int, c: int, color: PlayerColor, dirs: Seq<(int, int)>) -> Seq<MoveDetail>
        decreases dirs.len(),
    {
        if dirs.len() == 0 {
            Seq::empty()
        } else {
            self.rays(r, c, color, dirs.drop_last()) + self.ray(r, c, color, dirs.last().0, dirs.last().1, 3)
        }
    }

    /// The legal moves of `p` standing at `(r, c)`.
    pub open spec fn valid_moves(&self, r: int, c: int, p: Piece) -> Seq<MoveDetail> {
        match p.piece_type {
            PieceType::ProductOwner => self.landings(r, c, p.color, king_offsets()),
            PieceType::Designer => self.landings(r, c, p.color, knight_offsets()),
            PieceType::Developer => self.rays(r, c, p.color, king_offsets()),
        }
    }

    /// `j` holds an opposing piece strictly between origin and destination.
    pub open spec fn jumped_ok(&self, r: int, c: int, p: Piece, m: MoveDetail, j: (usize, usize)) -> bool {
        &&& self.piece_at(j.0 as int, j.1 as int) matches Some(q)
        &&& q.color != p.color
        &&& strictly_between(r, c, m.to_r as int, m.to_c as int, j)
    }

    /// What holds of every legal move `m` of `p` from `(r, c)`: it lands on the
    /// board; a landing piece never lands on a piece of its own side, and
    /// captures exactly when it lands on a piece; a jumping
    /// piece lands only on an empty square, and when it captures, the captured
    /// piece is an opposing one strictly between origin and destination.
    pub open spec fn sound_move(&self, r: int, c: int, p: Piece, m: MoveDetail) -> bool {
        &&& self.on_board(m.to_r as int, m.to_c as int)
        &&& (m.jumped_piece_coord matches Some(j) ==> self.on_board(j.0 as int, j.1 as int))
        &&& (p.piece_type != PieceType::Developer ==> (self.piece_at(m.to_r as int, m.to_c as int) matches Some(q)
            ==> q.color != p.color))
        &&& (p.piece_type != PieceType::Developer ==> (m.is_capture <==> self.piece_at(m.to_r as int, m.to_c as int) is Some))
        &&& (p.piece_type != PieceType::Developer ==> m.jumped_piece_coord is None)
        &&& (p.piece_type == PieceType::Developer ==> {
            &&& self.piece_at(m.to_r as int, m.to_c as int) is None
            &&& (m.is_capture ==> (m.jumped_piece_coord matches Some(j) && self.jumped_ok(r, c, p, m, j)))
        })
    }
}

impl Board {
    /// Appends the landing move by `(dr, dc)`, if there is one.
    fn push_landing(&self, moves: &mut Vec<MoveDetail>, r: usize, c: usize, color: PlayerColor, dr: isize, dc: isize)
        requires
            self.wf(),
            r < self.height,
            c < self.width,
            -2 <= dr <= 2,
            -2 <= dc <= 2,
        ensures
            final(moves)@ == old(moves)@ + self.landing(r as int, c as int, color, (dr as int, dc as int)),
    {
        let tr = r as isize + dr;
        let tc = c as isize + dc;
        if tr >= 0 && tr < self.height as isize && tc >= 0 && tc < self.width as isize {
            let to_r = tr as usize;
            let to_c = tc as usize;
            match self.grid[to_r][to_c] {
                Some(target_piece) => {
                    if target_piece.color != color {
                        moves.push(MoveDetail { to_r, to_c, is_capture: true, jumped_piece_coord: None });
                    }
                },
                None => {
                    moves.push(MoveDetail { to_r, to_c, is_capture: false, jumped_piece_coord: None });
                },
            }
        }
        assert(final(moves)@ =~= old(moves)@ + self.landing(r as int, c as int, color, (dr as int, dc as int)));
    }

    /// Appends the landing moves for the king offsets, or the knight offsets.
    fn push_landings(&self, moves: &mut Vec<MoveDetail>, r: usize, c: usize, color: PlayerColor, knight: bool)
        requires
            self.wf(),
            r < self.height,
            c < self.width,
        ensures
            final(moves)@ == old(moves)@ + self.landings(
                r as int,
                c as int,
                color,
                if knight { knight_offsets() } else { king_offsets() },
            ),
    {
        let ghost offs = if knight { knight_offsets() } else { king_offsets() };
        let ghost start = moves@;
        let mut i: usize = 0;
        assert(offs.take(0) =~= Seq::<(int, int)>::empty());
        while i < 8
            invariant
                i <= 8,
                self.wf(),
                r < self.height,
                c < self.width,
                offs == if knight { knight_offsets() } else { king_offsets() },
                moves@ == start + self.landings(r as int, c as int, color, offs.take(i as int)),
            decreases 8 - i,
        {
            let (dr, dc) = if knight { knight_offset(i) } else { king_offset(i) };
            assert(offs.take(i + 1).drop_last() =~= offs.take(i as int));
            assert(offs.take(i + 1).last() == (dr as int, dc as int));
            self.push_landing(moves, r, c, color, dr, dc);
            assert(moves@ =~= start + self.landings(r as int, c as int, color, offs.take(i + 1)));
            i = i + 1;
        }
        assert(offs.take(8) =~= offs);
    }
}

/// An open ray is open on every shorter length, and each of its squares is
/// on the board and empty.
proof fn lemma_ray_open_prefix(b: &Board, r: int, c: int, dr: int, dc: int, j: nat, k: nat)
    requires
        j <= k,
        b.ray_open(r, c, dr, dc, k),
    ensures
        b.ray_open(r, c, dr, dc, j),
        1 <= j ==> b.on_board(r + dr * j, c + dc * j) && b.piece_at(r + dr * j, c + dc * j) is None,
    decreases k - j,
{
    if j < k {
        lemma_ray_open_prefix(b, r, c, dr, dc, (j + 1) as nat, k);
    }
}

/// A scan that failed stays failed when it goes on.
proof fn lemma_scan_fails_on(b: &Board, r: int, c: int, color: PlayerColor, dr: int, dc: int, j: nat, n: nat)
    requires
        j <= n,
        b.path_scan(r, c, color, dr, dc, j) is None,
    ensures
        b.path_scan(r, c, color, dr, dc, n) is None,
    decreases n - j,
{
    if j < n {
        lemma_scan_fails_on(b, r, c, color, dr, dc, (j + 1) as nat, n);
    }
}

/// Once a ray is closed, no longer jump is added.
proof fn lemma_ray_closed(b: &Board, r: int, c: int, color: PlayerColor, dr: int, dc: int, m: nat, k: nat)
    requires
        m <= k,
        !b.ray_open(r, c, dr, dc, m),
    ensures
        b.ray(r, c, color, dr, dc, k) == b.ray(r, c, color, dr, dc, m),
    decreases k - m,
{
    if m < k {
        lemma_ray_closed(b, r, c, color, dr, dc, m, (k - 1) as nat);
        assert(!b.ray_open(r, c, dr, dc, k)) by {
            if b.ray_open(r, c, dr, dc, k) {
                lemma_ray_open_prefix(b, r, c, dr, dc, m, k);
            }
        }
        assert(b.ray(r, c, color, dr, dc, k) =~= b.ray(r, c, color, dr, dc, (k - 1) as nat));
    }
}

proof fn lemma_landings_sound(b: &Board, r: int, c: int, p: Piece, offs: Seq<(int, int)>)
    requires
        p.piece_type != PieceType::Developer,
    ensures
        forall|i: int|
            0 <= i < b.landings(r, c, p.color, offs).len() ==> b.sound_move(r, c, p, #[trigger] b.landings(r, c, p.color, offs)[i]),
    decreases offs.len(),
{
    if offs.len() > 0 {
        lemma_landings_sound(b, r, c, p, offs.drop_last());
        let a = b.landings(r, c, p.color, offs.drop_last());
        let l = b.landing(r, c, p.color, offs.last());
        assert forall|i: int| 0 <= i < (a + l).len() implies b.sound_move(r, c, p, #[trigger] (a + l)[i]) by {
            if i >= a.len() {
                assert((a + l)[i] == l[i - a.len()]);
            }
        }
    }
}

/// What a scan reports jumped over is an opposing piece `s` steps along, for
/// some `s` from 1 to `n`.
proof fn lemma_scan_found(b: &Board, r: int, c: int, color: PlayerColor, dr: int, dc: int, n: nat)
    ensures
        b.path_scan(r, c, color, dr, dc, n) matches Some(Some(j)) ==> {
            &&& b.piece_at(j.0 as int, j.1 as int) matches Some(q)
            &&& q.color != color
            &&& exists|s: int| 1 <= s <= n && j.0 == #[trigger] step_from(r, dr, s) && j.1 == step_from(c, dc, s)
        },
    decreases n,
{
    if n > 0 {
        lemma_scan_found(b, r, c, color, dr, dc, (n - 1) as nat);
        if let Some(Some(j)) = b.path_scan(r, c, color, dr, dc, n) {
            if b.path_scan(r, c, color, dr, dc, (n - 1) as nat) == Some(Some(j)) {
                let s = choose|s: int| 1 <= s <= n - 1 && j.0 == #[trigger] step_from(r, dr, s) && j.1 == step_from(c, dc, s);
                assert(1 <= s <= n && j.0 == step_from(r, dr, s) && j.1 == step_from(c, dc, s));
            } else {
                assert(j.0 == step_from(r, dr, n as int) && j.1 == step_from(c, dc, n as int));
            }
        }
    }
}

proof fn lemma_ray_sound(b: &Board, r: int, c: int, p: Piece, dr: int, dc: int, k: nat)
    requires
        p.piece_type == PieceType::Developer,
        -1 <= dr <= 1,
        -1 <= dc <= 1,
        k <= 3,
    ensures
        forall|i: int|
            0 <= i < b.ray(r, c, p.color, dr, dc, k).len() ==> b.sound_move(r, c, p, #[trigger] b.ray(r, c, p.color, dr, dc, k)[i]),
    decreases k,
{
    if k > 0 {
        lemma_ray_sound(b, r, c, p, dr, dc, (k - 1) as nat);
        let a = b.ray(r, c, p.color, dr, dc, (k - 1) as nat);
        let l = b.jump(r, c, p.color, dr, dc, k);
        if l.len() > 0 {
            lemma_ray_open_prefix(b, r, c, dr, dc, k, k);
            lemma_scan_found(b, r, c, p.color, dr, dc, (k - 1) as nat);
            let m = l[0];
            if m.is_capture {
                let j = m.jumped_piece_coord.unwrap();
                let s = choose|s: int| 1 <= s <= k - 1 && j.0 == #[trigger] step_from(r, dr, s) && j.1 == step_from(c, dc, s);
                assert(m.to_r == step_from(r, dr, k as int) && m.to_c == step_from(c, dc, k as int));
                assert(strictly_between(r, c, m.to_r as int, m.to_c as int, j));
            }
            assert(b.sound_move(r, c, p, m));
        }
        assert forall|i: int| 0 <= i < (a + l).len() implies b.sound_move(r, c, p, #[trigger] (a + l)[i]) by {
            if i >= a.len() {
                assert((a + l)[i] == l[i - a.len()]);
            }
        }
    }
}

proof fn lemma_rays_sound(b: &Board, r: int, c: int, p: Piece, dirs: Seq<(int, int)>)
    requires
        p.piece_type == PieceType::Developer,
        forall|i: int| 0 <= i < dirs.len() ==> -1 <= (#[trigger] dirs[i]).0 <= 1 && -1 <= dirs[i].1 <= 1,
    ensures
        forall|i: int|
            0 <= i < b.rays(r, c, p.color, dirs).len() ==> b.sound_move(r, c, p, #[trigger] b.rays(r, c, p.color, dirs)[i]),
    decreases dirs.len(),
{
    if dirs.len() > 0 {
        lemma_rays_sound(b, r, c, p, dirs.drop_last());
        let a = b.rays(r, c, p.color, dirs.drop_last());
        let d = dirs.last();
        assert(d == dirs[dirs.len() - 1]);
        let l = b.ray(r, c, p.color, d.0, d.1, 3);
        lemma_ray_sound(b, r, c, p, d.0, d.1, 3);
        assert forall|i: int| 0 <= i < (a + l).len() implies b.sound_move(r, c, p, #[trigger] (a + l)[i]) by {
            if i >= a.len() {
                assert((a + l)[i] == l[i - a.len()]);
            }
        }
    }
}

/// Every legal move lands on the board; a landing piece never lands on its own
/// side's piece; a jumping piece lands only on an empty square and captures only
/// an opposing piece strictly between its origin and its destination.
pub proof fn lemma_valid_moves_sound(b: &Board, r: int, c: int, p: Piece)
    ensures
        forall|i: int|
            0 <= i < b.valid_moves(r, c, p).len() ==> b.sound_move(r, c, p, #[trigger] b.valid_moves(r, c, p)[i]),
        moves_fit(b.valid_moves(r, c, p), b.height as int, b.width as int),
{
    match p.piece_type {
        PieceType::ProductOwner => lemma_landings_sound(b, r, c, p, king_offsets()),
        PieceType::Designer => lemma_landings_sound(b, r, c, p, knight_offsets()),
        PieceType::Developer => lemma_rays_sound(b, r, c, p, king_offsets()),
    }
}

impl Board {
    /// Scans the `n` squares after `(r, c)` along `(dr, dc)`, all on the board.
    fn scan_path(&self, r: usize, c: usize, color: PlayerColor, dr: isize, dc: isize, n: usize) -> (res: Option<Option<(usize, usize)>>)
        requires
            self.wf(),
            r < self.height,
            c < self.width,
            -1 <= dr <= 1,
            -1 <= dc <= 1,
            n <= 2,
            self.ray_open(r as int, c as int, dr as int, dc as int, n as nat),
        ensures
            res == self.path_scan(r as int, c as int, color, dr as int, dc as int, n as nat),
    {
        let mut jumped: Option<(usize, usize)> = None;
        let mut step: usize = 1;
        let mut pr: isize = r as isize;
        let mut pc: isize = c as isize;
        while step <= n
            invariant
                self.wf(),
                r < self.height,
                c < self.width,
                -1 <= dr <= 1,
                -1 <= dc <= 1,
                n <= 2,
                self.ray_open(r as int, c as int, dr as int, dc as int, n as nat),
                1 <= step <= n + 1,
                pr == r + dr * (step - 1),
                pc == c + dc * (step - 1),
                self.path_scan(r as int, c as int, color, dr as int, dc as int, (step - 1) as nat) == Some(jumped),
            decreases n + 1 - step,
        {
            proof {
                assert(dr * (step - 1) + dr == dr * step) by (nonlinear_arith);
                assert(dc * (step - 1) + dc == dc * step) by (nonlinear_arith);
                assert(-2 <= dr * step <= 2) by (nonlinear_arith)
                    requires
                        -1 <= dr <= 1,
                        1 <= step <= 2,
                ;
                assert(-2 <= dc * step <= 2) by (nonlinear_arith)
                    requires
                        -1 <= dc <= 1,
                        1 <= step <= 2,
                ;
                lemma_ray_open_prefix(self, r as int, c as int, dr as int, dc as int, step as nat, n as nat);
            }
            pr = pr + dr;
            pc = pc + dc;
            let path_r = pr as usize;
            let path_c = pc as usize;
            if let Some(path_piece) = self.grid[path_r][path_c] {
                if path_piece.color == color || jumped.is_some() {
                    proof {
                        lemma_scan_fails_on(self, r as int, c as int, color, dr as int, dc as int, step as nat, n as nat);
                    }
                    return None;
                }
                jumped = Some((path_r, path_c));
            }
            step = step + 1;
        }
        Some(jumped)
    }

    /// Appends the jumps of one to three steps along `(dr, dc)`.
    fn push_ray(&self, moves: &mut Vec<MoveDetail>, r: usize, c: usize, color: PlayerColor, dr: isize, dc: isize)
        requires
            self.wf(),
            r < self.height,
            c < self.width,
            -1 <= dr <= 1,
            -1 <= dc <= 1,
        ensures
            final(moves)@ == old(moves)@ + self.ray(r as int, c as int, color, dr as int, dc as int, 3),
    {
        let ghost start = moves@;
        let mut dist: usize = 1;
        let mut open = true;
        let mut tr: isize = r as isize;
        let mut tc: isize = c as isize;
        assert(start =~= start + self.ray(r as int, c as int, color, dr as int, dc as int, 0));
        while dist <= 3 && open
            invariant
                self.wf(),
                r < self.height,
                c < self.width,
                -1 <= dr <= 1,
                -1 <= dc <= 1,
                1 <= dist <= 4,
                tr == r + dr * (dist - 1),
                tc == c + dc * (dist - 1),
                open == self.ray_open(r as int, c as int, dr as int, dc as int, (dist - 1) as nat),
                moves@ == start + self.ray(r as int, c as int, color, dr as int, dc as int, (dist - 1) as nat),
            decreases 4 - dist,
        {
            proof {
                assert(dr * (dist - 1) + dr == dr * dist) by (nonlinear_arith);
                assert(dc * (dist - 1) + dc == dc * dist) by (nonlinear_arith);
                assert(-3 <= dr * dist <= 3) by (nonlinear_arith)
                    requires
                        -1 <= dr <= 1,
                        1 <= dist <= 3,
                ;
                assert(-3 <= dc * dist <= 3) by (nonlinear_arith)
                    requires
                        -1 <= dc <= 1,
                        1 <= dist <= 3,
                ;
            }
            tr = tr + dr;
            tc = tc + dc;
            if tr < 0 || tr >= self.height as isize || tc < 0 || tc >= self.width as isize {
                open = false;
            } else {
                let to_r = tr as usize;
                let to_c = tc as usize;
                if self.grid[to_r][to_c].is_some() {
                    open = false;
                } else {
                    match self.scan_path(r, c, color, dr, dc, dist - 1) {
                        None => {},
                        Some(j) => {
                            moves.push(MoveDetail { to_r, to_c, is_capture: j.is_some(), jumped_piece_coord: j });
                        },
                    }
                }
            }
            assert(moves@ =~= start + self.ray(r as int, c as int, color, dr as int, dc as int, dist as nat));
            dist = dist + 1;
        }
        proof {
            if !open {
                lemma_ray_closed(self, r as int, c as int, color, dr as int, dc as int, (dist - 1) as nat, 3);
            }
        }
    }

    /// Appends the jumps along each of the eight directions.
    fn push_rays(&self, moves: &mut Vec<MoveDetail>, r: usize, c: usize, color: PlayerColor)
        requires
            self.wf(),
            r < self.height,
            c < self.width,
        ensures
            final(moves)@ == old(moves)@ + self.rays(r as int, c as int, color, king_offsets()),
    {
        let ghost offs = king_offsets();
        let ghost start = moves@;
        let mut i: usize = 0;
        assert(offs.take(0) =~= Seq::<(int, int)>::empty());
        while i < 8
            invariant
                i <= 8,
                self.wf(),
                r < self.height,
                c < self.width,
                offs == king_offsets(),
                moves@ == start + self.rays(r as int, c as int, color, offs.take(i as int)),
            decreases 8 - i,
        {
            let (dr, dc) = king_offset(i);
            assert(offs.take(i + 1).drop_last() =~= offs.take(i as int));
            assert(offs.take(i + 1).last() == (dr as int, dc as int));
            self.push_ray(moves, r, c, color, dr, dc);
            assert(moves@ =~= start + self.rays(r as int, c as int, color, offs.take(i + 1)));
            i = i + 1;
        }
        assert(offs.take(8) =~= offs);
    }

    /// The legal moves of `piece` standing at `(start_r, start_c)`.
    pub fn calculate_valid_moves(&self, start_r: usize, start_c: usize, piece: Piece) -> (moves: Vec<MoveDetail>)
        requires
            self.wf(),
            start_r < self.height,
            start_c < self.width,
        ensures
            moves@ == self.valid_moves(start_r as int, start_c as int, piece),
            moves_fit(moves@, self.height as int, self.width as int),
            forall|i: int| 0 <= i < moves@.len() ==> self.sound_move(start_r as int, start_c as int, piece, #[trigger] moves@[i]),
    {
        proof {
            lemma_valid_moves_sound(self, start_r as int, start_c as int, piece);
        }
        let mut moves: Vec<MoveDetail> = Vec::new();
        match piece.piece_type {
            PieceType::ProductOwner => self.push_landings(&mut moves, start_r, start_c, piece.color, false),
            PieceType::Designer => self.push_landings(&mut moves, start_r, start_c, piece.color, true),
            PieceType::Developer => self.push_rays(&mut moves, start_r, start_c, piece.color),
        }
        assert(moves@ =~= self.valid_moves(start_r as int, start_c as int, piece));
        moves
    }
}

} // verus!
