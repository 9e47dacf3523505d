//! The grid, its initial layout, and making a move on it.
use vstd::prelude::*;
use crate::pieces::{MoveDetail, Piece, PieceType, PlayerColor};

verus! {

/// Narrowest and widest board, in either direction.
pub const MIN_DIM: usize = 6;
pub const MAX_DIM: usize = 12;

/// Whether `n` is an allowed number of rows or columns.
pub fn is_valid_dimension(n: usize) -> (r: bool)
    ensures
        r == (MIN_DIM <= n && n <= MAX_DIM),
{
    MIN_DIM <= n && n <= MAX_DIM
}

/// The grid: `grid[row][col]`, row 0 being White's home row.
pub struct Board {
    pub grid: Vec<Vec<Option<Piece>>>,
    pub width: usize,
    pub height: usize,
}

pub open spec fn set_cell(g: Seq<Seq<Option<Piece>>>, r: int, c: int, v: Option<Piece>) -> Seq<Seq<Option<Piece>>> {
    g.update(r, g[r].update(c, v))
}

/// What the initial layout puts on a square.
pub open spec fn initial_cell(height: int, width: int, r: int, c: int) -> Option<Piece> {
    if r == 0 && c == 0 {
        Some(Piece { piece_type: PieceType::ProductOwner, color: PlayerColor::White })
    } else if r == 0 && c == 1 {
        Some(Piece { piece_type: PieceType::Developer, color: PlayerColor::White })
    } else if r == 0 && c == 2 {
        Some(Piece { piece_type: PieceType::Designer, color: PlayerColor::White })
    } else if r == height - 1 && c == width - 1 {
        Some(Piece { piece_type: PieceType::ProductOwner, color: PlayerColor::Black })
    } else if r == height - 1 && c == width - 2 {
        Some(Piece { piece_type: PieceType::Developer, color: PlayerColor::Black })
    } else if r == height - 1 && c == width - 3 {
        Some(Piece { piece_type: PieceType::Designer, color: PlayerColor::Black })
    } else {
        None
    }
}

/// The first move in `moves` that lands on `(to_r, to_c)`.
pub open spec fn find_move(moves: Seq<MoveDetail>, to_r: usize, to_c: usize) -> Option<MoveDetail>
    decreases moves.len(),
{
    if moves.len() == 0 {
        None
    } else if moves[0].to_r == to_r && moves[0].to_c == to_c {
        Some(moves[0])
    } else {
        find_move(moves.drop_first(), to_r, to_c)
    }
}

/// Why a move was refused.
#[derive(Debug, Clone, Copy, PartialEq, Eq, Structural)]
pub enum MoveError {
    /// No piece on the origin square.
    NoPiece,
    /// The piece on the origin square belongs to the other side.
    WrongColor,
    /// Origin and destination are the same square.
    SameSquare,
    /// The destination is not among the piece's legal moves.
    IllegalDestination,
    /// The game has ended.
    GameOver,
}

/// Every destination and jumped square of `moves` lies on a `height` by `width` board.
pub open spec fn moves_fit(moves: Seq<MoveDetail>, height: int, width: int) -> bool {
    forall|i: int|
        0 <= i < moves.len() ==> {
            let m = #[trigger] moves[i];
            &&& m.to_r < height
            &&& m.to_c < width
            &&& (m.jumped_piece_coord matches Some(j) ==> j.0 < height && j.1 < width)
        }
}

impl Board {
    pub open spec fn wf(&self) -> bool {
        &&& MIN_DIM <= self.width <= MAX_DIM
        &&& MIN_DIM <= self.height <= MAX_DIM
        &&& self.grid@.len() == self.height
        &&& forall|r: int| 0 <= r < self.height ==> (#[trigger] self.grid@[r])@.len() == self.width
    }

    /// The squares, row by row.
    pub open spec fn cells(&self) -> Seq<Seq<Option<Piece>>> {
        self.grid@.map_values(|row: Vec<Option<Piece>>| row@)
    }

    pub open spec fn on_board(&self, r: int, c: int) -> bool {
        0 <= r < self.height && 0 <= c < self.width
    }

    /// The piece on a square; `None` for an empty square or one off the board.
    pub open spec fn piece_at(&self, r: int, c: int) -> Option<Piece> {
        if self.on_board(r, c) {
            self.grid@[r]@[c]
        } else {
            None
        }
    }

    /// The refusal that `move_piece` gives, if any.
    pub open spec fn move_error(&self, from_r: usize, from_c: usize, to_r: usize, to_c: usize, player: PlayerColor, moves: Seq<MoveDetail>) -> Option<MoveError> {
        match self.piece_at(from_r as int, from_c as int) {
            None => Some(MoveError::NoPiece),
            Some(p) => {
                if p.color != player {
                    Some(MoveError::WrongColor)
                } else if from_r == to_r && from_c == to_c {
                    Some(MoveError::SameSquare)
                } else if find_move(moves, to_r, to_c) is None {
                    Some(MoveError::IllegalDestination)
                } else {
                    None
                }
            },
        }
    }

    /// The grid once the origin is cleared, before anything is captured.
    pub open spec fn lifted(&self, from_r: usize, from_c: usize) -> Seq<Seq<Option<Piece>>> {
        set_cell(self.cells(), from_r as int, from_c as int, None)
    }

    /// The square from which move `m` of piece `p` takes a piece, if it captures.
    pub open spec fn capture_square(p: Piece, m: MoveDetail) -> Option<(usize, usize)> {
        if !m.is_capture {
            None
        } else if p.piece_type == PieceType::Developer {
            m.jumped_piece_coord
        } else {
            Some((m.to_r, m.to_c))
        }
    }

    /// The piece that move `m` of `p` from `(from_r, from_c)` captures.
    pub open spec fn captured_by(&self, from_r: usize, from_c: usize, p: Piece, m: MoveDetail) -> Option<Piece> {
        match Self::capture_square(p, m) {
            None => None,
            Some(s) => self.lifted(from_r, from_c)[s.0 as int][s.1 as int],
        }
    }

    /// The grid after move `m` of `p` from `(from_r, from_c)`.
    pub open spec fn cells_after(&self, from_r: usize, from_c: usize, p: Piece, m: MoveDetail) -> Seq<Seq<Option<Piece>>> {
        let g1 = self.lifted(from_r, from_c);
        let g2 = match Self::capture_square(p, m) {
            None => g1,
            Some(s) => set_cell(g1, s.0 as int, s.1 as int, None),
        };
        set_cell(g2, m.to_r as int, m.to_c as int, Some(p))
    }

    /// An empty board of `height` rows and `width` columns with the six
    /// pieces in their initial places.
    pub fn new(width: usize, height: usize) -> (b: Board)
        requires
            MIN_DIM <= width <= MAX_DIM,
            MIN_DIM <= height <= MAX_DIM,
        ensures
            b.wf(),
            b.width == width,
            b.height == height,
            forall|r: int, c: int|
                b.on_board(r, c) ==> #[trigger] b.piece_at(r, c) == initial_cell(height as int, width as int, r, c),
    {
        let mut grid: Vec<Vec<Option<Piece>>> = Vec::new();
        let mut i: usize = 0;
        while i < height
            invariant
                i <= height,
                grid@.len() == i,
                forall|r: int| 0 <= r < i ==> (#[trigger] grid@[r])@.len() == width,
            decreases height - i,
        {
            let mut row: Vec<Option<Piece>> = Vec::new();
            let mut j: usize = 0;
            while j < width
                invariant
                    j <= width,
                    row@.len() == j,
                decreases width - j,
            {
                row.push(None);
                j = j + 1;
            }
            grid.push(row);
            i = i + 1;
        }
        let mut board = Board { grid, width, height };
        board.setup_pieces();
        board
    }

    /// Empties every square, then places each side's three pieces on its home row.
    pub fn setup_pieces(&mut self)
        requires
            old(self).wf(),
        ensures
            final(self).wf(),
            final(self).width == old(self).width,
            final(self).height == old(self).height,
            forall|r: int, c: int|
                final(self).on_board(r, c) ==> #[trigger] final(self).piece_at(r, c) == initial_cell(
                    final(self).height as int,
                    final(self).width as int,
                    r,
                    c,
                ),
    {
        let h = self.height;
        let w = self.width;
        let mut r: usize = 0;
        while r < h
            invariant
                self.wf(),
                self.width == w,
                self.height == h,
                r <= h,
                forall|i: int, j: int| 0 <= i < r && 0 <= j < w ==> (#[trigger] self.grid@[i]@[j]) is None,
            decreases h - r,
        {
            let mut c: usize = 0;
            while c < w
                invariant
                    self.wf(),
                    self.width == w,
                    self.height == h,
                    r < h,
                    c <= w,
                    forall|i: int, j: int| 0 <= i < r && 0 <= j < w ==> (#[trigger] self.grid@[i]@[j]) is None,
                    forall|j: int| 0 <= j < c ==> (#[trigger] self.grid@[r as int]@[j]) is None,
                decreases w - c,
            {
                self.grid[r][c] = None;
                c = c + 1;
            }
            r = r + 1;
        }
        if w >= 1 {
            self.grid[0][0] = Some(Piece::new(PieceType::ProductOwner, PlayerColor::White));
        }
        if w >= 2 {
            self.grid[0][1] = Some(Piece::new(PieceType::Developer, PlayerColor::White));
        }
        if w >= 3 {
            self.grid[0][2] = Some(Piece::new(PieceType::Designer, PlayerColor::White));
        }
        let top_row = h - 1;
        if w >= 1 {
            self.grid[top_row][w - 1] = Some(Piece::new(PieceType::ProductOwner, PlayerColor::Black));
        }
        if w >= 2 {
            self.grid[top_row][w - 2] = Some(Piece::new(PieceType::Developer, PlayerColor::Black));
        }
        if w >= 3 {
            self.grid[top_row][w - 3] = Some(Piece::new(PieceType::Designer, PlayerColor::Black));
        }
    }

    /// The piece on a square; `None` when it is empty or off the board.
    pub fn get_piece(&self, r: usize, c: usize) -> (p: Option<Piece>)
        requires
            self.wf(),
        ensures
            p == self.piece_at(r as int, c as int),
    {
        if r < self.height && c < self.width {
            self.grid[r][c]
        } else {
            None
        }
    }
}

/// A move that `find_move` finds lands where asked and is one of `moves`.
pub proof fn lemma_find_move_member(moves: Seq<MoveDetail>, to_r: usize, to_c: usize)
    ensures
        find_move(moves, to_r, to_c) matches Some(m) ==> {
            &&& m.to_r == to_r
            &&& m.to_c == to_c
            &&& exists|i: int| 0 <= i < moves.len() && moves[i] == m
        },
    decreases moves.len(),
{
    if moves.len() > 0 && !(moves[0].to_r == to_r && moves[0].to_c == to_c) {
        lemma_find_move_member(moves.drop_first(), to_r, to_c);
        if let Some(m) = find_move(moves, to_r, to_c) {
            let i = choose|i: int| 0 <= i < moves.drop_first().len() && moves.drop_first()[i] == m;
            assert(moves[i + 1] == m);
        }
    } else if moves.len() > 0 {
        assert(moves[0] == find_move(moves, to_r, to_c).unwrap());
    }
}

impl Board {
    /// Moves `player`'s piece from `(from_r, from_c)` to `(to_r, to_c)`, which
    /// must be the destination of one of `valid_moves`; the first such move
    /// decides what is captured: for a jumping piece the piece on its jumped
    /// square (none if the move names no such square), for the others the
    /// piece on the destination. Returns the captured piece. A refused move
    /// leaves the board as it was.
    pub fn move_piece(
        &mut self,
        from_r: usize,
        from_c: usize,
        to_r: usize,
        to_c: usize,
        current_player: PlayerColor,
        valid_moves: &[MoveDetail],
    ) -> (res: Result<Option<Piece>, MoveError>)
        requires
            old(self).wf(),
            moves_fit(valid_moves@, old(self).height as int, old(self).width as int),
        ensures
            final(self).wf(),
            final(self).width == old(self).width,
            final(self).height == old(self).height,
            res is Err <==> old(self).move_error(from_r, from_c, to_r, to_c, current_player, valid_moves@) is Some,
            res matches Err(e) ==> {
                &&& old(self).move_error(from_r, from_c, to_r, to_c, current_player, valid_moves@) == Some(e)
                &&& *final(self) == *old(self)
            },
            res matches Ok(cap) ==> {
                let p = old(self).piece_at(from_r as int, from_c as int).unwrap();
                let m = find_move(valid_moves@, to_r, to_c).unwrap();
                &&& cap == old(self).captured_by(from_r, from_c, p, m)
                &&& final(self).cells() == old(self).cells_after(from_r, from_c, p, m)
            },
    {
        let moving_piece = match self.get_piece(from_r, from_c) {
            Some(p) => p,
            None => return Err(MoveError::NoPiece),
        };
        if moving_piece.color != current_player {
            return Err(MoveError::WrongColor);
        }
        if from_r == to_r && from_c == to_c {
            return Err(MoveError::SameSquare);
        }
        let m = match find_move_to(valid_moves, to_r, to_c) {
            Some(m) => m,
            None => return Err(MoveError::IllegalDestination),
        };
        proof {
            lemma_find_move_member(valid_moves@, to_r, to_c);
        }
        let ghost g1 = self.lifted(from_r, from_c);
        self.grid[from_r][from_c] = None;
        assert(self.cells() =~~= g1);
        let mut captured: Option<Piece> = None;
        if m.is_capture {
            match moving_piece.piece_type {
                PieceType::Developer => {
                    if let Some((jr, jc)) = m.jumped_piece_coord {
                        captured = self.grid[jr][jc];
                        self.grid[jr][jc] = None;
                    }
                },
                _ => {
                    captured = self.grid[to_r][to_c];
                    self.grid[to_r][to_c] = None;
                },
            }
        }
        let ghost g2 = self.cells();
        self.grid[to_r][to_c] = Some(moving_piece);
        assert(self.cells() =~~= set_cell(g2, to_r as int, to_c as int, Some(moving_piece)));
        Ok(captured)
    }
}

/// The first move in `moves` that lands on `(to_r, to_c)`.
pub fn find_move_to(moves: &[MoveDetail], to_r: usize, to_c: usize) -> (res: Option<MoveDetail>)
    ensures
        res == find_move(moves@, to_r, to_c),
{
    let mut i: usize = 0;
    assert(moves@.subrange(0, moves@.len() as int) =~= moves@);
    while i < moves.len()
        invariant
            i <= moves@.len(),
            find_move(moves@, to_r, to_c) == find_move(moves@.subrange(i as int, moves@.len() as int), to_r, to_c),
        decreases moves@.len() - i,
    {
        let ghost rest = moves@.subrange(i as int, moves@.len() as int);
        assert(rest.drop_first() =~= moves@.subrange(i + 1, moves@.len() as int));
        if moves[i].to_r == to_r && moves[i].to_c == to_c {
            return Some(moves[i]);
        }
        i = i + 1;
    }
    None
}

} // verus!
