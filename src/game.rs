//! Turns, selection, and the end of the game.
use vstd::prelude::*;
use crate::board::{find_move, initial_cell, lemma_find_move_member, Board, MoveError, MAX_DIM, MIN_DIM};
use crate::moves::lemma_valid_moves_sound;
use crate::pieces::{opponent_of, MoveDetail, Piece, PieceType, PlayerColor};

verus! {

/// Why a selection was refused.
#[derive(Debug, Clone, Copy, PartialEq, Eq, Structural)]
pub enum SelectError {
    /// The game has ended.
    GameOver,
    /// The square is empty.
    NoPiece,
    /// The piece belongs to the side not on move.
    WrongColor,
}

/// One match: the board, whose turn it is, the selected square with its
/// legal moves, and the outcome.
pub struct GameState {
    pub board: Board,
    pub current_player: PlayerColor,
    pub selected_square_coords: Option<(usize, usize)>,
    pub available_moves_for_selected: Option<Vec<MoveDetail>>,
    pub game_over: bool,
    pub winner: Option<PlayerColor>,
}

/// Whether capturing `cap` ends the game.
pub open spec fn takes_royal(cap: Option<Piece>) -> bool {
    cap matches Some(q) && q.piece_type == PieceType::ProductOwner
}

impl GameState {
    /// The legal moves of the piece on `(r, c)` when it belongs to the side on
    /// move; no moves otherwise.
    pub open spec fn legal_list(&self, r: int, c: int) -> Seq<MoveDetail> {
        match self.board.piece_at(r, c) {
            Some(p) => if p.color == self.current_player {
                self.board.valid_moves(r, c, p)
            } else {
                Seq::empty()
            },
            None => Seq::empty(),
        }
    }

    /// The stored moves, if any, are those of the selected piece, which
    /// belongs to the side on move.
    pub open spec fn selection_ok(&self) -> bool {
        match self.available_moves_for_selected {
            None => true,
            Some(v) => match self.selected_square_coords {
                None => false,
                Some(s) => {
                    &&& self.board.piece_at(s.0 as int, s.1 as int) matches Some(p)
                    &&& p.color == self.current_player
                    &&& v@ == self.legal_list(s.0 as int, s.1 as int)
                },
            },
        }
    }

    pub open spec fn wf(&self) -> bool {
        &&& self.board.wf()
        &&& (self.game_over <==> self.winner is Some)
        &&& (!self.game_over ==> self.selection_ok())
    }

    /// The refusal that `select_piece` gives, if any.
    pub open spec fn select_error(&self, r: usize, c: usize) -> Option<SelectError> {
        if self.game_over {
            Some(SelectError::GameOver)
        } else {
            match self.board.piece_at(r as int, c as int) {
                None => Some(SelectError::NoPiece),
                Some(p) => if p.color != self.current_player {
                    Some(SelectError::WrongColor)
                } else {
                    None
                },
            }
        }
    }

    /// The refusal that `attempt_move` gives, if any.
    pub open spec fn attempt_error(&self, from_r: usize, from_c: usize, to_r: usize, to_c: usize) -> Option<MoveError> {
        if self.game_over {
            Some(MoveError::GameOver)
        } else {
            self.board.move_error(from_r, from_c, to_r, to_c, self.current_player, self.legal_list(from_r as int, from_c as int))
        }
    }

    /// The move that `attempt_move` makes, when it is not refused.
    pub open spec fn chosen_move(&self, from_r: usize, from_c: usize, to_r: usize, to_c: usize) -> MoveDetail {
        find_move(self.legal_list(from_r as int, from_c as int), to_r, to_c).unwrap()
    }

    pub open spec fn is_initial(&self, width: usize, height: usize) -> bool {
        &&& self.wf()
        &&& self.board.width == width
        &&& self.board.height == height
        &&& forall|r: int, c: int|
            self.board.on_board(r, c) ==> #[trigger] self.board.piece_at(r, c) == initial_cell(height as int, width as int, r, c)
        &&& self.current_player == PlayerColor::White
        &&& self.selected_square_coords is None
        &&& self.available_moves_for_selected is None
        &&& !self.game_over
        &&& self.winner is None
    }

    /// A new match: the initial layout, White to move.
    pub fn new(width: usize, height: usize) -> (g: GameState)
        requires
            MIN_DIM <= width <= MAX_DIM,
            MIN_DIM <= height <= MAX_DIM,
        ensures
            g.is_initial(width, height),
    {
        GameState {
            board: Board::new(width, height),
            current_player: PlayerColor::White,
            selected_square_coords: None,
            available_moves_for_selected: None,
            game_over: false,
            winner: None,
        }
    }

    /// Starts over on a new board, forgetting selection and outcome.
    pub fn restart(&mut self, width: usize, height: usize)
        requires
            MIN_DIM <= width <= MAX_DIM,
            MIN_DIM <= height <= MAX_DIM,
        ensures
            final(self).is_initial(width, height),
    {
        *self = GameState::new(width, height);
    }

    /// Hands the move to the other side and drops the selection.
    pub fn switch_player(&mut self)
        ensures
            final(self).current_player == opponent_of(old(self).current_player),
            final(self).selected_square_coords is None,
            final(self).available_moves_for_selected is None,
            final(self).board == old(self).board,
            final(self).game_over == old(self).game_over,
            final(self).winner == old(self).winner,
    {
        self.current_player = self.current_player.opponent();
        self.selected_square_coords = None;
        self.available_moves_for_selected = None;
    }

    /// Selects the piece on `(r, c)`, which must belong to the side on move,
    /// and stores its legal moves.
    pub fn select_piece(&mut self, r: usize, c: usize) -> (res: Result<(), SelectError>)
        requires
            old(self).wf(),
        ensures
            final(self).wf(),
            res is Err <==> old(self).select_error(r, c) is Some,
            res matches Err(e) ==> old(self).select_error(r, c) == Some(e) && *final(self) == *old(self),
            res is Ok ==> {
                &&& final(self).board == old(self).board
                &&& final(self).current_player == old(self).current_player
                &&& final(self).game_over == old(self).game_over
                &&& final(self).winner == old(self).winner
                &&& final(self).selected_square_coords == Some((r, c))
                &&& final(self).available_moves_for_selected matches Some(v)
                &&& v@ == old(self).board.valid_moves(r as int, c as int, old(self).board.piece_at(r as int, c as int).unwrap())
            },
    {
        if self.game_over {
            return Err(SelectError::GameOver);
        }
        match self.board.get_piece(r, c) {
            Some(piece) => {
                if piece.color == self.current_player {
                    let moves = self.board.calculate_valid_moves(r, c, piece);
                    self.selected_square_coords = Some((r, c));
                    self.available_moves_for_selected = Some(moves);
                    Ok(())
                } else {
                    Err(SelectError::WrongColor)
                }
            },
            None => Err(SelectError::NoPiece),
        }
    }

    /// The legal moves of the piece on `(from_r, from_c)` if it belongs to the
    /// side on move, else none.
    fn current_moves(&self, from_r: usize, from_c: usize) -> (v: Vec<MoveDetail>)
        requires
            self.board.wf(),
        ensures
            v@ == self.legal_list(from_r as int, from_c as int),
    {
        match self.board.get_piece(from_r, from_c) {
            Some(p) => {
                if p.color == self.current_player {
                    self.board.calculate_valid_moves(from_r, from_c, p)
                } else {
                    Vec::new()
                }
            },
            None => Vec::new(),
        }
    }

    /// Moves the side on move's piece from `(from_r, from_c)` to `(to_r, to_c)`.
    /// Capturing the opposing royal piece ends the game with the mover as
    /// winner; any other move hands the turn over. Returns the captured piece.
    /// A refused move changes nothing.
    pub fn attempt_move(&mut self, from_r: usize, from_c: usize, to_r: usize, to_c: usize) -> (res: Result<Option<Piece>, MoveError>)
        requires
            old(self).wf(),
        ensures
            final(self).wf(),
            res is Err <==> old(self).attempt_error(from_r, from_c, to_r, to_c) is Some,
            res matches Err(e) ==> old(self).attempt_error(from_r, from_c, to_r, to_c) == Some(e) && *final(self) == *old(self),
            res matches Ok(cap) ==> {
                let p = old(self).board.piece_at(from_r as int, from_c as int).unwrap();
                let m = old(self).chosen_move(from_r, from_c, to_r, to_c);
                &&& cap == old(self).board.captured_by(from_r, from_c, p, m)
                &&& final(self).board.cells() == old(self).board.cells_after(from_r, from_c, p, m)
                &&& final(self).board.width == old(self).board.width
                &&& final(self).board.height == old(self).board.height
                &&& takes_royal(cap) ==> {
                    &&& final(self).game_over
                    &&& final(self).winner == Some(old(self).current_player)
                    &&& final(self).current_player == old(self).current_player
                }
                &&& !takes_royal(cap) ==> {
                    &&& !final(self).game_over
                    &&& final(self).current_player == opponent_of(old(self).current_player)
                    &&& final(self).selected_square_coords is None
                    &&& final(self).available_moves_for_selected is None
                }
            },
    {
        if self.game_over {
            return Err(MoveError::GameOver);
        }
        let use_selection = match self.selected_square_coords {
            Some((sr, sc)) => sr == from_r && sc == from_c,
            None => false,
        };
        let current_valid_moves: Vec<MoveDetail> = if use_selection {
            match &self.available_moves_for_selected {
                Some(v) => {
                    let copy = v.clone();
                    assert(copy@ =~= v@);
                    copy
                },
                None => self.current_moves(from_r, from_c),
            }
        } else {
            match self.board.get_piece(from_r, from_c) {
                Some(p) => {
                    if p.color == self.current_player {
                        self.board.calculate_valid_moves(from_r, from_c, p)
                    } else {
                        return Err(MoveError::WrongColor);
                    }
                },
                None => return Err(MoveError::NoPiece),
            }
        };
        proof {
            if let Some(p) = self.board.piece_at(from_r as int, from_c as int) {
                lemma_valid_moves_sound(&self.board, from_r as int, from_c as int, p);
            }
        }
        let player = self.current_player;
        match self.board.move_piece(from_r, from_c, to_r, to_c, player, current_valid_moves.as_slice()) {
            Ok(captured) => {
                if let Some(cap) = captured {
                    if cap.piece_type == PieceType::ProductOwner {
                        self.game_over = true;
                        self.winner = Some(player);
                    }
                }
                if !self.game_over {
                    self.switch_player();
                }
                Ok(captured)
            },
            Err(e) => Err(e),
        }
    }
}

/// The piece whose loss ends the game for `color`.
pub open spec fn royal_of(color: PlayerColor) -> Option<Piece> {
    Some(Piece { piece_type: PieceType::ProductOwner, color })
}

/// Exactly one square of the `height` by `width` grid `g` holds `color`'s royal piece.
pub open spec fn one_royal(g: Seq<Seq<Option<Piece>>>, height: int, width: int, color: PlayerColor) -> bool {
    exists|r: int, c: int|
        0 <= r < height && 0 <= c < width && #[trigger] g[r][c] == royal_of(color) && forall|r2: int, c2: int|
            0 <= r2 < height && 0 <= c2 < width && #[trigger] g[r2][c2] == royal_of(color) ==> r2 == r && c2 == c
}

proof fn lemma_one_royal_after(b: &Board, fr: usize, fc: usize, p: Piece, m: MoveDetail, y: PlayerColor)
    requires
        b.wf(),
        b.on_board(fr as int, fc as int),
        b.cells()[fr as int][fc as int] == Some(p),
        b.on_board(m.to_r as int, m.to_c as int),
        !(m.to_r == fr && m.to_c == fc),
        Board::capture_square(p, m) matches Some(s) ==> b.on_board(s.0 as int, s.1 as int) && !(s.0 == fr && s.1 == fc),
        b.cells()[m.to_r as int][m.to_c as int] is Some ==> Board::capture_square(p, m) == Some((m.to_r, m.to_c)),
        !takes_royal(b.captured_by(fr, fc, p, m)),
        one_royal(b.cells(), b.height as int, b.width as int, y),
    ensures
        one_royal(b.cells_after(fr, fc, p, m), b.height as int, b.width as int, y),
{
    let g = b.cells();
    let a = b.cells_after(fr, fc, p, m);
    let h = b.height as int;
    let w = b.width as int;
    let cs = Board::capture_square(p, m);
    assert forall|r: int, c: int| 0 <= r < h && 0 <= c < w implies #[trigger] a[r][c] == if r == m.to_r && c == m.to_c {
        Some(p)
    } else if cs matches Some(s) && r == s.0 && c == s.1 {
        None
    } else if r == fr && c == fc {
        None
    } else {
        g[r][c]
    } by {
        assert(g[r].len() == w);
    }
    if let Some(s) = cs {
        assert(b.captured_by(fr, fc, p, m) == g[s.0 as int][s.1 as int]);
    }
    let (yr, yc) = choose|yr: int, yc: int|
        0 <= yr < h && 0 <= yc < w && #[trigger] g[yr][yc] == royal_of(y) && forall|r2: int, c2: int|
            0 <= r2 < h && 0 <= c2 < w && #[trigger] g[r2][c2] == royal_of(y) ==> r2 == yr && c2 == yc;
    if Some(p) == royal_of(y) {
        assert(yr == fr && yc == fc);
        assert(a[m.to_r as int][m.to_c as int] == royal_of(y));
        assert forall|r2: int, c2: int|
            0 <= r2 < h && 0 <= c2 < w && #[trigger] a[r2][c2] == royal_of(y) implies r2 == m.to_r && c2 == m.to_c by {
            if !(r2 == m.to_r && c2 == m.to_c) {
                assert(g[r2][c2] == royal_of(y));
            }
        }
    } else {
        assert(a[yr][yc] == royal_of(y));
        assert forall|r2: int, c2: int|
            0 <= r2 < h && 0 <= c2 < w && #[trigger] a[r2][c2] == royal_of(y) implies r2 == yr && c2 == yc by {
            assert(g[r2][c2] == royal_of(y));
        }
    }
}

/// An accepted move that takes no royal piece leaves each side with exactly
/// one royal piece, when each had exactly one before.
pub proof fn lemma_royals_kept(g: &GameState, from_r: usize, from_c: usize, to_r: usize, to_c: usize)
    requires
        g.wf(),
        one_royal(g.board.cells(), g.board.height as int, g.board.width as int, PlayerColor::White),
        one_royal(g.board.cells(), g.board.height as int, g.board.width as int, PlayerColor::Black),
        g.attempt_error(from_r, from_c, to_r, to_c) is None,
        !takes_royal(
            g.board.captured_by(
                from_r,
                from_c,
                g.board.piece_at(from_r as int, from_c as int).unwrap(),
                g.chosen_move(from_r, from_c, to_r, to_c),
            ),
        ),
    ensures
        ({
            let after = g.board.cells_after(
                from_r,
                from_c,
                g.board.piece_at(from_r as int, from_c as int).unwrap(),
                g.chosen_move(from_r, from_c, to_r, to_c),
            );
            &&& one_royal(after, g.board.height as int, g.board.width as int, PlayerColor::White)
            &&& one_royal(after, g.board.height as int, g.board.width as int, PlayerColor::Black)
        }),
{
    let b = &g.board;
    let p = b.piece_at(from_r as int, from_c as int).unwrap();
    let legal = g.legal_list(from_r as int, from_c as int);
    let m = g.chosen_move(from_r, from_c, to_r, to_c);
    lemma_find_move_member(legal, to_r, to_c);
    lemma_valid_moves_sound(b, from_r as int, from_c as int, p);
    let i = choose|i: int| 0 <= i < legal.len() && legal[i] == m;
    assert(b.sound_move(from_r as int, from_c as int, p, legal[i]));
    assert(b.cells()[from_r as int][from_c as int] == Some(p));
    lemma_one_royal_after(b, from_r, from_c, p, m, PlayerColor::White);
    lemma_one_royal_after(b, from_r, from_c, p, m, PlayerColor::Black);
}

/// Once the game is over, every selection and every move is refused.
pub proof fn lemma_over_is_final(g: &GameState, r: usize, c: usize, from_r: usize, from_c: usize, to_r: usize, to_c: usize)
    requires
        g.game_over,
    ensures
        g.select_error(r, c) == Some(SelectError::GameOver),
        g.attempt_error(from_r, from_c, to_r, to_c) == Some(MoveError::GameOver),
{
}

} // verus!
