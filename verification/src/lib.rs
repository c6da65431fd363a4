//! A chess rules engine: board representation, pseudo-legal move generation,
//! check detection, legality filtering, and the special moves (castling,
//! en passant, promotion, double pawn push).

pub mod board;
pub mod laws;
pub mod chess_move;
pub mod gen;
pub mod piece;
pub mod player;
pub mod rng;
pub mod square;
pub mod state;

pub use chess_move::ChessMove;
pub use chess_move::MoveKind;
pub use chess_move::PerformedMove;
pub use piece::ChessColour;
pub use piece::Piece;
pub use piece::PieceKind;
pub use player::MoveInfo;
pub use player::Player;
pub use player::RandomPlayer;
pub use square::Square;
pub use state::State;
