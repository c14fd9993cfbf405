//! A chess rules engine: move legality, pathway obstruction, threat
//! detection, and end-of-turn game-state classification (ongoing,
//! stalemate, checkmate), with the board owned by a single session value.
//! The crate performs no I/O and no rendering; a caller supplies square
//! indices and reads the resulting state back.

mod board;
mod geometry;
mod moves;
mod piece;
mod pos;
mod state;
mod threat;

pub use board::{
    count_up_to, dec_sat, init_piece_at, kings_synced, lemma_accepted_drag_effects,
    lemma_kings_stay_synced, lemma_rejected_drag_unchanged, piece_of_index, spec_counted,
    spec_drag, spec_init_board, spec_init_counts, spec_init_session, spec_promoted, state_inv,
    BoardState, ChessBoard,
};
pub use geometry::{
    between_sq, between_xy, colinear_xy, diag_sq, diag_xy, dist, file_of, gamma_sq, gamma_xy,
    on_board, rank_of, square_at, straight_sq, straight_xy, strict_mid, valid_sq,
};
pub use moves::{
    legal_move, lemma_enclosed_rook, path_clear, path_open, pawn_rule, spec_legal_move,
    spec_path_clear,
};
pub use piece::{
    bishop_of, color_matches, is_king, is_knight, is_pawn, king_of, knight_of, lemma_enemy_laws,
    pawn_dir, pawn_of, piece_index, queen_of, rook_of, spec_is_black, spec_is_enemy,
    spec_is_white, spec_piece_index, ChessPathway, ChessPiece, ChessPieceType, ChessState,
};
pub use pos::{lemma_between_laws, lemma_square_roundtrip, ChessPos};
pub use state::{
    evaluate_status, spec_any_defender_move, spec_can_interpose, spec_defender_move,
    spec_evaluate, spec_interposes, spec_king_trapped, spec_neighbor_unsafe,
};
pub use threat::{
    attacks, knight_first, lemma_first_attacker_none, lemma_first_attacker_sound, ray_hit,
    ray_scan, spec_first_attacker, square_under_attack, under_attack,
};
