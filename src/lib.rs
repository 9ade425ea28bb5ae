//! State engine of a grid snake game: the body, the free-cell index, the
//! per-step transition and the directional sensors, with their contracts.

mod cells;
mod coord;
mod laws;
mod model;
mod rng;
mod sensors;
mod snake;

pub use crate::cells::{cells_of, lemma_push_fresh, lemma_swap_out, swap_out};
pub use crate::coord::{delta, in_board, shifted, Coord, Direction};
pub use crate::laws::{
    lemma_no_reversal, lemma_self_collision_ends_game, lemma_step_determined, lemma_wall_ends_game,
};
pub use crate::model::{
    board_cells, body_after, carved, column, eats, free_after, key, lemma_grow_valid,
    lemma_shrink_valid, moves, new_head, next_cell, partitions, projected, ray, resolve, take_out,
    SnakeView,
};
pub use crate::sensors::{
    food_distances, food_signal, least, pair_step, ray_hit, wall_distances, wall_gaps,
};
pub use crate::snake::Snake;
