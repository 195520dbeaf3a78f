//! Probing a hash join table for the left, left-single and full outer joins.
//!
//! [`left_join`] holds the probe of a join on the equality of keys alone, [`left_join_conjunct`]
//! that of a join with other conditions. What is proved of every run of the two is in
//! [`left_join_laws`] and [`left_join_conjunct_laws`], and of every step of a run in
//! [`left_join_steps`] and [`left_join_conjunct_steps`].
pub mod bitmap;
pub mod block;
pub mod event;
pub mod join;
pub mod left_join;
pub mod left_join_conjunct;
pub mod left_join_conjunct_laws;
pub mod left_join_conjunct_steps;
pub mod left_join_laws;
pub mod left_join_steps;
pub mod row_state;
pub mod rows;
pub mod scan_map;
pub mod shape;
