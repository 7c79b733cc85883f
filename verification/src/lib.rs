//! Row-level deletes of Iceberg tables.
pub mod arrow_batch;
pub mod batch;
pub mod bitmap;
pub mod delete_file_loader;
pub mod delta_writer;
pub mod error;
pub mod laws;
pub mod metadata;
pub mod position_delete_writer;
pub mod position_map;
pub mod round_trip;
pub mod row_order;
pub mod sorted_position_delete_writer;
pub mod sorting_position_only_delete_writer;
pub mod text;
