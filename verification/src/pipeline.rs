pub mod depth_state;
pub mod render_pass;
pub mod tile;
