pub mod chunked_vec;
