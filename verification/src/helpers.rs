pub mod sample_data;
