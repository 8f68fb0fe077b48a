pub mod random_source;
