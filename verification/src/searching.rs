pub mod boyer_moore_horspool;
