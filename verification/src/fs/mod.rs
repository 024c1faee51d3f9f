pub mod trinityfs;
