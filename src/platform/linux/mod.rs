pub mod intr;
