pub mod sem;
