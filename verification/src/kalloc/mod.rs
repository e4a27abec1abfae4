pub mod slab;
