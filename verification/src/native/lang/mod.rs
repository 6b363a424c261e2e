pub mod hashmap;
