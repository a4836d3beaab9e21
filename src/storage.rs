pub mod local_storage;
