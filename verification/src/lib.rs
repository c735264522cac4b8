pub mod text;
pub mod natsort;
pub mod sorting;
pub mod mode;
pub mod codes;
pub mod hashing;
pub mod scanner;
pub mod library;
pub mod chapter;
pub mod thumbnail;
pub mod page_cache;
pub mod spread_map;
pub mod fx_progress;
pub mod archive;
pub mod image_processing;
pub mod cover;
pub mod paths;
pub mod storage;
pub mod soundmap;
pub mod audio;
pub mod worker;
pub mod rng;
pub mod app_state;
pub mod settings;
pub mod reader_input;
pub mod reader_plan;
pub mod cover_cache;
