pub mod back_of_house;
pub mod cacher;
pub mod disk;
pub mod grep_config;
pub mod guess;
pub mod manager;
pub mod page;
pub mod persistence;
pub mod pool;
pub mod rectangle;
pub mod shoes;
pub mod summary;

pub use back_of_house::{sample_function, BreakFast, Language};
pub use cacher::Cacher;
pub use disk::{page_offset, DiskManager};
pub use grep_config::GrepConfg;
pub use guess::Guess;
pub use manager::{BufferError, BufferPoolManager, Fetched};
pub use page::{BufferId, PageId, PAGE_SIZE};
pub use pool::{Buffer, BufferPool, Frame};
pub use rectangle::Rectangle;
pub use shoes::{shoes_in_my_size, Shoe};
pub use summary::{Summary, Tweet};
