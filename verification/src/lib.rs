//! Verified core of an image viewer: the sliding window of cached images,
//! the queues of pending load operations, COCO mask decoding and BC1 block
//! encoding.

pub mod annotations;
pub mod archive;
pub mod bc1;
pub mod build_info;
pub mod coco;
pub mod coco_view;
pub mod decimal;
pub mod file_io;
pub mod image_info;
pub mod img_cache;
pub mod keyboard;
pub mod load_op;
pub mod load_plan;
pub mod navigation;
pub mod loading;
pub mod loading_status;
pub mod pane;
pub mod rle;
pub mod settings;
pub mod viewer;


