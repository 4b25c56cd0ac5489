//! Turns clinical specification workbooks into ordered lists of generation
//! items, and expands those items into per-file render descriptors.
//!
//! The readers ([`SdtmSpecReader`], [`AdamSpecReader`], [`TopReader`]) work on
//! a [`Workbook`] of plain cell values; [`Generator`] plans one program per
//! item that the requested group keeps. Each module states what its
//! functions give as spec functions, and proves its laws next to them.

pub mod adam_spec;
pub mod generator;
pub mod item;
pub mod project;
pub mod reader;
pub mod render;
pub mod sdtm_spec;
pub mod skeleton;
pub mod text;
pub mod top;
pub mod version;
pub mod workbook;

pub use generator::{filename, purpose, FileResult, GenerateError, Generator, Group, Param, Rendering};
pub use item::{Assignment, ConfigItem, Kind, OutputError, ReadError};
pub use project::{select_products, Product, ProjectError, Purpose, Trial};
pub use reader::{
    new_reader, read_assignment_from_top, AdamSpecReader, ConfigReader, SdtmSpecReader, SpecReader,
    TopReader,
};
pub use render::{Item, Render};
pub use skeleton::{
    walk, Builder, DocumentSkeleton, Folders, Node, Skeleton, StatSkeleton, DOCUMENTS, STAT,
};
pub use version::{Version, VersionManager, VersionManagerParam};
pub use workbook::{Cell, Sheet, Workbook};
