//! A lexical path-parsing library, parameterized by a path dialect.
//!
//! Paths are plain text; every operation here reasons about that text alone
//! and never touches a filesystem. A dialect describes the separator and
//! extension conventions of a platform, and the engine decomposes a path
//! into semantic components, joins paths, and splits extensions, with the
//! exact asymmetric rules of mainstream path libraries (a leading `.` is a
//! real component, an interior or trailing `.` is noise; repeated
//! separators collapse).

pub mod comp;
pub mod laws;
pub mod nt;
pub mod posix;
pub mod pure;
pub mod unified;

pub use comp::Component;
pub use comp::Components;
pub use comp::SpecComponent;
pub use nt::WindowsPath;
pub use posix::PosixPath;
pub use posix::PurePosixPath;
pub use pure::Dialect;
pub use pure::ParsablePath;
pub use pure::PurePath;
pub use unified::UnifiedPath;
