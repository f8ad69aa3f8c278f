pub use version::Version;

mod version;
