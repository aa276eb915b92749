//! The errors the site reports.

pub mod parse;

pub use parse::ParseError;

use vstd::prelude::*;

verus! {

/// The standard library's I/O error, carried through unchanged.
#[verifier::external_type_specification]
#[verifier::external_body]
pub struct ExIoError(std::io::Error);

/// The standard library's classification of I/O errors.
#[verifier::external_type_specification]
#[verifier::external_body]
pub struct ExIoErrorKind(std::io::ErrorKind);

/// The standard library's error for a path that does not start with a base.
#[verifier::external_type_specification]
#[verifier::external_body]
pub struct ExStripPrefixError(std::path::StripPrefixError);

/// The `toml` crate's deserialisation error, carried through unchanged.
#[verifier::external_type_specification]
#[verifier::external_body]
pub struct ExTomlError(toml::de::Error);

/// The category of an I/O error, as `std::io::Error::kind` reports it.
pub uninterp spec fn io_kind(err: std::io::Error) -> std::io::ErrorKind;

/// The category is "not found", as `std::io::ErrorKind::NotFound`.
pub uninterp spec fn is_not_found_kind(kind: std::io::ErrorKind) -> bool;

/// `std::io::Error::kind`: the category of an I/O error, named by `io_kind`.
#[verifier::external_body]
fn io_error_kind(err: &std::io::Error) -> (k: std::io::ErrorKind)
    ensures
        k == io_kind(*err),
{
    err.kind()
}

/// Whether an I/O error category is `std::io::ErrorKind::NotFound` (the
/// standard library's `==` on the enum), named by `is_not_found_kind`.
#[verifier::external_body]
fn kind_is_not_found(kind: &std::io::ErrorKind) -> (b: bool)
    ensures
        b == is_not_found_kind(*kind),
{
    *kind == std::io::ErrorKind::NotFound
}

/// An error while getting the current page.
#[derive(Debug)]
pub enum PageError {
    /// An error while serving a directory.
    Dir(DirError),
    /// An arbitrary I/O error.
    IO(std::io::Error),
    /// An error while reading the page at `path`.
    Read { path: String, source: std::io::Error },
}

impl PageError {
    /// The error carries an I/O error, directly or through a directory error
    /// that does.
    pub open spec fn has_io_source(&self) -> bool {
        match self {
            PageError::IO(_) => true,
            PageError::Read { .. } => true,
            PageError::Dir(d) => match d {
                DirError::IO(_) => true,
                DirError::Read { .. } => true,
                DirError::Path(_) => false,
            },
        }
    }

    /// The kind of the I/O error this error holds, directly or through a
    /// directory error; none for a path error.
    pub open spec fn spec_kind(&self) -> Option<std::io::ErrorKind> {
        match self {
            PageError::IO(e) => Some(io_kind(*e)),
            PageError::Read { source, .. } => Some(io_kind(*source)),
            PageError::Dir(d) => match d {
                DirError::IO(e) => Some(io_kind(*e)),
                DirError::Read { source, .. } => Some(io_kind(*source)),
                DirError::Path(_) => None,
            },
        }
    }

    /// The kind of the I/O error behind this error, if there is one.
    pub fn kind(&self) -> (k: Option<std::io::ErrorKind>)
        ensures
            k == self.spec_kind(),
            k is Some <==> self.has_io_source(),
    {
        match self {
            PageError::IO(err) => Some(io_error_kind(err)),
            PageError::Read { path: _, source } => Some(io_error_kind(source)),
            PageError::Dir(err) => match err {
                DirError::IO(err) => Some(io_error_kind(err)),
                DirError::Read { path: _, source } => Some(io_error_kind(source)),
                _ => None,
            },
        }
    }
}

/// After the page file could not be read, the page route lists the
/// directory instead exactly when the file was not found.
pub open spec fn spec_falls_back_to_listing(err: &PageError) -> bool {
    match err.spec_kind() {
        Some(k) => is_not_found_kind(k),
        None => false,
    }
}

/// Whether the page route answers the failure `err` to read a page file with
/// the listing of the directory of the same path.
pub fn falls_back_to_listing(err: &PageError) -> (b: bool)
    ensures
        b == spec_falls_back_to_listing(err),
{
    match err.kind() {
        Some(k) => kind_is_not_found(&k),
        None => false,
    }
}

/// An error while serving a directory.
#[derive(Debug)]
pub enum DirError {
    /// An arbitrary I/O error.
    IO(std::io::Error),
    /// An error while reading the directory at `path`.
    Read { path: String, source: std::io::Error },
    /// An error in the manipulation of paths.
    Path(PathError),
}

/// An error in the manipulation of paths.
#[derive(Debug)]
pub enum PathError {
    /// A path did not start with the expected prefix.
    StripPrefix(std::path::StripPrefixError),
    /// The path has no file stem.
    FileStem { path: String },
    /// The path is not valid unicode.
    Unicode { path: String },
}

/// An error while parsing frontmatter.
#[derive(Debug)]
pub enum FrontmatterError {
    /// The document has no frontmatter; the text is the rendered parse error.
    Parse(String),
    /// The frontmatter is not valid TOML for the expected fields.
    TOMLError(toml::de::Error),
}

impl FrontmatterError {
    /// The frontmatter error that reports a parse error, rendered.
    pub fn from(value: ParseError<'_>) -> (e: Self)
        ensures
            e matches FrontmatterError::Parse(m) && m@ == value.spec_rendered(),
    {
        FrontmatterError::Parse(value.render())
    }
}

} // verus!
