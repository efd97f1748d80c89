//! A minimal typed configuration-file reader.
//!
//! The input is a line-oriented text, held as byte strings: a type directive
//! (`#int`, `#str`/`#string`, `#bool`, `#float`, `#vec`) declares the type that
//! applies to the `name := value` assignment lines that follow it, until the
//! next directive. Parsing yields a [`ConfigParser`] holding a mapping from
//! names to typed values, read back through typed accessors.

pub mod bytes;
pub mod errors;
pub mod laws;
pub mod parser;
pub mod values;

pub use errors::AccessError;
pub use errors::ParseError;
pub use parser::ConfigParser;
pub use parser::LineKind;
pub use values::ArgTag;
pub use values::ArgType;
