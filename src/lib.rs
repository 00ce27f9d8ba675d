//! Reader for dBase-family tables (`.dbf`) and their memo side files
//! (`.dbt` / `.fpt`), decoding records into typed field values.
//!
//! Tables and memo files are handed over as bytes; the reader classifies the
//! dialect, parses the header and the field descriptors, walks the record
//! frames skipping deleted ones, and decodes each field.

pub mod bytes;
pub mod deserializer;
pub mod error;
pub mod field;
pub mod header;
pub mod memo;
pub mod model;
pub mod parser;
pub mod reader;
pub mod record;
pub mod values;
pub mod version;

pub use deserializer::{DateAccess, DbfDeserializer, TimestampAccess};
pub use error::{
    DbfError, DeserializeError, ErrorCode, FieldParseError, NoSuchFieldError, ParseCause,
    UnsupportedFieldTypeError,
};
pub use field::{read_field_info, FieldInfo, FieldType};
pub use header::Header;
pub use memo::MemoReader;
pub use model::{Date, Time, Timestamp};
pub use parser::{check_null, parse_field, FieldValue};
pub use reader::DbfReader;
pub use record::parse_record;
pub use values::ValuesIterator;
pub use version::Version;
