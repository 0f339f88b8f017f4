pub mod col_row_position_info;
pub mod completion;
pub mod create_parser;
pub mod create_parser_error;
pub mod current_tag_line;
pub mod drop_row_request;
pub mod header_complete_handler;
pub mod helpers;
pub mod input_tag_type;
pub mod non_row_info;
pub mod parser_data;
pub mod parser_flags;
pub mod radix10;
pub mod row_validation;
pub mod state_info;
pub mod string_map;
pub mod tag_handler;
pub mod text;
pub mod xml_event;
pub mod xml_reading_range;

pub use self::create_parser_error::CreateParserError;
pub use self::drop_row_request::DropRowRequest;
pub use self::header_complete_handler::HeaderCompleteHandler;
pub use self::helpers::{
    get_relative_name_parts, RelativeNameParts, RelativeNamePartsAttribs,
    RelativeNamePartsAttribsProps,
};
pub use self::non_row_info::NonRowInfo;
pub use self::parser_flags::ParserFlags;
pub use self::radix10::{NumberType, Radix10Error, Radix10Rectange};
pub use self::row_validation::RowValidation;
pub use self::state_info::{CellInfoLocation, StateInfo, UserDataMode};
pub use self::string_map::StringMap;
pub use self::xml_reading_range::XmlReadingRange;
pub use self::input_tag_type::InputTagType;
pub use self::tag_handler::{TagFn, TagHandler};
pub use self::create_parser::{CreateParser, CreateParserNewError};
