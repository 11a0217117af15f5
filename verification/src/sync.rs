pub mod error_codes;
pub mod precheck;
pub mod rsync_cmd;
pub mod rsync_parser;
