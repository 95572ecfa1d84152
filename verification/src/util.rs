pub mod consts;
pub mod decimal;
pub mod paths;
pub mod utils;
