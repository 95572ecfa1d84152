pub mod model;
pub mod util;
