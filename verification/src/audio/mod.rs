pub mod capture;
pub mod mix;
