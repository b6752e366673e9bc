pub mod calendar;
pub mod rfc3339;
pub mod window;
