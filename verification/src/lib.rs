//! Booking of Taiwan High Speed Rail tickets: the decisions behind the web
//! forms, the manual CAPTCHA page and the notifications.
pub mod attempt;
pub mod base64;
pub mod booking_flow;
pub mod booking_result;
pub mod captcha;
pub mod captcha_wait;
pub mod cli;
pub mod confirm_ticket_flow;
pub mod confirm_train_flow;
pub mod date;
pub mod form;
pub mod header;
pub mod number;
pub mod page;
pub mod schema;
pub mod telegram;
pub mod text;
