//! Reconciles exam-slot bookings scraped from a legacy server-rendered
//! booking system with coursework submissions fetched from a REST platform:
//! a DOM-navigation extractor recovers typed bookings from the booking
//! system's fixed HTML template, and an identity matcher pairs each booking
//! with a submission by exact email first and name similarity second.

pub mod canvas;
pub mod datetime;
pub mod dom;
pub mod download;
pub mod pagination;
pub mod jaro;
pub mod remores;
pub mod strutil;
