//! Grades and grade point averages from the course list of a university
//! portal.
//!
//! The library holds what is decided between the requests and after them:
//! which requests a run sends and in what order (`session`), which form logs
//! in and whether the login succeeded (`auth`), which records the table of
//! grades holds (`scrape`, `entities`), and which of them count for the grade
//! point average, with what points and what weight (`gpa`, `number`). It
//! sends nothing itself and holds no decimal arithmetic: the caller sends
//! each request and averages the terms.
//!
//! Pages are parsed by the `scraper` crate (`html`); everything else is
//! verified, down to the handling of text (`text`).

pub mod auth;
pub mod entities;
pub mod error;
pub mod gpa;
pub mod html;
pub mod number;
pub mod scrape;
pub mod session;
pub mod text;
