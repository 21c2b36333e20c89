//! A typed model of Beancount directives, with a grammar that reads them
//! from text and a marshaller that writes them back in canonical form.

pub mod account;
pub mod amount;
pub mod commodity;
pub mod convert;
pub mod date;
pub mod decimal;
pub mod directive;
pub mod grammar;
pub mod laws;
pub mod marshal;
pub mod normal;
pub mod text;

