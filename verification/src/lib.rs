//! Answers structural questions about a hierarchy of types whose class
//! objects live in an external runtime: assignability, directly declared
//! interfaces, and the nearest common superclass of two types.
//!
//! The engine is an identity-keyed cache ([`classpool::ClassPool`]) of
//! memoized type entries ([`class::Class`]), resolved through a swappable
//! [`provider::Provider`] capability. Pure helpers convert between the two
//! textual spellings of a class path ([`classpath::ClassPath`]) and decode
//! access-flag bitsets ([`modifiers`]).

pub mod class;
pub mod classpath;
pub mod classpool;
pub mod errors;
pub mod jvm;
pub mod modifiers;
pub mod provider;
pub mod table;
pub mod text;
pub mod version;
