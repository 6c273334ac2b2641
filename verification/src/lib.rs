//! Resolving code and data in Source 2 game binaries: pattern scans, section
//! and address arithmetic, string and cross-reference tables, and vtable
//! discovery, with their contracts proved by Verus.
pub mod error;
pub mod pattern;
pub mod text;
pub mod bytes;
pub mod store;
pub mod objfile;
pub mod sections;
pub mod memory;
pub mod vtable;
pub mod s2binlib;
pub mod scan;
pub mod vtfind;
pub mod sorted;
pub mod decode;
pub mod xrefs;
pub mod funcs;
pub mod sig;
pub mod strings;
pub mod view;
pub mod msvc;
pub mod vsort;
pub mod itanium;
pub mod vtdump;
pub mod dumps;
pub mod jit;
pub mod laws;
