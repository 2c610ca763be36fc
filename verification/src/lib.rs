//! Verified core of RUA, a build tool for Arch Linux AUR packages.
//!
//! The library holds the decisions that RUA takes on plain values: which
//! archive format a package file has, how the files inside a built package
//! are classified for review, how the user's review menu reacts to input,
//! how search keywords are ordered and search results filtered, how the
//! `makepkg` configuration is read, and how the package-name prefix of an
//! archive name is found.
pub mod makepkg;
pub mod search;
pub mod suffix;
pub mod tarcheck;
pub mod text;
