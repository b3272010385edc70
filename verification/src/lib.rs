//! Scans a directory tree for git repositories and classifies each one into
//! one of six issue categories: not a repository, no `origin` remote, current
//! branch untracked, uncommitted changes, unpushed commits, or diverged
//! branches. The classification reads the raw text that the version-control
//! client printed; the caller runs the client and the directory walk and hands
//! the text in.

pub mod args;
pub mod classify;
pub mod issues;
pub mod needles;
pub mod render;
pub mod scan;
pub mod text;
