//! Asset bundler core: walks a modelled directory tree, selects files by
//! extension while excluding the bundle destination, minifies each file's
//! text through a fixed ordered sequence of rewrite rules, and concatenates
//! the results into one bundle.

pub mod text;
pub mod rules;
pub mod walker;
pub mod selector;
pub mod bundle;
