//! A layered index of a multi-module source package: the module tree, content
//! digests at file, module and item granularity, and the cross-reference views
//! derived from the tree.
//!
//! The library reads no file and parses no source text. It is handed what a
//! parser found in each file ([`syntax`], [`source`]) and says which file it
//! wants next ([`loader`]); from the loaded files it builds the items
//! ([`parse`], [`signatures`], [`imports`]) and the tree of modules
//! ([`resolve`], [`tree`], [`model`]). From the tree come the snapshot of digests and
//! its comparisons ([`hash`], [`cache`]), the cross-reference views
//! ([`names`], [`relations`], [`chains`]) and the reports ([`layer0`],
//! [`layer1`], [`layer2`], [`layer3`], [`output`]). Names are kept in
//! ordered maps and sets ([`order`], [`strmap`], [`strset`]), and every
//! contract speaks of texts as sequences of characters ([`text`]).

pub mod annotations;
pub mod cache;
pub mod chains;
pub mod hash;
pub mod imports;
pub mod layer0;
pub mod layer1;
pub mod layer2;
pub mod layer3;
pub mod loader;
pub mod metadata;
pub mod model;
pub mod names;
pub mod order;
pub mod output;
pub mod parse;
pub mod relations;
pub mod resolve;
pub mod signatures;
pub mod source;
pub mod strmap;
pub mod strset;
pub mod syntax;
pub mod text;
pub mod tree;
