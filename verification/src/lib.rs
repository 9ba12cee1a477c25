//! Structural integrity of a block tower hung over a chasm.
//!
//! Blocks sit on an integer grid and carry connectors on their four sides.
//! A block stays up while it can be reached from an anchor through bonded
//! connectors or by resting on a block that stays up. Everything else comes
//! loose, falls as one rigid chunk and either settles again further down or
//! drops out of sight. Meanwhile the blocks that stay up wear out, the
//! faster the more bonds they carry.
//!
//! The contracts speak of a mathematical model: the grid is a map from pairs
//! of integers to blocks, a chunk is such a map with the distance it has
//! fallen, and a game is a record of both. Every function is proved against
//! its contract. The exceptions are a handful of private functions that call
//! into `cogs_gamedev` and `rand`; each says in its comment what is taken on
//! trust.
//!
//! - [`coords`], [`blocks`]: cells, sides, blocks and connectors.
//! - [`grid`], [`bonding`]: the grid index, and the bonds between neighbours.
//! - [`stability`], [`flood`]: what it means to be supported, and the search
//!   that finds the supported blocks.
//! - [`damage`], [`survey`]: wear, and the measures of a grid.
//! - [`falling`], [`collapse`]: chunks in free fall, and what holds of them.
//! - [`playing`], [`tick`], [`input`], [`setup`]: a game in play.
//! - [`random`]: the draws from the random number generator.
//! - [`title`], [`modes`]: the title screen and the stack of screens.

pub mod blocks;
pub mod bonding;
pub mod collapse;
pub mod coords;
pub mod damage;
pub mod falling;
pub mod flood;
pub mod grid;
pub mod input;
pub mod modes;
pub mod playing;
pub mod random;
pub mod setup;
pub mod stability;
pub mod survey;
pub mod tick;
pub mod title;
