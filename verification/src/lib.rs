//! A growable, indexable sequence ("VList") built from geometrically-growing
//! segments. The persistent variant hands out immutable handles that share
//! unmodified tail segments; the exclusive variant owns its whole chain and
//! mutates it in place.

pub mod decimal;
pub mod exclusive;
pub mod persistent;
