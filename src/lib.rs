pub mod syntax;
pub mod shift;
pub mod typing;
pub mod eval;
pub mod arith;
pub mod render;
pub mod soundness;
pub mod alpha;
pub mod agreement;
