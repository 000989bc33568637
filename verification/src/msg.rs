use vstd::prelude::*;

verus! {

/// The migration message of the pair contract. Migrations currently take
/// no arguments.
#[derive(Clone, Copy, Debug, PartialEq, Eq, Structural)]
pub struct MigrateMsg {}

} // verus!
