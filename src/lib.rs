//! A registry of collectible "kitties": id allocation, genome generation and
//! crossover breeding, ownership transfer, and a marketplace whose purchases
//! move a fixed collateral reservation along with ownership.

pub mod balances;
pub mod genome;
pub mod pallet;
