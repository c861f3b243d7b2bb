pub mod types;
pub mod associated;
pub mod substitute;
pub mod reachability;
pub mod impls;
pub mod defaults;
pub mod coherence;
pub mod templates;
pub mod associated_checks;
pub mod bound_checks;
pub mod trait_objects;
pub mod signature_checks;
