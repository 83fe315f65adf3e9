//! The proving and verification core of a multi-table STARK machine whose
//! tables talk to each other over buses, fixed to the BabyBear field and its
//! quartic extension.

pub mod algebra;
pub mod balance;
pub mod bus;
pub mod check_constraints;
pub mod chip;
pub mod debug;
pub mod domain;
pub mod entry;
pub mod extension;
pub mod field;
pub mod folder;
pub mod interaction;
pub mod laws;
pub mod machine;
pub mod machine_proof;
pub mod matrix;
pub mod merkle_tree;
pub mod permutation;
pub mod pipeline;
pub mod quotient;
pub mod rejection;
pub mod soundness;
pub mod symbolic;
pub mod trace;
pub mod verify;
pub mod window;
