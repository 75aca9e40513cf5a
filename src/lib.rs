//! Content-addressed persistence of client-side-validated contract state,
//! with merge-reveal reconciliation of partially disclosed objects.

pub mod convergence;
pub mod db;
pub mod key;
pub mod record;
pub mod table;
