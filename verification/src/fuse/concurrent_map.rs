use vstd::prelude::*;

verus! {

/// `dashmap::DashMap`, the sharded concurrent hash map that holds the
/// inode and handle tables. Opaque here: each table's contents are named
/// where the table is used.
#[verifier::external_type_specification]
#[verifier::external_body]
#[verifier::reject_recursive_types(K)]
#[verifier::reject_recursive_types(V)]
#[verifier::reject_recursive_types(S)]
pub struct ExDashMap<K, V, S>(dashmap::DashMap<K, V, S>);

} // verus!
