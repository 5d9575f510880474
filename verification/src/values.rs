//! Filter predicates and store records carry caller-supplied JSON values.
//! The planner never inspects such a value: it only moves values from the
//! filter into placeholder bindings, so the type stays opaque here.

use vstd::prelude::*;

verus! {

#[verifier::external_type_specification]
#[verifier::external_body]
pub struct ExValue(serde_json::Value);

/// Relies on serde_json::Value's derived Clone: the clone is the same JSON
/// value as the original.
pub assume_specification[ <serde_json::Value as Clone>::clone ](
    v: &serde_json::Value,
) -> (r: serde_json::Value)
    ensures
        r == *v,
;

/// An attribute/value pair as the mathematical pair of the attribute name's
/// characters and the untouched value.
pub open spec fn entry_views(s: Seq<(String, serde_json::Value)>) -> Seq<
    (Seq<char>, serde_json::Value),
> {
    s.map_values(|p: (String, serde_json::Value)| (p.0@, p.1))
}

/// Name pairs (attribute name, index identifier) at the character level.
pub open spec fn name_pair_views(s: Seq<(String, String)>) -> Seq<(Seq<char>, Seq<char>)> {
    s.map_values(|p: (String, String)| (p.0@, p.1@))
}

} // verus!
