//! Helpers over the REST data model.

use vstd::prelude::*;
use crate::rest_types::{NodeDefinition, SimpleNodeDefinition};

verus! {

/// The node definitions, in order, of those simplified definitions that provide a console.
pub open spec fn spec_defs_with_consoles(defs: Seq<SimpleNodeDefinition>) -> Seq<NodeDefinition>
    decreases defs.len(),
{
    if defs.len() == 0 {
        Seq::empty()
    } else {
        let rest = spec_defs_with_consoles(defs.drop_last());
        if defs.last().data.sim.console {
            rest.push(defs.last().id)
        } else {
            rest
        }
    }
}

pub fn node_definitions_with_consoles(defs: &[SimpleNodeDefinition]) -> (r: Vec<NodeDefinition>)
    ensures
        r@ == spec_defs_with_consoles(defs@),
{
    let mut out: Vec<NodeDefinition> = Vec::new();
    let mut i: usize = 0;
    while i < defs.len()
        invariant
            i <= defs@.len(),
            out@ == spec_defs_with_consoles(defs@.take(i as int)),
        decreases defs@.len() - i,
    {
        proof {
            assert(defs@.take(i + 1).drop_last() =~= defs@.take(i as int));
        }
        let nd = &defs[i];
        if nd.data.sim.console {
            out.push(nd.id.clone());
        }
        i = i + 1;
    }
    proof {
        assert(defs@.take(defs@.len() as int) =~= defs@);
    }
    out
}

} // verus!
