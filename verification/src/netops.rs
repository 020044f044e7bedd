//! Per-connection socket options, keyed by resource id: the state a
//! runtime keeps for its open TCP streams, and the operation that
//! toggles Nagle's algorithm on one of them.

use vstd::prelude::*;

verus! {

/// One open TCP stream's recorded options.
#[derive(Clone, Copy, PartialEq, Eq, Structural, Debug)]
pub struct TcpStreamResource {
    pub rid: u32,
    pub nodelay: bool,
}

/// The index of the first stream with the given resource id.
pub open spec fn spec_find_stream(s: Seq<TcpStreamResource>, rid: u32) -> Option<int>
    decreases s.len(),
{
    if s.len() == 0 {
        None
    } else if s[0].rid == rid {
        Some(0)
    } else {
        match spec_find_stream(s.skip(1), rid) {
            Some(i) => Some(i + 1),
            None => None,
        }
    }
}

/// A found stream index is in range and carries the id.
pub proof fn lemma_find_stream_bounds(s: Seq<TcpStreamResource>, rid: u32)
    ensures
        match spec_find_stream(s, rid) {
            Some(i) => 0 <= i < s.len() && s[i].rid == rid,
            None => true,
        },
    decreases s.len(),
{
    if s.len() > 0 && s[0].rid != rid {
        lemma_find_stream_bounds(s.skip(1), rid);
    }
}

/// The table of open streams.
#[derive(Debug)]
pub struct OpState {
    pub resources: Vec<TcpStreamResource>,
}

/// Sets the no-delay flag on the stream with resource id `rid`. The
/// named stream's flag becomes `nodelay` and every other stream stays
/// untouched; an unknown id is an error and changes nothing.
pub fn op_set_nodelay(state: &mut OpState, rid: u32, nodelay: bool) -> (r: Result<(), ()>)
    ensures
        (r is Ok) == (spec_find_stream(old(state).resources@, rid) is Some),
        match spec_find_stream(old(state).resources@, rid) {
            Some(i) => final(state).resources@ == old(state).resources@.update(
                i,
                TcpStreamResource { rid: old(state).resources@[i].rid, nodelay },
            ),
            None => final(state).resources@ == old(state).resources@,
        },
{
    let mut i: usize = 0;
    proof {
        assert(old(state).resources@.skip(0) =~= old(state).resources@);
        lemma_find_stream_bounds(old(state).resources@, rid);
    }
    while i < state.resources.len()
        invariant
            i <= state.resources@.len(),
            state.resources@ == old(state).resources@,
            match spec_find_stream(old(state).resources@, rid) {
                Some(w) => spec_find_stream(old(state).resources@.skip(i as int), rid) == Some(
                    w - i,
                ) && i <= w,
                None => spec_find_stream(old(state).resources@.skip(i as int), rid) is None,
            },
        decreases state.resources@.len() - i,
    {
        proof {
            assert(old(state).resources@.skip(i as int)[0] == old(state).resources@[i as int]);
            assert(old(state).resources@.skip(i as int).skip(1) =~= old(state).resources@.skip(
                i as int + 1,
            ));
            lemma_find_stream_bounds(old(state).resources@.skip(i as int), rid);
        }
        if state.resources[i].rid == rid {
            let old_rid = state.resources[i].rid;
            state.resources.set(i, TcpStreamResource { rid: old_rid, nodelay });
            return Ok(());
        }
        i = i + 1;
    }
    proof {
        assert(old(state).resources@.skip(i as int).len() == 0);
    }
    Err(())
}

} // verus!
