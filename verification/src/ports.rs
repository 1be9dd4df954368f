//! Selection of the TCP listening ports: the main packet channel takes
//! the first free port in 1716..=1764, the payload side-channel the
//! first free port in 1765..=65535.

use vstd::prelude::*;

verus! {

pub const MAIN_PORT_MIN: u16 = 1716;
pub const MAIN_PORT_MAX: u16 = 1764;
pub const PAYLOAD_PORT_MIN: u16 = 1765;
pub const PAYLOAD_PORT_MAX: u16 = 65535;

/// The first port in `[lo, hi]` that is not in `taken`, if any.
pub open spec fn spec_first_free(lo: u16, hi: u16, taken: Seq<u16>) -> Option<u16>
    decreases hi - lo when lo <= hi
{
    if !taken.contains(lo) {
        Some(lo)
    } else if lo == hi {
        None::<u16>
    } else {
        spec_first_free((lo + 1) as u16, hi, taken)
    }
}

/// Whether `taken` holds every port of `[lo, hi]`.
pub open spec fn all_taken(lo: u16, hi: u16, taken: Seq<u16>) -> bool {
    forall|p: u16| lo <= p <= hi ==> taken.contains(p)
}

fn contains_port(taken: &Vec<u16>, p: u16) -> (r: bool)
    ensures
        r == taken@.contains(p),
{
    let mut i: usize = 0;
    while i < taken.len()
        invariant
            0 <= i <= taken@.len(),
            forall|j: int| 0 <= j < i ==> taken@[j] != p,
        decreases taken@.len() - i,
    {
        if taken[i] == p {
            return true;
        }
        i = i + 1;
    }
    false
}

fn first_free(lo: u16, hi: u16, taken: &Vec<u16>) -> (r: Option<u16>)
    requires
        lo <= hi,
    ensures
        r == spec_first_free(lo, hi, taken@),
        r matches Some(p) ==> lo <= p <= hi && !taken@.contains(p),
        r is None ==> all_taken(lo, hi, taken@),
{
    let mut port: u16 = lo;
    loop
        invariant
            lo <= port <= hi,
            spec_first_free(lo, hi, taken@) == spec_first_free(port, hi, taken@),
            forall|p: u16| lo <= p < port ==> taken@.contains(p),
        decreases hi - port,
    {
        if !contains_port(taken, port) {
            return Some(port);
        }
        if port == hi {
            return None;
        }
        port = port + 1;
    }
}

/// Port for the main TCP listener: the first free port in 1716..=1764.
/// `taken` lists the occupied ports; `None` means the core cannot start.
pub fn choose_main_port(taken: &Vec<u16>) -> (r: Option<u16>)
    ensures
        r == spec_first_free(MAIN_PORT_MIN, MAIN_PORT_MAX, taken@),
        r matches Some(p) ==> MAIN_PORT_MIN <= p <= MAIN_PORT_MAX && !taken@.contains(p),
        r is None ==> all_taken(MAIN_PORT_MIN, MAIN_PORT_MAX, taken@),
{
    first_free(MAIN_PORT_MIN, MAIN_PORT_MAX, taken)
}

/// Port for an ephemeral payload sub-server: the first free port at or
/// above 1765.
pub fn choose_payload_port(taken: &Vec<u16>) -> (r: Option<u16>)
    ensures
        r == spec_first_free(PAYLOAD_PORT_MIN, PAYLOAD_PORT_MAX, taken@),
        r matches Some(p) ==> PAYLOAD_PORT_MIN <= p && !taken@.contains(p),
        r is None ==> all_taken(PAYLOAD_PORT_MIN, PAYLOAD_PORT_MAX, taken@),
{
    first_free(PAYLOAD_PORT_MIN, PAYLOAD_PORT_MAX, taken)
}

/// The candidate ports for the main listener, in the order they are
/// tried: 1716, 1717, ..., 1764.
pub fn main_port_candidates() -> (r: Vec<u16>)
    ensures
        r@.len() == MAIN_PORT_MAX - MAIN_PORT_MIN + 1,
        forall|i: int| 0 <= i < r@.len() ==> r@[i] == MAIN_PORT_MIN + i,
{
    let mut v: Vec<u16> = Vec::new();
    let mut port: u16 = MAIN_PORT_MIN;
    while port <= MAIN_PORT_MAX
        invariant
            MAIN_PORT_MIN <= port <= MAIN_PORT_MAX + 1,
            v@.len() == port - MAIN_PORT_MIN,
            forall|i: int| 0 <= i < v@.len() ==> v@[i] == MAIN_PORT_MIN + i,
        decreases MAIN_PORT_MAX + 1 - port,
    {
        v.push(port);
        port = port + 1;
    }
    v
}

} // verus!
