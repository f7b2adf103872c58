use vstd::prelude::*;

verus! {

/// The port the service tries first.
pub const PREFERRED_PORT: u16 = 4000;

/// The first port of the fallback range.
pub const FALLBACK_FIRST: u16 = 4001;

/// The last port of the fallback range, included.
pub const FALLBACK_LAST: u16 = 4010;

/// The ports to try, in order: `preferred`, then `first..=last`.
pub open spec fn candidates(preferred: u16, first: u16, last: u16) -> Seq<u16> {
    seq![preferred] + Seq::new(
        if first <= last { (last - first + 1) as nat } else { 0 },
        |i: int| (first + i) as u16,
    )
}

/// The port of the first probe that found its port free, if any.
pub open spec fn first_free(probes: Seq<(u16, bool)>) -> Option<u16>
    decreases probes.len(),
{
    if probes.len() == 0 {
        None
    } else if probes[0].1 {
        Some(probes[0].0)
    } else {
        first_free(probes.drop_first())
    }
}

/// The ports to probe, in order: `preferred`, then `first..=last`.
pub fn port_candidates(preferred: u16, first: u16, last: u16) -> (r: Vec<u16>)
    ensures
        r@ == candidates(preferred, first, last),
{
    let mut r: Vec<u16> = Vec::new();
    r.push(preferred);
    if first <= last {
        let mut p: u16 = first;
        while p <= last
            invariant
                first <= p,
                p <= last + 1,
                first <= last,
                r@ =~= seq![preferred] + Seq::new((p - first) as nat, |i: int| (first + i) as u16),
            decreases last + 1 - p,
        {
            r.push(p);
            if p == last {
                assert(r@ =~= candidates(preferred, first, last));
                return r;
            }
            p = p + 1;
        }
    }
    assert(r@ =~= candidates(preferred, first, last));
    r
}

/// Given probes in the order of the candidates, each a port and whether a
/// listener could be opened on it, the first free port; `None` when every
/// probe failed, which makes the service unable to start.
pub fn select_port(probes: &Vec<(u16, bool)>) -> (r: Option<u16>)
    ensures
        r == first_free(probes@),
        r is None <==> forall|i: int| 0 <= i < probes@.len() ==> !(#[trigger] probes@[i]).1,
{
    let n = probes.len();
    let mut i: usize = 0;
    assert(probes@.subrange(0, n as int) =~= probes@);
    while i < n
        invariant
            n == probes@.len(),
            i <= n,
            first_free(probes@) == first_free(probes@.subrange(i as int, n as int)),
            forall|j: int| 0 <= j < i ==> !(#[trigger] probes@[j]).1,
        decreases n - i,
    {
        let (port, free) = probes[i];
        assert(probes@.subrange(i as int, n as int).drop_first() =~= probes@.subrange(
            i as int + 1,
            n as int,
        ));
        if free {
            return Some(port);
        }
        i += 1;
    }
    assert(probes@.subrange(n as int, n as int).len() == 0);
    None
}

} // verus!
